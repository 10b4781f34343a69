//! Character classes and the small text encodings the dialects use:
//! decimal numerals, hexadecimal byte dumps, and backslash escaping.

use vstd::prelude::*;

verus! {

// ---------------------------------------------------------------------------
// Character classes
// ---------------------------------------------------------------------------

/// Whitespace, for tokenization purposes: the four ASCII whitespace
/// characters that appear in SQL text.
pub open spec fn is_space_char(c: char) -> bool {
    c == ' ' || c == '\t' || c == '\n' || c == '\r'
}

/// A character that may stand in an unquoted word: ASCII letters, digits
/// and the underscore.
pub open spec fn is_word_char(c: char) -> bool {
    (97 <= c as u32 && c as u32 <= 122)  // 'a' ..= 'z'
    || (65 <= c as u32 && c as u32 <= 90)  // 'A' ..= 'Z'
    || is_dec_digit(c)
    || c == '_'
}

/// A character that opens a quoted literal: single quote, double quote,
/// or backtick.
pub open spec fn is_quote_char(c: char) -> bool {
    c == '\'' || c == '"' || c == '`'
}

/// An ASCII decimal digit.
pub open spec fn is_dec_digit(c: char) -> bool {
    48 <= c as u32 && c as u32 <= 57  // '0' ..= '9'
}

/// The numeric value of a decimal digit (0 for anything else).
pub open spec fn digit_val(c: char) -> nat {
    if is_dec_digit(c) {
        (c as u32 - 48) as nat
    } else {
        0
    }
}

pub fn space_char(c: char) -> (r: bool)
    ensures
        r == is_space_char(c),
{
    c == ' ' || c == '\t' || c == '\n' || c == '\r'
}

pub fn word_char(c: char) -> (r: bool)
    ensures
        r == is_word_char(c),
{
    let u = c as u32;
    (97 <= u && u <= 122) || (65 <= u && u <= 90) || (48 <= u && u <= 57) || c == '_'
}

pub fn quote_char(c: char) -> (r: bool)
    ensures
        r == is_quote_char(c),
{
    c == '\'' || c == '"' || c == '`'
}

pub fn dec_digit(c: char) -> (r: bool)
    ensures
        r == is_dec_digit(c),
{
    let u = c as u32;
    48 <= u && u <= 57
}

// ---------------------------------------------------------------------------
// Building strings one character at a time
// ---------------------------------------------------------------------------

/// Relies on `String::push` of std: it appends exactly the one character.
#[verifier::external_body]
pub fn push_char(s: &mut String, c: char)
    ensures
        final(s)@ == old(s)@.push(c),
{
    s.push(c)
}

// ---------------------------------------------------------------------------
// Decimal numerals
// ---------------------------------------------------------------------------

/// The decimal digit character for a value below ten.
pub open spec fn dec_digit_char(n: nat) -> char {
    if n == 0 {
        '0'
    } else if n == 1 {
        '1'
    } else if n == 2 {
        '2'
    } else if n == 3 {
        '3'
    } else if n == 4 {
        '4'
    } else if n == 5 {
        '5'
    } else if n == 6 {
        '6'
    } else if n == 7 {
        '7'
    } else if n == 8 {
        '8'
    } else {
        '9'
    }
}

/// The usual decimal numeral of a natural number, without leading zeros.
pub open spec fn dec_seq(n: nat) -> Seq<char>
    decreases n,
{
    if n < 10 {
        seq![dec_digit_char(n)]
    } else {
        dec_seq(n / 10).push(dec_digit_char(n % 10))
    }
}

/// The value denoted by a sequence of decimal digit characters
/// (most significant first; the empty sequence denotes zero).
pub open spec fn dec_val(t: Seq<char>) -> nat
    decreases t.len(),
{
    if t.len() == 0 {
        0
    } else {
        dec_val(t.drop_last()) * 10 + digit_val(t.last())
    }
}

/// Every character of the sequence is a decimal digit.
pub open spec fn all_dec_digits(t: Seq<char>) -> bool {
    forall|i: int| 0 <= i < t.len() ==> is_dec_digit(#[trigger] t[i])
}

/// Appends the decimal numeral of `n`.
pub fn append_dec_u64(s: &mut String, n: u64)
    ensures
        final(s)@ == old(s)@ + dec_seq(n as nat),
    decreases n,
{
    if n < 10 {
        push_char(s, dec_digit_char_exec(n));
        assert(final(s)@ =~= old(s)@ + dec_seq(n as nat));
    } else {
        append_dec_u64(s, n / 10);
        push_char(s, dec_digit_char_exec(n % 10));
        assert(final(s)@ =~= old(s)@ + dec_seq(n as nat));
    }
}

fn dec_digit_char_exec(n: u64) -> (c: char)
    requires
        n < 10,
    ensures
        c == dec_digit_char(n as nat),
{
    if n == 0 {
        '0'
    } else if n == 1 {
        '1'
    } else if n == 2 {
        '2'
    } else if n == 3 {
        '3'
    } else if n == 4 {
        '4'
    } else if n == 5 {
        '5'
    } else if n == 6 {
        '6'
    } else if n == 7 {
        '7'
    } else if n == 8 {
        '8'
    } else {
        '9'
    }
}

/// Law: the decimal numeral of a number denotes exactly that number, so
/// the numeral encoding loses no information.
pub proof fn lemma_dec_round_trip(n: nat)
    ensures
        dec_val(dec_seq(n)) == n,
    decreases n,
{
    if n < 10 {
        assert(dec_seq(n).drop_last() =~= Seq::<char>::empty());
        assert(dec_seq(n).last() == dec_digit_char(n));
        assert(digit_val(dec_digit_char(n)) == n);
        assert(dec_seq(n).len() == 1);
        assert(dec_val(dec_seq(n)) == dec_val(dec_seq(n).drop_last()) * 10 + digit_val(
            dec_seq(n).last(),
        ));
        assert(dec_val(dec_seq(n).drop_last()) == 0);
    } else {
        lemma_dec_round_trip(n / 10);
        assert(dec_seq(n).drop_last() =~= dec_seq(n / 10));
        assert(dec_seq(n).last() == dec_digit_char(n % 10));
        assert(digit_val(dec_digit_char(n % 10)) == n % 10);
        assert(n / 10 * 10 + n % 10 == n);
    }
}

/// Parses a run of decimal digits as a `usize`. Returns `None` when the
/// text is empty, holds a non-digit, or denotes a value above `usize::MAX`.
pub fn parse_dec(s: &String) -> (r: Option<usize>)
    ensures
        match r {
            Some(n) => s@.len() > 0 && all_dec_digits(s@) && dec_val(s@) == n as nat,
            None => s@.len() == 0 || !all_dec_digits(s@) || dec_val(s@) > usize::MAX,
        },
{
    let text = s.as_str();
    let len = text.unicode_len();
    if len == 0 {
        return None;
    }
    let mut acc: usize = 0;
    let mut i: usize = 0;
    while i < len
        invariant
            0 <= i <= len,
            len == s@.len(),
            text@ == s@,
            all_dec_digits(s@.take(i as int)),
            acc as nat == dec_val(s@.take(i as int)),
        decreases len - i,
    {
        let c = text.get_char(i);
        if !dec_digit(c) {
            return None;
        }
        let d: usize = (c as u32 as usize) - 48;
        let shifted = match acc.checked_mul(10) {
            Some(v) => v,
            None => {
                proof {
                    lemma_dec_val_overflow(s@, i as int);
                }
                return None;
            },
        };
        let next = match shifted.checked_add(d) {
            Some(v) => v,
            None => {
                proof {
                    lemma_dec_val_overflow(s@, i as int);
                }
                return None;
            },
        };
        acc = next;
        i = i + 1;
        proof {
            assert(s@.take(i as int).drop_last() =~= s@.take(i - 1));
            assert(s@.take(i as int).last() == s@[i - 1]);
        }
    }
    proof {
        assert(s@.take(len as int) =~= s@);
    }
    Some(acc)
}

/// If the value of the digits up to and including position `i` already
/// exceeds `usize::MAX`, so does the value of the whole sequence (or some
/// later character is not a digit).
proof fn lemma_dec_val_overflow(t: Seq<char>, i: int)
    requires
        0 <= i < t.len(),
        dec_val(t.take(i)) * 10 + digit_val(t[i]) > usize::MAX,
    ensures
        !all_dec_digits(t) || dec_val(t) > usize::MAX,
{
    if all_dec_digits(t) {
        lemma_dec_val_prefix(t, i + 1);
        assert(t.take(i + 1).drop_last() =~= t.take(i));
        assert(t.take(i + 1).last() == t[i]);
        assert(dec_val(t.take(i + 1)) == dec_val(t.take(i)) * 10 + digit_val(t[i]));
    }
}

// ---------------------------------------------------------------------------
// Hexadecimal byte dumps
// ---------------------------------------------------------------------------

/// The uppercase hexadecimal digit character for a value below sixteen.
pub open spec fn hex_digit_char(n: nat) -> char {
    if n < 10 {
        dec_digit_char(n)
    } else if n == 10 {
        'A'
    } else if n == 11 {
        'B'
    } else if n == 12 {
        'C'
    } else if n == 13 {
        'D'
    } else if n == 14 {
        'E'
    } else {
        'F'
    }
}

/// The uppercase hexadecimal dump of a byte sequence, two digits per byte.
pub open spec fn hex_seq(bs: Seq<u8>) -> Seq<char>
    decreases bs.len(),
{
    if bs.len() == 0 {
        Seq::empty()
    } else {
        hex_seq(bs.drop_last()) + seq![
            hex_digit_char((bs.last() / 16) as nat),
            hex_digit_char((bs.last() % 16) as nat),
        ]
    }
}

fn hex_digit_char_exec(n: u8) -> (c: char)
    requires
        n < 16,
    ensures
        c == hex_digit_char(n as nat),
{
    if n < 10 {
        dec_digit_char_exec(n as u64)
    } else if n == 10 {
        'A'
    } else if n == 11 {
        'B'
    } else if n == 12 {
        'C'
    } else if n == 13 {
        'D'
    } else if n == 14 {
        'E'
    } else {
        'F'
    }
}

/// Appends the hexadecimal dump of the bytes.
pub fn append_hex(s: &mut String, bs: &Vec<u8>)
    ensures
        final(s)@ == old(s)@ + hex_seq(bs@),
{
    let mut i: usize = 0;
    while i < bs.len()
        invariant
            0 <= i <= bs@.len(),
            s@ == old(s)@ + hex_seq(bs@.take(i as int)),
        decreases bs@.len() - i,
    {
        let b = bs[i];
        push_char(s, hex_digit_char_exec(b / 16));
        push_char(s, hex_digit_char_exec(b % 16));
        i = i + 1;
        proof {
            assert(bs@.take(i as int).drop_last() =~= bs@.take(i - 1));
            assert(bs@.take(i as int).last() == bs@[i - 1]);
            assert(s@ =~= old(s)@ + hex_seq(bs@.take(i as int)));
        }
    }
    proof {
        assert(bs@.take(bs@.len() as int) =~= bs@);
    }
}

/// The byte denoted by two hexadecimal digit characters at `hi` and `lo`.
pub open spec fn hex_pair_val(hi: char, lo: char) -> nat {
    hex_digit_val(hi) * 16 + hex_digit_val(lo)
}

/// The value of an uppercase hexadecimal digit character (0 otherwise).
pub open spec fn hex_digit_val(c: char) -> nat {
    if is_dec_digit(c) {
        digit_val(c)
    } else if 65 <= c as u32 && c as u32 <= 70 {  // 'A' ..= 'F'
        (c as u32 - 55) as nat
    } else {
        0
    }
}

/// The byte sequence denoted by a hexadecimal dump of even length.
pub open spec fn hex_decode(t: Seq<char>) -> Seq<u8>
    decreases t.len(),
{
    if t.len() < 2 {
        Seq::empty()
    } else {
        hex_decode(t.take(t.len() - 2)).push(
            hex_pair_val(t[t.len() - 2], t[t.len() - 1]) as u8,
        )
    }
}

/// Law: decoding the hexadecimal dump of a byte sequence returns the
/// bytes unchanged, so the dump denotes exactly the original value.
pub proof fn lemma_hex_round_trip(bs: Seq<u8>)
    ensures
        hex_decode(hex_seq(bs)) == bs,
    decreases bs.len(),
{
    if bs.len() == 0 {
        assert(hex_decode(hex_seq(bs)) =~= bs);
    } else {
        lemma_hex_round_trip(bs.drop_last());
        let t = hex_seq(bs);
        assert(t == hex_seq(bs.drop_last()) + seq![
            hex_digit_char((bs.last() / 16) as nat),
            hex_digit_char((bs.last() % 16) as nat),
        ]);
        lemma_hex_seq_len(bs.drop_last());
        assert(t.take(t.len() - 2) =~= hex_seq(bs.drop_last()));
        assert(hex_digit_val(hex_digit_char((bs.last() / 16) as nat)) == (bs.last() / 16) as nat);
        assert(hex_digit_val(hex_digit_char((bs.last() % 16) as nat)) == (bs.last() % 16) as nat);
        assert(hex_pair_val(t[t.len() - 2], t[t.len() - 1]) == bs.last());
        assert(hex_decode(hex_seq(bs)) =~= bs);
    }
}

/// The dump of a byte sequence has two characters per byte.
pub proof fn lemma_hex_seq_len(bs: Seq<u8>)
    ensures
        hex_seq(bs).len() == 2 * bs.len(),
    decreases bs.len(),
{
    if bs.len() > 0 {
        lemma_hex_seq_len(bs.drop_last());
    }
}

// ---------------------------------------------------------------------------
// Backslash escaping
// ---------------------------------------------------------------------------

/// A character that must be escaped inside a single-quoted literal:
/// the quote itself and the escape character.
pub open spec fn needs_escape(c: char) -> bool {
    c == '\'' || c == '\\'
}

/// The escaped form of one character.
pub open spec fn escape_char(c: char) -> Seq<char> {
    if needs_escape(c) {
        seq!['\\', c]
    } else {
        seq![c]
    }
}

/// The escaped form of a text: every quote and backslash is preceded by
/// a backslash, all other characters stand as they are.
pub open spec fn escape_seq(t: Seq<char>) -> Seq<char>
    decreases t.len(),
{
    if t.len() == 0 {
        Seq::empty()
    } else {
        escape_char(t[0]) + escape_seq(t.drop_first())
    }
}

/// Some character of the text needs escaping.
pub open spec fn has_escapable(t: Seq<char>) -> bool {
    exists|i: int| 0 <= i < t.len() && needs_escape(#[trigger] t[i])
}

/// Extending a text by one character extends its escaped form by the
/// escaped form of that character.
pub proof fn lemma_escape_seq_push(t: Seq<char>, c: char)
    ensures
        escape_seq(t.push(c)) == escape_seq(t) + escape_char(c),
    decreases t.len(),
{
    if t.len() == 0 {
        assert(t.push(c).drop_first() =~= Seq::<char>::empty());
        assert(t.push(c)[0] == c);
        assert(escape_seq(t.push(c)) == escape_char(c) + escape_seq(Seq::<char>::empty()));
        assert(escape_seq(t.push(c)) =~= escape_seq(t) + escape_char(c));
    } else {
        lemma_escape_seq_push(t.drop_first(), c);
        assert(t.push(c).drop_first() =~= t.drop_first().push(c));
        assert(t.push(c)[0] == t[0]);
        assert(escape_seq(t.push(c)) == escape_char(t[0]) + escape_seq(t.drop_first().push(c)));
        assert(escape_seq(t) == escape_char(t[0]) + escape_seq(t.drop_first()));
        assert(escape_seq(t.push(c)) =~= escape_seq(t) + escape_char(c));
    }
}

/// Appends the escaped form of the text, and reports whether any
/// character needed escaping.
pub fn append_escaped(s: &mut String, text: &str) -> (escaped: bool)
    ensures
        final(s)@ == old(s)@ + escape_seq(text@),
        escaped == has_escapable(text@),
{
    let len = text.unicode_len();
    let mut i: usize = 0;
    let mut found = false;
    while i < len
        invariant
            0 <= i <= len,
            len == text@.len(),
            s@ == old(s)@ + escape_seq(text@.take(i as int)),
            found == has_escapable(text@.take(i as int)),
        decreases len - i,
    {
        let c = text.get_char(i);
        if c == '\'' || c == '\\' {
            push_char(s, '\\');
            found = true;
        }
        push_char(s, c);
        i = i + 1;
        proof {
            assert(text@.take(i as int) =~= text@.take(i - 1).push(text@[i - 1]));
            lemma_escape_seq_push(text@.take(i - 1), text@[i - 1]);
            assert(s@ =~= old(s)@ + escape_seq(text@.take(i as int)));
            if needs_escape(text@[i - 1]) {
                assert(needs_escape(text@.take(i as int)[i - 1]));
                assert(has_escapable(text@.take(i as int)));
            } else if has_escapable(text@.take(i as int)) {
                let j = choose|j: int|
                    0 <= j < i && needs_escape(#[trigger] text@.take(i as int)[j]);
                assert(needs_escape(text@.take(i - 1)[j]) || j == i - 1);
            }
        }
    }
    proof {
        assert(text@.take(len as int) =~= text@);
    }
    found
}

/// The inverse of escaping: a backslash takes the following character
/// literally; every other character stands for itself.
pub open spec fn unescape_seq(t: Seq<char>) -> Seq<char>
    decreases t.len(),
{
    if t.len() == 0 {
        Seq::empty()
    } else if t[0] == '\\' && t.len() >= 2 {
        seq![t[1]] + unescape_seq(t.skip(2))
    } else {
        seq![t[0]] + unescape_seq(t.drop_first())
    }
}

/// Law: unescaping the escaped form of a text returns it unchanged, so
/// the escape convention loses no information.
pub proof fn lemma_unescape_escape(t: Seq<char>)
    ensures
        unescape_seq(escape_seq(t)) == t,
    decreases t.len(),
{
    if t.len() == 0 {
        assert(unescape_seq(escape_seq(t)) =~= t);
    } else {
        lemma_unescape_escape(t.drop_first());
        let e = escape_seq(t);
        assert(e == escape_char(t[0]) + escape_seq(t.drop_first()));
        if needs_escape(t[0]) {
            assert(e[0] == '\\' && e[1] == t[0]);
            assert(e.skip(2) =~= escape_seq(t.drop_first()));
            assert(unescape_seq(e) =~= t);
        } else {
            assert(e[0] == t[0]);
            assert(e[0] != '\\');
            assert(e.drop_first() =~= escape_seq(t.drop_first()));
            assert(unescape_seq(e) =~= t);
        }
    }
}

/// Taking a prefix of a digit sequence can only shrink its value.
pub proof fn lemma_dec_val_prefix(t: Seq<char>, i: int)
    requires
        0 <= i <= t.len(),
    ensures
        dec_val(t.take(i)) <= dec_val(t),
    decreases t.len(),
{
    if i < t.len() {
        lemma_dec_val_prefix(t.drop_last(), i);
        assert(t.drop_last().take(i) =~= t.take(i));
        assert(dec_val(t) == dec_val(t.drop_last()) * 10 + digit_val(t.last()));
        assert(dec_val(t.drop_last()) * 10 >= dec_val(t.drop_last())) by (nonlinear_arith);
    } else {
        assert(t.take(i) =~= t);
    }
}

} // verus!
