//! The tokenizer: splits SQL text into punctuation, unquoted-word,
//! quoted-literal and whitespace tokens, so that placeholder markers are
//! recognized only outside quoted literals.
//!
//! Scanning policy, chosen deterministically:
//! - a quoted literal opens at `'`, `"` or a backtick and closes at the
//!   matching quote; a backslash escapes the following character, and a
//!   doubled closing quote stands for an embedded quote;
//! - an unterminated quoted literal extends to the end of the input;
//! - unquoted words are maximal runs of ASCII letters, digits and
//!   underscores; whitespace and other punctuation form maximal runs of
//!   their own class.
//!
//! Concatenating the texts of all tokens reproduces the input exactly
//! (`lemma_tokenize_round_trip`).

use vstd::prelude::*;

use crate::chars::{is_quote_char, is_space_char, is_word_char, quote_char, space_char, word_char};

verus! {

/// The class of a token.
pub enum TokKind {
    /// A quoted literal, delimiters included.
    Quoted,
    /// A run of word characters.
    Unquoted,
    /// A run of punctuation characters.
    Punctuation,
    /// A run of whitespace.
    Space,
}

/// The mathematical model of a token: its class and its literal text.
pub struct GToken {
    /// The token's class.
    pub kind: TokKind,
    /// The token's literal text, exactly as it stands in the input.
    pub text: Seq<char>,
}

/// A token of SQL text. Each variant carries the token's literal text.
#[derive(Debug, Clone, PartialEq)]
pub enum Token {
    /// A quoted literal, delimiters included.
    Quoted(String),
    /// A run of word characters.
    Unquoted(String),
    /// A run of punctuation characters.
    Punctuation(String),
    /// A run of whitespace.
    Space(String),
}

impl View for Token {
    type V = GToken;

    open spec fn view(&self) -> GToken {
        match self {
            Token::Quoted(s) => GToken { kind: TokKind::Quoted, text: s@ },
            Token::Unquoted(s) => GToken { kind: TokKind::Unquoted, text: s@ },
            Token::Punctuation(s) => GToken { kind: TokKind::Punctuation, text: s@ },
            Token::Space(s) => GToken { kind: TokKind::Space, text: s@ },
        }
    }
}

impl Token {
    /// The literal text of the token.
    pub fn text(&self) -> (t: &String)
        ensures
            t@ == self@.text,
    {
        match self {
            Token::Quoted(s) => s,
            Token::Unquoted(s) => s,
            Token::Punctuation(s) => s,
            Token::Space(s) => s,
        }
    }
}

/// The class of the token that a character opens.
pub open spec fn class_of(c: char) -> TokKind {
    if is_quote_char(c) {
        TokKind::Quoted
    } else if is_space_char(c) {
        TokKind::Space
    } else if is_word_char(c) {
        TokKind::Unquoted
    } else {
        TokKind::Punctuation
    }
}

/// The end of the maximal run of class `k` that starts at `j`.
pub open spec fn run_end(s: Seq<char>, k: TokKind, j: int) -> int
    recommends
        0 <= j <= s.len(),
    decreases s.len() - j when 0 <= j <= s.len()
{
    if j >= s.len() {
        j
    } else if class_of(s[j]) == k {
        run_end(s, k, j + 1)
    } else {
        j
    }
}

/// The position one past the closing quote of a literal opened with `q`,
/// scanning from `j`; the end of the input if the literal never closes.
/// A backslash escapes the following character; a doubled `q` is an
/// embedded quote, not a terminator.
pub open spec fn quoted_end(s: Seq<char>, q: char, j: int) -> int
    recommends
        0 <= j <= s.len(),
    decreases s.len() - j when 0 <= j <= s.len()
{
    if j >= s.len() {
        j
    } else if s[j] == '\\' && j + 1 < s.len() {
        quoted_end(s, q, j + 2)
    } else if s[j] == q {
        if j + 1 < s.len() && s[j + 1] == q {
            quoted_end(s, q, j + 2)
        } else {
            j + 1
        }
    } else {
        quoted_end(s, q, j + 1)
    }
}

/// The end of the token that starts at `i`.
pub open spec fn token_end(s: Seq<char>, i: int) -> int
    recommends
        0 <= i < s.len(),
{
    if is_quote_char(s[i]) {
        quoted_end(s, s[i], i + 1)
    } else {
        run_end(s, class_of(s[i]), i + 1)
    }
}

pub proof fn lemma_run_end_bounds(s: Seq<char>, k: TokKind, j: int)
    requires
        0 <= j <= s.len(),
    ensures
        j <= run_end(s, k, j) <= s.len(),
    decreases s.len() - j,
{
    if j < s.len() && class_of(s[j]) == k {
        lemma_run_end_bounds(s, k, j + 1);
    }
}

pub proof fn lemma_quoted_end_bounds(s: Seq<char>, q: char, j: int)
    requires
        0 <= j <= s.len(),
    ensures
        j <= quoted_end(s, q, j) <= s.len(),
    decreases s.len() - j,
{
    if j >= s.len() {
    } else if s[j] == '\\' && j + 1 < s.len() {
        lemma_quoted_end_bounds(s, q, j + 2);
    } else if s[j] == q {
        if j + 1 < s.len() && s[j + 1] == q {
            lemma_quoted_end_bounds(s, q, j + 2);
        }
    } else {
        lemma_quoted_end_bounds(s, q, j + 1);
    }
}

pub proof fn lemma_token_end_bounds(s: Seq<char>, i: int)
    requires
        0 <= i < s.len(),
    ensures
        i < token_end(s, i) <= s.len(),
{
    if is_quote_char(s[i]) {
        lemma_quoted_end_bounds(s, s[i], i + 1);
    } else {
        lemma_run_end_bounds(s, class_of(s[i]), i + 1);
    }
}

/// The token sequence of the input from position `i` on: each token covers
/// a maximal segment, and consecutive tokens touch without gap or overlap.
pub open spec fn tokenize_from(s: Seq<char>, i: int) -> Seq<GToken>
    recommends
        0 <= i <= s.len(),
    decreases s.len() - i when 0 <= i <= s.len() via tokenize_from_decreases
{
    if i >= s.len() {
        Seq::empty()
    } else {
        seq![GToken { kind: class_of(s[i]), text: s.subrange(i, token_end(s, i)) }]
            + tokenize_from(s, token_end(s, i))
    }
}

#[via_fn]
proof fn tokenize_from_decreases(s: Seq<char>, i: int) {
    if 0 <= i < s.len() {
        lemma_token_end_bounds(s, i);
    }
}

/// The concatenation of the texts of a token sequence.
pub open spec fn concat_texts(ts: Seq<GToken>) -> Seq<char>
    decreases ts.len(),
{
    if ts.len() == 0 {
        Seq::empty()
    } else {
        ts[0].text + concat_texts(ts.drop_first())
    }
}

proof fn lemma_tokenize_covers(s: Seq<char>, i: int)
    requires
        0 <= i <= s.len(),
    ensures
        concat_texts(tokenize_from(s, i)) == s.subrange(i, s.len() as int),
    decreases s.len() - i,
{
    if i >= s.len() {
        assert(concat_texts(tokenize_from(s, i)) =~= s.subrange(i, s.len() as int));
    } else {
        lemma_token_end_bounds(s, i);
        let j = token_end(s, i);
        lemma_tokenize_covers(s, j);
        let g = GToken { kind: class_of(s[i]), text: s.subrange(i, j) };
        let rest = tokenize_from(s, j);
        assert((seq![g] + rest)[0] == g);
        assert((seq![g] + rest).drop_first() =~= rest);
        assert(concat_texts(tokenize_from(s, i)) == s.subrange(i, j) + s.subrange(
            j,
            s.len() as int,
        ));
        assert(concat_texts(tokenize_from(s, i)) =~= s.subrange(i, s.len() as int));
    }
}

/// Law (round trip): concatenating the texts of all tokens, in order,
/// reproduces the input exactly, for every input.
pub proof fn lemma_tokenize_round_trip(s: Seq<char>)
    ensures
        concat_texts(tokenize_from(s, 0)) == s,
{
    lemma_tokenize_covers(s, 0);
    assert(s.subrange(0, s.len() as int) =~= s);
}

/// The views of a sequence of tokens.
pub open spec fn views_of(ts: Seq<Token>) -> Seq<GToken> {
    ts.map_values(|t: Token| t@)
}

proof fn lemma_views_push(ts: Seq<Token>, t: Token)
    ensures
        views_of(ts.push(t)) == views_of(ts) + seq![t@],
{
    assert(views_of(ts.push(t)) =~= views_of(ts) + seq![t@]);
}

fn char_vec(s: &str) -> (r: Vec<char>)
    ensures
        r@ == s@,
{
    let len = s.unicode_len();
    let mut r: Vec<char> = Vec::new();
    let mut i: usize = 0;
    while i < len
        invariant
            0 <= i <= len,
            len == s@.len(),
            r@ == s@.take(i as int),
        decreases len - i,
    {
        r.push(s.get_char(i));
        i = i + 1;
        proof {
            assert(r@ =~= s@.take(i as int));
        }
    }
    proof {
        assert(s@.take(len as int) =~= s@);
    }
    r
}

fn scan_word_end(cs: &Vec<char>, start: usize) -> (r: usize)
    requires
        start <= cs@.len(),
    ensures
        r as int == run_end(cs@, TokKind::Unquoted, start as int),
        start <= r <= cs@.len(),
{
    let n = cs.len();
    let mut j = start;
    while j < n && word_char(cs[j])
        invariant
            start <= j <= n,
            n == cs@.len(),
            run_end(cs@, TokKind::Unquoted, start as int) == run_end(
                cs@,
                TokKind::Unquoted,
                j as int,
            ),
        decreases n - j,
    {
        j = j + 1;
    }
    j
}

fn scan_space_end(cs: &Vec<char>, start: usize) -> (r: usize)
    requires
        start <= cs@.len(),
    ensures
        r as int == run_end(cs@, TokKind::Space, start as int),
        start <= r <= cs@.len(),
{
    let n = cs.len();
    let mut j = start;
    while j < n && space_char(cs[j])
        invariant
            start <= j <= n,
            n == cs@.len(),
            run_end(cs@, TokKind::Space, start as int) == run_end(cs@, TokKind::Space, j as int),
        decreases n - j,
    {
        j = j + 1;
    }
    j
}

fn scan_punct_end(cs: &Vec<char>, start: usize) -> (r: usize)
    requires
        start <= cs@.len(),
    ensures
        r as int == run_end(cs@, TokKind::Punctuation, start as int),
        start <= r <= cs@.len(),
{
    let n = cs.len();
    let mut j = start;
    while j < n && !quote_char(cs[j]) && !space_char(cs[j]) && !word_char(cs[j])
        invariant
            start <= j <= n,
            n == cs@.len(),
            run_end(cs@, TokKind::Punctuation, start as int) == run_end(
                cs@,
                TokKind::Punctuation,
                j as int,
            ),
        decreases n - j,
    {
        j = j + 1;
    }
    j
}

fn scan_quoted_end(cs: &Vec<char>, q: char, start: usize) -> (r: usize)
    requires
        start <= cs@.len(),
        is_quote_char(q),
    ensures
        r as int == quoted_end(cs@, q, start as int),
        start <= r <= cs@.len(),
{
    let n = cs.len();
    let mut j = start;
    let mut end: usize = 0;
    loop
        invariant_except_break
            start <= j <= n,
            n == cs@.len(),
            is_quote_char(q),
            quoted_end(cs@, q, start as int) == quoted_end(cs@, q, j as int),
        ensures
            end as int == quoted_end(cs@, q, start as int),
            start <= end <= n,
        decreases n - j,
    {
        if j >= n {
            end = j;
            break;
        }
        let c = cs[j];
        if c == '\\' && j + 1 < n {
            j = j + 2;
        } else if c == q {
            if j + 1 < n && cs[j + 1] == q {
                j = j + 2;
            } else {
                end = j + 1;
                break;
            }
        } else {
            j = j + 1;
        }
    }
    end
}

/// Splits the SQL text into tokens. The token sequence covers the whole
/// input with no gaps or overlaps, so concatenating the tokens' texts in
/// order gives back the input.
pub fn tokenize(sql: &str) -> (r: Vec<Token>)
    ensures
        views_of(r@) == tokenize_from(sql@, 0),
{
    let cs = char_vec(sql);
    let n = cs.len();
    let mut out: Vec<Token> = Vec::new();
    let mut i: usize = 0;
    while i < n
        invariant
            0 <= i <= n,
            n == sql@.len(),
            cs@ == sql@,
            tokenize_from(sql@, 0) == views_of(out@) + tokenize_from(sql@, i as int),
        decreases n - i,
    {
        let c = cs[i];
        let ghost g_i = i as int;
        let end: usize;
        let tok: Token;
        if quote_char(c) {
            end = scan_quoted_end(&cs, c, i + 1);
            tok = Token::Quoted(sql.substring_char(i, end).to_owned());
        } else if space_char(c) {
            end = scan_space_end(&cs, i + 1);
            tok = Token::Space(sql.substring_char(i, end).to_owned());
        } else if word_char(c) {
            end = scan_word_end(&cs, i + 1);
            tok = Token::Unquoted(sql.substring_char(i, end).to_owned());
        } else {
            end = scan_punct_end(&cs, i + 1);
            tok = Token::Punctuation(sql.substring_char(i, end).to_owned());
        }
        proof {
            assert(end as int == token_end(sql@, g_i));
            lemma_token_end_bounds(sql@, g_i);
            let g = GToken { kind: class_of(sql@[g_i]), text: sql@.subrange(g_i, end as int) };
            assert(tok@ == g);
            assert(tokenize_from(sql@, g_i) == seq![g] + tokenize_from(sql@, end as int));
            lemma_views_push(out@, tok);
            assert(views_of(out@.push(tok)) + tokenize_from(sql@, end as int) =~= views_of(out@)
                + tokenize_from(sql@, g_i));
        }
        out.push(tok);
        i = end;
    }
    proof {
        assert(views_of(out@) + tokenize_from(sql@, i as int) =~= views_of(out@));
    }
    out
}

} // verus!
