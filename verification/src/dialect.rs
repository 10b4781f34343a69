//! Dialect policy: the placeholder syntax a dialect recognizes and the
//! encoding of a value as dialect-correct literal SQL text.
//!
//! Encoding policy, per dialect:
//! - the MySQL-family dialect uses the unnumbered marker `?`, always wraps
//!   strings in single quotes with backslash escapes, and renders bytes as
//!   `x'..'` with uppercase hexadecimal digits;
//! - the PostgreSQL-family dialect uses the numbered marker `$`, wraps
//!   strings that need escaping in `E'..'` (plain quotes otherwise), and
//!   renders bytes as `'\x..'`.

use vstd::prelude::*;

use crate::chars::{
    append_dec_u64, append_escaped, append_hex, dec_seq, escape_char, escape_seq, has_escapable,
    hex_seq, is_word_char, lemma_unescape_escape, needs_escape, push_char, unescape_seq,
};
use crate::token::{
    class_of, quoted_end, run_end, token_end, tokenize_from, GToken, TokKind,
};
use crate::value::Value;

verus! {

/// The supported dialect families.
#[derive(Debug, Clone, Copy)]
pub enum Dialect {
    /// MySQL-family literal syntax.
    Mysql,
    /// PostgreSQL-family literal syntax.
    Postgres,
}

/// The decimal numeral of a signed integer.
pub open spec fn signed_dec_seq(v: int) -> Seq<char> {
    if v < 0 {
        seq!['-'] + dec_seq((-v) as nat)
    } else {
        dec_seq(v as nat)
    }
}

/// A single-quoted literal: the text, escaped, between single quotes.
pub open spec fn quoted_literal(t: Seq<char>) -> Seq<char> {
    seq!['\''] + escape_seq(t) + seq!['\'']
}

/// The literal SQL text of a string value.
pub open spec fn encode_string(d: Dialect, t: Seq<char>) -> Seq<char> {
    match d {
        Dialect::Mysql => quoted_literal(t),
        Dialect::Postgres => if has_escapable(t) {
            seq!['E'] + quoted_literal(t)
        } else {
            quoted_literal(t)
        },
    }
}

/// The literal SQL text of a byte-sequence value: the dialect's hex form.
pub open spec fn encode_bytes(d: Dialect, bs: Seq<u8>) -> Seq<char> {
    match d {
        Dialect::Mysql => seq!['x', '\''] + hex_seq(bs) + seq!['\''],
        Dialect::Postgres => seq!['\'', '\\', 'x'] + hex_seq(bs) + seq!['\''],
    }
}

/// The literal SQL text of a value, per dialect.
pub open spec fn encode_value(d: Dialect, v: Value) -> Seq<char> {
    match v {
        Value::Null => seq!['N', 'U', 'L', 'L'],
        Value::Bool(b) => if b {
            seq!['T', 'R', 'U', 'E']
        } else {
            seq!['F', 'A', 'L', 'S', 'E']
        },
        Value::TinyInt(x) => signed_dec_seq(x as int),
        Value::SmallInt(x) => signed_dec_seq(x as int),
        Value::Int(x) => signed_dec_seq(x as int),
        Value::BigInt(x) => signed_dec_seq(x as int),
        Value::TinyUnsigned(x) => dec_seq(x as nat),
        Value::SmallUnsigned(x) => dec_seq(x as nat),
        Value::Unsigned(x) => dec_seq(x as nat),
        Value::BigUnsigned(x) => dec_seq(x as nat),
        Value::String(s) => encode_string(d, s@),
        Value::Bytes(b) => encode_bytes(d, b@),
    }
}

fn append_signed(s: &mut String, v: i64)
    ensures
        final(s)@ == old(s)@ + signed_dec_seq(v as int),
{
    if v < 0 {
        push_char(s, '-');
        let m: u64 = ((-(v + 1)) as u64) + 1;
        assert(m as nat == (-(v as int)) as nat);
        append_dec_u64(s, m);
        assert(final(s)@ =~= old(s)@ + signed_dec_seq(v as int));
    } else {
        append_dec_u64(s, v as u64);
    }
}

fn append_string_literal(s: &mut String, d: Dialect, t: &String)
    ensures
        final(s)@ == old(s)@ + encode_string(d, t@),
{
    let mut body = String::new();
    let escaped = append_escaped(&mut body, t.as_str());
    match d {
        Dialect::Mysql => {},
        Dialect::Postgres => {
            if escaped {
                push_char(s, 'E');
            }
        },
    }
    push_char(s, '\'');
    s.append(body.as_str());
    push_char(s, '\'');
    assert(final(s)@ =~= old(s)@ + encode_string(d, t@));
}

fn append_bytes_literal(s: &mut String, d: Dialect, bs: &Vec<u8>)
    ensures
        final(s)@ == old(s)@ + encode_bytes(d, bs@),
{
    match d {
        Dialect::Mysql => {
            push_char(s, 'x');
            push_char(s, '\'');
        },
        Dialect::Postgres => {
            push_char(s, '\'');
            push_char(s, '\\');
            push_char(s, 'x');
        },
    }
    append_hex(s, bs);
    push_char(s, '\'');
    assert(final(s)@ =~= old(s)@ + encode_bytes(d, bs@));
}

/// Builds the literal SQL text of a value under the given dialect.
pub fn encode_value_string(d: Dialect, v: &Value) -> (r: String)
    ensures
        r@ == encode_value(d, *v),
{
    let mut s = String::new();
    match v {
        Value::Null => {
            push_char(&mut s, 'N');
            push_char(&mut s, 'U');
            push_char(&mut s, 'L');
            push_char(&mut s, 'L');
            assert(s@ =~= encode_value(d, *v));
        },
        Value::Bool(b) => {
            if *b {
                push_char(&mut s, 'T');
                push_char(&mut s, 'R');
                push_char(&mut s, 'U');
                push_char(&mut s, 'E');
            } else {
                push_char(&mut s, 'F');
                push_char(&mut s, 'A');
                push_char(&mut s, 'L');
                push_char(&mut s, 'S');
                push_char(&mut s, 'E');
            }
            assert(s@ =~= encode_value(d, *v));
        },
        Value::TinyInt(x) => {
            append_signed(&mut s, *x as i64);
            assert(s@ =~= encode_value(d, *v));
        },
        Value::SmallInt(x) => {
            append_signed(&mut s, *x as i64);
            assert(s@ =~= encode_value(d, *v));
        },
        Value::Int(x) => {
            append_signed(&mut s, *x as i64);
            assert(s@ =~= encode_value(d, *v));
        },
        Value::BigInt(x) => {
            append_signed(&mut s, *x);
            assert(s@ =~= encode_value(d, *v));
        },
        Value::TinyUnsigned(x) => {
            append_dec_u64(&mut s, *x as u64);
            assert(s@ =~= encode_value(d, *v));
        },
        Value::SmallUnsigned(x) => {
            append_dec_u64(&mut s, *x as u64);
            assert(s@ =~= encode_value(d, *v));
        },
        Value::Unsigned(x) => {
            append_dec_u64(&mut s, *x as u64);
            assert(s@ =~= encode_value(d, *v));
        },
        Value::BigUnsigned(x) => {
            append_dec_u64(&mut s, *x);
            assert(s@ =~= encode_value(d, *v));
        },
        Value::String(t) => {
            append_string_literal(&mut s, d, t);
            assert(s@ =~= encode_value(d, *v));
        },
        Value::Bytes(b) => {
            append_bytes_literal(&mut s, d, b);
            assert(s@ =~= encode_value(d, *v));
        },
    }
    s
}

/// A per-dialect policy: the placeholder syntax recognized and the
/// encoding of a value as literal SQL text for that dialect.
pub trait QueryBuilder {
    /// The placeholder marker text, as the injector matches it.
    spec fn marker(&self) -> Seq<char>;

    /// Whether the dialect numbers its placeholders.
    spec fn numbered(&self) -> bool;

    /// The literal SQL text of a value under this dialect.
    spec fn encoded(&self, v: Value) -> Seq<char>;

    /// The placeholder syntax: the marker and whether it is numbered.
    fn placeholder(&self) -> (r: (&'static str, bool))
        ensures
            r.0@ == self.marker(),
            r.1 == self.numbered(),
    ;

    /// The dialect-correct literal SQL text of a value.
    fn value_to_string(&self, v: &Value) -> (s: String)
        ensures
            s@ == self.encoded(*v),
    ;
}

/// The MySQL-family policy: unnumbered `?` placeholders.
pub struct MysqlQueryBuilder;

impl QueryBuilder for MysqlQueryBuilder {
    open spec fn marker(&self) -> Seq<char> {
        seq!['?']
    }

    open spec fn numbered(&self) -> bool {
        false
    }

    open spec fn encoded(&self, v: Value) -> Seq<char> {
        encode_value(Dialect::Mysql, v)
    }

    fn placeholder(&self) -> (r: (&'static str, bool)) {
        proof {
            reveal_strlit("?");
        }
        let r = ("?", false);
        assert(r.0@ =~= seq!['?']);
        r
    }

    fn value_to_string(&self, v: &Value) -> (s: String) {
        encode_value_string(Dialect::Mysql, v)
    }
}

/// The PostgreSQL-family policy: numbered `$N` placeholders.
pub struct PostgresQueryBuilder;

impl QueryBuilder for PostgresQueryBuilder {
    open spec fn marker(&self) -> Seq<char> {
        seq!['$']
    }

    open spec fn numbered(&self) -> bool {
        true
    }

    open spec fn encoded(&self, v: Value) -> Seq<char> {
        encode_value(Dialect::Postgres, v)
    }

    fn placeholder(&self) -> (r: (&'static str, bool)) {
        proof {
            reveal_strlit("$");
        }
        let r = ("$", true);
        assert(r.0@ =~= seq!['$']);
        r
    }

    fn value_to_string(&self, v: &Value) -> (s: String) {
        encode_value_string(Dialect::Postgres, v)
    }
}

// ---------------------------------------------------------------------------
// Round-trip fidelity of the string encoding
// ---------------------------------------------------------------------------

/// The text between the delimiters of a quoted literal.
pub open spec fn literal_body(lit: Seq<char>) -> Seq<char>
    recommends
        lit.len() >= 2,
{
    lit.subrange(1, lit.len() - 1)
}

/// The string a dialect's quoted literal denotes: the body, unescaped,
/// after the dialect's escape prefix (if any) is removed.
pub open spec fn string_literal_value(d: Dialect, lit: Seq<char>) -> Seq<char>
    recommends
        lit.len() >= 2,
{
    match d {
        Dialect::Mysql => unescape_seq(literal_body(lit)),
        Dialect::Postgres => if lit.len() > 0 && lit[0] == 'E' {
            unescape_seq(literal_body(lit.drop_first()))
        } else {
            unescape_seq(literal_body(lit))
        },
    }
}

/// Scanning a quoted literal whose remaining body is the escaped form of
/// `t`, followed by the closing quote, consumes exactly the rest of it.
proof fn lemma_quoted_end_escaped(s: Seq<char>, t: Seq<char>, p: int)
    requires
        1 <= p,
        s.len() == p + escape_seq(t).len() + 1,
        s.subrange(p, p + escape_seq(t).len() as int) == escape_seq(t),
        s.last() == '\'',
    ensures
        quoted_end(s, '\'', p) == s.len(),
    decreases t.len(),
{
    let e = escape_seq(t);
    assert forall|j: int| 0 <= j < e.len() implies s[p + j] == e[j] by {
        assert(e[j] == s.subrange(p, p + e.len() as int)[j]);
    }
    if t.len() == 0 {
        assert(e.len() == 0);
        assert(s[p] == s.last());
        assert(quoted_end(s, '\'', p) == p + 1);
    } else {
        let e0 = escape_char(t[0]);
        let erest = escape_seq(t.drop_first());
        assert(e == e0 + erest);
        assert(s[p] == e[0]);
        assert(e[0] == e0[0]);
        if needs_escape(t[0]) {
            assert(e0 == seq!['\\', t[0]]);
            assert(s[p] == '\\');
            assert(p + 1 < s.len());
            assert forall|i: int| 0 <= i < erest.len() implies s.subrange(
                p + 2,
                p + 2 + erest.len() as int,
            )[i] == erest[i] by {
                assert(s[p + 2 + i] == e[2 + i]);
                assert(e[2 + i] == erest[i]);
            }
            assert(s.subrange(p + 2, p + 2 + erest.len() as int) =~= erest);
            lemma_quoted_end_escaped(s, t.drop_first(), p + 2);
            assert(quoted_end(s, '\'', p) == quoted_end(s, '\'', p + 2));
        } else {
            assert(e0 == seq![t[0]]);
            assert(s[p] == t[0]);
            assert(s[p] != '\\');
            assert(s[p] != '\'');
            assert forall|i: int| 0 <= i < erest.len() implies s.subrange(
                p + 1,
                p + 1 + erest.len() as int,
            )[i] == erest[i] by {
                assert(s[p + 1 + i] == e[1 + i]);
                assert(e[1 + i] == erest[i]);
            }
            assert(s.subrange(p + 1, p + 1 + erest.len() as int) =~= erest);
            lemma_quoted_end_escaped(s, t.drop_first(), p + 1);
            assert(quoted_end(s, '\'', p) == quoted_end(s, '\'', p + 1));
        }
    }
}

/// A single-quoted literal is scanned as exactly one quoted token.
proof fn lemma_quoted_literal_single_token(pre: Seq<char>, t: Seq<char>)
    requires
        pre.len() >= 0,
    ensures
        ({
            let s = pre + quoted_literal(t);
            quoted_end(s, '\'', pre.len() + 1int) == s.len()
        }),
{
    let s = pre + quoted_literal(t);
    let p: int = pre.len() as int + 1;
    assert(s.len() == p + escape_seq(t).len() + 1);
    assert(s.subrange(p, p + escape_seq(t).len() as int) =~= escape_seq(t));
    assert(s.last() == '\'');
    lemma_quoted_end_escaped(s, t, p);
}

/// Law (escaping correctness): the encoding of a string value is
/// syntactically intact under the tokenizer — the whole literal is scanned
/// as a single quoted token, behind the dialect's escape prefix where one
/// is used — and decoding the literal returns the original string exactly,
/// so the encoding denotes the value it came from.
pub proof fn lemma_string_encoding_round_trip(d: Dialect, t: Seq<char>)
    ensures
        string_literal_value(d, encode_string(d, t)) == t,
        ({
            let lit = encode_string(d, t);
            match d {
                Dialect::Mysql => tokenize_from(lit, 0) == seq![
                    GToken { kind: TokKind::Quoted, text: lit },
                ],
                Dialect::Postgres => if has_escapable(t) {
                    tokenize_from(lit, 0) == seq![
                        GToken { kind: TokKind::Unquoted, text: seq!['E'] },
                        GToken { kind: TokKind::Quoted, text: quoted_literal(t) },
                    ]
                } else {
                    tokenize_from(lit, 0) == seq![GToken { kind: TokKind::Quoted, text: lit }]
                },
            }
        }),
{
    let q = quoted_literal(t);
    lemma_unescape_escape(t);
    assert(literal_body(q) =~= escape_seq(t));
    lemma_quoted_literal_single_token(Seq::empty(), t);
    assert(Seq::empty() + q =~= q);
    assert(quoted_end(q, '\'', 1) == q.len());
    assert(q[0] == '\'');
    assert(token_end(q, 0) == q.len());
    assert(q.subrange(0, q.len() as int) =~= q);
    assert(class_of(q[0]) == TokKind::Quoted);
    assert(tokenize_from(q, q.len() as int) =~= Seq::<GToken>::empty());
    assert(tokenize_from(q, 0) == seq![
        GToken { kind: class_of(q[0]), text: q.subrange(0, token_end(q, 0)) },
    ] + tokenize_from(q, token_end(q, 0)));
    assert(tokenize_from(q, 0) =~= seq![GToken { kind: TokKind::Quoted, text: q }]);
    match d {
        Dialect::Mysql => {
        },
        Dialect::Postgres => {
            if has_escapable(t) {
                let lit = seq!['E'] + q;
                assert(lit[0] == 'E');
                assert(is_word_char('E'));
                assert(class_of(lit[0]) == TokKind::Unquoted);
                assert(lit[1] == '\'');
                assert(class_of(lit[1]) == TokKind::Quoted);
                assert(run_end(lit, TokKind::Unquoted, 1) == 1);
                assert(token_end(lit, 0) == 1);
                lemma_quoted_literal_single_token(seq!['E'], t);
                assert(seq!['E'] + q =~= lit);
                assert(quoted_end(lit, '\'', 2) == lit.len());
                assert(token_end(lit, 1) == lit.len());
                assert(lit.subrange(0, 1) =~= seq!['E']);
                assert(lit.subrange(1, lit.len() as int) =~= q);
                assert(tokenize_from(lit, lit.len() as int) =~= Seq::<GToken>::empty());
                assert(tokenize_from(lit, 1) =~= seq![
                    GToken { kind: TokKind::Quoted, text: q },
                ]);
                assert(tokenize_from(lit, 0) =~= seq![
                    GToken { kind: TokKind::Unquoted, text: seq!['E'] },
                    GToken { kind: TokKind::Quoted, text: q },
                ]);
                assert(lit.drop_first() =~= q);
                assert(string_literal_value(d, lit) == t);
            } else {
                assert(q[0] != 'E');
            }
        },
    }
}

} // verus!
