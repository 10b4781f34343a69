//! The parameter injector: walks the token stream of a SQL text and
//! replaces every recognized placeholder with the literal encoding of its
//! bound value, under a dialect policy.
//!
//! Recognition policy, chosen deterministically:
//! - for an unnumbered dialect, a punctuation token equal to the marker
//!   consumes the next value in strict left-to-right order;
//! - for a numbered dialect, a punctuation token equal to the marker
//!   followed by an unquoted run of digits denoting a positive integer
//!   `N` (that fits a `usize`) binds the `N`th value, 1-indexed; any
//!   other numeral — zero, or one too large for a `usize` — is not a
//!   placeholder and is emitted unchanged;
//! - a marker inside a quoted literal is never substituted, because the
//!   tokenizer has already folded it into a quoted token;
//! - a placeholder that references a missing value is an error: the
//!   injection yields no result at all rather than a half-substituted
//!   string.

use vstd::prelude::*;

use crate::chars::{all_dec_digits, dec_val, parse_dec};
use crate::dialect::QueryBuilder;
use crate::token::{
    concat_texts, lemma_tokenize_round_trip, tokenize, tokenize_from, views_of, GToken, TokKind,
    Token,
};
use crate::value::Value;

verus! {

/// Whether the token is the dialect's bare placeholder marker.
pub open spec fn is_marker<QB: QueryBuilder>(g: GToken, qb: &QB) -> bool {
    g.kind is Punctuation && g.text == qb.marker()
}

/// The numeric argument of a numbered placeholder at position `i`: the
/// value of the following token's digits, provided that token is an
/// unquoted nonempty run of digits denoting a positive integer that fits
/// a `usize`.
pub open spec fn numbered_arg(ts: Seq<GToken>, i: int) -> Option<nat> {
    if i + 1 < ts.len() && ts[i + 1].kind is Unquoted && ts[i + 1].text.len() > 0
        && all_dec_digits(ts[i + 1].text) && 1 <= dec_val(ts[i + 1].text) <= usize::MAX {
        Some(dec_val(ts[i + 1].text))
    } else {
        None
    }
}

/// Whether a substitution happens at position `i`.
pub open spec fn substitutes_at<QB: QueryBuilder>(ts: Seq<GToken>, qb: &QB, i: int) -> bool {
    is_marker(ts[i], qb) && (qb.numbered() ==> numbered_arg(ts, i) is Some)
}

/// The injection result from token `i` on, with `counter` values already
/// consumed: the output text, or `None` where some placeholder references
/// a value that was not supplied.
pub open spec fn inject_from<QB: QueryBuilder>(
    ts: Seq<GToken>,
    params: Seq<Value>,
    qb: &QB,
    i: int,
    counter: int,
) -> Option<Seq<char>>
    recommends
        0 <= i <= ts.len(),
    decreases ts.len() - i when 0 <= i <= ts.len() via inject_from_decreases::<QB>
{
    if i >= ts.len() {
        Some(Seq::empty())
    } else if !qb.numbered() && is_marker(ts[i], qb) {
        if 0 <= counter < params.len() {
            match inject_from(ts, params, qb, i + 1, counter + 1) {
                Some(rest) => Some(qb.encoded(params[counter]) + rest),
                None => None,
            }
        } else {
            None
        }
    } else if qb.numbered() && is_marker(ts[i], qb) && numbered_arg(ts, i) is Some {
        let n = numbered_arg(ts, i).unwrap();
        if n <= params.len() {
            match inject_from(ts, params, qb, i + 2, counter) {
                Some(rest) => Some(qb.encoded(params[n - 1]) + rest),
                None => None,
            }
        } else {
            None
        }
    } else {
        match inject_from(ts, params, qb, i + 1, counter) {
            Some(rest) => Some(ts[i].text + rest),
            None => None,
        }
    }
}

#[via_fn]
proof fn inject_from_decreases<QB: QueryBuilder>(
    ts: Seq<GToken>,
    params: Seq<Value>,
    qb: &QB,
    i: int,
    counter: int,
) {
    assert(numbered_arg(ts, i) is Some ==> i + 1 < ts.len());
}

/// The injection result for a SQL text: its tokens, injected from the
/// start with no value yet consumed.
pub open spec fn inject_spec<QB: QueryBuilder>(
    sql: Seq<char>,
    params: Seq<Value>,
    qb: &QB,
) -> Option<Seq<char>> {
    inject_from(tokenize_from(sql, 0), params, qb, 0, 0)
}

/// Injects the bound values into the SQL text: every recognized
/// placeholder is replaced by the literal encoding of its value, and all
/// other text is kept unchanged. Returns `None` — no half-substituted
/// text — where a placeholder references a value that was not supplied.
pub fn try_inject_parameters<QB: QueryBuilder>(
    sql: &str,
    params: Vec<Value>,
    query_builder: &QB,
) -> (r: Option<String>)
    ensures
        match r {
            Some(s) => inject_spec(sql@, params@, query_builder) == Some(s@),
            None => inject_spec(sql@, params@, query_builder) is None,
        },
{
    let tokens = tokenize(sql);
    let (ph, numbered) = query_builder.placeholder();
    let ph_string = ph.to_owned();
    let ghost ts = views_of(tokens@);
    let mut out = String::new();
    let mut counter: usize = 0;
    let mut i: usize = 0;
    while i < tokens.len()
        invariant
            0 <= i <= tokens@.len(),
            counter <= params@.len(),
            ts == views_of(tokens@),
            ts == tokenize_from(sql@, 0),
            ph_string@ == query_builder.marker(),
            numbered == query_builder.numbered(),
            inject_from(ts, params@, query_builder, 0, 0) == match inject_from(
                ts,
                params@,
                query_builder,
                i as int,
                counter as int,
            ) {
                Some(rest) => Some(out@ + rest),
                None => None::<Seq<char>>,
            },
        decreases tokens@.len() - i,
    {
        proof {
            assert(ts[i as int] == tokens@[i as int]@);
        }
        let is_ph: bool = match &tokens[i] {
            Token::Punctuation(mark) => *mark == ph_string,
            _ => false,
        };
        if is_ph && !numbered {
            if counter < params.len() {
                let ghost prev_out = out@;
                let rendered = query_builder.value_to_string(&params[counter]);
                out.append(rendered.as_str());
                counter = counter + 1;
                i = i + 1;
                proof {
                    let rest = inject_from(ts, params@, query_builder, i as int, counter as int);
                    if rest is Some {
                        assert(prev_out + (rendered@ + rest.unwrap()) =~= out@ + rest.unwrap());
                    }
                }
            } else {
                return None;
            }
        } else if is_ph && numbered && i + 1 < tokens.len() {
            proof {
                assert(ts[i + 1] == tokens@[i + 1]@);
            }
            let parsed: Option<usize> = match &tokens[i + 1] {
                Token::Unquoted(next) => parse_dec(next),
                _ => None,
            };
            let subst: Option<usize> = match parsed {
                Some(n) => if n >= 1 {
                    Some(n)
                } else {
                    None
                },
                None => None,
            };
            proof {
                match subst {
                    Some(n) => assert(numbered_arg(ts, i as int) == Some(n as nat)),
                    None => assert(numbered_arg(ts, i as int) is None),
                }
            }
            if let Some(n) = subst {
                if n <= params.len() {
                    let ghost prev_out = out@;
                    let rendered = query_builder.value_to_string(&params[n - 1]);
                    out.append(rendered.as_str());
                    i = i + 2;
                    proof {
                        let rest = inject_from(
                            ts,
                            params@,
                            query_builder,
                            i as int,
                            counter as int,
                        );
                        if rest is Some {
                            assert(prev_out + (rendered@ + rest.unwrap()) =~= out@
                                + rest.unwrap());
                        }
                    }
                } else {
                    return None;
                }
            } else {
                let ghost prev_out = out@;
                let text = tokens[i].text();
                out.append(text.as_str());
                i = i + 1;
                proof {
                    let rest = inject_from(ts, params@, query_builder, i as int, counter as int);
                    if rest is Some {
                        assert(prev_out + (ts[i - 1].text + rest.unwrap()) =~= out@
                            + rest.unwrap());
                    }
                }
            }
        } else {
            let ghost prev_out = out@;
            let text = tokens[i].text();
            out.append(text.as_str());
            i = i + 1;
            proof {
                assert(!substitutes_at(ts, query_builder, i - 1));
                let rest = inject_from(ts, params@, query_builder, i as int, counter as int);
                if rest is Some {
                    assert(prev_out + (ts[i - 1].text + rest.unwrap()) =~= out@ + rest.unwrap());
                }
            }
        }
    }
    proof {
        assert(inject_from(ts, params@, query_builder, i as int, counter as int) == Some(
            Seq::<char>::empty(),
        ));
        assert(out@ + Seq::<char>::empty() =~= out@);
    }
    Some(out)
}

/// Injects the bound values into the SQL text. The caller supplies a
/// value for every placeholder the text references; the result is the
/// input with every recognized placeholder replaced by the literal
/// encoding of its value.
pub fn inject_parameters<QB: QueryBuilder>(
    sql: &str,
    params: Vec<Value>,
    query_builder: &QB,
) -> (r: String)
    requires
        inject_spec(sql@, params@, query_builder) is Some,
    ensures
        Some(r@) == inject_spec(sql@, params@, query_builder),
{
    match try_inject_parameters(sql, params, query_builder) {
        Some(s) => s,
        None => vstd::pervasive::unreached(),
    }
}

// ---------------------------------------------------------------------------
// Laws of the injector
// ---------------------------------------------------------------------------

/// Law (quote safety): a quoted token — and with it any placeholder
/// marker standing inside a quoted literal — passes through injection
/// unchanged and consumes no bound value.
pub proof fn lemma_quoted_passes_through<QB: QueryBuilder>(
    ts: Seq<GToken>,
    params: Seq<Value>,
    qb: &QB,
    i: int,
    counter: int,
)
    requires
        0 <= i < ts.len(),
        ts[i].kind is Quoted,
    ensures
        inject_from(ts, params, qb, i, counter) == match inject_from(
            ts,
            params,
            qb,
            i + 1,
            counter,
        ) {
            Some(rest) => Some(ts[i].text + rest),
            None => None::<Seq<char>>,
        },
{
}

/// The number of bare-marker tokens among the first `i` tokens.
pub open spec fn marker_count<QB: QueryBuilder>(ts: Seq<GToken>, qb: &QB, i: int) -> nat
    decreases i,
{
    if i <= 0 {
        0
    } else {
        marker_count(ts, qb, i - 1) + if 0 <= i - 1 < ts.len() && is_marker(ts[i - 1], qb) {
            1nat
        } else {
            0nat
        }
    }
}

/// Injection for an unnumbered dialect, stated positionally: the marker
/// at position `i` binds the value whose index is the number of markers
/// strictly before `i`.
pub open spec fn inject_ordered<QB: QueryBuilder>(
    ts: Seq<GToken>,
    params: Seq<Value>,
    qb: &QB,
    i: int,
) -> Option<Seq<char>>
    recommends
        0 <= i <= ts.len(),
    decreases ts.len() - i when 0 <= i <= ts.len()
{
    if i >= ts.len() {
        Some(Seq::empty())
    } else if is_marker(ts[i], qb) {
        if marker_count(ts, qb, i) < params.len() {
            match inject_ordered(ts, params, qb, i + 1) {
                Some(rest) => Some(qb.encoded(params[marker_count(ts, qb, i) as int]) + rest),
                None => None,
            }
        } else {
            None
        }
    } else {
        match inject_ordered(ts, params, qb, i + 1) {
            Some(rest) => Some(ts[i].text + rest),
            None => None,
        }
    }
}

proof fn lemma_ordered_binding_from<QB: QueryBuilder>(
    ts: Seq<GToken>,
    params: Seq<Value>,
    qb: &QB,
    i: int,
)
    requires
        !qb.numbered(),
        0 <= i <= ts.len(),
    ensures
        inject_from(ts, params, qb, i, marker_count(ts, qb, i) as int) == inject_ordered(
            ts,
            params,
            qb,
            i,
        ),
    decreases ts.len() - i,
{
    if i < ts.len() {
        lemma_ordered_binding_from(ts, params, qb, i + 1);
        assert(marker_count(ts, qb, i + 1) == marker_count(ts, qb, i) + if is_marker(
            ts[i],
            qb,
        ) {
            1nat
        } else {
            0nat
        });
    }
}

/// Law (ordered binding): for an unnumbered dialect, injection binds the
/// Kth marker occurrence, counting from the left, to the Kth supplied
/// value — equivalently, the stateful left-to-right walk agrees with the
/// positional statement `inject_ordered`, which reads the value index of
/// each marker off the number of markers before it.
pub proof fn lemma_ordered_binding<QB: QueryBuilder>(
    ts: Seq<GToken>,
    params: Seq<Value>,
    qb: &QB,
)
    requires
        !qb.numbered(),
    ensures
        inject_from(ts, params, qb, 0, 0) == inject_ordered(ts, params, qb, 0),
{
    lemma_ordered_binding_from(ts, params, qb, 0);
}

/// Law (numbered indirection): for a numbered dialect, a marker followed
/// by the numeral `N` binds the `N`th supplied value, 1-indexed, wherever
/// the marker stands in the text and however often `N` repeats; a
/// reference past the end of the supplied values yields no result.
pub proof fn lemma_numbered_binding<QB: QueryBuilder>(
    ts: Seq<GToken>,
    params: Seq<Value>,
    qb: &QB,
    i: int,
    counter: int,
)
    requires
        qb.numbered(),
        0 <= i < ts.len(),
        is_marker(ts[i], qb),
        numbered_arg(ts, i) is Some,
    ensures
        ({
            let n = numbered_arg(ts, i).unwrap();
            inject_from(ts, params, qb, i, counter) == if n <= params.len() {
                match inject_from(ts, params, qb, i + 2, counter) {
                    Some(rest) => Some(qb.encoded(params[n - 1]) + rest),
                    None => None::<Seq<char>>,
                }
            } else {
                None::<Seq<char>>
            }
        }),
{
}

/// No token of `ts` begins a recognized placeholder.
pub open spec fn no_placeholders<QB: QueryBuilder>(ts: Seq<GToken>, qb: &QB) -> bool {
    forall|i: int| 0 <= i < ts.len() ==> !(#[trigger] substitutes_at(ts, qb, i))
}

proof fn lemma_no_placeholders_from<QB: QueryBuilder>(
    ts: Seq<GToken>,
    params: Seq<Value>,
    qb: &QB,
    i: int,
    counter: int,
)
    requires
        no_placeholders(ts, qb),
        0 <= i <= ts.len(),
    ensures
        inject_from(ts, params, qb, i, counter) == Some(concat_texts(ts.skip(i))),
    decreases ts.len() - i,
{
    if i >= ts.len() {
        assert(ts.skip(i) =~= Seq::<GToken>::empty());
    } else {
        lemma_no_placeholders_from(ts, params, qb, i + 1, counter);
        assert(!substitutes_at(ts, qb, i));
        assert(ts.skip(i)[0] == ts[i]);
        assert(ts.skip(i).drop_first() =~= ts.skip(i + 1));
        assert(concat_texts(ts.skip(i)) == ts[i].text + concat_texts(ts.skip(i + 1)));
    }
}

/// Law (inlining is idempotent): on a text whose tokens hold no
/// recognized placeholder — fully-inlined SQL — injection returns the
/// text unchanged, whatever values are supplied; running the injector a
/// second time over its own fully-inlined output is therefore a no-op.
pub proof fn lemma_inject_identity<QB: QueryBuilder>(
    sql: Seq<char>,
    params: Seq<Value>,
    qb: &QB,
)
    requires
        no_placeholders(tokenize_from(sql, 0), qb),
    ensures
        inject_spec(sql, params, qb) == Some(sql),
{
    lemma_no_placeholders_from(tokenize_from(sql, 0), params, qb, 0, 0);
    lemma_tokenize_round_trip(sql);
    assert(tokenize_from(sql, 0).skip(0) =~= tokenize_from(sql, 0));
}

} // verus!
