//! The `$filter` expression parser, with `$orderby`, `$top` and `$skip`.

use vstd::prelude::*;

use crate::error::ODataError;
use crate::resource::Chain;
use crate::resource::FieldFilter;
use crate::resource::Filters;
use crate::resource::FilterOperation;
use crate::value::ValueV;

verus! {

/// Ghost mirror of `FilterOperation`.
pub enum FilterOpV {
    EqV(ValueV),
    NeV(ValueV),
    GtV(ValueV),
    GeV(ValueV),
    LtV(ValueV),
    LeV(ValueV),
    InV(Seq<ValueV>),
    HasV(Seq<char>),
    FunctionV(Seq<char>),
}

/// Ghost mirror of a filter node.
pub enum NodeV {
    LeafV { not: bool, field: Seq<char>, op: FilterOpV },
    GroupV { not: bool, inner: Seq<(NodeV, Option<Chain>)> },
}

/// The abstract contents of a filter operation.
pub open spec fn op_view(op: FilterOperation) -> FilterOpV {
    match op {
        FilterOperation::Eq(v) => FilterOpV::EqV(crate::value::value_view(v)),
        FilterOperation::Ne(v) => FilterOpV::NeV(crate::value::value_view(v)),
        FilterOperation::Gt(v) => FilterOpV::GtV(crate::value::value_view(v)),
        FilterOperation::Ge(v) => FilterOpV::GeV(crate::value::value_view(v)),
        FilterOperation::Lt(v) => FilterOpV::LtV(crate::value::value_view(v)),
        FilterOperation::Le(v) => FilterOpV::LeV(crate::value::value_view(v)),
        FilterOperation::In(vs) => FilterOpV::InV(
            vs@.map_values(|v: crate::value::Value| crate::value::value_view(v)),
        ),
        FilterOperation::Has(s) => FilterOpV::HasV(s@),
        FilterOperation::Function(s) => FilterOpV::FunctionV(s@),
    }
}

broadcast use vstd::std_specs::vec::group_vec_axioms, vstd::seq::axiom_seq_index_decreases;

/// The abstract contents of a list of filter nodes.
pub open spec fn nodes_view(v: Seq<(FieldFilter, Option<Chain>)>) -> Seq<(NodeV, Option<Chain>)>
    decreases v,
{
    if v.len() == 0 {
        Seq::empty()
    } else {
        seq![(node_view(v[0].0), v[0].1)] + nodes_view(v.skip(1))
    }
}

/// The abstract contents of a filter node.
pub open spec fn node_view(f: FieldFilter) -> NodeV
    decreases f,
{
    match f {
        FieldFilter::Contents(c) => NodeV::LeafV {
            not: c.not,
            field: c.field@,
            op: op_view(c.operation),
        },
        FieldFilter::Nested(p) => NodeV::GroupV { not: p.0, inner: nodes_view(p.1.0@) },
    }
}

/// The abstract contents of a filter chain.
pub open spec fn filters_view(f: Filters) -> Seq<(NodeV, Option<Chain>)> {
    nodes_view(f.0@)
}

/// The combined length of a list of token texts.
pub open spec fn sum_len(ts: Seq<Seq<char>>) -> int
    decreases ts.len(),
{
    if ts.len() == 0 {
        0
    } else {
        sum_len(ts.drop_last()) + ts.last().len()
    }
}

proof fn lemma_sum_len_one(x: Seq<char>)
    ensures
        sum_len(seq![x]) == x.len(),
{
    let s = seq![x];
    assert(s.len() == 1);
    assert(s.last() == x);
    assert(s.drop_last() =~= Seq::<Seq<char>>::empty());
    assert(sum_len(s.drop_last()) == 0);
}

proof fn lemma_sum_len_nonneg(ts: Seq<Seq<char>>)
    ensures
        sum_len(ts) >= 0,
    decreases ts.len(),
{
    if ts.len() > 0 {
        lemma_sum_len_nonneg(ts.drop_last());
    }
}

proof fn lemma_sum_len_concat(a: Seq<Seq<char>>, b: Seq<Seq<char>>)
    ensures
        sum_len(a + b) == sum_len(a) + sum_len(b),
    decreases b.len(),
{
    if b.len() == 0 {
        assert(a + b =~= a);
    } else {
        lemma_sum_len_concat(a, b.drop_last());
        assert((a + b).drop_last() =~= a + b.drop_last());
        assert((a + b).last() == b.last());
    }
}

proof fn lemma_sum_len_sub(ts: Seq<Seq<char>>, a: int, b: int)
    requires
        0 <= a <= b <= ts.len(),
    ensures
        0 <= sum_len(ts.subrange(a, b)) <= sum_len(ts),
{
    assert(ts =~= ts.subrange(0, a) + ts.subrange(a, b) + ts.subrange(b, ts.len() as int));
    lemma_sum_len_concat(ts.subrange(0, a) + ts.subrange(a, b), ts.subrange(b, ts.len() as int));
    lemma_sum_len_concat(ts.subrange(0, a), ts.subrange(a, b));
    lemma_sum_len_nonneg(ts.subrange(0, a));
    lemma_sum_len_nonneg(ts.subrange(a, b));
    lemma_sum_len_nonneg(ts.subrange(b, ts.len() as int));
}

/// The tokenizer state after reading a prefix: finished tokens, the token
/// being built, and whether the quotes seen so far are balanced.
pub open spec fn tok_state(s: Seq<char>) -> (Seq<Seq<char>>, Seq<char>, bool)
    decreases s.len(),
{
    if s.len() == 0 {
        (Seq::empty(), Seq::empty(), true)
    } else {
        let p = tok_state(s.drop_last());
        let c = s.last();
        if c == ' ' && p.2 {
            (p.0.push(p.1), Seq::empty(), true)
        } else {
            (p.0, p.1.push(c), if c == '\'' {
                !p.2
            } else {
                p.2
            })
        }
    }
}

/// The tokens of a `$filter` text: space-separated, except that spaces
/// inside an open quote do not split.
pub open spec fn filter_tokens(s: Seq<char>) -> Seq<Seq<char>> {
    tok_state(s).0.push(tok_state(s).1)
}

proof fn lemma_tok_state_measure(s: Seq<char>)
    ensures
        sum_len(tok_state(s).0) + tok_state(s).0.len() + tok_state(s).1.len() == s.len(),
    decreases s.len(),
{
    if s.len() > 0 {
        lemma_tok_state_measure(s.drop_last());
        let p = tok_state(s.drop_last());
        let c = s.last();
        if c == ' ' && p.2 {
            assert(p.0.push(p.1).drop_last() =~= p.0);
            assert(p.0.push(p.1).last() == p.1);
        }
    }
}

/// Tokens plus separators account for the whole text, one separator short.
pub proof fn lemma_filter_tokens_measure(s: Seq<char>)
    ensures
        sum_len(filter_tokens(s)) + filter_tokens(s).len() == s.len() + 1,
        filter_tokens(s).len() >= 1,
{
    lemma_tok_state_measure(s);
    let p = tok_state(s);
    assert(p.0.push(p.1).drop_last() =~= p.0);
    assert(p.0.push(p.1).last() == p.1);
}

/// The text between the first and last character of a span.
pub open spec fn fc_inner(f: Seq<char>) -> Seq<char> {
    f.subrange(1, f.len() - 1)
}

/// Joining further tokens onto an unbalanced span until the bracket count
/// balances; yields the span's inner text and the next unread token.
pub open spec fn spec_fc_loop(field: Seq<char>, ts: Seq<Seq<char>>, i: int) -> Option<
    (Seq<char>, int),
>
    decreases ts.len() - i,
{
    if i < 0 || i >= ts.len() {
        None
    } else {
        let f2 = field + seq![' '] + ts[i];
        if crate::chars::count_char(f2, '(') == crate::chars::count_char(f2, ')') {
            Some((fc_inner(f2), i + 1))
        } else {
            spec_fc_loop(f2, ts, i + 1)
        }
    }
}

/// The source span of a bracketed group starting in `field`: either
/// `field` itself is balanced and closed, or further tokens are joined
/// until the counts balance.
pub open spec fn spec_find_closing(field: Seq<char>, ts: Seq<Seq<char>>, i: int) -> Option<
    (Seq<char>, int),
> {
    if crate::chars::count_char(field, '(') == crate::chars::count_char(field, ')') {
        if crate::chars::ends_with(field, seq![')']) {
            Some((fc_inner(field), i))
        } else {
            None
        }
    } else {
        spec_fc_loop(field, ts, i)
    }
}

proof fn lemma_fc_loop_len(field: Seq<char>, ts: Seq<Seq<char>>, i: int)
    requires
        0 <= i,
        field.len() >= 1,
    ensures
        spec_fc_loop(field, ts, i) matches Some(p) ==> i < p.1 <= ts.len() && p.0.len() + 2
            == field.len() + sum_len(ts.subrange(i, p.1)) + (p.1 - i),
    decreases ts.len() - i,
{
    if 0 <= i < ts.len() {
        let f2 = field + seq![' '] + ts[i];
        assert(f2.len() == field.len() + 1 + ts[i].len());
        if crate::chars::count_char(f2, '(') == crate::chars::count_char(f2, ')') {
            assert(ts.subrange(i, i + 1) =~= seq![ts[i]]);
            lemma_sum_len_one(ts[i]);
        } else {
            lemma_fc_loop_len(f2, ts, i + 1);
            match spec_fc_loop(f2, ts, i + 1) {
                Some(p) => {
                    assert(ts.subrange(i, p.1) =~= seq![ts[i]] + ts.subrange(i + 1, p.1));
                    lemma_sum_len_concat(seq![ts[i]], ts.subrange(i + 1, p.1));
                    lemma_sum_len_one(ts[i]);
                },
                None => {},
            }
        }
    }
}

/// The span length account for a found group: the inner text plus its two
/// brackets equals the first token's part plus the joined tokens and their
/// separators.
pub proof fn lemma_find_closing_len(field: Seq<char>, ts: Seq<Seq<char>>, i: int)
    requires
        0 <= i <= ts.len(),
        field.len() >= 1,
        field[0] == '(',
    ensures
        spec_find_closing(field, ts, i) matches Some(p) ==> i <= p.1 <= ts.len() && p.0.len() + 2
            <= field.len() + sum_len(ts.subrange(i, p.1)) + (p.1 - i),
{
    if crate::chars::count_char(field, '(') == crate::chars::count_char(field, ')') {
        if crate::chars::ends_with(field, seq![')']) {
            assert(field.skip(field.len() - 1)[0] == field.last());
            assert(field.last() == ')');
            assert(field.len() >= 2);
            assert(ts.subrange(i, i) =~= Seq::<Seq<char>>::empty());
        }
    } else {
        lemma_fc_loop_len(field, ts, i);
    }
}

/// A group's inner text is strictly shorter than the whole filter text.
pub proof fn lemma_group_inner_small(s: Seq<char>, start: int, field: Seq<char>)
    requires
        0 <= start < filter_tokens(s).len(),
        field.len() <= filter_tokens(s)[start].len(),
        field.len() >= 1,
        field[0] == '(',
    ensures
        spec_find_closing(field, filter_tokens(s), start + 1) matches Some(p) ==> p.0.len() + 2
            <= s.len() && start + 1 <= p.1 <= filter_tokens(s).len(),
{
    let ts = filter_tokens(s);
    lemma_find_closing_len(field, ts, start + 1);
    lemma_filter_tokens_measure(s);
    match spec_find_closing(field, ts, start + 1) {
        None => {},
        Some(p) => {
        lemma_sum_len_sub(ts, start + 1, p.1);
        assert(p.0.len() + 2 <= ts[start].len() + sum_len(ts.subrange(start + 1, p.1)) + (p.1
            - start - 1));
        assert(ts[start].len() <= sum_len(ts) - sum_len(ts.subrange(start + 1, p.1))) by {
            assert(ts =~= ts.subrange(0, start + 1) + ts.subrange(start + 1, p.1) + ts.subrange(
                p.1,
                ts.len() as int,
            ));
            lemma_sum_len_concat(
                ts.subrange(0, start + 1) + ts.subrange(start + 1, p.1),
                ts.subrange(p.1, ts.len() as int),
            );
            lemma_sum_len_concat(ts.subrange(0, start + 1), ts.subrange(start + 1, p.1));
            lemma_sum_len_nonneg(ts.subrange(p.1, ts.len() as int));
            assert(ts[start].len() <= sum_len(ts.subrange(0, start + 1))) by {
                assert(ts.subrange(0, start + 1).last() == ts[start]);
                lemma_sum_len_nonneg(ts.subrange(0, start + 1).drop_last());
            }
        }
        assert(p.1 - start - 1 <= ts.len() - 1);
        assert(p.0.len() + 2 <= sum_len(ts) + ts.len() - 1);
        },
    }
}

/// The values of one token's comma-separated pieces, processed until a
/// piece that closes the list with `)`; the flag says whether the close
/// was seen.
pub open spec fn spec_inner_list(pieces: Seq<Seq<char>>, i: int) -> (Seq<ValueV>, bool)
    decreases pieces.len() - i,
{
    if i < 0 || i >= pieces.len() {
        (Seq::empty(), false)
    } else {
        let p = pieces[i];
        if p.len() == 0 {
            spec_inner_list(pieces, i + 1)
        } else if crate::chars::ends_with(p, seq![')']) {
            (
                seq![
                    crate::value::spec_value_of(crate::chars::trim_end_matches(p, seq![')'])),
                ],
                true,
            )
        } else {
            let rest = spec_inner_list(pieces, i + 1);
            (seq![crate::value::spec_value_of(p)] + rest.0, rest.1)
        }
    }
}

/// The values of an `in (...)` list read from the tokens at and after `i`,
/// and the index of the first unread token.
pub open spec fn spec_in_tokens(ts: Seq<Seq<char>>, i: int) -> (Seq<ValueV>, int)
    decreases ts.len() - i,
{
    if i < 0 || i >= ts.len() {
        (Seq::empty(), i)
    } else {
        let inner = spec_inner_list(crate::chars::split_on(ts[i], ','), 0);
        if inner.1 {
            (inner.0, i + 1)
        } else {
            let rest = spec_in_tokens(ts, i + 1);
            (inner.0 + rest.0, rest.1)
        }
    }
}

/// The whole `in` list: the value token at `vi` with its leading `(`
/// removed, then further tokens until the closing `)`.
pub open spec fn spec_in_list(ts: Seq<Seq<char>>, vi: int) -> (Seq<ValueV>, int) {
    let first = crate::chars::trim_start_matches(ts[vi], seq!['(']);
    let inner = spec_inner_list(crate::chars::split_on(first, ','), 0);
    if inner.1 {
        (inner.0, vi + 1)
    } else {
        let rest = spec_in_tokens(ts, vi + 1);
        (inner.0 + rest.0, rest.1)
    }
}

proof fn lemma_in_tokens_next(ts: Seq<Seq<char>>, i: int)
    ensures
        i <= spec_in_tokens(ts, i).1,
        i <= ts.len() ==> spec_in_tokens(ts, i).1 <= ts.len(),
    decreases ts.len() - i,
{
    if 0 <= i < ts.len() {
        lemma_in_tokens_next(ts, i + 1);
    }
}

/// The index of the first unread token after an `in` list starting at `vi`.
pub proof fn lemma_in_list_next(ts: Seq<Seq<char>>, vi: int)
    requires
        0 <= vi < ts.len(),
    ensures
        vi < spec_in_list(ts, vi).1 <= ts.len(),
{
    lemma_in_tokens_next(ts, vi + 1);
}

/// A single leaf collapses out of its group, its negation merged with the
/// group's (two negations cancel); anything else stays a nested group.
pub open spec fn spec_collapse(not: bool, inner: Seq<(NodeV, Option<Chain>)>) -> NodeV {
    if inner.len() == 1 && (inner[0].0 matches NodeV::LeafV { .. }) {
        match inner[0].0 {
            NodeV::LeafV { not: leaf_not, field, op } => NodeV::LeafV {
                not: not != leaf_not,
                field,
                op,
            },
            _ => NodeV::GroupV { not, inner },
        }
    } else {
        NodeV::GroupV { not, inner }
    }
}

/// The term text of a raw token: a leading `not` is removed and the rest
/// trimmed.
pub open spec fn term_field(raw: Seq<char>) -> Seq<char> {
    if crate::chars::starts_with(raw, "not"@) {
        crate::chars::trim_spaces(crate::chars::trim_start_matches(raw, "not"@))
    } else {
        raw
    }
}

/// The field a predicate speaks about: the term text, or the following
/// token when the term text was only a `not`.
pub open spec fn term_eff(field: Seq<char>, part: Seq<char>) -> Seq<char> {
    if field.len() == 0 {
        part
    } else {
        field
    }
}

/// Parse one filter term from the tokens of `s` starting at `start`:
/// an optional `not`, then a bracketed group, a raw function call, or a
/// `field op value` predicate. Yields the node and the next unread token.
pub open spec fn spec_parse_field(s: Seq<char>, start: int) -> Result<(NodeV, int), ODataError>
    decreases s.len(), filter_tokens(s).len() - start, 0int,
    via spec_parse_field_dec
{
    let ts = filter_tokens(s);
    if start < 0 || start >= ts.len() {
        Err(ODataError::IncompletePath)
    } else {
        let raw = ts[start];
        let not = crate::chars::starts_with(raw, "not"@);
        let field = term_field(raw);
        if field.len() > 0 && field[0] == '(' {
            match spec_find_closing(field, ts, start + 1) {
                Some(p) => match spec_parse_filter(p.0) {
                    Ok(nested) => Ok((spec_collapse(not, nested), p.1)),
                    Err(e) => Err(e),
                },
                None => Err(ODataError::IncompletePath),
            }
        } else {
            let pi = if field.len() == 0 {
                start + 1
            } else {
                start
            };
            if pi >= ts.len() {
                Err(ODataError::IncompletePath)
            } else {
                let part = ts[pi];
                if crate::chars::has_char(part, '(') && crate::chars::has_char(part, ')') {
                    Ok((NodeV::LeafV { not, field, op: FilterOpV::FunctionV(part) }, pi + 1))
                } else {
                    let eff = term_eff(field, part);
                    if pi + 2 >= ts.len() {
                        Err(ODataError::IncompletePath)
                    } else {
                        let op_tok = crate::chars::ascii_lower(ts[pi + 1]);
                        let val = ts[pi + 2];
                        if op_tok == "eq"@ {
                            Ok(
                                (
                                    NodeV::LeafV {
                                        not,
                                        field: eff,
                                        op: FilterOpV::EqV(crate::value::spec_value_of(val)),
                                    },
                                    pi + 3,
                                ),
                            )
                        } else if op_tok == "ne"@ {
                            Ok(
                                (
                                    NodeV::LeafV {
                                        not,
                                        field: eff,
                                        op: FilterOpV::NeV(crate::value::spec_value_of(val)),
                                    },
                                    pi + 3,
                                ),
                            )
                        } else if op_tok == "gt"@ {
                            Ok(
                                (
                                    NodeV::LeafV {
                                        not,
                                        field: eff,
                                        op: FilterOpV::GtV(crate::value::spec_value_of(val)),
                                    },
                                    pi + 3,
                                ),
                            )
                        } else if op_tok == "ge"@ {
                            Ok(
                                (
                                    NodeV::LeafV {
                                        not,
                                        field: eff,
                                        op: FilterOpV::GeV(crate::value::spec_value_of(val)),
                                    },
                                    pi + 3,
                                ),
                            )
                        } else if op_tok == "lt"@ {
                            Ok(
                                (
                                    NodeV::LeafV {
                                        not,
                                        field: eff,
                                        op: FilterOpV::LtV(crate::value::spec_value_of(val)),
                                    },
                                    pi + 3,
                                ),
                            )
                        } else if op_tok == "le"@ {
                            Ok(
                                (
                                    NodeV::LeafV {
                                        not,
                                        field: eff,
                                        op: FilterOpV::LeV(crate::value::spec_value_of(val)),
                                    },
                                    pi + 3,
                                ),
                            )
                        } else if op_tok == "in"@ {
                            let l = spec_in_list(ts, pi + 2);
                            Ok((NodeV::LeafV { not, field: eff, op: FilterOpV::InV(l.0) }, l.1))
                        } else if op_tok == "has"@ {
                            Ok((NodeV::LeafV { not, field: eff, op: FilterOpV::HasV(val) }, pi + 3))
                        } else {
                            Ok(
                                (
                                    NodeV::LeafV {
                                        not,
                                        field: eff,
                                        op: FilterOpV::FunctionV(val),
                                    },
                                    pi + 3,
                                ),
                            )
                        }
                    }
                }
            }
        }
    }
}

#[via_fn]
proof fn spec_parse_field_dec(s: Seq<char>, start: int) {
    let ts = filter_tokens(s);
    if 0 <= start < ts.len() {
        let raw = ts[start];
        let not = crate::chars::starts_with(raw, "not"@);
        let field = term_field(raw);
        if field.len() > 0 && field[0] == '(' {
            if not {
                lemma_trim_start_matches_len(raw, "not"@);
                lemma_trim_spaces_len(crate::chars::trim_start_matches(raw, "not"@));
            }
            lemma_group_inner_small(s, start, field);
        }
    }
}

/// Every successful term consumes at least one token.
pub proof fn lemma_parse_field_next(s: Seq<char>, start: int)
    ensures
        spec_parse_field(s, start) matches Ok(p) ==> start < p.1 <= filter_tokens(s).len(),
{
    let ts = filter_tokens(s);
    if 0 <= start < ts.len() {
        let raw = ts[start];
        let not = crate::chars::starts_with(raw, "not"@);
        let field = term_field(raw);
        if field.len() > 0 && field[0] == '(' {
            if not {
                lemma_trim_start_matches_len(raw, "not"@);
                lemma_trim_spaces_len(crate::chars::trim_start_matches(raw, "not"@));
            }
            lemma_find_closing_len(field, ts, start + 1);
        } else {
            let pi = if field.len() == 0 {
                start + 1
            } else {
                start
            };
            if pi < ts.len() {
                let part = ts[pi];
                if !(crate::chars::has_char(part, '(') && crate::chars::has_char(part, ')')) {
                    if pi + 2 < ts.len() {
                        let op_tok = crate::chars::ascii_lower(ts[pi + 1]);
                        if op_tok == "in"@ {
                            lemma_in_list_next(ts, pi + 2);
                        }
                    }
                }
            }
        }
    }
}

/// Parse a chain of terms connected by `and` / `or`, from `start` to the
/// end of the tokens.
pub open spec fn spec_parse_chain(s: Seq<char>, start: int) -> Result<
    Seq<(NodeV, Option<Chain>)>,
    ODataError,
>
    decreases s.len(), filter_tokens(s).len() - start, 1int,
{
    match spec_parse_field(s, start) {
        Err(e) => Err(e),
        Ok(p) => {
            let ts = filter_tokens(s);
            if p.1 >= ts.len() {
                Ok(seq![(p.0, None)])
            } else if p.1 <= start {
                // never reached: a term always consumes at least one token
                Err(ODataError::IncompletePath)
            } else {
                let ctok = ts[p.1];
                if ctok == "and"@ {
                    match spec_parse_chain(s, p.1 + 1) {
                        Ok(rest) => Ok(seq![(p.0, Some(Chain::And))] + rest),
                        Err(e) => Err(e),
                    }
                } else if ctok == "or"@ {
                    match spec_parse_chain(s, p.1 + 1) {
                        Ok(rest) => Ok(seq![(p.0, Some(Chain::Or))] + rest),
                        Err(e) => Err(e),
                    }
                } else {
                    Err(ODataError::IncompletePath)
                }
            }
        },
    }
}

/// Parse a whole `$filter` text into its chain of nodes.
pub open spec fn spec_parse_filter(s: Seq<char>) -> Result<Seq<(NodeV, Option<Chain>)>, ODataError>
    decreases s.len(), filter_tokens(s).len() + 1, 0int,
{
    spec_parse_chain(s, 0)
}

proof fn lemma_trim_start_matches_len(s: Seq<char>, p: Seq<char>)
    ensures
        crate::chars::trim_start_matches(s, p).len() <= s.len(),
    decreases s.len(),
{
    if p.len() > 0 && crate::chars::starts_with(s, p) {
        lemma_trim_start_matches_len(s.skip(p.len() as int), p);
    }
}

proof fn lemma_trim_spaces_len(s: Seq<char>)
    ensures
        crate::chars::trim_spaces(s).len() <= s.len(),
{
    lemma_trim_start_spaces_len(s);
    lemma_trim_end_spaces_len(crate::chars::trim_start_spaces(s));
}

proof fn lemma_trim_start_spaces_len(s: Seq<char>)
    ensures
        crate::chars::trim_start_spaces(s).len() <= s.len(),
    decreases s.len(),
{
    if s.len() > 0 && crate::chars::is_space(s[0]) {
        lemma_trim_start_spaces_len(s.drop_first());
    }
}

proof fn lemma_trim_end_spaces_len(s: Seq<char>)
    ensures
        crate::chars::trim_end_spaces(s).len() <= s.len(),
    decreases s.len(),
{
    if s.len() > 0 && crate::chars::is_space(s.last()) {
        lemma_trim_end_spaces_len(s.drop_last());
    }
}

/// Element-wise reading of `nodes_view`.
pub proof fn lemma_nodes_view_parts(v: Seq<(FieldFilter, Option<Chain>)>)
    ensures
        nodes_view(v).len() == v.len(),
        forall|i: int|
            0 <= i < v.len() ==> #[trigger] nodes_view(v)[i] == (node_view(v[i].0), v[i].1),
    decreases v.len(),
{
    if v.len() > 0 {
        lemma_nodes_view_parts(v.skip(1));
        assert(forall|i: int| 1 <= i < v.len() ==> v.skip(1)[i - 1] == v[i]);
    }
}

proof fn lemma_count_char_nonneg(s: Seq<char>, c: char)
    ensures
        crate::chars::count_char(s, c) >= 0,
    decreases s.len(),
{
    if s.len() > 0 {
        lemma_count_char_nonneg(s.drop_last(), c);
    }
}

proof fn lemma_count_char_concat(a: Seq<char>, b: Seq<char>, c: char)
    ensures
        crate::chars::count_char(a + b, c) == crate::chars::count_char(a, c)
            + crate::chars::count_char(b, c),
    decreases b.len(),
{
    if b.len() == 0 {
        assert(a + b =~= a);
    } else {
        lemma_count_char_concat(a, b.drop_last(), c);
        assert((a + b).drop_last() =~= a + b.drop_last());
        assert((a + b).last() == b.last());
    }
}

/// The view of a term-parse result.
pub open spec fn field_result_view(r: Result<(FieldFilter, usize), ODataError>) -> Result<
    (NodeV, int),
    ODataError,
> {
    match r {
        Ok(p) => Ok((node_view(p.0), p.1 as int)),
        Err(e) => Err(e),
    }
}

/// The view of a filter-parse result.
pub open spec fn filters_result_view(r: Result<Filters, ODataError>) -> Result<
    Seq<(NodeV, Option<Chain>)>,
    ODataError,
> {
    match r {
        Ok(f) => Ok(filters_view(f)),
        Err(e) => Err(e),
    }
}

/// Split a `$filter` text on spaces, keeping quoted spans together.
pub fn tokenize_filter(v: &Vec<char>) -> (r: Vec<Vec<char>>)
    ensures
        r@.map_values(|t: Vec<char>| t@) == filter_tokens(v@),
        r@.len() >= 1,
{
    let mut done: Vec<Vec<char>> = Vec::new();
    let mut cur: Vec<char> = Vec::new();
    let mut even: bool = true;
    let mut i: usize = 0;
    proof {
        assert(v@.take(0) =~= Seq::<char>::empty());
        assert(done@.map_values(|t: Vec<char>| t@) =~= tok_state(v@.take(0)).0);
        assert(cur@ =~= tok_state(v@.take(0)).1);
    }
    while i < v.len()
        invariant
            i <= v@.len(),
            done@.map_values(|t: Vec<char>| t@) == tok_state(v@.take(i as int)).0,
            cur@ == tok_state(v@.take(i as int)).1,
            even == tok_state(v@.take(i as int)).2,
        decreases v.len() - i,
    {
        proof {
            assert(v@.take(i + 1 as int).drop_last() =~= v@.take(i as int));
            assert(v@.take(i + 1 as int).last() == v@[i as int]);
        }
        let c = v[i];
        if c == ' ' && even {
            let ghost old_done = done@;
            let ghost old_cur = cur@;
            done.push(cur);
            cur = Vec::new();
            proof {
                assert(done@.map_values(|t: Vec<char>| t@) =~= old_done.map_values(
                    |t: Vec<char>| t@,
                ).push(old_cur));
                assert(cur@ =~= Seq::<char>::empty());
            }
        } else {
            cur.push(c);
            if c == '\'' {
                even = !even;
            }
        }
        i += 1;
    }
    proof {
        assert(v@.take(v@.len() as int) =~= v@);
    }
    let ghost old_done = done@;
    let ghost old_cur = cur@;
    done.push(cur);
    proof {
        assert(done@.map_values(|t: Vec<char>| t@) =~= old_done.map_values(
            |t: Vec<char>| t@,
        ).push(old_cur));
    }
    done
}

/// Join tokens from `from` onward onto `field` until the bracket counts
/// balance, and return the span's inner text with the next unread index.
/// Every bracketed group of the filter tree originates from such a span,
/// and the span always holds as many `(` as `)`.
pub fn find_closing_bracket(field: &Vec<char>, tokens: &Vec<Vec<char>>, from: usize) -> (r: Result<
    (Vec<char>, usize),
    ODataError,
>)
    requires
        field@.len() >= 1,
        field@[0] == '(',
        from <= tokens@.len(),
    ensures
        (match r {
            Ok(p) => Some((p.0@, p.1 as int)),
            Err(_) => None::<(Seq<char>, int)>,
        }) == spec_find_closing(field@, tokens@.map_values(|t: Vec<char>| t@), from as int),
        r matches Err(e) ==> e == ODataError::IncompletePath,
        r matches Ok(p) ==> (exists|span: Seq<char>|
            p.0@ == fc_inner(span) && crate::chars::count_char(span, '(')
                == crate::chars::count_char(span, ')') && span.len() >= 2),
        r matches Ok(p) ==> from <= p.1 <= tokens@.len(),
{
    let ghost ts = tokens@.map_values(|t: Vec<char>| t@);
    let mut opens: usize = crate::chars::count_char_in(field, '(');
    let mut closes: usize = crate::chars::count_char_in(field, ')');
    if opens == closes {
        if crate::chars::ends_with_str(field, ")") {
            proof {
                reveal_strlit(")");
                assert(")"@ =~= seq![')']);
                lemma_count_char_nonneg(field@.drop_last(), ')');
                assert(field@.skip(field@.len() - 1)[0] == field@.last());
                if field@.len() == 1 {
                    assert(field@[0] == '(' && field@.last() == ')');
                }
            }
            let inner = crate::chars::subchars(field, 1, field.len() - 1);
            proof {
                assert(inner@ =~= fc_inner(field@));
            }
            return Ok((inner, from));
        }
        proof {
            reveal_strlit(")");
            assert(")"@ =~= seq![')']);
        }
        return Err(ODataError::IncompletePath);
    }
    let mut joined = crate::chars::subchars(field, 0, field.len());
    proof {
        assert(joined@ =~= field@);
    }
    let mut i: usize = from;
    while i < tokens.len()
        invariant
            from <= i <= ts.len(),
            ts == tokens@.map_values(|t: Vec<char>| t@),
            joined@.len() >= 1,
            opens == crate::chars::count_char(joined@, '('),
            closes == crate::chars::count_char(joined@, ')'),
            opens != closes,
            spec_find_closing(field@, ts, from as int) == spec_fc_loop(joined@, ts, i as int),
        decreases tokens.len() - i,
    {
        let tok = &tokens[i];
        let ghost old_joined = joined@;
        joined.push(' ');
        crate::chars::append_chars(&mut joined, tok);
        proof {
            assert(joined@ =~= old_joined + seq![' '] + tok@);
            lemma_count_char_concat(old_joined + seq![' '], tok@, '(');
            lemma_count_char_concat(old_joined, seq![' '], '(');
            lemma_count_char_concat(old_joined + seq![' '], tok@, ')');
            lemma_count_char_concat(old_joined, seq![' '], ')');
            lemma_count_char_one(' ', '(');
            lemma_count_char_one(' ', ')');
            lemma_count_char_nonneg(tok@, '(');
            lemma_count_char_nonneg(tok@, ')');
            assert(crate::chars::count_char(tok@, '(') <= tok@.len()) by {
                lemma_count_char_le_len(tok@, '(');
            }
            assert(crate::chars::count_char(tok@, ')') <= tok@.len()) by {
                lemma_count_char_le_len(tok@, ')');
            }
        }
        let t_opens = crate::chars::count_char_in(tok, '(');
        let t_closes = crate::chars::count_char_in(tok, ')');
        let jl: usize = joined.len();
        proof {
            lemma_count_char_le_len(joined@, '(');
            lemma_count_char_le_len(joined@, ')');
            assert(crate::chars::count_char(joined@, '(') == opens + t_opens);
            assert(crate::chars::count_char(joined@, ')') == closes + t_closes);
        }
        opens = opens + t_opens;
        closes = closes + t_closes;
        if opens == closes {
            let inner = crate::chars::subchars(&joined, 1, joined.len() - 1);
            proof {
                assert(inner@ =~= fc_inner(joined@));
            }
            return Ok((inner, i + 1));
        }
        i += 1;
    }
    Err(ODataError::IncompletePath)
}

/// Read the values of one token's comma-separated pieces; the flag says
/// whether a piece closed the list with `)`.
#[verifier::loop_isolation(false)]
pub fn eat_inner_list_parts(pieces: &Vec<Vec<char>>) -> (r: (Vec<crate::value::Value>, bool))
    ensures
        r.0@.map_values(|v: crate::value::Value| crate::value::value_view(v)) == spec_inner_list(
            pieces@.map_values(|t: Vec<char>| t@),
            0,
        ).0,
        r.1 == spec_inner_list(pieces@.map_values(|t: Vec<char>| t@), 0).1,
        forall|i: int| 0 <= i < r.0@.len() ==> (#[trigger] r.0@[i]).wf(),
{
    proof {
        reveal_strlit(")");
        assert(")"@ =~= seq![')']);
    }
    let ghost ps = pieces@.map_values(|t: Vec<char>| t@);
    let mut values: Vec<crate::value::Value> = Vec::new();
    let mut i: usize = 0;
    proof {
        assert(Seq::<ValueV>::empty() + spec_inner_list(ps, 0).0 =~= spec_inner_list(ps, 0).0);
    }
    while i < pieces.len()
        invariant
            i <= ps.len(),
            ps == pieces@.map_values(|t: Vec<char>| t@),
            spec_inner_list(ps, 0).0 == values@.map_values(
                |v: crate::value::Value| crate::value::value_view(v),
            ) + spec_inner_list(ps, i as int).0,
            spec_inner_list(ps, 0).1 == spec_inner_list(ps, i as int).1,
            forall|k: int| 0 <= k < values@.len() ==> (#[trigger] values@[k]).wf(),
        decreases pieces.len() - i,
    {
        let piece = &pieces[i];
        if piece.len() == 0 {
            i += 1;
            continue ;
        }
        if crate::chars::ends_with_str(piece, ")") {
            let trimmed = crate::chars::trim_end_matches_str(piece, ")");
            let v = crate::value::extract_value(&trimmed);
            let ghost old_values = values@;
            values.push(v);
            proof {
                assert(values@.map_values(|v: crate::value::Value| crate::value::value_view(v))
                    =~= old_values.map_values(
                    |v: crate::value::Value| crate::value::value_view(v),
                ).push(crate::value::value_view(v)));
                assert(old_values.map_values(
                    |v: crate::value::Value| crate::value::value_view(v),
                ).push(crate::value::value_view(v)) =~= old_values.map_values(
                    |v: crate::value::Value| crate::value::value_view(v),
                ) + spec_inner_list(ps, i as int).0);
            }
            return (values, true);
        }
        let v = crate::value::extract_value(piece);
        let ghost old_values = values@;
        values.push(v);
        proof {
            assert(values@.map_values(|v: crate::value::Value| crate::value::value_view(v))
                =~= old_values.map_values(
                |v: crate::value::Value| crate::value::value_view(v),
            ).push(crate::value::value_view(v)));
            assert(old_values.map_values(|v: crate::value::Value| crate::value::value_view(v))
                + (seq![crate::value::value_view(v)] + spec_inner_list(ps, i + 1).0)
                =~= values@.map_values(|v: crate::value::Value| crate::value::value_view(v))
                + spec_inner_list(ps, i + 1).0);
        }
        i += 1;
    }
    proof {
        assert(values@.map_values(|v: crate::value::Value| crate::value::value_view(v))
            + Seq::<ValueV>::empty() =~= values@.map_values(
            |v: crate::value::Value| crate::value::value_view(v),
        ));
    }
    (values, false)
}

/// Read the values of an `in (...)` list: the value token at `vi` with its
/// leading `(` removed, then further tokens until the closing `)`.
#[verifier::loop_isolation(false)]
pub fn eat_in_list_parts(tokens: &Vec<Vec<char>>, vi: usize) -> (r: (
    Vec<crate::value::Value>,
    usize,
))
    requires
        vi < tokens@.len(),
    ensures
        (
            r.0@.map_values(|v: crate::value::Value| crate::value::value_view(v)),
            r.1 as int,
        ) == spec_in_list(tokens@.map_values(|t: Vec<char>| t@), vi as int),
        vi < r.1 <= tokens@.len(),
        forall|i: int| 0 <= i < r.0@.len() ==> (#[trigger] r.0@[i]).wf(),
{
    proof {
        reveal_strlit("(");
        assert("("@ =~= seq!['(']);
    }
    let ghost ts = tokens@.map_values(|t: Vec<char>| t@);
    let n: usize = tokens.len();
    let first = crate::chars::trim_start_matches_str(&tokens[vi], "(");
    let pieces = crate::chars::split_on_char(&first, ',');
    let (mut values, closed) = eat_inner_list_parts(&pieces);
    if closed {
        return (values, vi + 1);
    }
    let mut i: usize = vi + 1;
    proof {
        assert(values@.map_values(|v: crate::value::Value| crate::value::value_view(v))
            + spec_in_tokens(ts, i as int).0 =~= values@.map_values(
            |v: crate::value::Value| crate::value::value_view(v),
        ) + spec_in_tokens(ts, i as int).0);
    }
    while i < tokens.len()
        invariant
            vi < i <= ts.len(),
            ts == tokens@.map_values(|t: Vec<char>| t@),
            spec_in_list(ts, vi as int).0 == values@.map_values(
                |v: crate::value::Value| crate::value::value_view(v),
            ) + spec_in_tokens(ts, i as int).0,
            spec_in_list(ts, vi as int).1 == spec_in_tokens(ts, i as int).1,
            forall|k: int| 0 <= k < values@.len() ==> (#[trigger] values@[k]).wf(),
        decreases tokens.len() - i,
    {
        let pieces2 = crate::chars::split_on_char(&tokens[i], ',');
        let (mut vs, closed2) = eat_inner_list_parts(&pieces2);
        let ghost old_values = values@;
        let ghost vs_snap = vs@;
        values.append(&mut vs);
        proof {
            assert(values@ =~= old_values + vs_snap);
            lemma_map_values_concat(old_values, vs_snap);
        }
        if closed2 {
            return (values, i + 1);
        }
        proof {
            assert(old_values.map_values(|v: crate::value::Value| crate::value::value_view(v)) + (
            vs_snap.map_values(|v: crate::value::Value| crate::value::value_view(v))
                + spec_in_tokens(ts, i + 1).0) =~= values@.map_values(
                |v: crate::value::Value| crate::value::value_view(v),
            ) + spec_in_tokens(ts, i + 1).0);
        }
        i += 1;
    }
    proof {
        assert(values@.map_values(|v: crate::value::Value| crate::value::value_view(v))
            + Seq::<ValueV>::empty() =~= values@.map_values(
            |v: crate::value::Value| crate::value::value_view(v),
        ));
    }
    (values, i)
}

proof fn lemma_map_values_concat(a: Seq<crate::value::Value>, b: Seq<crate::value::Value>)
    ensures
        (a + b).map_values(|v: crate::value::Value| crate::value::value_view(v))
            == a.map_values(|v: crate::value::Value| crate::value::value_view(v)) + b.map_values(
            |v: crate::value::Value| crate::value::value_view(v),
        ),
{
    assert((a + b).map_values(|v: crate::value::Value| crate::value::value_view(v))
        =~= a.map_values(|v: crate::value::Value| crate::value::value_view(v)) + b.map_values(
        |v: crate::value::Value| crate::value::value_view(v),
    ));
}

/// Collapse a parsed group around a single leaf into that leaf, carrying
/// the group's negation; any other group stays nested.
pub fn collapse_filters(not: bool, nested: Filters) -> (r: FieldFilter)
    requires
        nested.wf(),
    ensures
        node_view(r) == spec_collapse(not, filters_view(nested)),
        r.wf(),
{
    proof {
        lemma_nodes_view_parts(nested.0@);
    }
    let single_leaf: bool = nested.0.len() == 1 && (match &nested.0[0].0 {
        FieldFilter::Contents(_) => true,
        _ => false,
    });
    if single_leaf {
        let mut inner = nested;
        let popped = inner.0.pop();
        match popped {
            Some(pair) => {
                match pair.0 {
                    FieldFilter::Contents(c) => {
                        FieldFilter::Contents(
                            crate::resource::FieldFilterContents {
                                not: not != c.not,
                                field: c.field,
                                operation: c.operation,
                            },
                        )
                    },
                    FieldFilter::Nested(g) => {
                        proof {
                            assert(false);
                        }
                        FieldFilter::Nested(g)
                    },
                }
            },
            None => {
                proof {
                    assert(false);
                }
                FieldFilter::Nested((not, inner))
            },
        }
    } else {
        FieldFilter::Nested((not, nested))
    }
}

/// Parse one filter term from the tokens, starting at `start`: an optional
/// `not` prefix, then a bracketed group (parsed recursively), a raw
/// function call kept as source text, or a `field op value` predicate.
#[verifier::loop_isolation(false)]
pub fn parse_filter_field(
    tokens: &Vec<Vec<char>>,
    start: usize,
    Ghost(source): Ghost<Seq<char>>,
) -> (r: Result<(FieldFilter, usize), ODataError>)
    requires
        tokens@.map_values(|t: Vec<char>| t@) == filter_tokens(source),
    ensures
        field_result_view(r) == spec_parse_field(source, start as int),
        r matches Ok(p) ==> start < p.1 <= tokens@.len() && p.0.wf(),
    decreases source.len(), 0int,
{
    proof {
        lemma_parse_field_next(source, start as int);
        reveal_strlit("not");
        reveal_strlit("(");
        assert("("@ =~= seq!['(']);
    }
    let ghost ts = tokens@.map_values(|t: Vec<char>| t@);
    if start >= tokens.len() {
        return Err(ODataError::IncompletePath);
    }
    let raw = &tokens[start];
    proof {
        assert(ts[start as int] == raw@);
    }
    let not = crate::chars::starts_with_str(raw, "not");
    let field: Vec<char> = if not {
        crate::chars::trim_chars(&crate::chars::trim_start_matches_str(raw, "not"))
    } else {
        crate::chars::subchars(raw, 0, raw.len())
    };
    proof {
        assert(field@ == term_field(raw@));
    }
    if field.len() > 0 && field[0] == '(' {
        proof {
            if not {
                lemma_trim_start_matches_len(raw@, "not"@);
                lemma_trim_spaces_len(crate::chars::trim_start_matches(raw@, "not"@));
            }
            lemma_group_inner_small(source, start as int, field@);
        }
        match find_closing_bracket(&field, tokens, start + 1) {
            Ok(p) => {
                let inner_str = crate::bridge::string_from_chars(&p.0);
                match parse_filter(inner_str.as_str()) {
                    Ok(nested) => {
                        let node = collapse_filters(not, nested);
                        Ok((node, p.1))
                    },
                    Err(e) => Err(e),
                }
            },
            Err(e) => Err(e),
        }
    } else {
        let pi: usize = if field.len() == 0 {
            start + 1
        } else {
            start
        };
        if pi >= tokens.len() {
            return Err(ODataError::IncompletePath);
        }
        let part = &tokens[pi];
        proof {
            assert(ts[pi as int] == part@);
        }
        if crate::chars::contains_char(part, '(') && crate::chars::contains_char(part, ')') {
            return Ok(
                (
                    FieldFilter::Contents(
                        crate::resource::FieldFilterContents {
                            not,
                            field: crate::bridge::string_from_chars(&field),
                            operation: FilterOperation::Function(
                                crate::bridge::string_from_chars(part),
                            ),
                        },
                    ),
                    pi + 1,
                ),
            );
        }
        let eff: Vec<char> = if field.len() == 0 {
            crate::chars::subchars(part, 0, part.len())
        } else {
            field
        };
        proof {
            assert(eff@ == term_eff(term_field(raw@), part@));
        }
        if tokens.len() - pi < 3 {
            return Err(ODataError::IncompletePath);
        }
        let op_tok = crate::chars::lower_ascii(&tokens[pi + 1]);
        let val = &tokens[pi + 2];
        proof {
            assert(ts[pi as int + 1] == tokens@[pi as int + 1]@);
            assert(ts[pi as int + 2] == val@);
        }
        let field_string = crate::bridge::string_from_chars(&eff);
        if crate::chars::chars_eq_str(&op_tok, "eq") {
            let v = crate::value::extract_value(val);
            Ok(
                (
                    FieldFilter::Contents(
                        crate::resource::FieldFilterContents {
                            not,
                            field: field_string,
                            operation: FilterOperation::Eq(v),
                        },
                    ),
                    pi + 3,
                ),
            )
        } else if crate::chars::chars_eq_str(&op_tok, "ne") {
            let v = crate::value::extract_value(val);
            Ok(
                (
                    FieldFilter::Contents(
                        crate::resource::FieldFilterContents {
                            not,
                            field: field_string,
                            operation: FilterOperation::Ne(v),
                        },
                    ),
                    pi + 3,
                ),
            )
        } else if crate::chars::chars_eq_str(&op_tok, "gt") {
            let v = crate::value::extract_value(val);
            Ok(
                (
                    FieldFilter::Contents(
                        crate::resource::FieldFilterContents {
                            not,
                            field: field_string,
                            operation: FilterOperation::Gt(v),
                        },
                    ),
                    pi + 3,
                ),
            )
        } else if crate::chars::chars_eq_str(&op_tok, "ge") {
            let v = crate::value::extract_value(val);
            Ok(
                (
                    FieldFilter::Contents(
                        crate::resource::FieldFilterContents {
                            not,
                            field: field_string,
                            operation: FilterOperation::Ge(v),
                        },
                    ),
                    pi + 3,
                ),
            )
        } else if crate::chars::chars_eq_str(&op_tok, "lt") {
            let v = crate::value::extract_value(val);
            Ok(
                (
                    FieldFilter::Contents(
                        crate::resource::FieldFilterContents {
                            not,
                            field: field_string,
                            operation: FilterOperation::Lt(v),
                        },
                    ),
                    pi + 3,
                ),
            )
        } else if crate::chars::chars_eq_str(&op_tok, "le") {
            let v = crate::value::extract_value(val);
            Ok(
                (
                    FieldFilter::Contents(
                        crate::resource::FieldFilterContents {
                            not,
                            field: field_string,
                            operation: FilterOperation::Le(v),
                        },
                    ),
                    pi + 3,
                ),
            )
        } else if crate::chars::chars_eq_str(&op_tok, "in") {
            let l = eat_in_list_parts(tokens, pi + 2);
            Ok(
                (
                    FieldFilter::Contents(
                        crate::resource::FieldFilterContents {
                            not,
                            field: field_string,
                            operation: FilterOperation::In(l.0),
                        },
                    ),
                    l.1,
                ),
            )
        } else if crate::chars::chars_eq_str(&op_tok, "has") {
            Ok(
                (
                    FieldFilter::Contents(
                        crate::resource::FieldFilterContents {
                            not,
                            field: field_string,
                            operation: FilterOperation::Has(
                                crate::bridge::string_from_chars(val),
                            ),
                        },
                    ),
                    pi + 3,
                ),
            )
        } else {
            Ok(
                (
                    FieldFilter::Contents(
                        crate::resource::FieldFilterContents {
                            not,
                            field: field_string,
                            operation: FilterOperation::Function(
                                crate::bridge::string_from_chars(val),
                            ),
                        },
                    ),
                    pi + 3,
                ),
            )
        }
    }
}

/// Parse a whole `$filter` text into its chain of filter nodes, connected
/// by `and` / `or`; an unrecognized connective or a truncated clause is
/// rejected as an incomplete path. The result is chain aligned: only the
/// last node carries no connective.
#[verifier::loop_isolation(false)]
pub fn parse_filter(filter_value: &str) -> (r: Result<Filters, ODataError>)
    ensures
        filters_result_view(r) == spec_parse_filter(filter_value@),
        r matches Ok(f) ==> f.wf() && f.0@.len() >= 1,
    decreases filter_value@.len(), 1int,
{
    let chars = crate::chars::str_chars(filter_value);
    let tokens = tokenize_filter(&chars);
    let ghost s = filter_value@;
    let mut filters: Vec<(FieldFilter, Option<Chain>)> = Vec::new();
    let mut idx: usize = 0;
    proof {
        lemma_nodes_view_parts(filters@);
        assert(nodes_view(filters@) =~= Seq::<(NodeV, Option<Chain>)>::empty());
    }
    loop
        invariant
            idx <= tokens@.len(),
            (match spec_parse_chain(s, idx as int) {
                Ok(rest) => spec_parse_chain(s, 0) == Ok::<_, ODataError>(
                    nodes_view(filters@) + rest,
                ),
                Err(e) => spec_parse_chain(s, 0) == Err::<Seq<(NodeV, Option<Chain>)>, _>(e),
            }),
            forall|i: int| 0 <= i < filters@.len() ==> (#[trigger] filters@[i]).1 is Some,
            forall|i: int| 0 <= i < filters@.len() ==> (#[trigger] filters@[i]).0.wf(),
        decreases tokens@.len() - idx,
    {
        match parse_filter_field(&tokens, idx, Ghost(s)) {
            Err(e) => {
                return Err(e);
            },
            Ok(pair) => {
                let (node, next) = pair;
                let ghost old_filters = filters@;
                if next >= tokens.len() {
                    filters.push((node, None));
                    proof {
                        lemma_nodes_view_snoc(old_filters, (node, None));
                        assert(nodes_view(filters@) == nodes_view(old_filters) + seq![
                            (node_view(node), None::<Chain>),
                        ]);
                        assert(spec_parse_chain(s, idx as int) == Ok::<_, ODataError>(
                            seq![(node_view(node), None::<Chain>)],
                        ));
                    }
                    let result = Filters(filters);
                    proof {
                        assert(result.wf());
                    }
                    return Ok(result);
                }
                let ctok = &tokens[next];
                let chain: Chain = if crate::chars::chars_eq_str(ctok, "and") {
                    Chain::And
                } else if crate::chars::chars_eq_str(ctok, "or") {
                    Chain::Or
                } else {
                    return Err(ODataError::IncompletePath);
                };
                filters.push((node, Some(chain)));
                proof {
                    lemma_nodes_view_snoc(old_filters, (node, Some(chain)));
                    assert(nodes_view(filters@) == nodes_view(old_filters) + seq![
                        (node_view(node), Some(chain)),
                    ]);
                    assert((nodes_view(old_filters) + seq![(node_view(node), Some(chain))])
                        + spec_parse_chain_rest(s, next + 1) =~= nodes_view(old_filters) + (seq![
                        (node_view(node), Some(chain)),
                    ] + spec_parse_chain_rest(s, next + 1)));
                }
                idx = next + 1;
            },
        }
    }
}

/// The tail of a chain parse, when it succeeds; empty otherwise.
pub open spec fn spec_parse_chain_rest(s: Seq<char>, start: int) -> Seq<(NodeV, Option<Chain>)> {
    match spec_parse_chain(s, start) {
        Ok(rest) => rest,
        Err(_) => Seq::empty(),
    }
}

/// Pushing one node extends the chain's view by that node.
pub proof fn lemma_nodes_view_snoc(
    v: Seq<(FieldFilter, Option<Chain>)>,
    x: (FieldFilter, Option<Chain>),
)
    ensures
        nodes_view(v.push(x)) == nodes_view(v) + seq![(node_view(x.0), x.1)],
    decreases v.len(),
{
    if v.len() == 0 {
        assert(v.push(x)[0] == x);
        assert(v.push(x).skip(1) =~= Seq::<(FieldFilter, Option<Chain>)>::empty());
        assert(nodes_view(Seq::<(FieldFilter, Option<Chain>)>::empty())
            == Seq::<(NodeV, Option<Chain>)>::empty());
        assert(nodes_view(v) == Seq::<(NodeV, Option<Chain>)>::empty());
        assert(nodes_view(v.push(x)) == seq![(node_view(x.0), x.1)] + Seq::<(
            NodeV,
            Option<Chain>,
        )>::empty());
        assert(seq![(node_view(x.0), x.1)] + Seq::<(NodeV, Option<Chain>)>::empty() =~= seq![
            (node_view(x.0), x.1),
        ]);
        assert(Seq::<(NodeV, Option<Chain>)>::empty() + seq![(node_view(x.0), x.1)] =~= seq![
            (node_view(x.0), x.1),
        ]);
    } else {
        lemma_nodes_view_snoc(v.skip(1), x);
        assert(v.push(x)[0] == v[0]);
        assert(v.push(x).skip(1) =~= v.skip(1).push(x));
        assert(seq![(node_view(v[0].0), v[0].1)] + (nodes_view(v.skip(1)) + seq![
            (node_view(x.0), x.1),
        ]) =~= (seq![(node_view(v[0].0), v[0].1)] + nodes_view(v.skip(1))) + seq![
            (node_view(x.0), x.1),
        ]);
    }
}

/// A failed term parse never reports a URL error.
pub proof fn lemma_parse_field_err(s: Seq<char>, start: int)
    ensures
        spec_parse_field(s, start) matches Err(e) ==> !(e matches ODataError::Url),
    decreases s.len(), filter_tokens(s).len() - start, 0int,
{
    let ts = filter_tokens(s);
    if 0 <= start < ts.len() {
        let raw = ts[start];
        let not = crate::chars::starts_with(raw, "not"@);
        let field = term_field(raw);
        if field.len() > 0 && field[0] == '(' {
            if not {
                lemma_trim_start_matches_len(raw, "not"@);
                lemma_trim_spaces_len(crate::chars::trim_start_matches(raw, "not"@));
            }
            lemma_group_inner_small(s, start, field);
            match spec_find_closing(field, ts, start + 1) {
                Some(p) => {
                    lemma_parse_filter_err(p.0);
                },
                None => {},
            }
        }
    }
}

/// A failed chain parse never reports a URL error.
pub proof fn lemma_parse_chain_err(s: Seq<char>, start: int)
    ensures
        spec_parse_chain(s, start) matches Err(e) ==> !(e matches ODataError::Url),
    decreases s.len(), filter_tokens(s).len() - start, 1int,
{
    lemma_parse_field_err(s, start);
    lemma_parse_field_next(s, start);
    match spec_parse_field(s, start) {
        Ok(p) => {
            let ts = filter_tokens(s);
            if p.1 < ts.len() && p.1 > start {
                lemma_parse_chain_err(s, p.1 + 1);
            }
        },
        Err(_) => {},
    }
}

/// A failed filter parse never reports a URL error.
pub proof fn lemma_parse_filter_err(s: Seq<char>)
    ensures
        spec_parse_filter(s) matches Err(e) ==> !(e matches ODataError::Url),
    decreases s.len(), filter_tokens(s).len() + 1, 0int,
{
    lemma_parse_chain_err(s, 0);
}

/// A failed `$orderby` parse reports only its own error.
pub proof fn lemma_orderby_err(entries: Seq<Seq<char>>, i: int)
    ensures
        spec_orderby_from(entries, i) matches Err(e) ==> e == ODataError::InvalidQueryOrderBy,
    decreases entries.len() - i,
{
    if 0 <= i < entries.len() {
        lemma_orderby_err(entries, i + 1);
    }
}

/// The non-empty pieces of a token list, in order.
pub open spec fn drop_empties(ts: Seq<Seq<char>>) -> Seq<Seq<char>>
    decreases ts.len(),
{
    if ts.len() == 0 {
        Seq::empty()
    } else {
        drop_empties(ts.drop_last()) + (if ts.last().len() == 0 {
            Seq::empty()
        } else {
            seq![ts.last()]
        })
    }
}

/// One `$orderby` entry: a field name and an optional `asc` / `desc`
/// direction word; more than two words make the entry malformed.
pub open spec fn spec_orderby_entry(s: Seq<char>) -> Option<
    (Seq<char>, crate::resource::OrderByDirection),
> {
    let toks = drop_empties(crate::chars::split_on(s, ' '));
    if toks.len() == 1 {
        Some((toks[0], crate::resource::OrderByDirection::Asc))
    } else if toks.len() == 2 {
        Some(
            (
                toks[0],
                if toks[1] == "desc"@ {
                    crate::resource::OrderByDirection::Desc
                } else {
                    crate::resource::OrderByDirection::Asc
                },
            ),
        )
    } else {
        None
    }
}

/// The `$orderby` entries at and after `i`, or the error on the first
/// malformed one.
pub open spec fn spec_orderby_from(entries: Seq<Seq<char>>, i: int) -> Result<
    Seq<(Seq<char>, crate::resource::OrderByDirection)>,
    ODataError,
>
    decreases entries.len() - i,
{
    if i < 0 || i >= entries.len() {
        Ok(Seq::empty())
    } else {
        match spec_orderby_entry(entries[i]) {
            None => Err(ODataError::InvalidQueryOrderBy),
            Some(e) => match spec_orderby_from(entries, i + 1) {
                Ok(rest) => Ok(seq![e] + rest),
                Err(err) => Err(err),
            },
        }
    }
}

/// A parsed `$orderby` value: comma-separated entries of `field [asc|desc]`.
pub open spec fn spec_orderby(s: Seq<char>) -> Result<
    Seq<(Seq<char>, crate::resource::OrderByDirection)>,
    ODataError,
> {
    spec_orderby_from(crate::chars::split_on(s, ','), 0)
}

/// Keep only the non-empty pieces of a token list.
#[verifier::loop_isolation(false)]
fn drop_empty_tokens(ts: &Vec<Vec<char>>) -> (r: Vec<Vec<char>>)
    ensures
        r@.map_values(|t: Vec<char>| t@) == drop_empties(ts@.map_values(|t: Vec<char>| t@)),
{
    let ghost tsv = ts@.map_values(|t: Vec<char>| t@);
    let mut r: Vec<Vec<char>> = Vec::new();
    let mut i: usize = 0;
    proof {
        assert(tsv.take(0) =~= Seq::<Seq<char>>::empty());
        assert(r@.map_values(|t: Vec<char>| t@) =~= drop_empties(tsv.take(0)));
    }
    while i < ts.len()
        invariant
            i <= ts@.len(),
            r@.map_values(|t: Vec<char>| t@) == drop_empties(tsv.take(i as int)),
        decreases ts.len() - i,
    {
        proof {
            assert(tsv.take(i + 1 as int).drop_last() =~= tsv.take(i as int));
            assert(tsv.take(i + 1 as int).last() == tsv[i as int]);
        }
        let tok = &ts[i];
        proof {
            assert(tsv[i as int] == tok@);
        }
        if tok.len() > 0 {
            let ghost old_r = r@;
            let copy = crate::chars::subchars(tok, 0, tok.len());
            proof {
                assert(copy@ =~= tok@);
            }
            r.push(copy);
            proof {
                assert(r@.map_values(|t: Vec<char>| t@) =~= old_r.map_values(
                    |t: Vec<char>| t@,
                ) + seq![tsv[i as int]]);
            }
        } else {
            proof {
                assert(drop_empties(tsv.take(i + 1 as int)) =~= drop_empties(tsv.take(i as int))
                    + Seq::<Seq<char>>::empty());
            }
        }
        i += 1;
    }
    proof {
        assert(tsv.take(tsv.len() as int) =~= tsv);
    }
    r
}

/// Parse a `$orderby` value: a comma-separated list of `field [asc|desc]`
/// entries, ascending when no direction is named; an entry of more than
/// two words is rejected.
#[verifier::loop_isolation(false)]
pub fn parse_orderby(value: &str) -> (r: Result<Vec<crate::resource::OrderBy>, ODataError>)
    ensures
        (match r {
            Ok(v) => Ok(
                v@.map_values(|o: crate::resource::OrderBy| (o.field@, o.direction)),
            ),
            Err(e) => Err::<Seq<(Seq<char>, crate::resource::OrderByDirection)>, _>(e),
        }) == spec_orderby(value@),
{
    let chars = crate::chars::str_chars(value);
    let entries = crate::chars::split_on_char(&chars, ',');
    let ghost ev = entries@.map_values(|t: Vec<char>| t@);
    let mut out: Vec<crate::resource::OrderBy> = Vec::new();
    let mut i: usize = 0;
    proof {
        match spec_orderby_from(ev, 0) {
            Ok(rest) => {
                assert(Seq::<(Seq<char>, crate::resource::OrderByDirection)>::empty() + rest
                    =~= rest);
            },
            Err(_) => {},
        }
    }
    while i < entries.len()
        invariant
            i <= ev.len(),
            (match spec_orderby_from(ev, i as int) {
                Ok(rest) => spec_orderby_from(ev, 0) == Ok::<_, ODataError>(
                    out@.map_values(
                        |o: crate::resource::OrderBy| (o.field@, o.direction),
                    ) + rest,
                ),
                Err(e) => spec_orderby_from(ev, 0) == Err::<
                    Seq<(Seq<char>, crate::resource::OrderByDirection)>,
                    _,
                >(e),
            }),
        decreases entries.len() - i,
    {
        let entry_tokens = crate::chars::split_on_char(&entries[i], ' ');
        let toks = drop_empty_tokens(&entry_tokens);
        proof {
            assert(ev[i as int] == entries@[i as int]@);
        }
        if toks.len() == 1 {
            let field = crate::bridge::string_from_chars(&toks[0]);
            let ghost old_out = out@;
            out.push(
                crate::resource::OrderBy {
                    field,
                    direction: crate::resource::OrderByDirection::Asc,
                },
            );
            proof {
                assert(out@.drop_last() =~= old_out);
                lemma_orderby_snoc(old_out, out@, ev, i as int);
            }
        } else if toks.len() == 2 {
            let field = crate::bridge::string_from_chars(&toks[0]);
            let direction = if crate::chars::chars_eq_str(&toks[1], "desc") {
                crate::resource::OrderByDirection::Desc
            } else {
                crate::resource::OrderByDirection::Asc
            };
            let ghost old_out = out@;
            out.push(crate::resource::OrderBy { field, direction });
            proof {
                assert(out@.drop_last() =~= old_out);
                lemma_orderby_snoc(old_out, out@, ev, i as int);
            }
        } else {
            return Err(ODataError::InvalidQueryOrderBy);
        }
        i += 1;
    }
    Ok(out)
}

proof fn lemma_orderby_snoc(
    old_out: Seq<crate::resource::OrderBy>,
    new_out: Seq<crate::resource::OrderBy>,
    ev: Seq<Seq<char>>,
    i: int,
)
    requires
        0 <= i < ev.len(),
        new_out.len() == old_out.len() + 1,
        new_out.drop_last() == old_out,
        spec_orderby_entry(ev[i]) matches Some(e) && (new_out.last().field@, new_out.last().direction)
            == e,
        (match spec_orderby_from(ev, i) {
            Ok(rest) => spec_orderby_from(ev, 0) == Ok::<_, ODataError>(
                old_out.map_values(|o: crate::resource::OrderBy| (o.field@, o.direction)) + rest,
            ),
            Err(e) => spec_orderby_from(ev, 0) == Err::<
                Seq<(Seq<char>, crate::resource::OrderByDirection)>,
                _,
            >(e),
        }),
    ensures
        (match spec_orderby_from(ev, i + 1) {
            Ok(rest) => spec_orderby_from(ev, 0) == Ok::<_, ODataError>(
                new_out.map_values(|o: crate::resource::OrderBy| (o.field@, o.direction)) + rest,
            ),
            Err(e) => spec_orderby_from(ev, 0) == Err::<
                Seq<(Seq<char>, crate::resource::OrderByDirection)>,
                _,
            >(e),
        }),
{
    let f = |o: crate::resource::OrderBy| (o.field@, o.direction);
    match spec_orderby_from(ev, i + 1) {
        Ok(rest) => {
            match spec_orderby_entry(ev[i]) {
                Some(e) => {
                    assert(spec_orderby_from(ev, i) == Ok::<_, ODataError>(seq![e] + rest));
                    assert(new_out.map_values(f) =~= old_out.map_values(f).push(f(new_out.last())));
                    assert(old_out.map_values(f) + (seq![e] + rest) =~= new_out.map_values(f)
                        + rest);
                },
                None => {},
            }
        },
        Err(_) => {},
    }
}

proof fn lemma_count_char_one(x: char, c: char)
    ensures
        crate::chars::count_char(seq![x], c) == if x == c {
            1int
        } else {
            0int
        },
{
    let s = seq![x];
    assert(s.len() == 1);
    assert(s.last() == x);
    assert(s.drop_last() =~= Seq::<char>::empty());
    assert(crate::chars::count_char(s.drop_last(), c) == 0);
}

proof fn lemma_count_char_le_len(s: Seq<char>, c: char)
    ensures
        0 <= crate::chars::count_char(s, c) <= s.len(),
    decreases s.len(),
{
    if s.len() > 0 {
        lemma_count_char_le_len(s.drop_last(), c);
    }
}

} // verus!
