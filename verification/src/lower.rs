//! Query lowering: from a parsed resource and a column catalog to a
//! neutral relational predicate tree, and from there to SQL text.

use vstd::prelude::*;

use crate::bridge::snake_of;
use crate::bridge::to_snake;
use crate::columns::column_pairs;
use crate::columns::ColumnList;
use crate::columns::find_key;
use crate::columns::SqlColumnType;
use crate::error::ODataError;
use crate::filter::FilterOpV;
use crate::filter::filters_view;
use crate::filter::NodeV;
use crate::resource::Chain;
use crate::resource::FieldFilter;
use crate::resource::Filters;
use crate::resource::FilterOperation;
use crate::value::Value;
use crate::value::value_view;
use crate::value::ValueV;

verus! {

broadcast use vstd::std_specs::vec::group_vec_axioms, vstd::seq::axiom_seq_index_decreases;

/// A comparison operator of the neutral predicate tree.
#[derive(Debug, PartialEq, Eq, Structural, Clone, Copy)]
pub enum SqlOp {
    Eq,
    Ne,
    Gt,
    Ge,
    Lt,
    Le,
}

/// One atomic predicate over a column.
#[derive(Debug, PartialEq)]
pub enum SqlExpr {
    Cmp { col: String, op: SqlOp, value: Value },
    IsNull { col: String },
    IsNotNull { col: String },
    InList { col: String, values: Vec<Value> },
    Like { col: String, pattern: String },
    Not(Box<SqlExpr>),
}

/// How a combinator joins its children.
#[derive(Debug, PartialEq, Eq, Structural, Clone, Copy)]
pub enum CondOp {
    All,
    Any,
}

/// A combinator node of the predicate tree.
#[derive(Debug, PartialEq)]
pub struct Cond {
    pub op: CondOp,
    pub negated: bool,
    pub items: Vec<CondItem>,
}

/// A child of a combinator: an atomic predicate or a nested combinator.
#[derive(Debug, PartialEq)]
pub enum CondItem {
    Leaf(SqlExpr),
    Sub(Cond),
}

/// Ghost mirror of `SqlExpr`.
pub enum SqlExprV {
    CmpV(Seq<char>, SqlOp, ValueV),
    IsNullV(Seq<char>),
    IsNotNullV(Seq<char>),
    InListV(Seq<char>, Seq<ValueV>),
    LikeV(Seq<char>, Seq<char>),
    NotV(Box<SqlExprV>),
}

/// Ghost mirror of `Cond`.
pub struct CondV {
    pub op: CondOp,
    pub negated: bool,
    pub items: Seq<CondItemV>,
}

/// Ghost mirror of `CondItem`.
pub enum CondItemV {
    ItemExpr(SqlExprV),
    ItemCond(CondV),
}

/// The abstract contents of an atomic predicate.
pub open spec fn expr_view(e: SqlExpr) -> SqlExprV
    decreases e,
{
    match e {
        SqlExpr::Cmp { col, op, value } => SqlExprV::CmpV(col@, op, value_view(value)),
        SqlExpr::IsNull { col } => SqlExprV::IsNullV(col@),
        SqlExpr::IsNotNull { col } => SqlExprV::IsNotNullV(col@),
        SqlExpr::InList { col, values } => SqlExprV::InListV(
            col@,
            values@.map_values(|v: Value| value_view(v)),
        ),
        SqlExpr::Like { col, pattern } => SqlExprV::LikeV(col@, pattern@),
        SqlExpr::Not(inner) => SqlExprV::NotV(Box::new(expr_view(*inner))),
    }
}

/// The abstract contents of a combinator's children.
pub open spec fn items_view(v: Seq<CondItem>) -> Seq<CondItemV>
    decreases v,
{
    if v.len() == 0 {
        Seq::empty()
    } else {
        seq![item_view(v[0])] + items_view(v.skip(1))
    }
}

/// The abstract contents of one child.
pub open spec fn item_view(i: CondItem) -> CondItemV
    decreases i,
{
    match i {
        CondItem::Leaf(e) => CondItemV::ItemExpr(expr_view(e)),
        CondItem::Sub(c) => CondItemV::ItemCond(
            CondV { op: c.op, negated: c.negated, items: items_view(c.items@) },
        ),
    }
}

/// The abstract contents of a combinator node.
pub open spec fn cond_view(c: Cond) -> CondV {
    CondV { op: c.op, negated: c.negated, items: items_view(c.items@) }
}

/// Element-wise reading of `items_view`.
pub proof fn lemma_items_view_parts(v: Seq<CondItem>)
    ensures
        items_view(v).len() == v.len(),
        forall|i: int| 0 <= i < v.len() ==> #[trigger] items_view(v)[i] == item_view(v[i]),
    decreases v.len(),
{
    if v.len() > 0 {
        lemma_items_view_parts(v.skip(1));
        assert(forall|i: int| 1 <= i < v.len() ==> v.skip(1)[i - 1] == v[i]);
    }
}

/// Pushing one child extends the view by that child.
pub proof fn lemma_items_view_snoc(v: Seq<CondItem>, x: CondItem)
    ensures
        items_view(v.push(x)) == items_view(v) + seq![item_view(x)],
    decreases v.len(),
{
    if v.len() == 0 {
        assert(v.push(x)[0] == x);
        assert(v.push(x).skip(1) =~= Seq::<CondItem>::empty());
        assert(items_view(Seq::<CondItem>::empty()) == Seq::<CondItemV>::empty());
        assert(items_view(v) == Seq::<CondItemV>::empty());
        assert(items_view(v.push(x)) == seq![item_view(x)] + Seq::<CondItemV>::empty());
        assert(seq![item_view(x)] + Seq::<CondItemV>::empty() =~= seq![item_view(x)]);
        assert(Seq::<CondItemV>::empty() + seq![item_view(x)] =~= seq![item_view(x)]);
    } else {
        lemma_items_view_snoc(v.skip(1), x);
        assert(v.push(x)[0] == v[0]);
        assert(v.push(x).skip(1) =~= v.skip(1).push(x));
        assert(seq![item_view(v[0])] + (items_view(v.skip(1)) + seq![item_view(x)]) =~= (seq![
            item_view(v[0]),
        ] + items_view(v.skip(1))) + seq![item_view(x)]);
    }
}

/// The AND-run analysis state after the first `i` chain positions: the top
/// combinator seen so far, the open run's start, and the closed runs.
pub open spec fn and_groups_state(fv: Seq<(NodeV, Option<Chain>)>, i: int) -> (
    CondOp,
    Option<int>,
    Seq<(int, int)>,
)
    decreases i,
{
    if i <= 0 {
        (CondOp::All, None, Seq::empty())
    } else {
        let p = and_groups_state(fv, i - 1);
        match fv[i - 1].1 {
            Some(Chain::And) => (
                p.0,
                if p.1 is None {
                    Some(i - 1)
                } else {
                    p.1
                },
                p.2,
            ),
            Some(Chain::Or) => (
                CondOp::Any,
                None,
                match p.1 {
                    Some(st) => if st != i - 1 {
                        p.2.push((st, i - 1))
                    } else {
                        p.2
                    },
                    None => p.2,
                },
            ),
            None => p,
        }
    }
}

/// The AND runs of a chain and its top-level combinator: a run spans from
/// the first position of a maximal block of `and` connectives to the
/// position its last `and` connects to; one-position runs are not kept. The top level is `any` as soon as
/// one `or` occurs.
pub open spec fn chain_info(fv: Seq<(NodeV, Option<Chain>)>) -> (CondOp, Seq<(int, int)>) {
    let p = and_groups_state(fv, fv.len() as int);
    let groups = match p.1 {
        Some(st) => if st != fv.len() - 1 {
            p.2.push((st, fv.len() - 1))
        } else {
            p.2
        },
        None => p.2,
    };
    (p.0, groups)
}

/// Whether a position lies in one of the runs.
pub open spec fn within_groups(groups: Seq<(int, int)>, pos: int) -> bool {
    exists|g: int| 0 <= g < groups.len() && (#[trigger] groups[g]).0 <= pos <= groups[g].1
}

/// The positions of the maximal multi-position AND runs of a filter chain.
pub struct AndGroups(pub Vec<(usize, usize)>);

impl AndGroups {
    /// The runs as ghost pairs.
    pub open spec fn view(self) -> Seq<(int, int)> {
        Seq::new(self.0@.len(), |i: int| (self.0@[i].0 as int, self.0@[i].1 as int))
    }

    /// Determine whether the position lies within a run of ANDs.
    pub fn within_group(&self, pos: usize) -> (r: bool)
        ensures
            r == within_groups(self@, pos as int),
    {
        let mut g: usize = 0;
        while g < self.0.len()
            invariant
                g <= self.0@.len(),
                forall|j: int|
                    0 <= j < g ==> !((#[trigger] self@[j]).0 <= pos as int <= self@[j].1),
            decreases self.0@.len() - g,
        {
            let pair = self.0[g];
            if pair.0 <= pos && pos <= pair.1 {
                proof {
                    assert(self@[g as int].0 <= pos as int <= self@[g as int].1);
                }
                return true;
            }
            proof {
                assert(!(self@[g as int].0 <= pos as int <= self@[g as int].1));
            }
            g += 1;
        }
        false
    }
}

/// Walk the chain connectives and find the top-level combinator together
/// with the maximal AND runs that need nesting under it.
#[verifier::loop_isolation(false)]
pub fn build_condition_from_chain(filters: &Filters) -> (r: (CondOp, AndGroups))
    ensures
        (r.0, r.1@) == chain_info(filters_view(*filters)),
{
    let ghost fv = filters_view(*filters);
    proof {
        crate::filter::lemma_nodes_view_parts(filters.0@);
    }
    let mut top: CondOp = CondOp::All;
    let mut first_and_pos: Option<usize> = None;
    let mut and_groups: Vec<(usize, usize)> = Vec::new();
    let mut pos: usize = 0;
    proof {
        assert(AndGroups(and_groups)@ =~= Seq::<(int, int)>::empty());
    }
    while pos < filters.0.len()
        invariant
            pos <= fv.len(),
            fv.len() == filters.0@.len(),
            (
                top,
                match first_and_pos {
                    Some(p) => Some(p as int),
                    None => None::<int>,
                },
                AndGroups(and_groups)@,
            ) == and_groups_state(fv, pos as int),
        decreases filters.0@.len() - pos,
    {
        let chain = &filters.0[pos].1;
        proof {
            assert(fv[pos as int].1 == filters.0@[pos as int].1);
        }
        match chain {
            Some(Chain::And) => {
                if first_and_pos.is_none() {
                    first_and_pos = Some(pos);
                }
            },
            Some(Chain::Or) => {
                match first_and_pos {
                    Some(st) => {
                        if st != pos {
                            let ghost old_groups = AndGroups(and_groups)@;
                            and_groups.push((st, pos));
                            proof {
                                assert(AndGroups(and_groups)@ =~= old_groups.push(
                                    (st as int, pos as int),
                                ));
                            }
                        }
                        first_and_pos = None;
                    },
                    None => {},
                }
                top = CondOp::Any;
            },
            None => {},
        }
        pos += 1;
    }
    match first_and_pos {
        Some(st) => {
            let last: usize = filters.0.len() - 1;
            if st != last {
                let ghost old_groups = AndGroups(and_groups)@;
                and_groups.push((st, last));
                proof {
                    assert(AndGroups(and_groups)@ =~= old_groups.push((st as int, last as int)));
                }
            }
            (top, AndGroups(and_groups))
        },
        None => (top, AndGroups(and_groups)),
    }
}

/// The option map of a resource, as text pairs.
pub open spec fn options_view(opts: Seq<(String, String)>) -> Seq<(Seq<char>, Seq<char>)> {
    opts.map_values(|p: (String, String)| (p.0@, p.1@))
}

/// The first option with the given name.
pub open spec fn find_option(opts: Seq<(Seq<char>, Seq<char>)>, name: Seq<char>, i: int) -> Option<
    int,
>
    decreases opts.len() - i,
{
    if i < 0 || i >= opts.len() {
        None
    } else if opts[i].0 == name {
        Some(i)
    } else {
        find_option(opts, name, i + 1)
    }
}

/// A literal resolves to itself; a `@name` reference resolves to the
/// classified text of the matching query option, unless there is none or
/// it is itself a reference.
pub open spec fn spec_resolve(v: ValueV, opts: Seq<(Seq<char>, Seq<char>)>) -> Option<ValueV> {
    match v {
        ValueV::OptV(name) => match find_option(opts, name, 0) {
            Some(i) => {
                let ex = crate::value::spec_value_of(opts[i].1);
                if ex matches ValueV::OptV(_) {
                    None
                } else {
                    Some(ex)
                }
            },
            None => None,
        },
        _ => Some(v),
    }
}

proof fn lemma_find_option_range(opts: Seq<(Seq<char>, Seq<char>)>, name: Seq<char>, j: int)
    ensures
        find_option(opts, name, j) matches Some(i) ==> j <= i < opts.len() && opts[i].0 == name,
    decreases opts.len() - j,
{
    if 0 <= j < opts.len() && opts[j].0 != name {
        lemma_find_option_range(opts, name, j + 1);
    }
}

/// Resolve a literal against the request's `@name` query options.
#[verifier::loop_isolation(false)]
pub fn resolve_value(v: &Value, options: &Vec<(String, String)>) -> (r: Option<Value>)
    requires
        v.wf(),
    ensures
        (match r {
            Some(rv) => Some(value_view(rv)),
            None => None::<ValueV>,
        }) == spec_resolve(value_view(*v), options_view(options@)),
        r matches Some(rv) ==> rv.wf(),
{
    let ghost ov = options_view(options@);
    match v {
        Value::Null => Some(Value::Null),
        Value::String(s) => Some(Value::String(s.clone())),
        Value::Integer(n) => Some(Value::Integer(*n)),
        Value::Boolean(b) => Some(Value::Boolean(*b)),
        Value::Decimal(d) => Some(Value::Decimal(*d)),
        Value::QueryOption(name) => {
            proof {
                lemma_find_option_range(ov, name@, 0);
            }
            let mut i: usize = 0;
            while i < options.len()
                invariant
                    i <= ov.len(),
                    find_option(ov, name@, 0) == find_option(ov, name@, i as int),
                decreases options@.len() - i,
            {
                let key = &options[i].0;
                proof {
                    assert(ov[i as int] == (options@[i as int].0@, options@[i as int].1@));
                }
                if crate::chars::chars_eq_str(&crate::chars::str_chars(key.as_str()), name.as_str())
                {
                    let value_chars = crate::chars::str_chars(options[i].1.as_str());
                    let ex = crate::value::extract_value(&value_chars);
                    match ex {
                        Value::QueryOption(_) => {
                            return None;
                        },
                        other => {
                            return Some(other);
                        },
                    }
                }
                proof {
                    assert(ov[i as int].0 != name@);
                }
                i += 1;
            }
            None
        },
    }
}

/// Well-formedness of an atomic predicate: every literal in it is well
/// formed.
impl SqlExpr {
    pub open spec fn wf(self) -> bool
        decreases self,
    {
        match self {
            SqlExpr::Cmp { col: _, op: _, value } => value.wf(),
            SqlExpr::IsNull { .. } => true,
            SqlExpr::IsNotNull { .. } => true,
            SqlExpr::InList { col: _, values } => forall|i: int|
                0 <= i < values@.len() ==> (#[trigger] values@[i]).wf(),
            SqlExpr::Like { .. } => true,
            SqlExpr::Not(inner) => inner.wf(),
        }
    }
}

impl CondItem {
    pub open spec fn wf(self) -> bool
        decreases self,
    {
        match self {
            CondItem::Leaf(e) => e.wf(),
            CondItem::Sub(c) => c.wf(),
        }
    }
}

impl Cond {
    pub open spec fn wf(self) -> bool
        decreases self,
    {
        forall|i: int| 0 <= i < self.items@.len() ==> (#[trigger] self.items@[i]).wf()
    }
}

/// The outcome of lowering one leaf: a predicate, an unsupported construct
/// carrying its source text, or a silently dropped leaf.
pub enum LowerV {
    DoneV(SqlExprV),
    UnsupportedV(Seq<char>),
    DroppedV,
}

/// Wrap an expression in logical NOT when the leaf was negated.
pub open spec fn wrap_not(negate: bool, e: SqlExprV) -> SqlExprV {
    if negate {
        SqlExprV::NotV(Box::new(e))
    } else {
        e
    }
}

/// Resolve every value of an `in` list, dropping the unresolvable ones.
pub open spec fn resolve_list(vs: Seq<ValueV>, opts: Seq<(Seq<char>, Seq<char>)>) -> Seq<ValueV>
    decreases vs.len(),
{
    if vs.len() == 0 {
        Seq::empty()
    } else {
        resolve_list(vs.drop_last(), opts) + (match spec_resolve(vs.last(), opts) {
            Some(rv) => seq![rv],
            None => Seq::empty(),
        })
    }
}

/// How one leaf lowers against a column: equality with null becomes a null
/// check, the other comparators map directly, `in` keeps its list, and
/// `has` checks and raw function calls are not implemented.
pub open spec fn spec_compare(
    col: Seq<char>,
    op: FilterOpV,
    negate: bool,
    opts: Seq<(Seq<char>, Seq<char>)>,
) -> LowerV {
    match op {
        FilterOpV::EqV(v) => match spec_resolve(v, opts) {
            Some(rv) => if (rv matches ValueV::NullV) {
                LowerV::DoneV(wrap_not(negate, SqlExprV::IsNullV(col)))
            } else {
                LowerV::DoneV(wrap_not(negate, SqlExprV::CmpV(col, SqlOp::Eq, rv)))
            },
            None => LowerV::DroppedV,
        },
        FilterOpV::NeV(v) => match spec_resolve(v, opts) {
            Some(rv) => if (rv matches ValueV::NullV) {
                LowerV::DoneV(wrap_not(negate, SqlExprV::IsNotNullV(col)))
            } else {
                LowerV::DoneV(wrap_not(negate, SqlExprV::CmpV(col, SqlOp::Ne, rv)))
            },
            None => LowerV::DroppedV,
        },
        FilterOpV::GtV(v) => match spec_resolve(v, opts) {
            Some(rv) => LowerV::DoneV(wrap_not(negate, SqlExprV::CmpV(col, SqlOp::Gt, rv))),
            None => LowerV::DroppedV,
        },
        FilterOpV::GeV(v) => match spec_resolve(v, opts) {
            Some(rv) => LowerV::DoneV(wrap_not(negate, SqlExprV::CmpV(col, SqlOp::Ge, rv))),
            None => LowerV::DroppedV,
        },
        FilterOpV::LtV(v) => match spec_resolve(v, opts) {
            Some(rv) => LowerV::DoneV(wrap_not(negate, SqlExprV::CmpV(col, SqlOp::Lt, rv))),
            None => LowerV::DroppedV,
        },
        FilterOpV::LeV(v) => match spec_resolve(v, opts) {
            Some(rv) => LowerV::DoneV(wrap_not(negate, SqlExprV::CmpV(col, SqlOp::Le, rv))),
            None => LowerV::DroppedV,
        },
        FilterOpV::InV(vs) => LowerV::DoneV(
            wrap_not(negate, SqlExprV::InListV(col, resolve_list(vs, opts))),
        ),
        FilterOpV::HasV(s) => LowerV::UnsupportedV(s),
        FilterOpV::FunctionV(s) => LowerV::UnsupportedV(s),
    }
}

/// Wrap an expression in logical NOT when asked to.
fn wrap_not_expr(negate: bool, e: SqlExpr) -> (r: SqlExpr)
    requires
        e.wf(),
    ensures
        expr_view(r) == wrap_not(negate, expr_view(e)),
        r.wf(),
{
    if negate {
        SqlExpr::Not(Box::new(e))
    } else {
        e
    }
}

/// Lower one leaf of the filter tree to a predicate on a matched column.
/// A `has` check or raw function call on a matched column is refused as
/// not implemented, with its source text; a comparison against an
/// unresolvable `@name` reference contributes nothing.
#[verifier::loop_isolation(false)]
pub fn compare_opp(
    column: &String,
    operation: &FilterOperation,
    negate: bool,
    options: &Vec<(String, String)>,
) -> (r: Result<Option<SqlExpr>, ODataError>)
    requires
        operation.wf(),
    ensures
        (match spec_compare(
            column@,
            crate::filter::op_view(*operation),
            negate,
            options_view(options@),
        ) {
            LowerV::DoneV(ev) => r matches Ok(o) && (o matches Some(e) && expr_view(e) == ev
                && e.wf()),
            LowerV::UnsupportedV(t) => r matches Err(err) && (err matches
                ODataError::NotImplemented(m) && m@ == t),
            LowerV::DroppedV => r matches Ok(o) && o is None,
        }),
{
    match operation {
        FilterOperation::Eq(v) => {
            match resolve_value(v, options) {
                Some(rv) => match rv {
                    Value::Null => Ok(
                        Some(wrap_not_expr(negate, SqlExpr::IsNull { col: column.clone() })),
                    ),
                    other => Ok(
                        Some(
                            wrap_not_expr(
                                negate,
                                SqlExpr::Cmp { col: column.clone(), op: SqlOp::Eq, value: other },
                            ),
                        ),
                    ),
                },
                None => Ok(None),
            }
        },
        FilterOperation::Ne(v) => {
            match resolve_value(v, options) {
                Some(rv) => match rv {
                    Value::Null => Ok(
                        Some(wrap_not_expr(negate, SqlExpr::IsNotNull { col: column.clone() })),
                    ),
                    other => Ok(
                        Some(
                            wrap_not_expr(
                                negate,
                                SqlExpr::Cmp { col: column.clone(), op: SqlOp::Ne, value: other },
                            ),
                        ),
                    ),
                },
                None => Ok(None),
            }
        },
        FilterOperation::Gt(v) => {
            match resolve_value(v, options) {
                Some(rv) => Ok(
                    Some(
                        wrap_not_expr(
                            negate,
                            SqlExpr::Cmp { col: column.clone(), op: SqlOp::Gt, value: rv },
                        ),
                    ),
                ),
                None => Ok(None),
            }
        },
        FilterOperation::Ge(v) => {
            match resolve_value(v, options) {
                Some(rv) => Ok(
                    Some(
                        wrap_not_expr(
                            negate,
                            SqlExpr::Cmp { col: column.clone(), op: SqlOp::Ge, value: rv },
                        ),
                    ),
                ),
                None => Ok(None),
            }
        },
        FilterOperation::Lt(v) => {
            match resolve_value(v, options) {
                Some(rv) => Ok(
                    Some(
                        wrap_not_expr(
                            negate,
                            SqlExpr::Cmp { col: column.clone(), op: SqlOp::Lt, value: rv },
                        ),
                    ),
                ),
                None => Ok(None),
            }
        },
        FilterOperation::Le(v) => {
            match resolve_value(v, options) {
                Some(rv) => Ok(
                    Some(
                        wrap_not_expr(
                            negate,
                            SqlExpr::Cmp { col: column.clone(), op: SqlOp::Le, value: rv },
                        ),
                    ),
                ),
                None => Ok(None),
            }
        },
        FilterOperation::In(vs) => {
            let ghost vsv = vs@.map_values(|v: Value| value_view(v));
            let mut resolved: Vec<Value> = Vec::new();
            let mut i: usize = 0;
            proof {
                assert(vsv.take(0) =~= Seq::<ValueV>::empty());
            }
            while i < vs.len()
                invariant
                    i <= vsv.len(),
                    resolved@.map_values(|v: Value| value_view(v)) == resolve_list(
                        vsv.take(i as int),
                        options_view(options@),
                    ),
                    forall|k: int| 0 <= k < resolved@.len() ==> (#[trigger] resolved@[k]).wf(),
                decreases vs@.len() - i,
            {
                proof {
                    assert(vsv.take(i + 1 as int).drop_last() =~= vsv.take(i as int));
                    assert(vsv.take(i + 1 as int).last() == vsv[i as int]);
                    assert(vsv[i as int] == value_view(vs@[i as int]));
                }
                let ghost old_resolved = resolved@;
                match resolve_value(&vs[i], options) {
                    Some(rv) => {
                        resolved.push(rv);
                        proof {
                            assert(resolved@.map_values(|v: Value| value_view(v))
                                =~= old_resolved.map_values(|v: Value| value_view(v)) + seq![
                                value_view(rv),
                            ]);
                        }
                    },
                    None => {
                        proof {
                            assert(resolved@.map_values(|v: Value| value_view(v))
                                + Seq::<ValueV>::empty() =~= resolved@.map_values(
                                |v: Value| value_view(v),
                            ));
                        }
                    },
                }
                i += 1;
            }
            proof {
                assert(vsv.take(vsv.len() as int) =~= vsv);
            }
            Ok(
                Some(
                    wrap_not_expr(
                        negate,
                        SqlExpr::InList { col: column.clone(), values: resolved },
                    ),
                ),
            )
        },
        FilterOperation::Has(s) => Err(ODataError::NotImplemented(s.clone())),
        FilterOperation::Function(s) => Err(ODataError::NotImplemented(s.clone())),
    }
}

/// The builder state: the top-level children so far, and the open AND-run
/// group, if one is being collected.
pub enum BuildV {
    Building(Seq<CondItemV>, Option<Seq<CondItemV>>),
    FailedB(Seq<char>),
}

/// The outcome of building a condition: the combinator tree, or the source
/// text of an unsupported construct.
pub enum CondResultV {
    CondDone(CondV),
    CondUnsupported(Seq<char>),
}

/// Close the open AND-run group, if any, into an `all-of` child.
pub open spec fn flush_grouped(cond: Seq<CondItemV>, grouped: Option<Seq<CondItemV>>) -> Seq<
    CondItemV,
> {
    match grouped {
        Some(g) => cond.push(
            CondItemV::ItemCond(CondV { op: CondOp::All, negated: false, items: g }),
        ),
        None => cond,
    }
}

/// The builder state after the first `i` filter positions. A leaf inside
/// an AND run goes to the open group (closing the previous group when the
/// run ends); a leaf whose snake-cased field is not in the catalog
/// contributes nothing; a nested group is built recursively and negated
/// when asked.
pub open spec fn build_state(
    fv: Seq<(NodeV, Option<Chain>)>,
    cat: Seq<(Seq<char>, (Seq<char>, SqlColumnType))>,
    opts: Seq<(Seq<char>, Seq<char>)>,
    groups: Seq<(int, int)>,
    i: int,
) -> BuildV
    decreases fv, 0int, i,
{
    if i <= 0 || i > fv.len() {
        BuildV::Building(Seq::empty(), None)
    } else {
        match build_state(fv, cat, opts, groups, i - 1) {
            BuildV::FailedB(t) => BuildV::FailedB(t),
            BuildV::Building(cond, grouped) => match fv[i - 1].0 {
                NodeV::LeafV { not, field, op } => {
                    let w = within_groups(groups, i - 1);
                    let cond1 = if w {
                        cond
                    } else {
                        flush_grouped(cond, grouped)
                    };
                    let grouped1 = if w {
                        if grouped is None {
                            Some(Seq::<CondItemV>::empty())
                        } else {
                            grouped
                        }
                    } else {
                        None
                    };
                    match find_key(cat, snake_of(field), 0) {
                        Some(ci) => match spec_compare(cat[ci].1.0, op, not, opts) {
                            LowerV::DoneV(e) => match grouped1 {
                                Some(g) => BuildV::Building(
                                    cond1,
                                    Some(g.push(CondItemV::ItemExpr(e))),
                                ),
                                None => BuildV::Building(
                                    cond1.push(CondItemV::ItemExpr(e)),
                                    None,
                                ),
                            },
                            LowerV::UnsupportedV(t) => BuildV::FailedB(t),
                            LowerV::DroppedV => BuildV::Building(cond1, grouped1),
                        },
                        None => BuildV::Building(cond1, grouped1),
                    }
                },
                NodeV::GroupV { not, inner } => match spec_build(inner, cat, opts) {
                    CondResultV::CondDone(c2) => BuildV::Building(
                        cond.push(
                            CondItemV::ItemCond(
                                CondV { op: c2.op, negated: not, items: c2.items },
                            ),
                        ),
                        grouped,
                    ),
                    CondResultV::CondUnsupported(t) => BuildV::FailedB(t),
                },
            },
        }
    }
}

/// Build the combinator tree of a filter chain: its AND runs nested under
/// the top-level combinator, with any still-open run closed at the end.
pub open spec fn spec_build(
    fv: Seq<(NodeV, Option<Chain>)>,
    cat: Seq<(Seq<char>, (Seq<char>, SqlColumnType))>,
    opts: Seq<(Seq<char>, Seq<char>)>,
) -> CondResultV
    decreases fv, 1int, 0int,
{
    match build_state(fv, cat, opts, chain_info(fv).1, fv.len() as int) {
        BuildV::FailedB(t) => CondResultV::CondUnsupported(t),
        BuildV::Building(cond, grouped) => CondResultV::CondDone(
            CondV { op: chain_info(fv).0, negated: false, items: flush_grouped(cond, grouped) },
        ),
    }
}

/// A failed builder state stays failed to the end of the chain.
proof fn lemma_build_failed_persists(
    fv: Seq<(NodeV, Option<Chain>)>,
    cat: Seq<(Seq<char>, (Seq<char>, SqlColumnType))>,
    opts: Seq<(Seq<char>, Seq<char>)>,
    groups: Seq<(int, int)>,
    j: int,
    k: int,
)
    requires
        0 <= j <= k <= fv.len(),
        build_state(fv, cat, opts, groups, j) is FailedB,
    ensures
        build_state(fv, cat, opts, groups, k) == build_state(fv, cat, opts, groups, j),
    decreases k - j,
{
    if j < k {
        lemma_build_failed_persists(fv, cat, opts, groups, j, k - 1);
    }
}

/// Lower a filter chain against a column catalog into a combinator tree.
/// AND runs inside an OR chain become nested `all-of` groups; leaves on
/// unknown fields are silently dropped; a `has` or raw function construct
/// on a matched column is refused as not implemented.
#[verifier::loop_isolation(false)]
pub fn build_condition(
    filters: &Filters,
    table_columns: &ColumnList,
    options: &Vec<(String, String)>,
) -> (r: Result<Cond, ODataError>)
    requires
        filters.wf(),
        table_columns.wf(),
    ensures
        (match spec_build(
            filters_view(*filters),
            column_pairs(*table_columns),
            options_view(options@),
        ) {
            CondResultV::CondDone(cv) => r matches Ok(c) && cond_view(c) == cv && c.wf(),
            CondResultV::CondUnsupported(t) => r matches Err(err) && (err matches
                ODataError::NotImplemented(m) && m@ == t),
        }),
    decreases filters,
{
    let ghost fv = filters_view(*filters);
    let ghost cat = column_pairs(*table_columns);
    let ghost opts = options_view(options@);
    proof {
        crate::filter::lemma_nodes_view_parts(filters.0@);
    }
    let (top, and_groups) = build_condition_from_chain(filters);
    let ghost groups = and_groups@;
    let mut cond_items: Vec<CondItem> = Vec::new();
    let mut grouped: Option<Vec<CondItem>> = None;
    let mut pos: usize = 0;
    proof {
        assert(items_view(cond_items@) =~= Seq::<CondItemV>::empty());
    }
    while pos < filters.0.len()
        invariant
            pos <= fv.len(),
            fv.len() == filters.0@.len(),
            build_state(fv, cat, opts, groups, pos as int) matches BuildV::Building(c, g) && c
                == items_view(cond_items@) && g == (match grouped {
                Some(gv) => Some(items_view(gv@)),
                None => None::<Seq<CondItemV>>,
            }),
            forall|k: int| 0 <= k < cond_items@.len() ==> (#[trigger] cond_items@[k]).wf(),
            (match grouped {
                Some(gv) => forall|k: int| 0 <= k < gv@.len() ==> (#[trigger] gv@[k]).wf(),
                None => true,
            }),
        decreases filters.0@.len() - pos,
    {
        proof {
            assert(fv[pos as int] == (crate::filter::node_view(filters.0@[pos as int].0), filters.0@[pos as int].1));
            assert(filters.0@[pos as int].0.wf());
        }
        let node = &filters.0[pos].0;
        match node {
            FieldFilter::Contents(c) => {
                let w = and_groups.within_group(pos);
                if w {
                    if grouped.is_none() {
                        grouped = Some(Vec::new());
                        proof {
                            assert(items_view(Seq::<CondItem>::empty())
                                =~= Seq::<CondItemV>::empty());
                        }
                    }
                } else {
                    match grouped {
                        Some(gv) => {
                            let ghost old_items = cond_items@;
                            cond_items.push(
                                CondItem::Sub(
                                    Cond { op: CondOp::All, negated: false, items: gv },
                                ),
                            );
                            grouped = None;
                            proof {
                                lemma_items_view_snoc(
                                    old_items,
                                    cond_items@[cond_items@.len() - 1],
                                );
                            }
                        },
                        None => {},
                    }
                }
                let snaked = to_snake(c.field.as_str());
                match table_columns.get(snaked.as_str()) {
                    Some(col) => {
                        let column_name = col.column.clone();
                        match compare_opp(&column_name, &c.operation, c.not, options) {
                            Ok(Some(e)) => {
                                let taken = grouped.take();
                                match taken {
                                    Some(mut gv) => {
                                        let ghost old_g = gv@;
                                        gv.push(CondItem::Leaf(e));
                                        proof {
                                            lemma_items_view_snoc(old_g, gv@[gv@.len() - 1]);
                                        }
                                        grouped = Some(gv);
                                    },
                                    None => {
                                        let ghost old_items = cond_items@;
                                        cond_items.push(CondItem::Leaf(e));
                                        proof {
                                            lemma_items_view_snoc(
                                                old_items,
                                                cond_items@[cond_items@.len() - 1],
                                            );
                                        }
                                    },
                                }
                            },
                            Ok(None) => {},
                            Err(err) => {
                                proof {
                                    assert(build_state(fv, cat, opts, groups, pos + 1) is FailedB);
                                    lemma_build_failed_persists(
                                        fv,
                                        cat,
                                        opts,
                                        groups,
                                        pos + 1,
                                        fv.len() as int,
                                    );
                                }
                                return Err(err);
                            },
                        }
                    },
                    None => {},
                }
            },
            FieldFilter::Nested(p) => {
                let inner_cond = build_condition(&p.1, table_columns, options);
                match inner_cond {
                    Ok(c2) => {
                        let ghost old_items = cond_items@;
                        cond_items.push(
                            CondItem::Sub(
                                Cond { op: c2.op, negated: p.0, items: c2.items },
                            ),
                        );
                        proof {
                            lemma_items_view_snoc(old_items, cond_items@[cond_items@.len() - 1]);
                        }
                    },
                    Err(err) => {
                        proof {
                            assert(build_state(fv, cat, opts, groups, pos + 1) is FailedB);
                            lemma_build_failed_persists(
                                fv,
                                cat,
                                opts,
                                groups,
                                pos + 1,
                                fv.len() as int,
                            );
                        }
                        return Err(err);
                    },
                }
            },
        }
        pos += 1;
    }
    let ghost pre_items = items_view(cond_items@);
    let ghost pre_grouped: Option<Seq<CondItemV>> = match &grouped {
        Some(gv) => Some(items_view(gv@)),
        None => None,
    };
    let final_items: Vec<CondItem> = match grouped {
        Some(gv) => {
            let ghost old_items = cond_items@;
            let mut ci = cond_items;
            ci.push(CondItem::Sub(Cond { op: CondOp::All, negated: false, items: gv }));
            proof {
                lemma_items_view_snoc(old_items, ci@[ci@.len() - 1]);
                assert(items_view(ci@) =~= flush_grouped(pre_items, pre_grouped));
                assert(ci@[ci@.len() - 1].wf());
                assert(forall|k: int| 0 <= k < ci@.len() ==> (#[trigger] ci@[k]).wf());
            }
            ci
        },
        None => cond_items,
    };
    proof {
        assert(forall|k: int| 0 <= k < final_items@.len() ==> (#[trigger] final_items@[k]).wf());
        assert(items_view(final_items@) == flush_grouped(pre_items, pre_grouped));
        assert((top, groups) == chain_info(fv));
        assert(build_state(fv, cat, opts, chain_info(fv).1, fv.len() as int)
            == BuildV::Building(pre_items, pre_grouped));
        assert(spec_build(fv, cat, opts) == CondResultV::CondDone(
            CondV { op: top, negated: false, items: flush_grouped(pre_items, pre_grouped) },
        ));
    }
    Ok(Cond { op: top, negated: false, items: final_items })
}

/// The search pattern for a free-text search: `%` around the lowercased
/// text.
pub open spec fn like_pattern(s: Seq<char>) -> Seq<char> {
    seq!['%'] + crate::bridge::lower_of(s) + seq!['%']
}

/// One case-insensitive LIKE per catalog column, in order.
pub open spec fn like_items(
    cat: Seq<(Seq<char>, (Seq<char>, SqlColumnType))>,
    pat: Seq<char>,
    i: int,
) -> Seq<CondItemV>
    decreases i,
{
    if i <= 0 || i > cat.len() {
        Seq::empty()
    } else {
        like_items(cat, pat, i - 1) + seq![
            CondItemV::ItemExpr(SqlExprV::LikeV(cat[i - 1].1.0, pat)),
        ]
    }
}

/// The combined predicate of a request: an `any-of` of per-column LIKE
/// checks when a search text is present, AND-combined with the lowered
/// filter tree when one is present.
pub open spec fn spec_condition_with_filter(
    search: Option<Seq<char>>,
    fv: Seq<(NodeV, Option<Chain>)>,
    cat: Seq<(Seq<char>, (Seq<char>, SqlColumnType))>,
    opts: Seq<(Seq<char>, Seq<char>)>,
) -> CondResultV {
    let base: Seq<CondItemV> = match search {
        Some(s) => seq![
            CondItemV::ItemCond(
                CondV {
                    op: CondOp::Any,
                    negated: false,
                    items: like_items(cat, like_pattern(s), cat.len() as int),
                },
            ),
        ],
        None => Seq::empty(),
    };
    if fv.len() == 0 {
        CondResultV::CondDone(CondV { op: CondOp::All, negated: false, items: base })
    } else {
        match spec_build(fv, cat, opts) {
            CondResultV::CondDone(c) => CondResultV::CondDone(
                CondV { op: CondOp::All, negated: false, items: base.push(CondItemV::ItemCond(c)) },
            ),
            CondResultV::CondUnsupported(t) => CondResultV::CondUnsupported(t),
        }
    }
}

/// A case-insensitive substring check on one column.
pub fn like_opp(column: &String, pattern: &str) -> (r: SqlExpr)
    ensures
        expr_view(r) == SqlExprV::LikeV(column@, like_pattern(pattern@)),
        r.wf(),
{
    proof {
        reveal_strlit("%");
        assert("%"@ =~= seq!['%']);
    }
    let mut pat = String::from_str("%");
    let lowered = crate::bridge::to_lower(pattern);
    pat.append(lowered.as_str());
    pat.append("%");
    SqlExpr::Like { col: column.clone(), pattern: pat }
}

/// Combine the search predicate and the lowered filter tree of a request
/// into one `all-of` condition.
#[verifier::loop_isolation(false)]
pub fn condition_with_filter(
    resource: &crate::resource::ODataResource,
    table_columns: &ColumnList,
) -> (r: Result<Cond, ODataError>)
    requires
        resource.wf(),
        table_columns.wf(),
    ensures
        (match spec_condition_with_filter(
            crate::path::opt_text(resource.search),
            filters_view(resource.filters),
            column_pairs(*table_columns),
            options_view(resource.query_options@),
        ) {
            CondResultV::CondDone(cv) => r matches Ok(c) && cond_view(c) == cv && c.wf(),
            CondResultV::CondUnsupported(t) => r matches Err(err) && (err matches
                ODataError::NotImplemented(m) && m@ == t),
        }),
{
    let ghost cat = column_pairs(*table_columns);
    let mut items: Vec<CondItem> = Vec::new();
    proof {
        assert(items_view(items@) =~= Seq::<CondItemV>::empty());
    }
    match &resource.search {
        Some(search) => {
            let mut likes: Vec<CondItem> = Vec::new();
            let mut i: usize = 0;
            let n = table_columns.len();
            proof {
                assert(items_view(likes@) =~= Seq::<CondItemV>::empty());
            }
            while i < n
                invariant
                    i <= cat.len(),
                    n == cat.len(),
                    items_view(likes@) == like_items(cat, like_pattern(search@), i as int),
                    forall|k: int| 0 <= k < likes@.len() ==> (#[trigger] likes@[k]).wf(),
                decreases n - i,
            {
                let col = table_columns.col_at(i);
                let e = like_opp(&col.column, search.as_str());
                let ghost old_likes = likes@;
                likes.push(CondItem::Leaf(e));
                proof {
                    lemma_items_view_snoc(old_likes, likes@[likes@.len() - 1]);
                }
                i += 1;
            }
            let ghost old_items = items@;
            let ghost likes_v = items_view(likes@);
            items.push(
                CondItem::Sub(Cond { op: CondOp::Any, negated: false, items: likes }),
            );
            proof {
                lemma_items_view_snoc(old_items, items@[items@.len() - 1]);
                assert(items@[items@.len() - 1].wf());
                assert(items_view(items@) =~= seq![
                    CondItemV::ItemCond(CondV { op: CondOp::Any, negated: false, items: likes_v }),
                ]);
                assert(forall|k: int| 0 <= k < items@.len() ==> (#[trigger] items@[k]).wf());
            }
        },
        None => {},
    }
    let ghost base = items_view(items@);
    if resource.filters.len() > 0 {
        match build_condition(&resource.filters, table_columns, &resource.query_options) {
            Ok(c) => {
                let ghost old_items = items@;
                let ghost cv = cond_view(c);
                let ghost c_wf = c.wf();
                items.push(CondItem::Sub(c));
                proof {
                    lemma_items_view_snoc(old_items, items@[items@.len() - 1]);
                    assert(items@[items@.len() - 1].wf());
                    assert(items_view(items@) =~= base.push(CondItemV::ItemCond(cv)));
                    assert(forall|k: int| 0 <= k < items@.len() ==> (#[trigger] items@[k]).wf());
                }
            },
            Err(err) => {
                return Err(err);
            },
        }
    }
    proof {
        assert(forall|k: int| 0 <= k < items@.len() ==> (#[trigger] items@[k]).wf());
        assert(Cond { op: CondOp::All, negated: false, items }.wf());
    }
    Ok(Cond { op: CondOp::All, negated: false, items })
}

/// The lowered query plan of a request: its predicate, ordering, limit and
/// offset.
#[derive(Debug, PartialEq)]
pub struct QueryPlan {
    pub condition: Cond,
    pub order: Vec<(String, crate::resource::OrderByDirection)>,
    pub limit: Option<u32>,
    pub offset: Option<u32>,
}

/// The ordering columns: each field snake-cased, with its direction.
pub open spec fn order_view(order: Seq<crate::resource::OrderBy>) -> Seq<
    (Seq<char>, crate::resource::OrderByDirection),
> {
    order.map_values(|o: crate::resource::OrderBy| (snake_of(o.field@), o.direction))
}

/// Lower a parsed resource against a column catalog: the combined
/// predicate, the snake-cased ordering, and `$top` / `$skip` as limit and
/// offset.
#[verifier::loop_isolation(false)]
pub fn query_plan(
    resource: &crate::resource::ODataResource,
    table_columns: &ColumnList,
) -> (r: Result<QueryPlan, ODataError>)
    requires
        resource.wf(),
        table_columns.wf(),
    ensures
        (match spec_condition_with_filter(
            crate::path::opt_text(resource.search),
            filters_view(resource.filters),
            column_pairs(*table_columns),
            options_view(resource.query_options@),
        ) {
            CondResultV::CondDone(cv) => r matches Ok(plan) && {
                &&& cond_view(plan.condition) == cv
                &&& plan.condition.wf()
                &&& plan.order@.map_values(
                    |p: (String, crate::resource::OrderByDirection)| (p.0@, p.1),
                ) == order_view(resource.order_by@)
                &&& plan.limit == resource.top
                &&& plan.offset == resource.skip
            },
            CondResultV::CondUnsupported(t) => r matches Err(err) && (err matches
                ODataError::NotImplemented(m) && m@ == t),
        }),
{
    let condition = match condition_with_filter(resource, table_columns) {
        Ok(c) => c,
        Err(err) => {
            return Err(err);
        },
    };
    let mut order: Vec<(String, crate::resource::OrderByDirection)> = Vec::new();
    let mut i: usize = 0;
    proof {
        assert(order@.map_values(
            |p: (String, crate::resource::OrderByDirection)| (p.0@, p.1),
        ) =~= order_view(resource.order_by@.take(0)));
    }
    while i < resource.order_by.len()
        invariant
            i <= resource.order_by@.len(),
            order@.map_values(|p: (String, crate::resource::OrderByDirection)| (p.0@, p.1))
                == order_view(resource.order_by@.take(i as int)),
        decreases resource.order_by@.len() - i,
    {
        let entry = &resource.order_by[i];
        let snaked = to_snake(entry.field.as_str());
        let ghost old_order = order@;
        order.push((snaked, entry.direction));
        proof {
            assert(resource.order_by@.take(i + 1 as int).drop_last() =~= resource.order_by@.take(
                i as int,
            ));
            assert(order@.map_values(
                |p: (String, crate::resource::OrderByDirection)| (p.0@, p.1),
            ) =~= old_order.map_values(
                |p: (String, crate::resource::OrderByDirection)| (p.0@, p.1),
            ).push((snake_of(resource.order_by@[i as int].field@), resource.order_by@[i as int].direction)));
            assert(order_view(resource.order_by@.take(i + 1 as int)) =~= order_view(
                resource.order_by@.take(i as int),
            ).push(
                (snake_of(resource.order_by@[i as int].field@), resource.order_by@[i as int].direction),
            ));
        }
        i += 1;
    }
    proof {
        assert(resource.order_by@.take(resource.order_by@.len() as int) =~= resource.order_by@);
    }
    Ok(QueryPlan { condition, order, limit: resource.top, offset: resource.skip })
}

/// A string literal's text with every single quote doubled.
pub open spec fn sql_escape(s: Seq<char>) -> Seq<char>
    decreases s.len(),
{
    if s.len() == 0 {
        Seq::empty()
    } else {
        (if s[0] == '\'' {
            seq!['\'', '\'']
        } else {
            seq![s[0]]
        }) + sql_escape(s.skip(1))
    }
}

/// The SQL text of a literal value.
pub open spec fn value_sql(v: ValueV) -> Seq<char> {
    match v {
        ValueV::NullV => "NULL"@,
        ValueV::StrV(s) => seq!['\''] + sql_escape(s) + seq!['\''],
        ValueV::IntV(n) => crate::chars::int_chars(n as int),
        ValueV::BoolV(b) => if b {
            "TRUE"@
        } else {
            "FALSE"@
        },
        ValueV::DecV(m, sc) => crate::value::decimal_chars(m as int, sc as int),
        ValueV::OptV(_) => "NULL"@,
    }
}

/// A double-quoted SQL identifier.
pub open spec fn ident_sql(c: Seq<char>) -> Seq<char> {
    seq!['"'] + c + seq!['"']
}

/// The text of a comparison operator.
pub open spec fn op_sql(op: SqlOp) -> Seq<char> {
    match op {
        SqlOp::Eq => "="@,
        SqlOp::Ne => "<>"@,
        SqlOp::Gt => ">"@,
        SqlOp::Ge => ">="@,
        SqlOp::Lt => "<"@,
        SqlOp::Le => "<="@,
    }
}

/// The first `i` list values joined with commas.
pub open spec fn values_sql(vs: Seq<ValueV>, i: int) -> Seq<char>
    decreases i,
{
    if i <= 0 || i > vs.len() {
        Seq::empty()
    } else if i == 1 {
        value_sql(vs[0])
    } else {
        values_sql(vs, i - 1) + ", "@ + value_sql(vs[i - 1])
    }
}

/// The SQL text of an atomic predicate.
pub open spec fn expr_sql(e: SqlExprV) -> Seq<char>
    decreases e, 0int, 0int,
{
    match e {
        SqlExprV::CmpV(c, op, v) => ident_sql(c) + seq![' '] + op_sql(op) + seq![' '] + value_sql(
            v,
        ),
        SqlExprV::IsNullV(c) => ident_sql(c) + " IS NULL"@,
        SqlExprV::IsNotNullV(c) => ident_sql(c) + " IS NOT NULL"@,
        SqlExprV::InListV(c, vs) => ident_sql(c) + " IN ("@ + values_sql(vs, vs.len() as int)
            + seq![')'],
        SqlExprV::LikeV(c, p) => "LOWER("@ + ident_sql(c) + ") LIKE "@ + value_sql(
            ValueV::StrV(p),
        ),
        SqlExprV::NotV(inner) => "NOT ("@ + expr_sql(*inner) + seq![')'],
    }
}

/// The joining keyword of a combinator.
pub open spec fn sep_sql(op: CondOp) -> Seq<char> {
    match op {
        CondOp::All => " AND "@,
        CondOp::Any => " OR "@,
    }
}

/// The SQL text of a combinator node: `TRUE` / `FALSE` when empty, the
/// lone child's text when it has one child, and the children joined by its
/// keyword otherwise; a negated node is wrapped in `NOT (...)`.
pub open spec fn cond_sql(c: CondV) -> Seq<char>
    decreases c, 0int, 0int,
{
    let body = if c.items.len() == 0 {
        if c.op == CondOp::All {
            "TRUE"@
        } else {
            "FALSE"@
        }
    } else if c.items.len() == 1 {
        item_sql(c.items[0])
    } else {
        joined_sql(c.items, sep_sql(c.op), c.items.len() as int)
    };
    if c.negated {
        "NOT ("@ + body + seq![')']
    } else {
        body
    }
}

/// The SQL text of one child, unparenthesized.
pub open spec fn item_sql(it: CondItemV) -> Seq<char>
    decreases it, 1int, 0int,
{
    match it {
        CondItemV::ItemExpr(e) => expr_sql(e),
        CondItemV::ItemCond(c) => cond_sql(c),
    }
}

/// The SQL text of one child inside a joined list: a nested combinator
/// with several children is parenthesized.
pub open spec fn wrapped_sql(it: CondItemV) -> Seq<char>
    decreases it, 2int, 0int,
{
    match it {
        CondItemV::ItemCond(c) => if !c.negated && c.items.len() >= 2 {
            seq!['('] + cond_sql(c) + seq![')']
        } else {
            item_sql(it)
        },
        CondItemV::ItemExpr(_) => item_sql(it),
    }
}

/// The first `i` children joined with the separator.
pub open spec fn joined_sql(items: Seq<CondItemV>, sep: Seq<char>, i: int) -> Seq<char>
    decreases items, 0int, i,
{
    if i <= 0 || i > items.len() {
        Seq::empty()
    } else if i == 1 {
        wrapped_sql(items[0])
    } else {
        joined_sql(items, sep, i - 1) + sep + wrapped_sql(items[i - 1])
    }
}

/// Escape the single quotes of a string literal's text.
#[verifier::loop_isolation(false)]
fn sql_escape_chars(v: &Vec<char>) -> (r: Vec<char>)
    ensures
        r@ == sql_escape(v@),
{
    let mut r: Vec<char> = Vec::new();
    let mut i: usize = 0;
    proof {
        assert(v@.skip(0) =~= v@);
        assert(r@ + sql_escape(v@) =~= sql_escape(v@));
    }
    while i < v.len()
        invariant
            i <= v@.len(),
            sql_escape(v@) == r@ + sql_escape(v@.skip(i as int)),
        decreases v.len() - i,
    {
        proof {
            assert(v@.skip(i as int)[0] == v@[i as int]);
            assert(v@.skip(i as int).skip(1) =~= v@.skip(i + 1));
        }
        let c = v[i];
        if c == '\'' {
            r.push('\'');
            r.push('\'');
            proof {
                assert(sql_escape(v@) =~= r@ + sql_escape(v@.skip(i + 1)));
            }
        } else {
            r.push(c);
            proof {
                assert(sql_escape(v@) =~= r@ + sql_escape(v@.skip(i + 1)));
            }
        }
        i += 1;
    }
    proof {
        assert(v@.skip(v@.len() as int) =~= Seq::<char>::empty());
        assert(r@ + Seq::<char>::empty() =~= r@);
    }
    r
}

/// Render a literal value as SQL text.
fn value_sql_chars(v: &Value) -> (r: Vec<char>)
    requires
        v.wf(),
    ensures
        r@ == value_sql(value_view(*v)),
{
    proof {
        reveal_strlit("NULL");
        reveal_strlit("TRUE");
        reveal_strlit("FALSE");
    }
    match v {
        Value::Null => crate::chars::str_chars("NULL"),
        Value::String(s) => {
            let mut out: Vec<char> = Vec::new();
            out.push('\'');
            let escaped = sql_escape_chars(&crate::chars::str_chars(s.as_str()));
            crate::chars::append_chars(&mut out, &escaped);
            out.push('\'');
            proof {
                assert(out@ =~= seq!['\''] + sql_escape(s@) + seq!['\'']);
            }
            out
        },
        Value::Integer(n) => crate::chars::int_to_chars(*n as i128),
        Value::Boolean(b) => {
            if *b {
                crate::chars::str_chars("TRUE")
            } else {
                crate::chars::str_chars("FALSE")
            }
        },
        Value::Decimal(d) => crate::value::decimal_to_chars(d),
        Value::QueryOption(_) => crate::chars::str_chars("NULL"),
    }
}

/// Render a double-quoted identifier.
fn ident_sql_chars(c: &String) -> (r: Vec<char>)
    ensures
        r@ == ident_sql(c@),
{
    let mut out: Vec<char> = Vec::new();
    out.push('"');
    let inner = crate::chars::str_chars(c.as_str());
    crate::chars::append_chars(&mut out, &inner);
    out.push('"');
    proof {
        assert(out@ =~= ident_sql(c@));
    }
    out
}

/// Render an atomic predicate as SQL text.
#[verifier::loop_isolation(false)]
fn expr_sql_chars(e: &SqlExpr) -> (r: Vec<char>)
    requires
        e.wf(),
    ensures
        r@ == expr_sql(expr_view(*e)),
    decreases e, 0int, 0int,
{
    match e {
        SqlExpr::Cmp { col, op, value } => {
            let mut out = ident_sql_chars(col);
            out.push(' ');
            let op_text: &str = match op {
                SqlOp::Eq => "=",
                SqlOp::Ne => "<>",
                SqlOp::Gt => ">",
                SqlOp::Ge => ">=",
                SqlOp::Lt => "<",
                SqlOp::Le => "<=",
            };
            proof {
                reveal_strlit("=");
                reveal_strlit("<>");
                reveal_strlit(">");
                reveal_strlit(">=");
                reveal_strlit("<");
                reveal_strlit("<=");
            }
            let op_chars = crate::chars::str_chars(op_text);
            crate::chars::append_chars(&mut out, &op_chars);
            out.push(' ');
            let vs = value_sql_chars(value);
            crate::chars::append_chars(&mut out, &vs);
            proof {
                assert(out@ =~= expr_sql(expr_view(*e)));
            }
            out
        },
        SqlExpr::IsNull { col } => {
            let mut out = ident_sql_chars(col);
            let tail = crate::chars::str_chars(" IS NULL");
            crate::chars::append_chars(&mut out, &tail);
            proof {
                assert(out@ =~= expr_sql(expr_view(*e)));
            }
            out
        },
        SqlExpr::IsNotNull { col } => {
            let mut out = ident_sql_chars(col);
            let tail = crate::chars::str_chars(" IS NOT NULL");
            crate::chars::append_chars(&mut out, &tail);
            proof {
                assert(out@ =~= expr_sql(expr_view(*e)));
            }
            out
        },
        SqlExpr::InList { col, values } => {
            let ghost vsv = values@.map_values(|v: Value| value_view(v));
            let mut out = ident_sql_chars(col);
            let open = crate::chars::str_chars(" IN (");
            crate::chars::append_chars(&mut out, &open);
            let ghost prefix = out@;
            let mut i: usize = 0;
            while i < values.len()
                invariant
                    i <= vsv.len(),
                    out@ == prefix + values_sql(vsv, i as int),
                decreases values@.len() - i,
            {
                proof {
                    assert(vsv[i as int] == value_view(values@[i as int]));
                }
                if i > 0 {
                    let comma = crate::chars::str_chars(", ");
                    crate::chars::append_chars(&mut out, &comma);
                }
                let vtext = value_sql_chars(&values[i]);
                crate::chars::append_chars(&mut out, &vtext);
                proof {
                    reveal_strlit(", ");
                    assert(out@ =~= prefix + values_sql(vsv, i + 1));
                }
                i += 1;
            }
            out.push(')');
            proof {
                assert(out@ =~= expr_sql(expr_view(*e)));
            }
            out
        },
        SqlExpr::Like { col, pattern } => {
            let mut out = crate::chars::str_chars("LOWER(");
            let id = ident_sql_chars(col);
            crate::chars::append_chars(&mut out, &id);
            let mid = crate::chars::str_chars(") LIKE ");
            crate::chars::append_chars(&mut out, &mid);
            let mut quoted: Vec<char> = Vec::new();
            quoted.push('\'');
            let escaped = sql_escape_chars(&crate::chars::str_chars(pattern.as_str()));
            crate::chars::append_chars(&mut quoted, &escaped);
            quoted.push('\'');
            crate::chars::append_chars(&mut out, &quoted);
            proof {
                assert(quoted@ =~= seq!['\''] + sql_escape(pattern@) + seq!['\'']);
                assert(out@ =~= expr_sql(expr_view(*e)));
            }
            out
        },
        SqlExpr::Not(inner) => {
            let mut out = crate::chars::str_chars("NOT (");
            let body = expr_sql_chars(inner);
            crate::chars::append_chars(&mut out, &body);
            out.push(')');
            proof {
                assert(out@ =~= expr_sql(expr_view(*e)));
            }
            out
        },
    }
}

/// Render a combinator node as SQL text.
#[verifier::loop_isolation(false)]
pub fn cond_sql_chars(c: &Cond) -> (r: Vec<char>)
    requires
        c.wf(),
    ensures
        r@ == cond_sql(cond_view(*c)),
    decreases c, 0int, 0int,
{
    proof {
        reveal_strlit("TRUE");
        reveal_strlit("FALSE");
        reveal_strlit(" AND ");
        reveal_strlit(" OR ");
        lemma_items_view_parts(c.items@);
    }
    let ghost cv = cond_view(*c);
    let body: Vec<char> = if c.items.len() == 0 {
        match c.op {
            CondOp::All => crate::chars::str_chars("TRUE"),
            CondOp::Any => crate::chars::str_chars("FALSE"),
        }
    } else if c.items.len() == 1 {
        item_sql_chars(&c.items[0])
    } else {
        let sep_text: &str = match c.op {
            CondOp::All => " AND ",
            CondOp::Any => " OR ",
        };
        let sep = crate::chars::str_chars(sep_text);
        let mut out: Vec<char> = Vec::new();
        let mut i: usize = 0;
        while i < c.items.len()
            invariant
                i <= cv.items.len(),
                out@ == joined_sql(cv.items, sep_sql(cv.op), i as int),
            decreases c.items@.len() - i,
        {
            if i > 0 {
                crate::chars::append_chars(&mut out, &sep);
            }
            let w = wrapped_sql_chars(&c.items[i]);
            crate::chars::append_chars(&mut out, &w);
            proof {
                assert(out@ =~= joined_sql(cv.items, sep_sql(cv.op), i + 1));
            }
            i += 1;
        }
        out
    };
    if c.negated {
        let mut out = crate::chars::str_chars("NOT (");
        crate::chars::append_chars(&mut out, &body);
        out.push(')');
        proof {
            assert(out@ =~= cond_sql(cv));
        }
        out
    } else {
        proof {
            assert(body@ =~= cond_sql(cv));
        }
        body
    }
}

/// Render one child, unparenthesized.
fn item_sql_chars(it: &CondItem) -> (r: Vec<char>)
    requires
        it.wf(),
    ensures
        r@ == item_sql(item_view(*it)),
    decreases it, 1int, 0int,
{
    match it {
        CondItem::Leaf(e) => expr_sql_chars(e),
        CondItem::Sub(c) => cond_sql_chars(c),
    }
}

/// Render one child of a joined list, parenthesizing a nested multi-child
/// combinator.
fn wrapped_sql_chars(it: &CondItem) -> (r: Vec<char>)
    requires
        it.wf(),
    ensures
        r@ == wrapped_sql(item_view(*it)),
    decreases it, 2int, 0int,
{
    match it {
        CondItem::Sub(c) => {
            if !c.negated && c.items.len() >= 2 {
                let mut out: Vec<char> = Vec::new();
                out.push('(');
                let body = cond_sql_chars(c);
                crate::chars::append_chars(&mut out, &body);
                out.push(')');
                proof {
                    lemma_items_view_parts(c.items@);
                    assert(out@ =~= wrapped_sql(item_view(*it)));
                }
                out
            } else {
                proof {
                    lemma_items_view_parts(c.items@);
                }
                item_sql_chars(it)
            }
        },
        CondItem::Leaf(_) => item_sql_chars(it),
    }
}

/// The first `i` projected columns, table-qualified and comma-joined.
pub open spec fn select_cols_sql(
    table: Seq<char>,
    cat: Seq<(Seq<char>, (Seq<char>, SqlColumnType))>,
    i: int,
) -> Seq<char>
    decreases i,
{
    if i <= 0 || i > cat.len() {
        Seq::empty()
    } else if i == 1 {
        ident_sql(table) + seq!['.'] + ident_sql(cat[0].1.0)
    } else {
        select_cols_sql(table, cat, i - 1) + ", "@ + ident_sql(table) + seq!['.'] + ident_sql(
            cat[i - 1].1.0,
        )
    }
}

/// The ordering clause entries, comma-joined.
pub open spec fn order_sql(
    order: Seq<(Seq<char>, crate::resource::OrderByDirection)>,
    i: int,
) -> Seq<char>
    decreases i,
{
    let dir = |d: crate::resource::OrderByDirection|
        match d {
            crate::resource::OrderByDirection::Asc => " ASC"@,
            crate::resource::OrderByDirection::Desc => " DESC"@,
        };
    if i <= 0 || i > order.len() {
        Seq::empty()
    } else if i == 1 {
        ident_sql(order[0].0) + dir(order[0].1)
    } else {
        order_sql(order, i - 1) + ", "@ + ident_sql(order[i - 1].0) + dir(order[i - 1].1)
    }
}

/// The SQL text of a whole query plan over a table: projection, predicate,
/// ordering, limit and offset.
pub open spec fn select_sql(
    table: Seq<char>,
    cat: Seq<(Seq<char>, (Seq<char>, SqlColumnType))>,
    cond: CondV,
    order: Seq<(Seq<char>, crate::resource::OrderByDirection)>,
    limit: Option<u32>,
    offset: Option<u32>,
) -> Seq<char> {
    "SELECT "@ + select_cols_sql(table, cat, cat.len() as int) + " FROM "@ + ident_sql(table)
        + " WHERE "@ + cond_sql(cond) + (if order.len() > 0 {
        " ORDER BY "@ + order_sql(order, order.len() as int)
    } else {
        Seq::empty()
    }) + (match limit {
        Some(n) => " LIMIT "@ + crate::chars::dec_digits(n as int),
        None => Seq::empty(),
    }) + (match offset {
        Some(n) => " OFFSET "@ + crate::chars::dec_digits(n as int),
        None => Seq::empty(),
    })
}

/// Render a lowered query plan as one SELECT statement over the table.
#[verifier::loop_isolation(false)]
pub fn render_select(table: &str, columns: &ColumnList, plan: &QueryPlan) -> (r: String)
    requires
        columns.wf(),
        plan.condition.wf(),
    ensures
        r@ == select_sql(
            table@,
            column_pairs(*columns),
            cond_view(plan.condition),
            plan.order@.map_values(|p: (String, crate::resource::OrderByDirection)| (p.0@, p.1)),
            plan.limit,
            plan.offset,
        ),
{
    proof {
        reveal_strlit("SELECT ");
        reveal_strlit(" FROM ");
        reveal_strlit(" WHERE ");
        reveal_strlit(" ORDER BY ");
        reveal_strlit(" LIMIT ");
        reveal_strlit(" OFFSET ");
        reveal_strlit(", ");
        reveal_strlit(" ASC");
        reveal_strlit(" DESC");
    }
    let ghost cat = column_pairs(*columns);
    let ghost ov = plan.order@.map_values(
        |p: (String, crate::resource::OrderByDirection)| (p.0@, p.1),
    );
    let table_string = String::from_str(table);
    let table_ident = ident_sql_chars(&table_string);
    let mut out = crate::chars::str_chars("SELECT ");
    let ghost head = out@;
    let n = columns.len();
    let mut i: usize = 0;
    while i < n
        invariant
            i <= cat.len(),
            n == cat.len(),
            out@ == head + select_cols_sql(table@, cat, i as int),
        decreases n - i,
    {
        if i > 0 {
            let comma = crate::chars::str_chars(", ");
            crate::chars::append_chars(&mut out, &comma);
        }
        crate::chars::append_chars(&mut out, &table_ident);
        out.push('.');
        let col = columns.col_at(i);
        let col_ident = ident_sql_chars(&col.column);
        crate::chars::append_chars(&mut out, &col_ident);
        proof {
            assert(out@ =~= head + select_cols_sql(table@, cat, i + 1));
        }
        i += 1;
    }
    let from = crate::chars::str_chars(" FROM ");
    crate::chars::append_chars(&mut out, &from);
    crate::chars::append_chars(&mut out, &table_ident);
    let where_kw = crate::chars::str_chars(" WHERE ");
    crate::chars::append_chars(&mut out, &where_kw);
    let cond_text = cond_sql_chars(&plan.condition);
    crate::chars::append_chars(&mut out, &cond_text);
    let ghost before_order = out@;
    if plan.order.len() > 0 {
        let kw = crate::chars::str_chars(" ORDER BY ");
        crate::chars::append_chars(&mut out, &kw);
        let ghost ohead = out@;
        let mut j: usize = 0;
        while j < plan.order.len()
            invariant
                j <= ov.len(),
                ov.len() == plan.order@.len(),
                out@ == ohead + order_sql(ov, j as int),
            decreases plan.order@.len() - j,
        {
            if j > 0 {
                let comma = crate::chars::str_chars(", ");
                crate::chars::append_chars(&mut out, &comma);
            }
            let entry = &plan.order[j];
            proof {
                assert(ov[j as int] == (plan.order@[j as int].0@, plan.order@[j as int].1));
            }
            let id = ident_sql_chars(&entry.0);
            crate::chars::append_chars(&mut out, &id);
            match entry.1 {
                crate::resource::OrderByDirection::Asc => {
                    let d = crate::chars::str_chars(" ASC");
                    crate::chars::append_chars(&mut out, &d);
                },
                crate::resource::OrderByDirection::Desc => {
                    let d = crate::chars::str_chars(" DESC");
                    crate::chars::append_chars(&mut out, &d);
                },
            }
            proof {
                assert(out@ =~= ohead + order_sql(ov, j + 1));
            }
            j += 1;
        }
        proof {
            assert(out@ =~= before_order + (" ORDER BY "@ + order_sql(ov, ov.len() as int)));
        }
    } else {
        proof {
            assert(out@ =~= before_order + Seq::<char>::empty());
        }
    }
    let ghost before_limit = out@;
    match plan.limit {
        Some(num) => {
            let kw = crate::chars::str_chars(" LIMIT ");
            crate::chars::append_chars(&mut out, &kw);
            let digits = crate::chars::nat_chars(num as u128);
            crate::chars::append_chars(&mut out, &digits);
            proof {
                assert(out@ =~= before_limit + (" LIMIT "@ + crate::chars::dec_digits(
                    num as int,
                )));
            }
        },
        None => {
            proof {
                assert(out@ =~= before_limit + Seq::<char>::empty());
            }
        },
    }
    let ghost before_offset = out@;
    match plan.offset {
        Some(num) => {
            let kw = crate::chars::str_chars(" OFFSET ");
            crate::chars::append_chars(&mut out, &kw);
            let digits = crate::chars::nat_chars(num as u128);
            crate::chars::append_chars(&mut out, &digits);
            proof {
                assert(out@ =~= before_offset + (" OFFSET "@ + crate::chars::dec_digits(
                    num as int,
                )));
            }
        },
        None => {
            proof {
                assert(out@ =~= before_offset + Seq::<char>::empty());
            }
        },
    }
    proof {
        assert(out@ =~= select_sql(table@, cat, cond_view(plan.condition), ov, plan.limit, plan.offset));
    }
    crate::bridge::string_from_chars(&out)
}

/// Lowering is deterministic: the same resource contents and the same
/// catalog contents always lower to the same plan, and that plan renders
/// as textually equal SQL. Stated over the specification functions the
/// executable lowering and rendering are pinned to.
pub proof fn lemma_lowering_deterministic(
    search1: Option<Seq<char>>,
    search2: Option<Seq<char>>,
    fv1: Seq<(NodeV, Option<Chain>)>,
    fv2: Seq<(NodeV, Option<Chain>)>,
    cat1: Seq<(Seq<char>, (Seq<char>, SqlColumnType))>,
    cat2: Seq<(Seq<char>, (Seq<char>, SqlColumnType))>,
    opts1: Seq<(Seq<char>, Seq<char>)>,
    opts2: Seq<(Seq<char>, Seq<char>)>,
)
    requires
        search1 == search2,
        fv1 == fv2,
        cat1 == cat2,
        opts1 == opts2,
    ensures
        spec_condition_with_filter(search1, fv1, cat1, opts1) == spec_condition_with_filter(
            search2,
            fv2,
            cat2,
            opts2,
        ),
        (match spec_condition_with_filter(search1, fv1, cat1, opts1) {
            CondResultV::CondDone(c1) => cond_sql(c1) == (match spec_condition_with_filter(
                search2,
                fv2,
                cat2,
                opts2,
            ) {
                CondResultV::CondDone(c2) => cond_sql(c2),
                CondResultV::CondUnsupported(t) => t,
            }),
            CondResultV::CondUnsupported(_) => true,
        }),
{
}

} // verus!
