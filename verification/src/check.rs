//! Checking a definition: its body is given types, the types are settled, and the
//! matches in it are checked for cases that they leave out.

use crate::data::Datas;
use crate::def::{DefId, Defs};
use crate::error::Error;
use crate::cover::{
    fields_of, lemma_catch_all, lemma_of_width, lemma_other_constructor, of_width, search,
    wilds_v,
};
use crate::example::{example_view, examples_view, ExamplePat, ExampleView};
use crate::exhaustive::{
    example_for, examples_for, example_of, lower, lowered, lowered_all, missing_case, pat_view,
    pats_view, table_view, Head, Pat, PatView,
};
use crate::hir::{
    arms_typed, expr_typed, exprs_typed, known_slot, lemma_arms_weaken, lemma_expr_weaken,
    lemma_expr_through, lemma_pat_weaken, lemma_pats_weaken, pat_typed, pats_typed, slot_is_var,
    var_slot, weaker, carries, Arm, DefDecl, Demand, Expr, ExprKind, PatKind, Pattern, TySlot,
};
use crate::infer::{error_ok, lemma_demand_mono, sigs_ok, slot_var, Engine, InferError};
use crate::model::{def_m, Infer};
use crate::judge::{judged, lemma_judge_expr};
use crate::reify::{first_open, open_var, reify, settled, var_shape};
use crate::span::{Ident, Span};
use crate::ty::{
    extends, lemma_extends_trans, lemma_shape_extends, lemma_shape_injective, shape_of, TyId,
    TyView, Types,
};
use crate::unify::{root, Graph, InfoView, TyVar};
use vstd::prelude::*;

verus! {

/// A definition that was checked: its name, its type, and its body with a type for
/// each node.
#[derive(Debug, PartialEq, Eq)]
pub struct TypedDef {
    pub name: Ident,
    pub span: Span,
    pub ty: TyId,
    pub body: Expr,
}

/// Whether `u` is among `reported`.
fn was_reported(reported: &Vec<TyVar>, u: TyVar) -> (r: bool)
    ensures
        r == reported@.contains(u),
{
    let mut i: usize = 0;
    while i < reported.len()
        invariant
            i <= reported.len(),
            forall|j: int| 0 <= j < i ==> reported@[j] != u,
        decreases reported.len() - i,
    {
        if reported[i] == u {
            assert(reported@[i as int] == u);
            return true;
        }
        i += 1;
    }
    false
}

/// The place of the first of the references `origins`, at or after the position
/// `from`, whose variable stands for the variable `u` in the graph `g`.
pub open spec fn origin_for(g: Graph, origins: Seq<(TyVar, Span)>, u: TyVar, from: nat) -> Option<
    Span,
>
    decreases origins.len() - from,
{
    if from >= origins.len() {
        None
    } else if root(g, origins[from as int].0) == u {
        Some(origins[from as int].1)
    } else {
        origin_for(g, origins, u, from + 1)
    }
}

/// The variables below `n` of which `infos` knows nothing, in their order.
pub open spec fn unknown_vars(infos: Seq<InfoView>, n: nat) -> Seq<TyVar>
    decreases n,
{
    if n == 0 || n > infos.len() {
        Seq::empty()
    } else if infos[n - 1] is Unknown {
        unknown_vars(infos, (n - 1) as nat).push(TyVar((n - 1) as usize))
    } else {
        unknown_vars(infos, (n - 1) as nat)
    }
}

/// The place of the reference to a generic definition that the unknown variable `u`
/// comes from, if it comes from one.
fn origin_of(engine: &Engine, u: TyVar) -> (r: Option<Span>)
    requires
        engine.wf(),
    ensures
        r == origin_for(engine.vars.graph(), engine.origins@, u, 0),
{
    let mut i: usize = 0;
    while i < engine.origins.len()
        invariant
            i <= engine.origins.len(),
            engine.wf(),
            origin_for(engine.vars.graph(), engine.origins@, u, 0) == origin_for(
                engine.vars.graph(),
                engine.origins@,
                u,
                i as nat,
            ),
        decreases engine.origins.len() - i,
    {
        let entry = engine.origins[i];
        let root = engine.vars.find(entry.0);
        if root == u {
            return Some(entry.1);
        }
        i += 1;
    }
    None
}

/// Marks every unknown variable as reported: they are added to `reported` in their
/// order.
fn mute_unknowns(engine: &Engine, reported: &mut Vec<TyVar>)
    requires
        engine.wf(),
    ensures
        final(reported)@ == old(reported)@ + unknown_vars(engine.vars@, engine.vars@.len()),
{
    let n = engine.vars.len();
    let mut i: usize = 0;
    while i < n
        invariant
            i <= n,
            n == engine.vars@.len(),
            engine.wf(),
            reported@ == old(reported)@ + unknown_vars(engine.vars@, i as nat),
        decreases n - i,
    {
        let ghost before = reported@;
        match engine.vars.get(TyVar(i)) {
            crate::vars::TyInfo::Unknown => {
                reported.push(TyVar(i));
            },
            _ => {},
        }
        assert(reported@ =~= old(reported)@ + unknown_vars(engine.vars@, (i + 1) as nat));
        i += 1;
    }
}

/// The variables of the nodes of a pattern, in the order in which their types are
/// settled: the node, then its parts.
pub open spec fn pat_visits(p: Pattern) -> Seq<TyVar>
    decreases p, 1nat,
{
    seq![slot_var(p.ty)] + pat_kids_visits(p.kind)
}

/// The variables of the nodes inside a pattern of the kind `kind`, in that order.
pub open spec fn pat_kids_visits(kind: PatKind) -> Seq<TyVar>
    decreases kind, 0nat,
{
    match kind {
        PatKind::Tuple(items) => pats_visits(items@, items@.len()),
        PatKind::ListExact(items) => pats_visits(items@, items@.len()),
        PatKind::ListFront(items, tail) => pats_visits(items@, items@.len()) + (match tail {
            Some(t) => pat_visits(*t),
            None => Seq::empty(),
        }),
        PatKind::Cons(_, fields) => pats_visits(fields@, fields@.len()),
        _ => Seq::empty(),
    }
}

/// The variables of the nodes of the first expressions depend on those expressions
/// only.
pub proof fn lemma_exprs_visits_same(a: Seq<Expr>, b: Seq<Expr>, n: nat)
    requires
        n <= a.len(),
        n <= b.len(),
        forall|i: int| 0 <= i < n ==> a[i] == b[i],
    ensures
        exprs_visits(a, n) == exprs_visits(b, n),
    decreases n,
{
    if n > 0 {
        lemma_exprs_visits_same(a, b, (n - 1) as nat);
    }
}

/// The variables of the nodes of the first arms depend on those arms only.
pub proof fn lemma_arms_visits_same(a: Seq<Arm>, b: Seq<Arm>, n: nat)
    requires
        n <= a.len(),
        n <= b.len(),
        forall|i: int| 0 <= i < n ==> a[i] == b[i],
    ensures
        arms_visits(a, n) == arms_visits(b, n),
    decreases n,
{
    if n > 0 {
        lemma_arms_visits_same(a, b, (n - 1) as nat);
    }
}

/// The variables of the nodes of the first patterns depend on those patterns only.
pub proof fn lemma_pats_visits_same(a: Seq<Pattern>, b: Seq<Pattern>, n: nat)
    requires
        n <= a.len(),
        n <= b.len(),
        forall|i: int| 0 <= i < n ==> a[i] == b[i],
    ensures
        pats_visits(a, n) == pats_visits(b, n),
    decreases n,
{
    if n > 0 {
        lemma_pats_visits_same(a, b, (n - 1) as nat);
    }
}

/// The variables of the nodes of the first `n` patterns of `ps`, in that order.
pub open spec fn pats_visits(ps: Seq<Pattern>, n: nat) -> Seq<TyVar>
    decreases ps, n,
{
    if n == 0 || n > ps.len() {
        Seq::empty()
    } else {
        pats_visits(ps, (n - 1) as nat) + pat_visits(ps[n - 1])
    }
}

/// The variables of the nodes of an expression, in the order in which their types
/// are settled: the node, then its parts; of an arm the patterns, then the body.
pub open spec fn expr_visits(e: Expr) -> Seq<TyVar>
    decreases e, 1nat,
{
    seq![slot_var(e.ty)] + expr_kids_visits(e.kind)
}

/// The variables of the nodes inside an expression of the kind `kind`, in that
/// order.
pub open spec fn expr_kids_visits(kind: ExprKind) -> Seq<TyVar>
    decreases kind, 0nat,
{
    (match kind {
        ExprKind::Tuple(items) => exprs_visits(items@, items@.len()),
        ExprKind::List(items) => exprs_visits(items@, items@.len()),
        ExprKind::Cons(_, fields) => exprs_visits(fields@, fields@.len()),
        ExprKind::Access(tuple, _) => expr_visits(*tuple),
        ExprKind::Unary(_, operand) => expr_visits(*operand),
        ExprKind::Binary(_, left, right) => expr_visits(*left) + expr_visits(*right),
        ExprKind::Func(_, body) => expr_visits(*body),
        ExprKind::Apply(f, arg) => expr_visits(*f) + expr_visits(*arg),
        ExprKind::Match(matched, arms) => expr_visits(*matched) + arms_visits(arms@, arms@.len()),
        _ => Seq::empty(),
    })
}

/// The variables of the nodes of the first `n` expressions of `es`, in that order.
pub open spec fn exprs_visits(es: Seq<Expr>, n: nat) -> Seq<TyVar>
    decreases es, n,
{
    if n == 0 || n > es.len() {
        Seq::empty()
    } else {
        exprs_visits(es, (n - 1) as nat) + expr_visits(es[n - 1])
    }
}

/// The variables of the nodes of the first `n` arms of `arms`, in that order.
pub open spec fn arms_visits(arms: Seq<Arm>, n: nat) -> Seq<TyVar>
    decreases arms, n,
{
    if n == 0 || n > arms.len() {
        Seq::empty()
    } else {
        arms_visits(arms, (n - 1) as nat) + pats_visits(
            arms[n - 1].params@,
            arms[n - 1].params@.len(),
        ) + expr_visits(arms[n - 1].body)
    }
}

/// The variable in the place `slot` for a type.
fn var_of(slot: TySlot) -> (v: TyVar)
    ensures
        v == slot_var(slot),
{
    match slot {
        TySlot::Var(v) => v,
        _ => TyVar(0),
    }
}

/// Adds the variables of the nodes of the patterns `ps` to `out`.
fn collect_pats(ps: &Vec<Pattern>, out: &mut Vec<TyVar>)
    ensures
        final(out)@ == old(out)@ + pats_visits(ps@, ps@.len()),
    decreases ps,
{
    let mut k: usize = 0;
    assert(out@ =~= old(out)@ + pats_visits(ps@, 0));
    while k < ps.len()
        invariant
            k <= ps.len(),
            out@ == old(out)@ + pats_visits(ps@, k as nat),
        decreases ps.len() - k,
    {
        collect_pat(&ps[k], out);
        assert(out@ =~= old(out)@ + pats_visits(ps@, (k + 1) as nat));
        k += 1;
    }
}

/// Adds the variables of the nodes of the pattern `p` to `out`.
fn collect_pat(p: &Pattern, out: &mut Vec<TyVar>)
    ensures
        final(out)@ == old(out)@ + pat_visits(*p),
    decreases p,
{
    out.push(var_of(p.ty));
    let ghost own = out@;
    assert(own =~= old(out)@ + seq![slot_var(p.ty)]);
    match &p.kind {
        PatKind::Tuple(items) => collect_pats(items, out),
        PatKind::ListExact(items) => collect_pats(items, out),
        PatKind::ListFront(items, tail) => {
            collect_pats(items, out);
            match tail {
                Some(t) => collect_pat(&**t, out),
                None => {},
            }
        },
        PatKind::Cons(_, fields) => collect_pats(fields, out),
        _ => {},
    }
    assert(out@ =~= old(out)@ + pat_visits(*p));
}

/// Adds the variables of the nodes of the expressions `es` to `out`.
fn collect_exprs(es: &Vec<Expr>, out: &mut Vec<TyVar>)
    ensures
        final(out)@ == old(out)@ + exprs_visits(es@, es@.len()),
    decreases es,
{
    let mut k: usize = 0;
    assert(out@ =~= old(out)@ + exprs_visits(es@, 0));
    while k < es.len()
        invariant
            k <= es.len(),
            out@ == old(out)@ + exprs_visits(es@, k as nat),
        decreases es.len() - k,
    {
        collect_expr(&es[k], out);
        assert(out@ =~= old(out)@ + exprs_visits(es@, (k + 1) as nat));
        k += 1;
    }
}

/// Adds the variables of the nodes of the arms `arms` to `out`.
fn collect_arms(arms: &Vec<Arm>, out: &mut Vec<TyVar>)
    ensures
        final(out)@ == old(out)@ + arms_visits(arms@, arms@.len()),
    decreases arms,
{
    let mut k: usize = 0;
    assert(out@ =~= old(out)@ + arms_visits(arms@, 0));
    while k < arms.len()
        invariant
            k <= arms.len(),
            out@ == old(out)@ + arms_visits(arms@, k as nat),
        decreases arms.len() - k,
    {
        collect_pats(&arms[k].params, out);
        collect_expr(&arms[k].body, out);
        assert(out@ =~= old(out)@ + arms_visits(arms@, (k + 1) as nat));
        k += 1;
    }
}

/// Adds the variables of the nodes of the expression `e` to `out`.
fn collect_expr(e: &Expr, out: &mut Vec<TyVar>)
    ensures
        final(out)@ == old(out)@ + expr_visits(*e),
    decreases e,
{
    out.push(var_of(e.ty));
    assert(out@ =~= old(out)@ + seq![slot_var(e.ty)]);
    match &e.kind {
        ExprKind::Tuple(items) => collect_exprs(items, out),
        ExprKind::List(items) => collect_exprs(items, out),
        ExprKind::Cons(_, fields) => collect_exprs(fields, out),
        ExprKind::Access(tuple, _) => collect_expr(&**tuple, out),
        ExprKind::Unary(_, operand) => collect_expr(&**operand, out),
        ExprKind::Binary(_, left, right) => {
            collect_expr(&**left, out);
            collect_expr(&**right, out);
        },
        ExprKind::Func(_, body) => collect_expr(&**body, out),
        ExprKind::Apply(f, arg) => {
            collect_expr(&**f, out);
            collect_expr(&**arg, out);
        },
        ExprKind::Match(matched, arms) => {
            collect_expr(&**matched, out);
            collect_arms(arms, out);
        },
        _ => {},
    }
    assert(out@ =~= old(out)@ + expr_visits(*e));
}

/// The unknown variables that are marked as reported after the first `n` of the
/// variables `vs` were looked at in the graph `g`, where `reported` were marked
/// before: the first unknown variable in the type of each is marked.
pub open spec fn marks(g: Graph, reported: Seq<TyVar>, vs: Seq<TyVar>, n: nat) -> Seq<TyVar>
    decreases n,
{
    if n == 0 || n > vs.len() {
        reported
    } else {
        let sofar = marks(g, reported, vs, (n - 1) as nat);
        match open_var(g, vs[n - 1]) {
            Some(u) => if sofar.contains(u) {
                sofar
            } else {
                sofar.push(u)
            },
            None => sofar,
        }
    }
}

/// What is reported of the first `n` of the variables `vs`: each variable whose type
/// holds an unknown variable that was not marked when it was looked at, with that
/// unknown variable.
pub open spec fn opens(g: Graph, reported: Seq<TyVar>, vs: Seq<TyVar>, n: nat) -> Seq<
    (TyVar, TyVar),
>
    decreases n,
{
    if n == 0 || n > vs.len() {
        Seq::empty()
    } else {
        let sofar = opens(g, reported, vs, (n - 1) as nat);
        match open_var(g, vs[n - 1]) {
            Some(u) => if marks(g, reported, vs, (n - 1) as nat).contains(u) {
                sofar
            } else {
                sofar.push((vs[n - 1], u))
            },
            None => sofar,
        }
    }
}

/// Whether the diagnostic `e` says that the type of the variable `o.0` is not fully
/// known, because of the unknown variable `o.1`: it holds the type that the variable
/// stands for, and the place of the reference to a generic definition that the
/// unknown variable comes from, if it comes from one.
pub open spec fn shows(
    e: Error,
    o: (TyVar, TyVar),
    g: Graph,
    origins: Seq<(TyVar, Span)>,
    tys: Seq<TyView>,
) -> bool {
    &&& e is CannotInfer
    &&& stands_for(tys, e->CannotInfer_0, g, o.0)
    &&& e->CannotInfer_1 == origin_for(g, origins, o.1, 0)
}

/// Whether `after` is `before` with one diagnostic more for each of `os`, in their
/// order.
pub open spec fn opened(
    before: Seq<Error>,
    after: Seq<Error>,
    g: Graph,
    origins: Seq<(TyVar, Span)>,
    tys: Seq<TyView>,
    os: Seq<(TyVar, TyVar)>,
) -> bool {
    &&& after.len() == before.len() + os.len()
    &&& forall|i: int| 0 <= i < before.len() ==> #[trigger] after[i] == before[i]
    &&& forall|k: int|
        0 <= k < os.len() ==> shows(after[before.len() + k], #[trigger] os[k], g, origins, tys)
}

/// Whether `after` is `before` with one diagnostic more for each failure of `errs`,
/// in their order, each with the types that its variables stand for.
pub open spec fn settled_all(
    before: Seq<Error>,
    after: Seq<Error>,
    errs: Seq<InferError>,
    g: Graph,
    tys: Seq<TyView>,
) -> bool {
    &&& after.len() == before.len() + errs.len()
    &&& forall|i: int| 0 <= i < before.len() ==> #[trigger] after[i] == before[i]
    &&& forall|k: int|
        0 <= k < errs.len() ==> error_settled(after[before.len() + k], #[trigger] errs[k], g, tys)
}

/// A type that a variable stands for in a store is that type in a store that
/// extends it.
pub proof fn lemma_stands_extends(a: Seq<TyView>, b: Seq<TyView>, id: TyId, g: Graph, v: TyVar)
    requires
        extends(a, b),
        stands_for(a, id, g, v),
    ensures
        stands_for(b, id, g, v),
{
    lemma_shape_extends(a, b, id.0 as nat);
}

/// What is reported of unknown types stays reported in a store that extends the
/// store.
pub proof fn lemma_opened_extends(
    before: Seq<Error>,
    after: Seq<Error>,
    g: Graph,
    origins: Seq<(TyVar, Span)>,
    a: Seq<TyView>,
    b: Seq<TyView>,
    os: Seq<(TyVar, TyVar)>,
)
    requires
        extends(a, b),
        opened(before, after, g, origins, a, os),
    ensures
        opened(before, after, g, origins, b, os),
{
    assert forall|k: int| 0 <= k < os.len() implies shows(
        after[before.len() + k],
        #[trigger] os[k],
        g,
        origins,
        b,
    ) by {
        lemma_stands_extends(a, b, after[before.len() + k]->CannotInfer_0, g, os[k].0);
    }
}

/// The failures of inference stay reported in a store that extends the store.
pub proof fn lemma_settled_all_extends(
    before: Seq<Error>,
    after: Seq<Error>,
    errs: Seq<InferError>,
    g: Graph,
    a: Seq<TyView>,
    b: Seq<TyView>,
)
    requires
        extends(a, b),
        settled_all(before, after, errs, g, a),
    ensures
        settled_all(before, after, errs, g, b),
{
    assert forall|k: int| 0 <= k < errs.len() implies error_settled(
        after[before.len() + k],
        #[trigger] errs[k],
        g,
        b,
    ) by {
        let e = after[before.len() + k];
        match errs[k] {
            InferError::Mismatch(x, y, _) => {
                lemma_stands_extends(a, b, e->Mismatch_0, g, x);
                lemma_stands_extends(a, b, e->Mismatch_1, g, y);
            },
            InferError::Recursive(x, _, _) => {
                lemma_stands_extends(a, b, e->Recursive_0, g, x);
            },
            InferError::NoSuchField(x, _) => {
                lemma_stands_extends(a, b, e->NoSuchField_0, g, x);
            },
            InferError::InvalidUnaryOp(_, x, _) => {
                lemma_stands_extends(a, b, e->InvalidUnaryOp_1, g, x);
            },
            InferError::InvalidBinaryOp(_, x, _, y, _) => {
                lemma_stands_extends(a, b, e->InvalidBinaryOp_1, g, x);
                lemma_stands_extends(a, b, e->InvalidBinaryOp_3, g, y);
            },
            _ => {},
        }
    }
}

/// Reports each of the variables `vars` whose type is not fully known, once for each
/// unknown variable that is not among `reported`, and marks that variable.
fn report_opens(
    engine: &Engine,
    types: &mut Types,
    vars: &Vec<TyVar>,
    reported: &mut Vec<TyVar>,
    errors: &mut Vec<Error>,
)
    requires
        engine.wf(),
        old(types).wf(),
    ensures
        final(types).wf(),
        extends(old(types)@, final(types)@),
        final(reported)@ == marks(engine.vars.graph(), old(reported)@, vars@, vars@.len()),
        opened(
            old(errors)@,
            final(errors)@,
            engine.vars.graph(),
            engine.origins@,
            final(types)@,
            opens(engine.vars.graph(), old(reported)@, vars@, vars@.len()),
        ),
{
    let ghost g = engine.vars.graph();
    let ghost start = types@;
    let mut k: usize = 0;
    while k < vars.len()
        invariant
            k <= vars.len(),
            engine.wf(),
            g == engine.vars.graph(),
            types.wf(),
            extends(start, types@),
            start == old(types)@,
            reported@ == marks(g, old(reported)@, vars@, k as nat),
            opened(
                old(errors)@,
                errors@,
                g,
                engine.origins@,
                types@,
                opens(g, old(reported)@, vars@, k as nat),
            ),
        decreases vars.len() - k,
    {
        let v = vars[k];
        let ghost before = types@;
        let ghost heard = errors@;
        let ghost sofar = opens(g, old(reported)@, vars@, k as nat);
        if v.0 < engine.vars.len() {
            match first_open(&engine.vars, v) {
                Some(u) => {
                    if !was_reported(reported, u) {
                        reported.push(u);
                        let id = reify(&engine.vars, types, v);
                        errors.push(Error::CannotInfer(id, origin_of(engine, u)));
                        proof {
                            lemma_extends_trans(start, before, types@);
                            lemma_opened_extends(
                                old(errors)@,
                                heard,
                                g,
                                engine.origins@,
                                before,
                                types@,
                                sofar,
                            );
                        }
                    }
                },
                None => {},
            }
        } else {
            assert(open_var(g, v) is None);
        }
        k += 1;
    }
}

/// The type that the variable `v` stands for, with the error type in place of
/// unknown variables.
fn settle_var(engine: &Engine, types: &mut Types, v: TyVar) -> (id: TyId)
    requires
        engine.wf(),
        v.0 < engine.bound(),
        old(types).wf(),
    ensures
        final(types).wf(),
        extends(old(types)@, final(types)@),
        final(types).has(id),
        final(types).shape(id) == settled(var_shape(engine.vars.graph(), v)),
{
    reify(&engine.vars, types, v)
}

/// Whether the place `o` holds the type that the variable in the place `m` stands
/// for in the graph `g`, with the error type in place of unknown variables.
pub open spec fn slot_settled(o: TySlot, m: TySlot, g: Graph, tys: Seq<TyView>) -> bool {
    match o {
        TySlot::Known(id) => id.0 < tys.len() && shape_of(tys, id.0 as nat) == settled(
            var_shape(g, slot_var(m)),
        ),
        _ => false,
    }
}

/// The demand on the tree that settling the types makes: the place for the type of
/// each node holds the type that the variable of the node it was made from stands
/// for.
pub open spec fn settled_from(g: Graph, tys: Seq<TyView>) -> Demand {
    Demand {
        e: |o: Expr, m: Expr| slot_settled(o.ty, m.ty, g, tys),
        p: |o: Pattern, m: Pattern| slot_settled(o.ty, m.ty, g, tys),
    }
}

/// What a tree meets in a store, it meets in a store that extends the store.
pub proof fn lemma_settled_mono(g: Graph, a: Seq<TyView>, b: Seq<TyView>)
    requires
        extends(a, b),
    ensures
        weaker(settled_from(g, a), settled_from(g, b)),
{
    let p = settled_from(g, a);
    let q = settled_from(g, b);
    assert forall|o: Expr, m: Expr| #[trigger] (p.e)(o, m) implies (q.e)(o, m) by {
        lemma_shape_extends(a, b, o.ty->Known_0.0 as nat);
    }
    assert forall|o: Pattern, m: Pattern| #[trigger] (p.p)(o, m) implies (q.p)(o, m) by {
        lemma_shape_extends(a, b, o.ty->Known_0.0 as nat);
    }
}

/// The type for the place `slot` of a node.
fn settle_slot(
    engine: &Engine,
    types: &mut Types,
    slot: TySlot,
) -> (r: TySlot)
    requires
        engine.wf(),
        slot_is_var(slot, engine.bound()),
        old(types).wf(),
    ensures
        final(types).wf(),
        extends(old(types)@, final(types)@),
        slot_settled(r, slot, engine.vars.graph(), final(types)@),
{
    match slot {
        TySlot::Var(v) => TySlot::Known(settle_var(engine, types, v)),
        other => other,
    }
}

/// The patterns `pats` with a type in place of the variable of each node.
#[verifier::loop_isolation(false)]
fn settle_pats(
    engine: &Engine,
    types: &mut Types,
    pats: &Vec<Pattern>,
    orig: Ghost<Seq<Pattern>>,
) -> (out: Vec<Pattern>)
    requires
        engine.wf(),
        old(types).wf(),
        pats_typed(pats@, orig@, var_slot(engine.bound())),
    ensures
        final(types).wf(),
        extends(old(types)@, final(types)@),
        pats_typed(out@, pats@, settled_from(engine.vars.graph(), final(types)@)),
    decreases pats,
{
    let mut out: Vec<Pattern> = Vec::new();
    let mut k: usize = 0;
    while k < pats.len()
        invariant
            k <= pats.len(),
            types.wf(),
            extends(old(types)@, types@),
            out@.len() == k,
            forall|j: int|
                0 <= j < k ==> pat_typed(
                    #[trigger] out@[j],
                    pats@[j],
                    settled_from(engine.vars.graph(), types@),
                ),
        decreases pats.len() - k,
    {
        let ghost before = types@;
        let p = settle_pat(engine, types, &pats[k], Ghost(orig@[k as int]));
        proof {
            lemma_extends_trans(old(types)@, before, types@);
            lemma_settled_mono(engine.vars.graph(), before, types@);
            assert forall|j: int| 0 <= j < k implies pat_typed(
                #[trigger] out@[j],
                pats@[j],
                settled_from(engine.vars.graph(), types@),
            ) by {
                lemma_pat_weaken(
                    out@[j],
                    pats@[j],
                    settled_from(engine.vars.graph(), before),
                    settled_from(engine.vars.graph(), types@),
                );
            }
        }
        out.push(p);
        k += 1;
    }
    out
}

/// The pattern `pat` with a type in place of the variable of each node.
fn settle_pat(
    engine: &Engine,
    types: &mut Types,
    pat: &Pattern,
    orig: Ghost<Pattern>,
) -> (out: Pattern)
    requires
        engine.wf(),
        old(types).wf(),
        pat_typed(*pat, orig@, var_slot(engine.bound())),
    ensures
        final(types).wf(),
        extends(old(types)@, final(types)@),
        pat_typed(out, *pat, settled_from(engine.vars.graph(), final(types)@)),
    decreases pat,
{
    let ty = settle_slot(engine, types, pat.ty);
    let ghost first = types@;
    let kind = match &pat.kind {
        PatKind::Wildcard => PatKind::Wildcard,
        PatKind::Literal(l) => PatKind::Literal(*l),
        PatKind::Tuple(items) => PatKind::Tuple(
            settle_pats(engine, types, items, Ghost(orig@.kind->Tuple_0@)),
        ),
        PatKind::ListExact(items) => PatKind::ListExact(
            settle_pats(engine, types, items, Ghost(orig@.kind->ListExact_0@)),
        ),
        PatKind::ListFront(items, tail) => {
            let inner = settle_pats(
                engine,
                types,
                items,
                Ghost(orig@.kind->ListFront_0@),
            );
            let ghost mid = types@;
            let rest = match tail {
                Some(t) => Some(
                    Box::new(
                        settle_pat(
                            engine,
                            types,
                            &**t,
                            Ghost(*orig@.kind->ListFront_1->0),
                        ),
                    ),
                ),
                None => None,
            };
            proof {
                lemma_extends_trans(first, mid, types@);
                lemma_settled_mono(engine.vars.graph(), mid, types@);
                lemma_pats_weaken(
                    inner@,
                    items@,
                    settled_from(engine.vars.graph(), mid),
                    settled_from(engine.vars.graph(), types@),
                );
            }
            PatKind::ListFront(inner, rest)
        },
        PatKind::Cons(name, fields) => PatKind::Cons(
            *name,
            settle_pats(engine, types, fields, Ghost(orig@.kind->Cons_1@)),
        ),
    };
    proof {
        lemma_extends_trans(old(types)@, first, types@);
        lemma_settled_mono(engine.vars.graph(), first, types@);
        lemma_shape_extends(first, types@, ty->Known_0.0 as nat);
        assert(slot_settled(ty, pat.ty, engine.vars.graph(), types@));
    }
    Pattern { kind, name: pat.name, span: pat.span, ty }
}

/// The expressions `exprs` with a type in place of the variable of each node.
#[verifier::loop_isolation(false)]
fn settle_exprs(
    engine: &Engine,
    types: &mut Types,
    exprs: &Vec<Expr>,
    orig: Ghost<Seq<Expr>>,
) -> (out: Vec<Expr>)
    requires
        engine.wf(),
        old(types).wf(),
        exprs_typed(exprs@, orig@, var_slot(engine.bound())),
    ensures
        final(types).wf(),
        extends(old(types)@, final(types)@),
        exprs_typed(out@, exprs@, settled_from(engine.vars.graph(), final(types)@)),
    decreases exprs,
{
    let mut out: Vec<Expr> = Vec::new();
    let mut k: usize = 0;
    while k < exprs.len()
        invariant
            k <= exprs.len(),
            types.wf(),
            extends(old(types)@, types@),
            out@.len() == k,
            forall|j: int|
                0 <= j < k ==> expr_typed(
                    #[trigger] out@[j],
                    exprs@[j],
                    settled_from(engine.vars.graph(), types@),
                ),
        decreases exprs.len() - k,
    {
        let ghost before = types@;
        let e = settle_expr(engine, types, &exprs[k], Ghost(orig@[k as int]));
        proof {
            lemma_extends_trans(old(types)@, before, types@);
            lemma_settled_mono(engine.vars.graph(), before, types@);
            assert forall|j: int| 0 <= j < k implies expr_typed(
                #[trigger] out@[j],
                exprs@[j],
                settled_from(engine.vars.graph(), types@),
            ) by {
                lemma_expr_weaken(
                    out@[j],
                    exprs@[j],
                    settled_from(engine.vars.graph(), before),
                    settled_from(engine.vars.graph(), types@),
                );
            }
        }
        out.push(e);
        k += 1;
    }
    out
}

/// The arms `arms` with a type in place of the variable of each node.
#[verifier::loop_isolation(false)]
fn settle_arms(
    engine: &Engine,
    types: &mut Types,
    arms: &Vec<Arm>,
    orig: Ghost<Seq<Arm>>,
) -> (out: Vec<Arm>)
    requires
        engine.wf(),
        old(types).wf(),
        arms_typed(arms@, orig@, var_slot(engine.bound())),
    ensures
        final(types).wf(),
        extends(old(types)@, final(types)@),
        arms_typed(out@, arms@, settled_from(engine.vars.graph(), final(types)@)),
    decreases arms,
{
    let mut out: Vec<Arm> = Vec::new();
    let mut k: usize = 0;
    while k < arms.len()
        invariant
            k <= arms.len(),
            types.wf(),
            extends(old(types)@, types@),
            out@.len() == k,
            arms_typed(
                out@,
                arms@.subrange(0, k as int),
                settled_from(engine.vars.graph(), types@),
            ),
        decreases arms.len() - k,
    {
        let ghost before = types@;
        let ghost done = out@;
        let arm = &arms[k];
        let params = settle_pats(
            engine,
            types,
            &arm.params,
            Ghost(orig@[k as int].params@),
        );
        let ghost mid = types@;
        let body = settle_expr(engine, types, &arm.body, Ghost(orig@[k as int].body));
        proof {
            lemma_extends_trans(before, mid, types@);
            lemma_extends_trans(old(types)@, before, types@);
            lemma_settled_mono(engine.vars.graph(), before, types@);
            lemma_settled_mono(engine.vars.graph(), mid, types@);
            lemma_pats_weaken(
                params@,
                arm.params@,
                settled_from(engine.vars.graph(), mid),
                settled_from(engine.vars.graph(), types@),
            );
            lemma_arms_weaken(
                done,
                arms@.subrange(0, k as int),
                settled_from(engine.vars.graph(), before),
                settled_from(engine.vars.graph(), types@),
            );
        }
        out.push(Arm { params, body, span: arm.span });
        proof {
            let now = arms@.subrange(0, k + 1);
            assert forall|i: int| 0 <= i < out@.len() implies {
                &&& (#[trigger] out@[i]).span == now[i].span
                &&& pats_typed(out@[i].params@, now[i].params@, settled_from(engine.vars.graph(), types@))
                &&& expr_typed(out@[i].body, now[i].body, settled_from(engine.vars.graph(), types@))
            } by {
                if i < k {
                    assert(out@[i] == done[i]);
                    assert(now[i] == arms@.subrange(0, k as int)[i]);
                }
            }
        }
        k += 1;
    }
    assert(arms@.subrange(0, k as int) =~= arms@);
    out
}

/// The expression `expr` with a type in place of the variable of each node.
fn settle_expr(
    engine: &Engine,
    types: &mut Types,
    expr: &Expr,
    orig: Ghost<Expr>,
) -> (out: Expr)
    requires
        engine.wf(),
        old(types).wf(),
        expr_typed(*expr, orig@, var_slot(engine.bound())),
    ensures
        final(types).wf(),
        extends(old(types)@, final(types)@),
        expr_typed(out, *expr, settled_from(engine.vars.graph(), final(types)@)),
    decreases expr,
{
    let ty = settle_slot(engine, types, expr.ty);
    let ghost first = types@;
    let kind = match &expr.kind {
        ExprKind::Error => ExprKind::Error,
        ExprKind::Literal(l) => ExprKind::Literal(*l),
        ExprKind::Local(name) => ExprKind::Local(*name),
        ExprKind::Global(name) => ExprKind::Global(*name),
        ExprKind::Tuple(items) => ExprKind::Tuple(
            settle_exprs(engine, types, items, Ghost(orig@.kind->Tuple_0@)),
        ),
        ExprKind::List(items) => ExprKind::List(
            settle_exprs(engine, types, items, Ghost(orig@.kind->List_0@)),
        ),
        ExprKind::Cons(name, fields) => ExprKind::Cons(
            *name,
            settle_exprs(engine, types, fields, Ghost(orig@.kind->Cons_1@)),
        ),
        ExprKind::Access(tuple, field) => ExprKind::Access(
            Box::new(
                settle_expr(
                    engine,
                    types,
                    &**tuple,
                    Ghost(*orig@.kind->Access_0),
                ),
            ),
            *field,
        ),
        ExprKind::Unary(op, operand) => ExprKind::Unary(
            *op,
            Box::new(
                settle_expr(
                    engine,
                    types,
                    &**operand,
                    Ghost(*orig@.kind->Unary_1),
                ),
            ),
        ),
        ExprKind::Binary(op, left, right) => {
            let a = settle_expr(
                engine,
                types,
                &**left,
                Ghost(*orig@.kind->Binary_1),
            );
            let ghost mid = types@;
            let b = settle_expr(
                engine,
                types,
                &**right,
                Ghost(*orig@.kind->Binary_2),
            );
            proof {
                lemma_extends_trans(first, mid, types@);
                lemma_settled_mono(engine.vars.graph(), mid, types@);
                lemma_expr_weaken(
                    a,
                    **left,
                    settled_from(engine.vars.graph(), mid),
                    settled_from(engine.vars.graph(), types@),
                );
            }
            ExprKind::Binary(*op, Box::new(a), Box::new(b))
        },
        ExprKind::Func(param, body) => ExprKind::Func(
            *param,
            Box::new(
                settle_expr(engine, types, &**body, Ghost(*orig@.kind->Func_1)),
            ),
        ),
        ExprKind::Apply(f, arg) => {
            let a = settle_expr(engine, types, &**f, Ghost(*orig@.kind->Apply_0));
            let ghost mid = types@;
            let b = settle_expr(
                engine,
                types,
                &**arg,
                Ghost(*orig@.kind->Apply_1),
            );
            proof {
                lemma_extends_trans(first, mid, types@);
                lemma_settled_mono(engine.vars.graph(), mid, types@);
                lemma_expr_weaken(
                    a,
                    **f,
                    settled_from(engine.vars.graph(), mid),
                    settled_from(engine.vars.graph(), types@),
                );
            }
            ExprKind::Apply(Box::new(a), Box::new(b))
        },
        ExprKind::Match(matched, arms) => {
            let a = settle_expr(
                engine,
                types,
                &**matched,
                Ghost(*orig@.kind->Match_0),
            );
            let ghost mid = types@;
            let typed = settle_arms(engine, types, arms, Ghost(orig@.kind->Match_1@));
            proof {
                lemma_extends_trans(first, mid, types@);
                lemma_settled_mono(engine.vars.graph(), mid, types@);
                lemma_expr_weaken(
                    a,
                    **matched,
                    settled_from(engine.vars.graph(), mid),
                    settled_from(engine.vars.graph(), types@),
                );
            }
            ExprKind::Match(Box::new(a), typed)
        },
    };
    proof {
        lemma_extends_trans(old(types)@, first, types@);
        lemma_settled_mono(engine.vars.graph(), first, types@);
        lemma_shape_extends(first, types@, ty->Known_0.0 as nat);
        assert(slot_settled(ty, expr.ty, engine.vars.graph(), types@));
    }
    Expr { kind, span: expr.span, ty }
}

/// Whether `id` is a type of the store `tys` and is the type that the variable `v`
/// stands for in the graph `g`, with the error type in place of unknown variables.
pub open spec fn stands_for(tys: Seq<TyView>, id: TyId, g: Graph, v: TyVar) -> bool {
    id.0 < tys.len() && shape_of(tys, id.0 as nat) == settled(var_shape(g, v))
}

/// Whether the diagnostic `r` is the failure `e` of inference: the same kind of
/// failure at the same places, with, for each variable of `e`, the type of the store
/// `tys` that the variable stands for in the graph `g`.
pub open spec fn error_settled(r: Error, e: InferError, g: Graph, tys: Seq<TyView>) -> bool {
    match e {
        InferError::Mismatch(a, b, span) => {
            &&& r is Mismatch
            &&& stands_for(tys, r->Mismatch_0, g, a)
            &&& stands_for(tys, r->Mismatch_1, g, b)
            &&& r->Mismatch_2 == Some(span)
        },
        InferError::Recursive(a, span, part) => {
            &&& r is Recursive
            &&& stands_for(tys, r->Recursive_0, g, a)
            &&& r->Recursive_1 == span
            &&& r->Recursive_2 == part
        },
        InferError::NoSuchField(a, field) => {
            &&& r is NoSuchField
            &&& stands_for(tys, r->NoSuchField_0, g, a)
            &&& r->NoSuchField_1 == field
        },
        InferError::NoSuchLocal(name) => r == Error::NoSuchLocal(name),
        InferError::WrongNumberOfParams(a, n, b, m) => r == Error::WrongNumberOfParams(a, n, b, m),
        InferError::NoBranches(span) => r == Error::NoBranches(span),
        InferError::InvalidUnaryOp(op, a, span) => {
            &&& r is InvalidUnaryOp
            &&& r->InvalidUnaryOp_0 == op
            &&& stands_for(tys, r->InvalidUnaryOp_1, g, a)
            &&& r->InvalidUnaryOp_2 == span
        },
        InferError::InvalidBinaryOp(op, a, a_span, b, b_span) => {
            &&& r is InvalidBinaryOp
            &&& r->InvalidBinaryOp_0 == op
            &&& stands_for(tys, r->InvalidBinaryOp_1, g, a)
            &&& r->InvalidBinaryOp_2 == a_span
            &&& stands_for(tys, r->InvalidBinaryOp_3, g, b)
            &&& r->InvalidBinaryOp_4 == b_span
        },
        InferError::NoSuchCons(name) => r == Error::NoSuchCons(name),
        InferError::DefTypeNotSpecified(def, usage, name) => r == Error::DefTypeNotSpecified(
            def,
            usage,
            name,
        ),
    }
}

/// The error `e` with the types that its variables stand for.
fn settle_error(engine: &Engine, types: &mut Types, e: InferError) -> (r: Error)
    requires
        engine.wf(),
        error_ok(e, engine.bound()),
        old(types).wf(),
    ensures
        final(types).wf(),
        extends(old(types)@, final(types)@),
        error_settled(r, e, engine.vars.graph(), final(types)@),
{
    let ghost start = types@;
    match e {
        InferError::Mismatch(a, b, span) => {
            let x = reify(&engine.vars, types, a);
            let ghost mid = types@;
            let y = reify(&engine.vars, types, b);
            proof {
                lemma_extends_trans(start, mid, types@);
                lemma_shape_extends(mid, types@, x.0 as nat);
            }
            Error::Mismatch(x, y, Some(span))
        },
        InferError::Recursive(a, span, part) => Error::Recursive(
            reify(&engine.vars, types, a),
            span,
            part,
        ),
        InferError::NoSuchField(a, field) => Error::NoSuchField(
            reify(&engine.vars, types, a),
            field,
        ),
        InferError::NoSuchLocal(name) => Error::NoSuchLocal(name),
        InferError::WrongNumberOfParams(a, n, b, m) => Error::WrongNumberOfParams(a, n, b, m),
        InferError::NoBranches(span) => Error::NoBranches(span),
        InferError::InvalidUnaryOp(op, a, span) => Error::InvalidUnaryOp(
            op,
            reify(&engine.vars, types, a),
            span,
        ),
        InferError::InvalidBinaryOp(op, a, a_span, b, b_span) => {
            let x = reify(&engine.vars, types, a);
            let ghost mid = types@;
            let y = reify(&engine.vars, types, b);
            proof {
                lemma_extends_trans(start, mid, types@);
                lemma_shape_extends(mid, types@, x.0 as nat);
            }
            Error::InvalidBinaryOp(op, x, a_span, y, b_span)
        },
        InferError::NoSuchCons(name) => Error::NoSuchCons(name),
        InferError::DefTypeNotSpecified(def, usage, name) => Error::DefTypeNotSpecified(
            def,
            usage,
            name,
        ),
    }
}

/// The table of the arms of a match: for each arm the row of its patterns.
pub open spec fn arm_rows(datas: Datas, arms: Seq<Arm>) -> Seq<Seq<PatView>> {
    Seq::new(arms.len(), |i: int| lowered_all(datas, arms[i].params@))
}

/// The case that the arms of a match leave out, as an example, if they leave one
/// out. The first arm says how many values are matched; arms with another number of
/// patterns take no part.
pub open spec fn left_out(datas: Datas, arms: Seq<Arm>) -> Option<ExampleView> {
    if arms.len() == 0 {
        None
    } else {
        let cols = arms[0].params@.len();
        match search(datas, of_width(arm_rows(datas, arms), cols, arms.len()), cols) {
            Some(w) => Some(
                if cols == 1 {
                    example_for(datas, w[0])
                } else {
                    ExampleView::Tuple(examples_for(datas, w))
                },
            ),
            None => None,
        }
    }
}

/// What a match at `span` with the arms `arms` reports of itself.
pub open spec fn own_report(datas: Datas, span: Span, arms: Seq<Arm>) -> Seq<(Span, ExampleView)> {
    match left_out(datas, arms) {
        Some(e) => seq![(span, e)],
        None => Seq::empty(),
    }
}

/// What the matches of an expression report: for each match that leaves a case out,
/// its place and an example of the case. A match comes after the matches inside it.
pub open spec fn reports(datas: Datas, expr: Expr) -> Seq<(Span, ExampleView)>
    decreases expr, 0nat,
{
    match expr.kind {
        ExprKind::Tuple(items) => reports_all(datas, items@, items@.len()),
        ExprKind::List(items) => reports_all(datas, items@, items@.len()),
        ExprKind::Cons(_, fields) => reports_all(datas, fields@, fields@.len()),
        ExprKind::Access(tuple, _) => reports(datas, *tuple),
        ExprKind::Unary(_, operand) => reports(datas, *operand),
        ExprKind::Binary(_, left, right) => reports(datas, *left) + reports(datas, *right),
        ExprKind::Func(_, body) => reports(datas, *body),
        ExprKind::Apply(f, arg) => reports(datas, *f) + reports(datas, *arg),
        ExprKind::Match(matched, arms) => reports(datas, *matched) + reports_arms(
            datas,
            arms@,
            arms@.len(),
        ) + own_report(datas, expr.span, arms@),
        _ => Seq::empty(),
    }
}

/// What the matches of the first `n` expressions of `exprs` report.
pub open spec fn reports_all(datas: Datas, exprs: Seq<Expr>, n: nat) -> Seq<(Span, ExampleView)>
    decreases exprs, n,
{
    if n == 0 || n > exprs.len() {
        Seq::empty()
    } else {
        reports_all(datas, exprs, (n - 1) as nat) + reports(datas, exprs[n - 1])
    }
}

/// What the matches in the bodies of the first `n` arms of `arms` report.
pub open spec fn reports_arms(datas: Datas, arms: Seq<Arm>, n: nat) -> Seq<(Span, ExampleView)>
    decreases arms, n,
{
    if n == 0 || n > arms.len() {
        Seq::empty()
    } else {
        reports_arms(datas, arms, (n - 1) as nat) + reports(datas, arms[n - 1].body)
    }
}

/// Whether the diagnostic `e` is the report `r`: a match that is not exhaustive, at
/// the place and with the example of the report.
pub open spec fn tells(e: Error, r: (Span, ExampleView)) -> bool {
    &&& e is NotExhaustive
    &&& e->NotExhaustive_0 == r.0
    &&& e->NotExhaustive_1@ == r.1
}

/// Whether `after` is `before` with one diagnostic more for each report of `rs`, in
/// their order.
pub open spec fn added(before: Seq<Error>, after: Seq<Error>, rs: Seq<(Span, ExampleView)>) -> bool {
    &&& after.len() == before.len() + rs.len()
    &&& forall|i: int| 0 <= i < before.len() ==> #[trigger] after[i] == before[i]
    &&& forall|k: int| 0 <= k < rs.len() ==> tells(after[before.len() + k], #[trigger] rs[k])
}

/// Reports that are added one after another are added together.
pub proof fn lemma_added_join(
    a: Seq<Error>,
    b: Seq<Error>,
    c: Seq<Error>,
    r1: Seq<(Span, ExampleView)>,
    r2: Seq<(Span, ExampleView)>,
)
    requires
        added(a, b, r1),
        added(b, c, r2),
    ensures
        added(a, c, r1 + r2),
{
    let rs = r1 + r2;
    assert forall|i: int| 0 <= i < a.len() implies #[trigger] c[i] == a[i] by {
        assert(c[i] == b[i]);
        assert(b[i] == a[i]);
    }
    assert forall|k: int| 0 <= k < rs.len() implies tells(c[a.len() + k], #[trigger] rs[k]) by {
        if k < r1.len() {
            assert(rs[k] == r1[k]);
            assert(c[a.len() + k] == b[a.len() + k]);
        } else {
            assert(rs[k] == r2[k - r1.len()]);
            assert(a.len() + k == b.len() + (k - r1.len()));
        }
    }
}

/// A match with an arm for any value reports nothing of itself: an arm that has as
/// many patterns as the first arm, each of them a pattern for any value.
pub proof fn lemma_catch_all_arm(datas: Datas, span: Span, arms: Seq<Arm>, i: int)
    requires
        0 <= i < arms.len(),
        arms[i].params@.len() == arms[0].params@.len(),
        forall|j: int|
            0 <= j < arms[i].params@.len() ==> lowered(datas, #[trigger] arms[i].params@[j]) is Wild,
    ensures
        own_report(datas, span, arms) =~= Seq::empty(),
{
    let cols = arms[0].params@.len();
    let rows = arm_rows(datas, arms);
    let table = of_width(rows, cols, arms.len());
    lemma_of_width(rows, cols, arms.len());
    assert(rows[i] =~= wilds_v(cols));
    let j = choose|j: int| 0 <= j < table.len() && table[j] == rows[i];
    assert(table[j] == wilds_v(cols));
    lemma_catch_all(datas, table, cols);
}

/// A match on a value of a data type with two constructors, with one arm, for the
/// first constructor, reports the second constructor as the case that is left out.
pub proof fn lemma_other_constructor_arm(
    datas: Datas,
    span: Span,
    arms: Seq<Arm>,
    first: usize,
    second: usize,
)
    requires
        first != second,
        first < datas.conses().len(),
        second < datas.conses().len(),
        datas.datas()[datas.conses()[first as int].data.0 as int].cons@ == seq![first, second],
        arms.len() == 1,
        arms[0].params@.len() == 1,
        lowered(datas, arms[0].params@[0]) == PatView::Ctor(
            Head::Variant(first),
            wilds_v(fields_of(datas, first)),
        ),
    ensures
        own_report(datas, span, arms) == seq![
            (
                span,
                example_for(
                    datas,
                    PatView::Ctor(Head::Variant(second), wilds_v(fields_of(datas, second))),
                ),
            ),
        ],
{
    let row = seq![PatView::Ctor(Head::Variant(first), wilds_v(fields_of(datas, first)))];
    let rows = arm_rows(datas, arms);
    assert(lowered_all(datas, arms[0].params@) =~= row);
    assert(rows =~= seq![row]);
    assert(of_width(rows, 1, 0) =~= Seq::empty());
    assert(of_width(rows, 1, 1) =~= seq![row]);
    lemma_other_constructor(datas, first, second);
}

/// Looks, in each match of the typed expressions `exprs`, for a case that is left
/// out.
fn check_all(datas: &Datas, exprs: &Vec<Expr>, errors: &mut Vec<Error>)
    requires
        datas.wf(),
    ensures
        added(old(errors)@, final(errors)@, reports_all(*datas, exprs@, exprs@.len())),
    decreases exprs,
{
    let ghost start = errors@;
    let mut k: usize = 0;
    while k < exprs.len()
        invariant
            k <= exprs.len(),
            datas.wf(),
            added(start, errors@, reports_all(*datas, exprs@, k as nat)),
        decreases exprs.len() - k,
    {
        let ghost mid = errors@;
        check_matches(datas, &exprs[k], errors);
        proof {
            lemma_added_join(
                start,
                mid,
                errors@,
                reports_all(*datas, exprs@, k as nat),
                reports(*datas, exprs@[k as int]),
            );
        }
        k += 1;
    }
}

/// The row of the table for the patterns `params`.
fn lower_row(datas: &Datas, params: &Vec<Pattern>) -> (row: Vec<Pat>)
    requires
        datas.wf(),
    ensures
        pats_view(row@) == lowered_all(*datas, params@),
{
    let mut row: Vec<Pat> = Vec::new();
    let mut j: usize = 0;
    while j < params.len()
        invariant
            j <= params.len(),
            datas.wf(),
            row@.len() == j,
            forall|i: int| 0 <= i < j ==> pat_view(#[trigger] row@[i]) == lowered(*datas, params@[i]),
        decreases params.len() - j,
    {
        row.push(lower(datas, &params[j]));
        j += 1;
    }
    assert(pats_view(row@) =~= lowered_all(*datas, params@));
    row
}

/// The example that is reported for the case `found` that a match leaves out.
fn example_of_case(datas: &Datas, found: &Vec<Pat>) -> (r: ExamplePat)
    requires
        found@.len() > 0,
    ensures
        r@ == if found@.len() == 1 {
            example_for(*datas, pats_view(found@)[0])
        } else {
            ExampleView::Tuple(examples_for(*datas, pats_view(found@)))
        },
{
    if found.len() == 1 {
        example_of(datas, &found[0])
    } else {
        let mut parts: Vec<ExamplePat> = Vec::new();
        let mut j: usize = 0;
        while j < found.len()
            invariant
                j <= found.len(),
                parts@.len() == j,
                forall|i: int|
                    0 <= i < j ==> example_view(#[trigger] parts@[i]) == example_for(
                        *datas,
                        pat_view(found@[i]),
                    ),
            decreases found.len() - j,
        {
            parts.push(example_of(datas, &found[j]));
            j += 1;
        }
        assert(examples_view(parts@) =~= examples_for(*datas, pats_view(found@)));
        ExamplePat::Tuple(parts)
    }
}

/// Looks, in each match of the typed expression `expr`, for a case that is left out;
/// what is found is reported with an example of the case. Arms with another number
/// of parameters than the first arm take no part.
#[verifier::loop_isolation(false)]
pub fn check_matches(datas: &Datas, expr: &Expr, errors: &mut Vec<Error>)
    requires
        datas.wf(),
    ensures
        added(old(errors)@, final(errors)@, reports(*datas, *expr)),
    decreases expr,
{
    let ghost start = errors@;
    match &expr.kind {
        ExprKind::Tuple(items) => check_all(datas, items, errors),
        ExprKind::List(items) => check_all(datas, items, errors),
        ExprKind::Cons(_, fields) => check_all(datas, fields, errors),
        ExprKind::Access(tuple, _) => check_matches(datas, &**tuple, errors),
        ExprKind::Unary(_, operand) => check_matches(datas, &**operand, errors),
        ExprKind::Binary(_, left, right) => {
            check_matches(datas, &**left, errors);
            let ghost mid = errors@;
            check_matches(datas, &**right, errors);
            proof {
                lemma_added_join(
                    start,
                    mid,
                    errors@,
                    reports(*datas, **left),
                    reports(*datas, **right),
                );
            }
        },
        ExprKind::Func(_, body) => check_matches(datas, &**body, errors),
        ExprKind::Apply(f, arg) => {
            check_matches(datas, &**f, errors);
            let ghost mid = errors@;
            check_matches(datas, &**arg, errors);
            proof {
                lemma_added_join(start, mid, errors@, reports(*datas, **f), reports(*datas, **arg));
            }
        },
        ExprKind::Match(matched, arms) => {
            check_matches(datas, &**matched, errors);
            let ghost first = reports(*datas, **matched);
            let mut rows: Vec<Vec<Pat>> = Vec::new();
            let mut k: usize = 0;
            while k < arms.len()
                invariant
                    k <= arms.len(),
                    rows@.len() == k,
                    forall|i: int|
                        0 <= i < k ==> pats_view((#[trigger] rows@[i])@) == lowered_all(
                            *datas,
                            arms@[i].params@,
                        ),
                    added(start, errors@, first + reports_arms(*datas, arms@, k as nat)),
                decreases arms.len() - k,
            {
                let arm = &arms[k];
                rows.push(lower_row(datas, &arm.params));
                let ghost mid = errors@;
                check_matches(datas, &arm.body, errors);
                proof {
                    let sofar = reports_arms(*datas, arms@, k as nat);
                    let more = reports(*datas, arm.body);
                    lemma_added_join(start, mid, errors@, first + sofar, more);
                    assert((first + sofar) + more =~= first + (sofar + more));
                }
                k += 1;
            }
            let ghost inner = first + reports_arms(*datas, arms@, arms@.len());
            assert(table_view(rows@) =~= arm_rows(*datas, arms@));
            if arms.len() > 0 {
                let count = arms[0].params.len();
                match missing_case(datas, &rows, count) {
                    Some(found) => {
                        let example = if count > 0 {
                            example_of_case(datas, &found)
                        } else {
                            ExamplePat::Tuple(Vec::new())
                        };
                        proof {
                            assert(examples_view(Seq::<ExamplePat>::empty()) =~= examples_for(
                                *datas,
                                Seq::<PatView>::empty(),
                            ));
                            if count == 0 {
                                assert(pats_view(found@) =~= Seq::<PatView>::empty());
                            }
                            assert(left_out(*datas, arms@) == Some(example@));
                        }
                        let ghost mid = errors@;
                        errors.push(Error::NotExhaustive(expr.span, example));
                        proof {
                            let own = own_report(*datas, expr.span, arms@);
                            assert(own =~= seq![(expr.span, example@)]);
                            assert(added(mid, errors@, own));
                            lemma_added_join(start, mid, errors@, inner, own);
                        }
                    },
                    None => {
                        assert(inner + own_report(*datas, expr.span, arms@) =~= inner);
                    },
                }
            } else {
                assert(inner + own_report(*datas, expr.span, arms@) =~= inner);
            }
        },
        _ => {},
    }
}

/// The diagnostic for a definition that is not said to have a type and whose body
/// has a type that is not fully known: the place of the definition, the place that
/// introduced the first unknown variable in the type of its body, and its name.
/// `bv` is the variable of the body.
pub open spec fn head_report(s: Infer, decl: DefDecl, hinted: bool, bv: TyVar) -> Seq<
    Error,
> {
    if hinted {
        Seq::empty()
    } else {
        match open_var(s.graph, bv) {
            Some(u) => seq![
                Error::DefTypeNotSpecified(decl.span, s.spans[u.0 as int], decl.name),
            ],
            None => Seq::empty(),
        }
    }
}

/// The unknown variables that are marked as reported before the types of the nodes
/// are looked at: all of them, where the definition itself is reported.
pub open spec fn muted(s: Infer, decl: DefDecl, hinted: bool, bv: TyVar) -> Seq<TyVar> {
    if head_report(s, decl, hinted, bv).len() > 0 {
        unknown_vars(s.graph.infos, s.graph.infos.len())
    } else {
        Seq::empty()
    }
}

/// Whether `after` is `before` with the diagnostics of a definition behind it, in
/// this order: that the type of the definition is not specified, if it is not; the
/// failures that the state `s` holds, with the types that their variables stand for;
/// for each of the nodes `visits` whose type is not fully known, that it is not,
/// once for each unknown variable; and the reports `rs` of the matches.
pub open spec fn def_told(
    before: Seq<Error>,
    after: Seq<Error>,
    s: Infer,
    decl: DefDecl,
    hinted: bool,
    bv: TyVar,
    visits: Seq<TyVar>,
    tys: Seq<TyView>,
    rs: Seq<(Span, ExampleView)>,
) -> bool {
    let g = s.graph;
    let head = head_report(s, decl, hinted, bv);
    let os = opens(g, muted(s, decl, hinted, bv), visits, visits.len());
    let a = before.len() + head.len();
    let b = a + s.errors.len();
    let c = b + os.len();
    &&& after.len() == c + rs.len()
    &&& after.take(a as int) == before + head
    &&& settled_all(after.take(a as int), after.take(b as int), s.errors, g, tys)
    &&& opened(after.take(b as int), after.take(c as int), g, s.origins, tys, os)
    &&& added(after.take(c as int), after, rs)
}

/// The number of the diagnostics of a definition: see `def_told`; `rs` is the number
/// of the reports of its matches.
pub open spec fn told_len(
    s: Infer,
    decl: DefDecl,
    hinted: bool,
    bv: TyVar,
    visits: Seq<TyVar>,
    rs: nat,
) -> nat {
    head_report(s, decl, hinted, bv).len() + s.errors.len() + opens(
        s.graph,
        muted(s, decl, hinted, bv),
        visits,
        visits.len(),
    ).len() + rs
}

/// The diagnostics of a definition stay what they are in a store that extends the
/// store.
pub proof fn lemma_def_told_extends(
    before: Seq<Error>,
    after: Seq<Error>,
    s: Infer,
    decl: DefDecl,
    hinted: bool,
    bv: TyVar,
    visits: Seq<TyVar>,
    a: Seq<TyView>,
    b: Seq<TyView>,
    rs: Seq<(Span, ExampleView)>,
)
    requires
        extends(a, b),
        def_told(before, after, s, decl, hinted, bv, visits, a, rs),
    ensures
        def_told(before, after, s, decl, hinted, bv, visits, b, rs),
{
    let g = s.graph;
    let head = head_report(s, decl, hinted, bv);
    let os = opens(g, muted(s, decl, hinted, bv), visits, visits.len());
    let x = before.len() + head.len();
    let y = x + s.errors.len();
    let z = y + os.len();
    lemma_settled_all_extends(after.take(x as int), after.take(y as int), s.errors, g, a, b);
    lemma_opened_extends(after.take(y as int), after.take(z as int), g, s.origins, a, b, os);
}

/// Gives each node of the body `body` of the definition `decl` the type that its
/// variable stands for after the inference `engine`, and reports what the inference
/// and the matches of the body leave to report. `hinted` says whether the
/// definition is said to have a type.
#[verifier::rlimit(80)]
pub fn settle_def(
    engine: &Engine,
    body: &Expr,
    types: &mut Types,
    datas: &Datas,
    decl: &DefDecl,
    hinted: bool,
    errors: &mut Vec<Error>,
) -> (r: TypedDef)
    requires
        engine.wf(),
        old(types).wf(),
        datas.wf(),
        expr_typed(*body, decl.body, engine.demand()),
    ensures
        final(types).wf(),
        extends(old(types)@, final(types)@),
        r.name == decl.name,
        r.span == decl.span,
        r.body.ty == TySlot::Known(r.ty),
        stands_for(final(types)@, r.ty, engine.vars.graph(), slot_var(body.ty)),
        expr_typed(r.body, *body, settled_from(engine.vars.graph(), final(types)@)),
        def_told(
            old(errors)@,
            final(errors)@,
            engine.state(),
            *decl,
            hinted,
            slot_var(body.ty),
            expr_visits(*body),
            final(types)@,
            reports(*datas, r.body),
        ),
{
    let ghost start = types@;
    let ghost g = engine.vars.graph();
    let ghost s0 = errors@;
    let bv = var_of(body.ty);
    proof {
        assert(weaker(engine.demand(), var_slot(engine.bound())));
        lemma_expr_weaken(*body, decl.body, engine.demand(), var_slot(engine.bound()));
        assert(bv.0 < engine.bound());
    }
    let mut reported: Vec<TyVar> = Vec::new();
    if !hinted {
        match first_open(&engine.vars, bv) {
            Some(u) => {
                mute_unknowns(engine, &mut reported);
                errors.push(
                    Error::DefTypeNotSpecified(decl.span, engine.vars.get_span(u), decl.name),
                );
            },
            None => {},
        }
    }
    let ghost s1 = errors@;
    proof {
        assert(s1 =~= s0 + head_report(engine.state(), *decl, hinted, bv));
        assert(reported@ =~= muted(engine.state(), *decl, hinted, bv));
    }
    let mut k: usize = 0;
    while k < engine.errors.len()
        invariant
            k <= engine.errors.len(),
            engine.wf(),
            g == engine.vars.graph(),
            types.wf(),
            extends(start, types@),
            settled_all(s1, errors@, engine.errors@.take(k as int), g, types@),
        decreases engine.errors.len() - k,
    {
        let ghost before = types@;
        let ghost heard = errors@;
        let e = settle_error(engine, types, engine.errors[k]);
        proof {
            lemma_extends_trans(start, before, types@);
            lemma_settled_all_extends(s1, heard, engine.errors@.take(k as int), g, before, types@);
        }
        errors.push(e);
        assert(engine.errors@.take(k + 1)[k as int] == engine.errors@[k as int]);
        assert forall|j: int| 0 <= j < k + 1 implies error_settled(
            errors@[s1.len() + j],
            #[trigger] engine.errors@.take(k + 1)[j],
            g,
            types@,
        ) by {
            if j < k {
                assert(engine.errors@.take(k as int)[j] == engine.errors@.take(k + 1)[j]);
                assert(errors@[s1.len() + j] == heard[s1.len() + j]);
            }
        }
        k += 1;
    }
    let ghost s2 = errors@;
    assert(engine.errors@.take(k as int) =~= engine.errors@);
    let ghost before = types@;
    let ty = reify(&engine.vars, types, bv);
    let ghost late = types@;
    let typed = settle_expr(engine, types, body, Ghost(decl.body));
    let ghost settled_at = types@;
    let mut vars: Vec<TyVar> = Vec::new();
    collect_expr(body, &mut vars);
    assert(vars@ =~= expr_visits(*body));
    report_opens(engine, types, &vars, &mut reported, errors);
    let ghost s3 = errors@;
    check_matches(datas, &typed, errors);
    proof {
        lemma_extends_trans(before, late, settled_at);
        lemma_extends_trans(before, settled_at, types@);
        lemma_extends_trans(start, before, types@);
        lemma_extends_trans(late, settled_at, types@);
        lemma_shape_extends(late, types@, ty.0 as nat);
        lemma_settled_mono(g, settled_at, types@);
        lemma_expr_weaken(typed, *body, settled_from(g, settled_at), settled_from(g, types@));
        assert(slot_settled(typed.ty, body.ty, g, types@));
        lemma_shape_injective(types@, ty.0 as nat, typed.ty->Known_0.0 as nat);
        lemma_settled_all_extends(s1, s2, engine.errors@, g, before, types@);
        let rs = reports(*datas, typed);
        let head = head_report(engine.state(), *decl, hinted, bv);
        let os = opens(g, muted(engine.state(), *decl, hinted, bv), expr_visits(*body), expr_visits(*body).len());
        let a = s0.len() + head.len();
        let b = a + engine.errors@.len();
        let c = b + os.len();
        assert(errors@.take(a as int) =~= s1);
        assert(errors@.take(b as int) =~= s2);
        assert(errors@.take(c as int) =~= s3);
    }
    TypedDef { name: decl.name, span: decl.span, ty, body: typed }
}

/// Checks the definition `id`, declared as `decl`: gives its body types, settles
/// them, and checks its matches. Every failure is reported.
///
/// The body must have the type that the definition is said to have, if it is said to
/// have one. Otherwise the type of the body must be fully known, or that is
/// reported as a type that is not specified. The diagnostics are those of the
/// inference of the definition, as the model of inference gives them, and end with
/// what the matches of the typed body report.
#[verifier::rlimit(80)]
pub fn check_def(
    types: &mut Types,
    datas: &Datas,
    defs: &Defs,
    decl: &DefDecl,
    id: DefId,
    errors: &mut Vec<Error>,
) -> (r: TypedDef)
    requires
        sigs_ok(&*old(types), datas, defs),
        id.0 < defs@.len(),
    ensures
        sigs_ok(&*final(types), datas, defs),
        extends(old(types)@, final(types)@),
        final(types).has(r.ty),
        expr_typed(r.body, decl.body, known_slot(final(types)@.len())),
        old(errors)@.len() <= final(errors)@.len(),
        final(errors)@.take(old(errors)@.len() as int) == old(errors)@,
        r.name == decl.name,
        r.span == decl.span,
        r.body.ty == TySlot::Known(r.ty),
        final(errors)@.len() == old(errors)@.len() ==> expr_typed(
            r.body,
            decl.body,
            judged(final(types)@),
        ),
        old(errors)@.len() + reports(*datas, r.body).len() <= final(errors)@.len(),
        added(
            final(errors)@.take(final(errors)@.len() - reports(*datas, r.body).len()),
            final(errors)@,
            reports(*datas, r.body),
        ),
        stands_for(
            final(types)@,
            r.ty,
            def_m(old(types)@, *datas, defs@, *decl, id).0.graph,
            def_m(old(types)@, *datas, defs@, *decl, id).1,
        ),
        def_told(
            old(errors)@,
            final(errors)@,
            def_m(old(types)@, *datas, defs@, *decl, id).0,
            *decl,
            defs@[id.0 as int].hint is Some,
            def_m(old(types)@, *datas, defs@, *decl, id).1,
            def_m(old(types)@, *datas, defs@, *decl, id).2,
            final(types)@,
            reports(*datas, r.body),
        ),
{
    let ghost start = types@;
    let def = defs.get(id);
    let ghost told = errors@;
    let mut engine = Engine::new();
    let body = engine.infer_expr(types, datas, defs, &decl.body);
    let ghost mid = engine;
    let bv = match body.ty {
        TySlot::Var(v) => v,
        _ => TyVar(0),
    };
    match def.hint {
        Some(hint) => {
            if hint.0 < types.len() {
                let none: Vec<TyVar> = Vec::new();
                let wanted = engine.instantiate_ty(types, hint, def.gen_scope, &none, decl.span);
                engine.make_eq(bv, wanted, decl.span);
            }
        },
        None => {},
    }
    engine.solve();
    let hinted = match def.hint {
        Some(_) => true,
        None => false,
    };
    proof {
        lemma_demand_mono(mid, engine);
        lemma_expr_weaken(body, decl.body, mid.demand(), engine.demand());
        let m = def_m(start, *datas, defs@, *decl, id);
        assert(engine.state() == m.0);
        assert(bv == m.1);
        assert(expr_visits(body) == m.2);
    }
    let ghost before = types@;
    let r = settle_def(&engine, &body, types, datas, decl, hinted, errors);
    proof {
        let g = engine.vars.graph();
        let rs = reports(*datas, r.body);
        lemma_extends_trans(start, before, types@);
        assert(carries(settled_from(g, types@), known_slot(types@.len())));
        lemma_expr_through(
            r.body,
            body,
            decl.body,
            settled_from(g, types@),
            engine.demand(),
            known_slot(types@.len()),
        );
        if errors@.len() == told.len() {
            assert(engine.errors@.len() == 0);
            lemma_judge_expr(r.body, body, decl.body, g, engine.asked@, types@);
        }
        assert(errors@.take(told.len() as int) =~= told) by {
            let head = head_report(engine.state(), *decl, hinted, bv);
            assert(errors@.take((told.len() + head.len()) as int).take(told.len() as int)
                =~= errors@.take(told.len() as int));
        }
    }
    r
}

} // verus!
