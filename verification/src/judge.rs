//! What it means for a tree with types to be well typed, and why a tree that was
//! checked without a failure is.
//!
//! The judgement is made node by node, on the shapes of the types of a node and of its
//! parts. Where a rule asks two types to be equal, the judgement asks them to agree.

use crate::agree::agree;
use crate::check::{settled_from, slot_settled};
use crate::hir::{
    arms_typed, expr_typed, exprs_typed, pat_typed, pats_typed, slot_is_known, Arm, Demand, Expr,
    ExprKind, PatKind, Pattern, TySlot,
};
use crate::infer::{arm_rule, expr_slots, kind_rule, pat_rule, pat_slots, ruled, slot_var};
use crate::ops::literal_prim;
use crate::reify::{settled, var_shape};
use crate::ty::{extends, lemma_shape_extends, shape_of, Shape, TyView};
use crate::unify::{graph_wf, has_var, kids, kids_below, Graph, InfoView, TyVar};
use vstd::prelude::*;

verus! {

/// The shape of the type in the place `s`.
pub open spec fn ty_of(s: TySlot, tys: Seq<TyView>) -> Shape {
    match s {
        TySlot::Known(id) => shape_of(tys, id.0 as nat),
        _ => Shape::Error,
    }
}

/// The shapes of the types of the expressions `es`.
pub open spec fn expr_shapes(es: Seq<Expr>, tys: Seq<TyView>) -> Seq<Shape> {
    Seq::new(es.len(), |k: int| ty_of(es[k].ty, tys))
}

/// The shapes of the types of the patterns `ps`.
pub open spec fn pat_shapes(ps: Seq<Pattern>, tys: Seq<TyView>) -> Seq<Shape> {
    Seq::new(ps.len(), |k: int| ty_of(ps[k].ty, tys))
}

/// Whether each shape of `ss` agrees with `t`.
pub open spec fn each_agrees(ss: Seq<Shape>, t: Shape) -> bool {
    forall|k: int| 0 <= k < ss.len() ==> agree(#[trigger] ss[k], t)
}

/// Whether a pattern of the type `t` is well typed: a literal has its own type, a
/// tuple the tuple of the types of its parts; a list is a list, the types of its
/// items agree with the type of the items of the list, and the type of its rest
/// agrees with its own.
pub open spec fn judge_pat(kind: PatKind, t: Shape, tys: Seq<TyView>) -> bool {
    match kind {
        PatKind::Literal(l) => t == Shape::Prim(literal_prim(l)),
        PatKind::Tuple(items) => t == Shape::Tuple(pat_shapes(items@, tys)),
        PatKind::ListExact(items) => t is List && each_agrees(pat_shapes(items@, tys), *t->List_0),
        PatKind::ListFront(items, tail) => t is List && each_agrees(
            pat_shapes(items@, tys),
            *t->List_0,
        ) && (match tail {
            Some(rest) => agree(ty_of(rest.ty, tys), t),
            None => true,
        }),
        _ => true,
    }
}

/// Whether an arm of a match on a value of the type `matched`, whose result is of the
/// type `t`, is well typed: the type of its body agrees with `t`, and, where the arm
/// has `count` parameters, the type of its pattern, or the tuple of the types of its
/// patterns, agrees with `matched`.
pub open spec fn judge_arm(arm: Arm, count: nat, matched: Shape, t: Shape, tys: Seq<TyView>) -> bool {
    &&& agree(ty_of(arm.body.ty, tys), t)
    &&& arm.params@.len() == count ==> if count == 1 {
        agree(matched, ty_of(arm.params@[0].ty, tys))
    } else {
        agree(matched, Shape::Tuple(pat_shapes(arm.params@, tys)))
    }
}

/// Whether an expression of the type `t` is well typed.
///
/// A literal has its own type, a tuple the tuple of the types of its parts, a
/// function is a function to the type of its body. A list is a list, and the types
/// of its items agree with the type of the items of the list. The type of what is
/// applied agrees with the type of functions from the type of the argument to `t`.
/// The types of the operands of a binary operator agree. The arms of a match are
/// well typed.
pub open spec fn judge_expr(kind: ExprKind, t: Shape, tys: Seq<TyView>) -> bool {
    match kind {
        ExprKind::Error => t == Shape::Error,
        ExprKind::Literal(l) => t == Shape::Prim(literal_prim(l)),
        ExprKind::Tuple(items) => t == Shape::Tuple(expr_shapes(items@, tys)),
        ExprKind::List(items) => t is List && each_agrees(expr_shapes(items@, tys), *t->List_0),
        ExprKind::Func(_, body) => t is Func && *t->Func_1 == ty_of(body.ty, tys),
        ExprKind::Apply(f, arg) => agree(
            ty_of(f.ty, tys),
            Shape::Func(Box::new(ty_of(arg.ty, tys)), Box::new(t)),
        ),
        ExprKind::Binary(_, left, right) => agree(ty_of(left.ty, tys), ty_of(right.ty, tys)),
        ExprKind::Match(matched, arms) => forall|k: int|
            0 <= k < arms@.len() ==> judge_arm(
                #[trigger] arms@[k],
                arms@[0].params@.len(),
                ty_of(matched.ty, tys),
                t,
                tys,
            ),
        _ => true,
    }
}

/// The demand on a tree that it is well typed: the place for the type of each node
/// holds a type of the store, and the node is well typed.
pub open spec fn judged(tys: Seq<TyView>) -> Demand {
    Demand {
        e: |o: Expr, i: Expr|
            slot_is_known(o.ty, tys.len()) && judge_expr(o.kind, ty_of(o.ty, tys), tys),
        p: |o: Pattern, i: Pattern|
            slot_is_known(o.ty, tys.len()) && judge_pat(o.kind, ty_of(o.ty, tys), tys),
    }
}

/// Whether the types of each pair of `asked` agree in the graph `g`.
pub open spec fn pairs_agree(g: Graph, asked: Seq<(TyVar, TyVar)>) -> bool {
    forall|i: int|
        0 <= i < asked.len() ==> agree(
            var_shape(g, (#[trigger] asked[i]).0),
            var_shape(g, asked[i].1),
        )
}

/// Shapes that agree still agree when the error type takes the place of the unknown
/// variables in them.
pub proof fn lemma_agree_settled(s: Shape, t: Shape)
    requires
        agree(s, t),
    ensures
        agree(settled(s), settled(t)),
    decreases s,
{
    if s is Error || t is Error {
    } else {
        match (s, t) {
            (Shape::List(x), Shape::List(y)) => lemma_agree_settled(*x, *y),
            (Shape::Tuple(xs), Shape::Tuple(ys)) => {
                let ps = settled(s)->Tuple_0;
                let pt = settled(t)->Tuple_0;
                assert forall|k: int| 0 <= k < ps.len() implies agree(#[trigger] ps[k], pt[k]) by {
                    assert(agree(xs[k], ys[k]));
                    lemma_agree_settled(xs[k], ys[k]);
                }
            },
            (Shape::Func(a, b), Shape::Func(c, d)) => {
                lemma_agree_settled(*a, *c);
                lemma_agree_settled(*b, *d);
            },
            (Shape::Data(d, xs), Shape::Data(e, ys)) => {
                let ps = settled(s)->Data_1;
                let pt = settled(t)->Data_1;
                assert forall|k: int| 0 <= k < ps.len() implies agree(#[trigger] ps[k], pt[k]) by {
                    assert(agree(xs[k], ys[k]));
                    lemma_agree_settled(xs[k], ys[k]);
                }
            },
            _ => {},
        }
    }
}

/// The settled types of a pair that was asked for agree.
pub proof fn lemma_asked_agree(g: Graph, asked: Seq<(TyVar, TyVar)>, a: TyVar, b: TyVar)
    requires
        pairs_agree(g, asked),
        asked.contains((a, b)),
    ensures
        agree(settled(var_shape(g, a)), settled(var_shape(g, b))),
{
    let i = choose|i: int| 0 <= i < asked.len() && asked[i] == (a, b);
    assert(agree(var_shape(g, asked[i].0), var_shape(g, asked[i].1)));
    lemma_agree_settled(var_shape(g, a), var_shape(g, b));
}

/// The settled type of a variable that is known to be a tuple is the tuple of the
/// settled types of its parts.
pub proof fn lemma_tuple_settled(g: Graph, v: TyVar, xs: Seq<TyVar>, want: Seq<Shape>)
    requires
        graph_wf(g),
        has_var(g, v),
        g.infos[v.0 as int] == InfoView::Tuple(xs),
        want.len() == xs.len(),
        forall|k: int| 0 <= k < xs.len() ==> #[trigger] want[k] == settled(var_shape(g, xs[k])),
    ensures
        settled(var_shape(g, v)) == Shape::Tuple(want),
{
    let info = g.infos[v.0 as int];
    assert(kids_below(g, info, g.rank[v.0 as int]));
    let inner = var_shape(g, v)->Tuple_0;
    assert forall|k: int| 0 <= k < xs.len() implies inner[k] == var_shape(g, xs[k]) by {
        assert(kids(info)[k] == xs[k]);
    }
    assert(settled(var_shape(g, v))->Tuple_0 =~= want);
}

/// The settled types of the patterns of a settled tree.
pub proof fn lemma_pat_shapes(out: Seq<Pattern>, mid: Seq<Pattern>, g: Graph, tys: Seq<TyView>)
    requires
        pats_typed(out, mid, settled_from(g, tys)),
    ensures
        pat_shapes(out, tys).len() == pat_slots(mid).len(),
        forall|k: int|
            0 <= k < out.len() ==> #[trigger] pat_shapes(out, tys)[k] == settled(
                var_shape(g, pat_slots(mid)[k]),
            ),
{
    assert forall|k: int| 0 <= k < out.len() implies #[trigger] pat_shapes(out, tys)[k] == settled(
        var_shape(g, pat_slots(mid)[k]),
    ) by {
        assert(pat_typed(out[k], mid[k], settled_from(g, tys)));
        assert(slot_settled(out[k].ty, mid[k].ty, g, tys));
    }
}

/// The settled types of the expressions of a settled tree.
pub proof fn lemma_expr_shapes(out: Seq<Expr>, mid: Seq<Expr>, g: Graph, tys: Seq<TyView>)
    requires
        exprs_typed(out, mid, settled_from(g, tys)),
    ensures
        expr_shapes(out, tys).len() == expr_slots(mid).len(),
        forall|k: int|
            0 <= k < out.len() ==> #[trigger] expr_shapes(out, tys)[k] == settled(
                var_shape(g, expr_slots(mid)[k]),
            ),
{
    assert forall|k: int| 0 <= k < out.len() implies #[trigger] expr_shapes(out, tys)[k]
        == settled(var_shape(g, expr_slots(mid)[k])) by {
        assert(expr_typed(out[k], mid[k], settled_from(g, tys)));
        assert(slot_settled(out[k].ty, mid[k].ty, g, tys));
    }
}

/// The items of a list whose variables were asked to be of the type of the items
/// have settled types that agree with it.
pub proof fn lemma_items_agree(
    g: Graph,
    asked: Seq<(TyVar, TyVar)>,
    slots: Seq<TyVar>,
    shapes: Seq<Shape>,
    item: TyVar,
)
    requires
        pairs_agree(g, asked),
        crate::infer::each_asked(asked, slots, item),
        shapes.len() == slots.len(),
        forall|k: int| 0 <= k < slots.len() ==> #[trigger] shapes[k] == settled(
            var_shape(g, slots[k]),
        ),
    ensures
        each_agrees(shapes, settled(var_shape(g, item))),
{
    assert forall|k: int| 0 <= k < shapes.len() implies agree(
        #[trigger] shapes[k],
        settled(var_shape(g, item)),
    ) by {
        assert(asked.contains((slots[k], item)));
        lemma_asked_agree(g, asked, slots[k], item);
    }
}

/// A pattern that was given types by the rules, and whose types were settled, is well
/// typed, where every pair of types that was asked to be equal agrees.
pub proof fn lemma_judge_pat(
    out: Pattern,
    mid: Pattern,
    inp: Pattern,
    g: Graph,
    asked: Seq<(TyVar, TyVar)>,
    tys: Seq<TyView>,
)
    requires
        graph_wf(g),
        pairs_agree(g, asked),
        pat_typed(out, mid, settled_from(g, tys)),
        pat_typed(mid, inp, ruled(g.infos.len(), g.infos, asked)),
    ensures
        pat_typed(out, inp, judged(tys)),
    decreases out,
{
    let v = slot_var(mid.ty);
    let info = g.infos[v.0 as int];
    let t = ty_of(out.ty, tys);
    assert(slot_settled(out.ty, mid.ty, g, tys));
    assert(pat_rule(mid.kind, v, g.infos, asked));
    assert(kids_below(g, info, g.rank[v.0 as int]));
    match (out.kind, mid.kind, inp.kind) {
        (PatKind::Tuple(a), PatKind::Tuple(b), PatKind::Tuple(c)) => {
            lemma_judge_pats(a@, b@, c@, g, asked, tys);
            lemma_pat_shapes(a@, b@, g, tys);
            lemma_tuple_settled(g, v, pat_slots(b@), pat_shapes(a@, tys));
        },
        (PatKind::ListExact(a), PatKind::ListExact(b), PatKind::ListExact(c)) => {
            lemma_judge_pats(a@, b@, c@, g, asked, tys);
            lemma_pat_shapes(a@, b@, g, tys);
            let item = info->List_0;
            assert(kids(info)[0] == item);
            lemma_items_agree(g, asked, pat_slots(b@), pat_shapes(a@, tys), item);
        },
        (PatKind::ListFront(a, ta), PatKind::ListFront(b, tb), PatKind::ListFront(c, tc)) => {
            lemma_judge_pats(a@, b@, c@, g, asked, tys);
            lemma_pat_shapes(a@, b@, g, tys);
            let item = info->List_0;
            assert(kids(info)[0] == item);
            lemma_items_agree(g, asked, pat_slots(b@), pat_shapes(a@, tys), item);
            match (ta, tb, tc) {
                (Some(x), Some(y), Some(z)) => {
                    lemma_judge_pat(*x, *y, *z, g, asked, tys);
                    assert(pat_typed(*x, *y, settled_from(g, tys)));
                    assert(slot_settled(x.ty, y.ty, g, tys));
                    lemma_asked_agree(g, asked, slot_var(y.ty), v);
                },
                _ => {},
            }
        },
        (PatKind::Cons(n, a), PatKind::Cons(m, b), PatKind::Cons(l, c)) => {
            lemma_judge_pats(a@, b@, c@, g, asked, tys);
        },
        _ => {},
    }
}

/// Patterns that were given types by the rules, and whose types were settled, are well
/// typed.
pub proof fn lemma_judge_pats(
    out: Seq<Pattern>,
    mid: Seq<Pattern>,
    inp: Seq<Pattern>,
    g: Graph,
    asked: Seq<(TyVar, TyVar)>,
    tys: Seq<TyView>,
)
    requires
        graph_wf(g),
        pairs_agree(g, asked),
        pats_typed(out, mid, settled_from(g, tys)),
        pats_typed(mid, inp, ruled(g.infos.len(), g.infos, asked)),
    ensures
        pats_typed(out, inp, judged(tys)),
    decreases out,
{
    assert forall|i: int| 0 <= i < out.len() implies pat_typed(
        #[trigger] out[i],
        inp[i],
        judged(tys),
    ) by {
        assert(pat_typed(mid[i], inp[i], ruled(g.infos.len(), g.infos, asked)));
        lemma_judge_pat(out[i], mid[i], inp[i], g, asked, tys);
    }
}

/// An expression that was given types by the rules, and whose types were settled, is
/// well typed, where every pair of types that was asked to be equal agrees.
pub proof fn lemma_judge_expr(
    out: Expr,
    mid: Expr,
    inp: Expr,
    g: Graph,
    asked: Seq<(TyVar, TyVar)>,
    tys: Seq<TyView>,
)
    requires
        graph_wf(g),
        pairs_agree(g, asked),
        expr_typed(out, mid, settled_from(g, tys)),
        expr_typed(mid, inp, ruled(g.infos.len(), g.infos, asked)),
    ensures
        expr_typed(out, inp, judged(tys)),
    decreases out,
{
    let v = slot_var(mid.ty);
    let info = g.infos[v.0 as int];
    let t = ty_of(out.ty, tys);
    assert(slot_settled(out.ty, mid.ty, g, tys));
    assert(kind_rule(mid.kind, v, g.infos, asked));
    assert(kids_below(g, info, g.rank[v.0 as int]));
    match (out.kind, mid.kind, inp.kind) {
        (ExprKind::Tuple(a), ExprKind::Tuple(b), ExprKind::Tuple(c)) => {
            lemma_judge_exprs(a@, b@, c@, g, asked, tys);
            lemma_expr_shapes(a@, b@, g, tys);
            lemma_tuple_settled(g, v, expr_slots(b@), expr_shapes(a@, tys));
        },
        (ExprKind::List(a), ExprKind::List(b), ExprKind::List(c)) => {
            lemma_judge_exprs(a@, b@, c@, g, asked, tys);
            lemma_expr_shapes(a@, b@, g, tys);
            let item = info->List_0;
            assert(kids(info)[0] == item);
            lemma_items_agree(g, asked, expr_slots(b@), expr_shapes(a@, tys), item);
        },
        (ExprKind::Cons(n, a), ExprKind::Cons(m, b), ExprKind::Cons(l, c)) => {
            lemma_judge_exprs(a@, b@, c@, g, asked, tys);
        },
        (ExprKind::Access(a, f), ExprKind::Access(b, h), ExprKind::Access(c, i)) => {
            lemma_judge_expr(*a, *b, *c, g, asked, tys);
        },
        (ExprKind::Unary(o, a), ExprKind::Unary(r, b), ExprKind::Unary(s, c)) => {
            lemma_judge_expr(*a, *b, *c, g, asked, tys);
        },
        (ExprKind::Binary(o, a, x), ExprKind::Binary(r, b, y), ExprKind::Binary(s, c, z)) => {
            lemma_judge_expr(*a, *b, *c, g, asked, tys);
            lemma_judge_expr(*x, *y, *z, g, asked, tys);
            assert(expr_typed(*a, *b, settled_from(g, tys)));
            assert(expr_typed(*x, *y, settled_from(g, tys)));
            assert(slot_settled(a.ty, b.ty, g, tys));
            assert(slot_settled(x.ty, y.ty, g, tys));
            lemma_asked_agree(g, asked, slot_var(b.ty), slot_var(y.ty));
        },
        (ExprKind::Func(n, a), ExprKind::Func(m, b), ExprKind::Func(l, c)) => {
            lemma_judge_expr(*a, *b, *c, g, asked, tys);
            assert(expr_typed(*a, *b, settled_from(g, tys)));
            assert(slot_settled(a.ty, b.ty, g, tys));
            assert(kids(info)[0] == info->Func_0 && kids(info)[1] == info->Func_1);
        },
        (ExprKind::Apply(a, x), ExprKind::Apply(b, y), ExprKind::Apply(c, z)) => {
            lemma_judge_expr(*a, *b, *c, g, asked, tys);
            lemma_judge_expr(*x, *y, *z, g, asked, tys);
            assert(expr_typed(*a, *b, settled_from(g, tys)));
            assert(expr_typed(*x, *y, settled_from(g, tys)));
            assert(slot_settled(a.ty, b.ty, g, tys));
            assert(slot_settled(x.ty, y.ty, g, tys));
            let w = choose|w: TyVar|
                w.0 < g.infos.len() && #[trigger] g.infos[w.0 as int] == InfoView::Func(
                    slot_var(y.ty),
                    v,
                ) && asked.contains((slot_var(b.ty), w));
            let wi = g.infos[w.0 as int];
            assert(kids_below(g, wi, g.rank[w.0 as int]));
            assert(kids(wi)[0] == slot_var(y.ty) && kids(wi)[1] == v);
            lemma_asked_agree(g, asked, slot_var(b.ty), w);
        },
        (ExprKind::Match(a, xs), ExprKind::Match(b, ys), ExprKind::Match(c, zs)) => {
            lemma_judge_expr(*a, *b, *c, g, asked, tys);
            lemma_judge_arms(xs@, ys@, zs@, g, asked, tys);
            assert(expr_typed(*a, *b, settled_from(g, tys)));
            assert(slot_settled(a.ty, b.ty, g, tys));
            assert(arms_typed(xs@, ys@, settled_from(g, tys)));
            assert forall|k: int| 0 <= k < xs@.len() implies judge_arm(
                #[trigger] xs@[k],
                xs@[0].params@.len(),
                ty_of(a.ty, tys),
                t,
                tys,
            ) by {
                let count = ys@[0].params@.len();
                assert(pats_typed(xs@[0].params@, ys@[0].params@, settled_from(g, tys)));
                assert(arm_rule(ys@[k], count, slot_var(b.ty), v, g.infos, asked));
                let o = xs@[k];
                let m = ys@[k];
                assert(expr_typed(o.body, m.body, settled_from(g, tys)));
                assert(slot_settled(o.body.ty, m.body.ty, g, tys));
                lemma_asked_agree(g, asked, slot_var(m.body.ty), v);
                lemma_pat_shapes(o.params@, m.params@, g, tys);
                if m.params@.len() == count {
                    if count == 1 {
                        assert(pat_shapes(o.params@, tys)[0] == settled(
                            var_shape(g, pat_slots(m.params@)[0]),
                        ));
                        lemma_asked_agree(g, asked, slot_var(b.ty), slot_var(m.params@[0].ty));
                    } else {
                        let w = choose|w: TyVar|
                            w.0 < g.infos.len() && #[trigger] g.infos[w.0 as int]
                                == InfoView::Tuple(pat_slots(m.params@)) && asked.contains(
                                (slot_var(b.ty), w),
                            );
                        lemma_tuple_settled(
                            g,
                            w,
                            pat_slots(m.params@),
                            pat_shapes(o.params@, tys),
                        );
                        lemma_asked_agree(g, asked, slot_var(b.ty), w);
                    }
                }
            }
        },
        _ => {},
    }
}

/// Expressions that were given types by the rules, and whose types were settled, are
/// well typed.
pub proof fn lemma_judge_exprs(
    out: Seq<Expr>,
    mid: Seq<Expr>,
    inp: Seq<Expr>,
    g: Graph,
    asked: Seq<(TyVar, TyVar)>,
    tys: Seq<TyView>,
)
    requires
        graph_wf(g),
        pairs_agree(g, asked),
        exprs_typed(out, mid, settled_from(g, tys)),
        exprs_typed(mid, inp, ruled(g.infos.len(), g.infos, asked)),
    ensures
        exprs_typed(out, inp, judged(tys)),
    decreases out,
{
    assert forall|i: int| 0 <= i < out.len() implies expr_typed(
        #[trigger] out[i],
        inp[i],
        judged(tys),
    ) by {
        assert(expr_typed(mid[i], inp[i], ruled(g.infos.len(), g.infos, asked)));
        lemma_judge_expr(out[i], mid[i], inp[i], g, asked, tys);
    }
}

/// Arms that were given types by the rules, and whose types were settled, are well
/// typed.
pub proof fn lemma_judge_arms(
    out: Seq<Arm>,
    mid: Seq<Arm>,
    inp: Seq<Arm>,
    g: Graph,
    asked: Seq<(TyVar, TyVar)>,
    tys: Seq<TyView>,
)
    requires
        graph_wf(g),
        pairs_agree(g, asked),
        arms_typed(out, mid, settled_from(g, tys)),
        arms_typed(mid, inp, ruled(g.infos.len(), g.infos, asked)),
    ensures
        arms_typed(out, inp, judged(tys)),
    decreases out,
{
    assert forall|i: int| 0 <= i < out.len() implies {
        &&& (#[trigger] out[i]).span == inp[i].span
        &&& pats_typed(out[i].params@, inp[i].params@, judged(tys))
        &&& expr_typed(out[i].body, inp[i].body, judged(tys))
    } by {
        assert(mid[i].span == inp[i].span);
        lemma_judge_pats(out[i].params@, mid[i].params@, inp[i].params@, g, asked, tys);
        lemma_judge_expr(out[i].body, mid[i].body, inp[i].body, g, asked, tys);
    }
}

/// The type in a place that holds a type of a store is the same in a store that
/// extends the store.
pub proof fn lemma_ty_of_extends(s: TySlot, a: Seq<TyView>, b: Seq<TyView>)
    requires
        extends(a, b),
        slot_is_known(s, a.len()),
    ensures
        ty_of(s, b) == ty_of(s, a),
        slot_is_known(s, b.len()),
{
    lemma_shape_extends(a, b, s->Known_0.0 as nat);
}

/// The types of well typed patterns are the same in a store that extends the store.
pub proof fn lemma_pat_shapes_extend(out: Seq<Pattern>, inp: Seq<Pattern>, a: Seq<TyView>, b: Seq<TyView>)
    requires
        extends(a, b),
        pats_typed(out, inp, judged(a)),
    ensures
        pat_shapes(out, b) == pat_shapes(out, a),
{
    assert forall|k: int| 0 <= k < out.len() implies ty_of(out[k].ty, b) == ty_of(out[k].ty, a) by {
        assert(pat_typed(out[k], inp[k], judged(a)));
        lemma_ty_of_extends(out[k].ty, a, b);
    }
    assert(pat_shapes(out, b) =~= pat_shapes(out, a));
}

/// The types of well typed expressions are the same in a store that extends the
/// store.
pub proof fn lemma_expr_shapes_extend(out: Seq<Expr>, inp: Seq<Expr>, a: Seq<TyView>, b: Seq<TyView>)
    requires
        extends(a, b),
        exprs_typed(out, inp, judged(a)),
    ensures
        expr_shapes(out, b) == expr_shapes(out, a),
{
    assert forall|k: int| 0 <= k < out.len() implies ty_of(out[k].ty, b) == ty_of(out[k].ty, a) by {
        assert(expr_typed(out[k], inp[k], judged(a)));
        lemma_ty_of_extends(out[k].ty, a, b);
    }
    assert(expr_shapes(out, b) =~= expr_shapes(out, a));
}

/// A pattern that is well typed in a store is well typed in a store that extends it.
pub proof fn lemma_judged_pat_extends(out: Pattern, inp: Pattern, a: Seq<TyView>, b: Seq<TyView>)
    requires
        extends(a, b),
        pat_typed(out, inp, judged(a)),
    ensures
        pat_typed(out, inp, judged(b)),
    decreases out,
{
    lemma_ty_of_extends(out.ty, a, b);
    match (out.kind, inp.kind) {
        (PatKind::Tuple(x), PatKind::Tuple(y)) => {
            lemma_judged_pats_extend(x@, y@, a, b);
            lemma_pat_shapes_extend(x@, y@, a, b);
        },
        (PatKind::ListExact(x), PatKind::ListExact(y)) => {
            lemma_judged_pats_extend(x@, y@, a, b);
            lemma_pat_shapes_extend(x@, y@, a, b);
        },
        (PatKind::ListFront(x, tx), PatKind::ListFront(y, ty)) => {
            lemma_judged_pats_extend(x@, y@, a, b);
            lemma_pat_shapes_extend(x@, y@, a, b);
            match (tx, ty) {
                (Some(p), Some(q)) => {
                    lemma_judged_pat_extends(*p, *q, a, b);
                    assert(pat_typed(*p, *q, judged(a)));
                    lemma_ty_of_extends(p.ty, a, b);
                },
                _ => {},
            }
        },
        (PatKind::Cons(n, x), PatKind::Cons(m, y)) => {
            lemma_judged_pats_extend(x@, y@, a, b);
        },
        _ => {},
    }
}

/// Patterns that are well typed in a store are well typed in a store that extends it.
pub proof fn lemma_judged_pats_extend(out: Seq<Pattern>, inp: Seq<Pattern>, a: Seq<TyView>, b: Seq<TyView>)
    requires
        extends(a, b),
        pats_typed(out, inp, judged(a)),
    ensures
        pats_typed(out, inp, judged(b)),
    decreases out,
{
    assert forall|i: int| 0 <= i < out.len() implies pat_typed(
        #[trigger] out[i],
        inp[i],
        judged(b),
    ) by {
        lemma_judged_pat_extends(out[i], inp[i], a, b);
    }
}

/// An expression that is well typed in a store is well typed in a store that extends
/// it.
pub proof fn lemma_judged_extends(out: Expr, inp: Expr, a: Seq<TyView>, b: Seq<TyView>)
    requires
        extends(a, b),
        expr_typed(out, inp, judged(a)),
    ensures
        expr_typed(out, inp, judged(b)),
    decreases out,
{
    lemma_ty_of_extends(out.ty, a, b);
    match (out.kind, inp.kind) {
        (ExprKind::Tuple(x), ExprKind::Tuple(y)) => {
            lemma_judged_exprs_extend(x@, y@, a, b);
            lemma_expr_shapes_extend(x@, y@, a, b);
        },
        (ExprKind::List(x), ExprKind::List(y)) => {
            lemma_judged_exprs_extend(x@, y@, a, b);
            lemma_expr_shapes_extend(x@, y@, a, b);
        },
        (ExprKind::Cons(n, x), ExprKind::Cons(m, y)) => {
            lemma_judged_exprs_extend(x@, y@, a, b);
        },
        (ExprKind::Access(x, f), ExprKind::Access(y, g)) => {
            lemma_judged_extends(*x, *y, a, b);
        },
        (ExprKind::Unary(o, x), ExprKind::Unary(p, y)) => {
            lemma_judged_extends(*x, *y, a, b);
        },
        (ExprKind::Binary(o, x, u), ExprKind::Binary(p, y, w)) => {
            lemma_judged_extends(*x, *y, a, b);
            lemma_judged_extends(*u, *w, a, b);
            assert(expr_typed(*x, *y, judged(a)));
            assert(expr_typed(*u, *w, judged(a)));
            lemma_ty_of_extends(x.ty, a, b);
            lemma_ty_of_extends(u.ty, a, b);
        },
        (ExprKind::Func(n, x), ExprKind::Func(m, y)) => {
            lemma_judged_extends(*x, *y, a, b);
            assert(expr_typed(*x, *y, judged(a)));
            lemma_ty_of_extends(x.ty, a, b);
        },
        (ExprKind::Apply(x, u), ExprKind::Apply(y, w)) => {
            lemma_judged_extends(*x, *y, a, b);
            lemma_judged_extends(*u, *w, a, b);
            assert(expr_typed(*x, *y, judged(a)));
            assert(expr_typed(*u, *w, judged(a)));
            lemma_ty_of_extends(x.ty, a, b);
            lemma_ty_of_extends(u.ty, a, b);
        },
        (ExprKind::Match(x, xs), ExprKind::Match(y, ys)) => {
            lemma_judged_extends(*x, *y, a, b);
            lemma_judged_arms_extend(xs@, ys@, a, b);
            assert(expr_typed(*x, *y, judged(a)));
            assert(arms_typed(xs@, ys@, judged(a)));
            lemma_ty_of_extends(x.ty, a, b);
            assert forall|k: int| 0 <= k < xs@.len() implies judge_arm(
                #[trigger] xs@[k],
                xs@[0].params@.len(),
                ty_of(x.ty, b),
                ty_of(out.ty, b),
                b,
            ) by {
                let arm = xs@[k];
                assert(judge_arm(arm, xs@[0].params@.len(), ty_of(x.ty, a), ty_of(out.ty, a), a));
                assert(expr_typed(arm.body, ys@[k].body, judged(a)));
                lemma_ty_of_extends(arm.body.ty, a, b);
                lemma_pat_shapes_extend(arm.params@, ys@[k].params@, a, b);
                if arm.params@.len() == 1 {
                    assert(pat_shapes(arm.params@, b)[0] == pat_shapes(arm.params@, a)[0]);
                }
            }
        },
        _ => {},
    }
}

/// Expressions that are well typed in a store are well typed in a store that extends
/// it.
pub proof fn lemma_judged_exprs_extend(out: Seq<Expr>, inp: Seq<Expr>, a: Seq<TyView>, b: Seq<TyView>)
    requires
        extends(a, b),
        exprs_typed(out, inp, judged(a)),
    ensures
        exprs_typed(out, inp, judged(b)),
    decreases out,
{
    assert forall|i: int| 0 <= i < out.len() implies expr_typed(
        #[trigger] out[i],
        inp[i],
        judged(b),
    ) by {
        lemma_judged_extends(out[i], inp[i], a, b);
    }
}

/// Arms that are well typed in a store are well typed in a store that extends it.
pub proof fn lemma_judged_arms_extend(out: Seq<Arm>, inp: Seq<Arm>, a: Seq<TyView>, b: Seq<TyView>)
    requires
        extends(a, b),
        arms_typed(out, inp, judged(a)),
    ensures
        arms_typed(out, inp, judged(b)),
    decreases out,
{
    assert forall|i: int| 0 <= i < out.len() implies {
        &&& (#[trigger] out[i]).span == inp[i].span
        &&& pats_typed(out[i].params@, inp[i].params@, judged(b))
        &&& expr_typed(out[i].body, inp[i].body, judged(b))
    } by {
        lemma_judged_pats_extend(out[i].params@, inp[i].params@, a, b);
        lemma_judged_extends(out[i].body, inp[i].body, a, b);
    }
}

} // verus!
