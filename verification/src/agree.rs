//! What unification achieves: the types that were made equal agree.
//!
//! Two types agree if they have the same shape, where the error type agrees with
//! every type.

use crate::reify::var_shape;
use crate::ty::Shape;
use crate::unify::{
    graph_wf, has_var, kids, kids_below, lemma_refer_wf, lemma_root, lemma_run, lemma_step,
    lemma_work_size_concat, rank_of, reach, refer, root, run, same_head, stacked, step, unified,
    unknowns, work_ok, work_size, Graph, InfoView, TyVar,
};
use vstd::prelude::*;

verus! {

/// Whether the shapes `s` and `t` agree: they are the same, but for the parts where
/// one of them is the error type.
pub open spec fn agree(s: Shape, t: Shape) -> bool
    decreases s,
{
    s is Error || t is Error || match (s, t) {
        (Shape::Unknown(a), Shape::Unknown(b)) => a == b,
        (Shape::Prim(p), Shape::Prim(q)) => p == q,
        (Shape::List(x), Shape::List(y)) => agree(*x, *y),
        (Shape::Tuple(xs), Shape::Tuple(ys)) => xs.len() == ys.len() && forall|k: int|
            0 <= k < xs.len() ==> agree(#[trigger] xs[k], ys[k]),
        (Shape::Func(a, b), Shape::Func(c, d)) => agree(*a, *c) && agree(*b, *d),
        (Shape::Data(d, xs), Shape::Data(e, ys)) => d == e && xs.len() == ys.len() && forall|
            k: int,
        | 0 <= k < xs.len() ==> agree(#[trigger] xs[k], ys[k]),
        (Shape::Gen(i, s1), Shape::Gen(j, s2)) => i == j && s1 == s2,
        _ => false,
    }
}

/// Every shape agrees with itself.
pub proof fn lemma_agree_self(s: Shape)
    ensures
        agree(s, s),
    decreases s,
{
    match s {
        Shape::List(x) => lemma_agree_self(*x),
        Shape::Tuple(xs) => {
            assert forall|k: int| 0 <= k < xs.len() implies agree(#[trigger] xs[k], xs[k]) by {
                lemma_agree_self(xs[k]);
            }
        },
        Shape::Func(a, b) => {
            lemma_agree_self(*a);
            lemma_agree_self(*b);
        },
        Shape::Data(d, xs) => {
            assert forall|k: int| 0 <= k < xs.len() implies agree(#[trigger] xs[k], xs[k]) by {
                lemma_agree_self(xs[k]);
            }
        },
        _ => {},
    }
}

/// Whether the graph `b` holds what the graph `a` knows: it has the same variables,
/// and what `a` knows of a variable, `b` knows of it as well.
pub open spec fn keeps(a: Graph, b: Graph) -> bool {
    &&& a.infos.len() == b.infos.len()
    &&& forall|v: int|
        0 <= v < a.infos.len() && !(a.infos[v] is Unknown) ==> #[trigger] b.infos[v] == a.infos[v]
}

/// Unification keeps what is known: it only ever learns of unknown variables.
pub proof fn lemma_run_keeps(g: Graph, work: Seq<(TyVar, TyVar)>)
    requires
        graph_wf(g),
        work_ok(g, work),
    ensures
        keeps(g, run(g, work).0),
    decreases unknowns(g.infos), work_size(g, work),
{
    if work.len() > 0 {
        let a = work.last().0;
        let b = work.last().1;
        let s = step(g, a, b);
        lemma_step(g, a, b);
        lemma_root(g, a);
        lemma_root(g, b);
        assert(keeps(g, s.graph));
        if s.failure is None {
            lemma_work_size_concat(g, work.drop_last(), s.pairs);
            let next = work.drop_last() + s.pairs;
            assert(work_ok(s.graph, next)) by {
                assert forall|i: int| 0 <= i < next.len() implies has_var(
                    s.graph,
                    (#[trigger] next[i]).0,
                ) && has_var(s.graph, next[i].1) by {
                    if i < work.len() - 1 {
                        assert(next[i] == work[i]);
                    } else {
                        assert(next[i] == s.pairs[i - (work.len() - 1)]);
                    }
                }
            }
            lemma_run_keeps(s.graph, next);
        }
    }
}

/// In a graph that holds what the graph `g` knows, a variable stands for the same
/// type as the variable that it stands for in `g`.
pub proof fn lemma_shape_of_root(g: Graph, f: Graph, v: TyVar)
    requires
        graph_wf(g),
        graph_wf(f),
        keeps(g, f),
        has_var(g, v),
    ensures
        var_shape(f, v) == var_shape(f, root(g, v)),
    decreases rank_of(g, v),
{
    let info = g.infos[v.0 as int];
    match info {
        InfoView::Ref(x) => {
            assert(kids_below(g, info, g.rank[v.0 as int]));
            assert(kids(info)[0] == x);
            assert(f.infos[v.0 as int] == info);
            assert(kids_below(f, info, f.rank[v.0 as int]));
            lemma_shape_of_root(g, f, x);
        },
        _ => {},
    }
}

/// The pair at a position of the pairs of `xs` and `ys`.
pub proof fn lemma_stacked_index(xs: Seq<TyVar>, ys: Seq<TyVar>, from: nat, k: int)
    requires
        xs.len() == ys.len(),
        from <= k < xs.len(),
    ensures
        stacked(xs, ys, from).len() == xs.len() - from,
        stacked(xs, ys, from)[xs.len() - 1 - k] == (xs[k], ys[k]),
    decreases xs.len() - from,
{
    lemma_stacked_len(xs, ys, from);
    if from < k {
        lemma_stacked_index(xs, ys, from + 1, k);
        lemma_stacked_len(xs, ys, from + 1);
    } else {
        lemma_stacked_len(xs, ys, from + 1);
    }
}

/// The number of the pairs of `xs` and `ys`.
pub proof fn lemma_stacked_len(xs: Seq<TyVar>, ys: Seq<TyVar>, from: nat)
    requires
        xs.len() == ys.len(),
        from <= xs.len(),
    ensures
        stacked(xs, ys, from).len() == xs.len() - from,
    decreases xs.len() - from,
{
    if from < xs.len() {
        lemma_stacked_len(xs, ys, from + 1);
    }
}

/// Two known types with the same head agree where their parts agree.
pub proof fn lemma_agree_parts(f: Graph, a: TyVar, b: TyVar)
    requires
        graph_wf(f),
        has_var(f, a),
        has_var(f, b),
        same_head(f.infos[a.0 as int], f.infos[b.0 as int]),
        forall|k: int|
            0 <= k < kids(f.infos[a.0 as int]).len() ==> agree(
                var_shape(f, #[trigger] kids(f.infos[a.0 as int])[k]),
                var_shape(f, kids(f.infos[b.0 as int])[k]),
            ),
    ensures
        agree(var_shape(f, a), var_shape(f, b)),
{
    let ia = f.infos[a.0 as int];
    let ib = f.infos[b.0 as int];
    assert(kids_below(f, ia, f.rank[a.0 as int]));
    assert(kids_below(f, ib, f.rank[b.0 as int]));
    match (ia, ib) {
        (InfoView::List(x), InfoView::List(y)) => {
            assert(kids(ia)[0] == x && kids(ib)[0] == y);
        },
        (InfoView::Func(x, y), InfoView::Func(z, w)) => {
            assert(kids(ia)[0] == x && kids(ia)[1] == y);
            assert(kids(ib)[0] == z && kids(ib)[1] == w);
        },
        (InfoView::Tuple(xs), InfoView::Tuple(ys)) => {
            let sa = var_shape(f, a)->Tuple_0;
            let sb = var_shape(f, b)->Tuple_0;
            assert forall|k: int| 0 <= k < sa.len() implies agree(#[trigger] sa[k], sb[k]) by {
                assert(kids(ia)[k] == xs[k] && kids(ib)[k] == ys[k]);
            }
        },
        (InfoView::Data(d, xs), InfoView::Data(e, ys)) => {
            let sa = var_shape(f, a)->Data_1;
            let sb = var_shape(f, b)->Data_1;
            assert forall|k: int| 0 <= k < sa.len() implies agree(#[trigger] sa[k], sb[k]) by {
                assert(kids(ia)[k] == xs[k] && kids(ib)[k] == ys[k]);
            }
        },
        _ => {},
    }
}

/// Where unification succeeds, the two types of every pair that it worked on agree.
pub proof fn lemma_run_sound(g: Graph, work: Seq<(TyVar, TyVar)>)
    requires
        graph_wf(g),
        work_ok(g, work),
        run(g, work).1 is None,
    ensures
        forall|i: int|
            0 <= i < work.len() ==> agree(
                var_shape(run(g, work).0, (#[trigger] work[i]).0),
                var_shape(run(g, work).0, work[i].1),
            ),
    decreases unknowns(g.infos), work_size(g, work),
{
    if work.len() > 0 {
        let a = work.last().0;
        let b = work.last().1;
        let s = step(g, a, b);
        let f = run(g, work).0;
        lemma_step(g, a, b);
        lemma_root(g, a);
        lemma_root(g, b);
        lemma_run(g, work);
        lemma_run_keeps(g, work);
        lemma_work_size_concat(g, work.drop_last(), s.pairs);
        let next = work.drop_last() + s.pairs;
        assert(work_ok(s.graph, next)) by {
            assert forall|i: int| 0 <= i < next.len() implies has_var(
                s.graph,
                (#[trigger] next[i]).0,
            ) && has_var(s.graph, next[i].1) by {
                if i < work.len() - 1 {
                    assert(next[i] == work[i]);
                } else {
                    assert(next[i] == s.pairs[i - (work.len() - 1)]);
                }
            }
        }
        lemma_run_sound(s.graph, next);
        lemma_run_keeps(s.graph, next);
        assert forall|i: int| 0 <= i < work.len() implies agree(
            var_shape(f, (#[trigger] work[i]).0),
            var_shape(f, work[i].1),
        ) by {
            if i < work.len() - 1 {
                assert(next[i] == work[i]);
            } else {
                let ra = root(g, a);
                let rb = root(g, b);
                let ia = g.infos[ra.0 as int];
                let ib = g.infos[rb.0 as int];
                lemma_shape_of_root(g, f, a);
                lemma_shape_of_root(g, f, b);
                if ra == rb {
                    lemma_agree_self(var_shape(f, ra));
                } else if ia is Unknown && ib is Unknown {
                    if ra.0 < rb.0 {
                        assert(s.graph.infos[rb.0 as int] == InfoView::Ref(ra));
                        assert(f.infos[rb.0 as int] == InfoView::Ref(ra));
                        assert(kids_below(f, f.infos[rb.0 as int], f.rank[rb.0 as int]));
                        assert(kids(f.infos[rb.0 as int])[0] == ra);
                    } else {
                        assert(s.graph.infos[ra.0 as int] == InfoView::Ref(rb));
                        assert(f.infos[ra.0 as int] == InfoView::Ref(rb));
                        assert(kids_below(f, f.infos[ra.0 as int], f.rank[ra.0 as int]));
                        assert(kids(f.infos[ra.0 as int])[0] == rb);
                    }
                    lemma_agree_self(var_shape(f, ra));
                } else if ia is Unknown {
                    assert(s.graph.infos[ra.0 as int] == InfoView::Ref(rb));
                    assert(f.infos[ra.0 as int] == InfoView::Ref(rb));
                    assert(kids_below(f, f.infos[ra.0 as int], f.rank[ra.0 as int]));
                    assert(kids(f.infos[ra.0 as int])[0] == rb);
                    lemma_agree_self(var_shape(f, rb));
                } else if ib is Unknown {
                    assert(s.graph.infos[rb.0 as int] == InfoView::Ref(ra));
                    assert(f.infos[rb.0 as int] == InfoView::Ref(ra));
                    assert(kids_below(f, f.infos[rb.0 as int], f.rank[rb.0 as int]));
                    assert(kids(f.infos[rb.0 as int])[0] == ra);
                    lemma_agree_self(var_shape(f, ra));
                } else if ia is Error || ib is Error {
                    assert(f.infos[ra.0 as int] == ia);
                    assert(f.infos[rb.0 as int] == ib);
                } else {
                    assert(f.infos[ra.0 as int] == ia);
                    assert(f.infos[rb.0 as int] == ib);
                    assert(kids_below(g, ia, g.rank[ra.0 as int]));
                    assert(kids_below(g, ib, g.rank[rb.0 as int]));
                    assert forall|k: int| 0 <= k < kids(ia).len() implies agree(
                        var_shape(f, #[trigger] kids(ia)[k]),
                        var_shape(f, kids(ib)[k]),
                    ) by {
                        lemma_stacked_index(kids(ia), kids(ib), 0, k);
                        let j = kids(ia).len() - 1 - k;
                        assert(s.pairs[j] == (kids(ia)[k], kids(ib)[k]));
                        assert(next[work.len() - 1 + j] == s.pairs[j]);
                    }
                    lemma_agree_parts(f, ra, rb);
                }
            }
        }
    }
}

/// Unification is sound: where making `a` and `b` equal succeeds, the types that they
/// stand for agree afterwards.
pub proof fn lemma_unify_sound(g: Graph, a: TyVar, b: TyVar)
    requires
        graph_wf(g),
        has_var(g, a),
        has_var(g, b),
        unified(g, a, b).1 is None,
    ensures
        agree(var_shape(unified(g, a, b).0, a), var_shape(unified(g, a, b).0, b)),
{
    let work = seq![(a, b)];
    lemma_run_sound(g, work);
    assert(work[0] == (a, b));
}

/// The shape `s` with the shape `with` in place of the unknown variable `v`.
pub open spec fn put(s: Shape, v: nat, with: Shape) -> Shape
    decreases s,
{
    match s {
        Shape::Unknown(u) => if u == v {
            with
        } else {
            s
        },
        Shape::List(item) => Shape::List(Box::new(put(*item, v, with))),
        Shape::Tuple(fields) => Shape::Tuple(
            Seq::new(
                fields.len(),
                |k: int|
                    if 0 <= k < fields.len() {
                        put(fields[k], v, with)
                    } else {
                        Shape::Error
                    },
            ),
        ),
        Shape::Func(i, o) => Shape::Func(Box::new(put(*i, v, with)), Box::new(put(*o, v, with))),
        Shape::Data(data, args) => Shape::Data(
            data,
            Seq::new(
                args.len(),
                |k: int|
                    if 0 <= k < args.len() {
                        put(args[k], v, with)
                    } else {
                        Shape::Error
                    },
            ),
        ),
        _ => s,
    }
}

/// Shapes that agree still agree when the same shape is put in place of an unknown
/// variable in both.
pub proof fn lemma_agree_put(s: Shape, t: Shape, v: nat, with: Shape)
    requires
        agree(s, t),
    ensures
        agree(put(s, v, with), put(t, v, with)),
    decreases s,
{
    if s is Error || t is Error {
    } else {
        match (s, t) {
            (Shape::Unknown(a), Shape::Unknown(b)) => {
                lemma_agree_self(put(s, v, with));
            },
            (Shape::List(x), Shape::List(y)) => lemma_agree_put(*x, *y, v, with),
            (Shape::Tuple(xs), Shape::Tuple(ys)) => {
                let ps = put(s, v, with)->Tuple_0;
                let pt = put(t, v, with)->Tuple_0;
                assert forall|k: int| 0 <= k < ps.len() implies agree(#[trigger] ps[k], pt[k]) by {
                    assert(agree(xs[k], ys[k]));
                    lemma_agree_put(xs[k], ys[k], v, with);
                }
            },
            (Shape::Func(a, b), Shape::Func(c, d)) => {
                lemma_agree_put(*a, *c, v, with);
                lemma_agree_put(*b, *d, v, with);
            },
            (Shape::Data(d, xs), Shape::Data(e, ys)) => {
                let ps = put(s, v, with)->Data_1;
                let pt = put(t, v, with)->Data_1;
                assert forall|k: int| 0 <= k < ps.len() implies agree(#[trigger] ps[k], pt[k]) by {
                    assert(agree(xs[k], ys[k]));
                    lemma_agree_put(xs[k], ys[k], v, with);
                }
            },
            _ => {},
        }
    }
}

/// When an unknown variable is made to refer to a variable, a variable that does not
/// reach it stands for the type it stood for.
pub proof fn lemma_refer_apart(g: Graph, v: TyVar, x: TyVar, y: TyVar)
    requires
        graph_wf(g),
        has_var(g, v),
        has_var(g, x),
        has_var(g, y),
        g.infos[v.0 as int] is Unknown,
        !reach(g, x, v),
        !reach(g, y, v),
    ensures
        var_shape(refer(g, v, x), y) == var_shape(g, y),
    decreases rank_of(g, y),
{
    let f = refer(g, v, x);
    lemma_refer_wf(g, v, x);
    let info = g.infos[y.0 as int];
    assert(f.infos[y.0 as int] == info);
    assert(kids_below(g, info, g.rank[y.0 as int]));
    assert(kids_below(f, info, f.rank[y.0 as int]));
    assert forall|k: int| 0 <= k < kids(info).len() implies var_shape(f, #[trigger] kids(info)[k])
        == var_shape(g, kids(info)[k]) by {
        lemma_refer_apart(g, v, x, kids(info)[k]);
    }
    match info {
        InfoView::Ref(z) => {
            assert(kids(info)[0] == z);
        },
        InfoView::List(z) => {
            assert(kids(info)[0] == z);
        },
        InfoView::Func(i, o) => {
            assert(kids(info)[0] == i && kids(info)[1] == o);
        },
        InfoView::Tuple(zs) => {
            assert forall|k: int| 0 <= k < zs.len() implies var_shape(f, zs[k]) == var_shape(
                g,
                zs[k],
            ) by {
                assert(kids(info)[k] == zs[k]);
            }
            assert(var_shape(f, y)->Tuple_0 =~= var_shape(g, y)->Tuple_0);
        },
        InfoView::Data(d, zs) => {
            assert forall|k: int| 0 <= k < zs.len() implies var_shape(f, zs[k]) == var_shape(
                g,
                zs[k],
            ) by {
                assert(kids(info)[k] == zs[k]);
            }
            assert(var_shape(f, y)->Data_1 =~= var_shape(g, y)->Data_1);
        },
        _ => {},
    }
}

/// When an unknown variable is made to refer to a variable, every variable stands
/// for the type it stood for, with what the variable now refers to in place of the
/// unknown variable.
pub proof fn lemma_refer_shape(g: Graph, v: TyVar, x: TyVar, y: TyVar)
    requires
        graph_wf(g),
        has_var(g, v),
        has_var(g, x),
        has_var(g, y),
        g.infos[v.0 as int] is Unknown,
        !reach(g, x, v),
    ensures
        var_shape(refer(g, v, x), y) == put(var_shape(g, y), v.0 as nat, var_shape(g, x)),
    decreases rank_of(g, y),
{
    let f = refer(g, v, x);
    let with = var_shape(g, x);
    lemma_refer_wf(g, v, x);
    if y == v {
        lemma_refer_apart(g, v, x, x);
        assert(f.infos[v.0 as int] == InfoView::Ref(x));
        assert(kids_below(f, f.infos[v.0 as int], f.rank[v.0 as int]));
        assert(kids(f.infos[v.0 as int])[0] == x);
    } else {
        let info = g.infos[y.0 as int];
        assert(f.infos[y.0 as int] == info);
        assert(kids_below(g, info, g.rank[y.0 as int]));
        assert(kids_below(f, info, f.rank[y.0 as int]));
        assert forall|k: int| 0 <= k < kids(info).len() implies var_shape(
            f,
            #[trigger] kids(info)[k],
        ) == put(var_shape(g, kids(info)[k]), v.0 as nat, with) by {
            lemma_refer_shape(g, v, x, kids(info)[k]);
        }
        match info {
            InfoView::Ref(z) => {
                assert(kids(info)[0] == z);
            },
            InfoView::List(z) => {
                assert(kids(info)[0] == z);
            },
            InfoView::Func(i, o) => {
                assert(kids(info)[0] == i && kids(info)[1] == o);
            },
            InfoView::Tuple(zs) => {
                assert forall|k: int| 0 <= k < zs.len() implies var_shape(f, zs[k]) == put(
                    var_shape(g, zs[k]),
                    v.0 as nat,
                    with,
                ) by {
                    assert(kids(info)[k] == zs[k]);
                }
                assert(var_shape(f, y)->Tuple_0 =~= put(
                    var_shape(g, y),
                    v.0 as nat,
                    with,
                )->Tuple_0);
            },
            InfoView::Data(d, zs) => {
                assert forall|k: int| 0 <= k < zs.len() implies var_shape(f, zs[k]) == put(
                    var_shape(g, zs[k]),
                    v.0 as nat,
                    with,
                ) by {
                    assert(kids(info)[k] == zs[k]);
                }
                assert(var_shape(f, y)->Data_1 =~= put(
                    var_shape(g, y),
                    v.0 as nat,
                    with,
                )->Data_1);
            },
            _ => {},
        }
    }
}

/// A step of unification keeps the types that agree in agreement.
pub proof fn lemma_step_keeps_agreement(g: Graph, a: TyVar, b: TyVar, x: TyVar, y: TyVar)
    requires
        graph_wf(g),
        has_var(g, a),
        has_var(g, b),
        has_var(g, x),
        has_var(g, y),
        agree(var_shape(g, x), var_shape(g, y)),
    ensures
        agree(var_shape(step(g, a, b).graph, x), var_shape(step(g, a, b).graph, y)),
{
    lemma_root(g, a);
    lemma_root(g, b);
    let ra = root(g, a);
    let rb = root(g, b);
    let ia = g.infos[ra.0 as int];
    let ib = g.infos[rb.0 as int];
    let s = step(g, a, b);
    if s.graph != g {
        let (v, to) = if ia is Unknown && ib is Unknown {
            if ra.0 < rb.0 {
                (rb, ra)
            } else {
                (ra, rb)
            }
        } else if ia is Unknown {
            (ra, rb)
        } else {
            (rb, ra)
        };
        assert(s.graph == refer(g, v, to));
        lemma_refer_shape(g, v, to, x);
        lemma_refer_shape(g, v, to, y);
        lemma_agree_put(var_shape(g, x), var_shape(g, y), v.0 as nat, var_shape(g, to));
    }
}

/// Once unified, always unified: the types that agree before a unification agree
/// after it, whether it succeeds or fails.
pub proof fn lemma_run_keeps_agreement(g: Graph, work: Seq<(TyVar, TyVar)>, x: TyVar, y: TyVar)
    requires
        graph_wf(g),
        work_ok(g, work),
        has_var(g, x),
        has_var(g, y),
        agree(var_shape(g, x), var_shape(g, y)),
    ensures
        agree(var_shape(run(g, work).0, x), var_shape(run(g, work).0, y)),
    decreases unknowns(g.infos), work_size(g, work),
{
    if work.len() > 0 {
        let a = work.last().0;
        let b = work.last().1;
        let s = step(g, a, b);
        lemma_step(g, a, b);
        lemma_step_keeps_agreement(g, a, b, x, y);
        if s.failure is None {
            lemma_work_size_concat(g, work.drop_last(), s.pairs);
            let next = work.drop_last() + s.pairs;
            assert(work_ok(s.graph, next)) by {
                assert forall|i: int| 0 <= i < next.len() implies has_var(
                    s.graph,
                    (#[trigger] next[i]).0,
                ) && has_var(s.graph, next[i].1) by {
                    if i < work.len() - 1 {
                        assert(next[i] == work[i]);
                    } else {
                        assert(next[i] == s.pairs[i - (work.len() - 1)]);
                    }
                }
            }
            lemma_run_keeps_agreement(s.graph, next, x, y);
        }
    }
}

/// Once unified, always unified: two types that agree still agree after any two
/// types were made equal, or failed to be.
pub proof fn lemma_unify_keeps_agreement(g: Graph, a: TyVar, b: TyVar, x: TyVar, y: TyVar)
    requires
        graph_wf(g),
        has_var(g, a),
        has_var(g, b),
        has_var(g, x),
        has_var(g, y),
        agree(var_shape(g, x), var_shape(g, y)),
    ensures
        agree(var_shape(unified(g, a, b).0, x), var_shape(unified(g, a, b).0, y)),
{
    lemma_run_keeps_agreement(g, seq![(a, b)], x, y);
}

} // verus!
