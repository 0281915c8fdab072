//! Between inference variables and interned types: what a variable stands for, written
//! out in full; types turned into variables, and variables into types.

use crate::span::Span;
use crate::ty::{
    extends, lemma_extends_trans, lemma_shape_extends, lemma_shape_parts, shape_of, GenScopeId,
    Shape, Ty, TyId, TyView, Types,
};
use crate::unify::{graph_wf, has_var, kids, kids_below, rank_of, Graph, InfoView, TyVar};
use crate::vars::{grown, lemma_above, TyInfo, VarTable};
use vstd::prelude::*;

verus! {

/// The shape of the type that the variable `v` stands for.
pub open spec fn var_shape(g: Graph, v: TyVar) -> Shape
    decreases rank_of(g, v),
{
    if !has_var(g, v) {
        Shape::Error
    } else {
        match g.infos[v.0 as int] {
            InfoView::Unknown => Shape::Unknown(v.0 as nat),
            InfoView::Ref(x) => if rank_of(g, x) < rank_of(g, v) {
                var_shape(g, x)
            } else {
                Shape::Error
            },
            InfoView::Error => Shape::Error,
            InfoView::Prim(p) => Shape::Prim(p),
            InfoView::List(x) => if rank_of(g, x) < rank_of(g, v) {
                Shape::List(Box::new(var_shape(g, x)))
            } else {
                Shape::Error
            },
            InfoView::Tuple(xs) => Shape::Tuple(
                Seq::new(
                    xs.len(),
                    |k: int|
                        if 0 <= k < xs.len() && rank_of(g, xs[k]) < rank_of(g, v) {
                            var_shape(g, xs[k])
                        } else {
                            Shape::Error
                        },
                ),
            ),
            InfoView::Func(i, o) => if rank_of(g, i) < rank_of(g, v) && rank_of(g, o) < rank_of(
                g,
                v,
            ) {
                Shape::Func(Box::new(var_shape(g, i)), Box::new(var_shape(g, o)))
            } else {
                Shape::Error
            },
            InfoView::Data(data, xs) => Shape::Data(
                data,
                Seq::new(
                    xs.len(),
                    |k: int|
                        if 0 <= k < xs.len() && rank_of(g, xs[k]) < rank_of(g, v) {
                            var_shape(g, xs[k])
                        } else {
                            Shape::Error
                        },
                ),
            ),
            InfoView::Gen(index, scope) => Shape::Gen(index, scope),
        }
    }
}

/// The shape `s` with the error type in place of each unknown variable.
pub open spec fn settled(s: Shape) -> Shape
    decreases s,
{
    match s {
        Shape::Unknown(_) => Shape::Error,
        Shape::List(item) => Shape::List(Box::new(settled(*item))),
        Shape::Tuple(fields) => Shape::Tuple(
            Seq::new(
                fields.len(),
                |k: int|
                    if 0 <= k < fields.len() {
                        settled(fields[k])
                    } else {
                        Shape::Error
                    },
            ),
        ),
        Shape::Func(i, o) => Shape::Func(Box::new(settled(*i)), Box::new(settled(*o))),
        Shape::Data(data, args) => Shape::Data(
            data,
            Seq::new(
                args.len(),
                |k: int|
                    if 0 <= k < args.len() {
                        settled(args[k])
                    } else {
                        Shape::Error
                    },
            ),
        ),
        _ => s,
    }
}

/// The shape `s` with the shapes `gens` in place of the generic parameters of the
/// list `scope`.
pub open spec fn with_gens(s: Shape, scope: GenScopeId, gens: Seq<Shape>) -> Shape
    decreases s,
{
    match s {
        Shape::Gen(index, sc) => if sc == scope && index < gens.len() {
            gens[index as int]
        } else {
            s
        },
        Shape::List(item) => Shape::List(Box::new(with_gens(*item, scope, gens))),
        Shape::Tuple(fields) => Shape::Tuple(
            Seq::new(
                fields.len(),
                |k: int|
                    if 0 <= k < fields.len() {
                        with_gens(fields[k], scope, gens)
                    } else {
                        Shape::Error
                    },
            ),
        ),
        Shape::Func(i, o) => Shape::Func(
            Box::new(with_gens(*i, scope, gens)),
            Box::new(with_gens(*o, scope, gens)),
        ),
        Shape::Data(data, args) => Shape::Data(
            data,
            Seq::new(
                args.len(),
                |k: int|
                    if 0 <= k < args.len() {
                        with_gens(args[k], scope, gens)
                    } else {
                        Shape::Error
                    },
            ),
        ),
        _ => s,
    }
}

/// The shapes of the variables `vars`.
pub open spec fn var_shapes(g: Graph, vars: Seq<TyVar>) -> Seq<Shape> {
    Seq::new(vars.len(), |k: int| var_shape(g, vars[k]))
}

/// Whether the graph `b` is the graph `a` with more variables.
pub open spec fn grows(a: Graph, b: Graph) -> bool {
    &&& a.infos.len() <= b.infos.len()
    &&& a.rank.len() == a.infos.len()
    &&& b.rank.len() == b.infos.len()
    &&& forall|i: int| 0 <= i < a.infos.len() ==> a.infos[i] == b.infos[i] && a.rank[i] == b.rank[i]
}

/// The variables of a graph keep their shape in a graph that has more variables.
pub proof fn lemma_var_shape_grows(a: Graph, b: Graph, v: TyVar)
    requires
        graph_wf(a),
        grows(a, b),
        has_var(a, v),
    ensures
        var_shape(b, v) == var_shape(a, v),
    decreases rank_of(a, v),
{
    let info = a.infos[v.0 as int];
    assert(kids_below(a, info, a.rank[v.0 as int]));
    match info {
        InfoView::Ref(x) => {
            assert(kids(info)[0] == x);
            lemma_var_shape_grows(a, b, x);
        },
        InfoView::List(x) => {
            assert(kids(info)[0] == x);
            lemma_var_shape_grows(a, b, x);
        },
        InfoView::Func(i, o) => {
            assert(kids(info)[0] == i && kids(info)[1] == o);
            lemma_var_shape_grows(a, b, i);
            lemma_var_shape_grows(a, b, o);
        },
        InfoView::Tuple(xs) => {
            assert forall|k: int| 0 <= k < xs.len() implies var_shape(b, xs[k]) == var_shape(
                a,
                xs[k],
            ) && rank_of(b, xs[k]) == rank_of(a, xs[k]) by {
                assert(kids(info)[k] == xs[k]);
                lemma_var_shape_grows(a, b, xs[k]);
            }
            assert(var_shape(b, v)->Tuple_0 =~= var_shape(a, v)->Tuple_0);
        },
        InfoView::Data(data, xs) => {
            assert forall|k: int| 0 <= k < xs.len() implies var_shape(b, xs[k]) == var_shape(
                a,
                xs[k],
            ) && rank_of(b, xs[k]) == rank_of(a, xs[k]) by {
                assert(kids(info)[k] == xs[k]);
                lemma_var_shape_grows(a, b, xs[k]);
            }
            assert(var_shape(b, v)->Data_1 =~= var_shape(a, v)->Data_1);
        },
        _ => {},
    }
}

/// A graph with more variables than a graph with more variables than a third has
/// more variables than the third.
pub proof fn lemma_grows_trans(a: Graph, b: Graph, c: Graph)
    requires
        grows(a, b),
        grows(b, c),
    ensures
        grows(a, c),
{
    assert forall|i: int| 0 <= i < a.infos.len() implies a.infos[i] == c.infos[i] && a.rank[i]
        == c.rank[i] by {
        assert(a.infos[i] == b.infos[i]);
    }
}

/// The types that the variables `vs` stand for, with the error type in place of
/// unknown variables.
fn reify_all(vars: &VarTable, types: &mut Types, vs: &Vec<TyVar>, limit: Ghost<nat>) -> (ids: Vec<
    TyId,
>)
    requires
        vars.wf(),
        old(types).wf(),
        forall|k: int|
            0 <= k < vs@.len() ==> vars.has(#[trigger] vs@[k]) && rank_of(vars.graph(), vs@[k])
                < limit@,
    ensures
        final(types).wf(),
        extends(old(types)@, final(types)@),
        ids@.len() == vs@.len(),
        forall|k: int|
            0 <= k < vs@.len() ==> final(types).has(#[trigger] ids@[k]) && final(types).shape(
                ids@[k],
            ) == settled(var_shape(vars.graph(), vs@[k])),
    decreases limit@, 0nat,
{
    let ghost start = types@;
    let mut ids: Vec<TyId> = Vec::new();
    let mut k: usize = 0;
    while k < vs.len()
        invariant
            k <= vs.len(),
            vars.wf(),
            types.wf(),
            extends(start, types@),
            ids@.len() == k,
            forall|j: int|
                0 <= j < vs@.len() ==> vars.has(#[trigger] vs@[j]) && rank_of(
                    vars.graph(),
                    vs@[j],
                ) < limit@,
            forall|j: int|
                0 <= j < k ==> types.has(#[trigger] ids@[j]) && types.shape(ids@[j]) == settled(
                    var_shape(vars.graph(), vs@[j]),
                ),
        decreases vs.len() - k,
    {
        let ghost before = types@;
        let id = reify(vars, types, vs[k]);
        proof {
            lemma_extends_trans(start, before, types@);
            assert forall|j: int| 0 <= j < k implies types.has(#[trigger] ids@[j]) && types.shape(
                ids@[j],
            ) == settled(var_shape(vars.graph(), vs@[j])) by {
                lemma_shape_extends(before, types@, ids@[j].0 as nat);
            }
        }
        ids.push(id);
        k += 1;
    }
    ids
}

/// The type that the variable `v` stands for, with the error type in place of
/// unknown variables.
pub fn reify(vars: &VarTable, types: &mut Types, v: TyVar) -> (id: TyId)
    requires
        vars.wf(),
        vars.has(v),
        old(types).wf(),
    ensures
        final(types).wf(),
        extends(old(types)@, final(types)@),
        final(types).has(id),
        final(types).shape(id) == settled(var_shape(vars.graph(), v)),
    decreases rank_of(vars.graph(), v), 1nat,
{
    let ghost g = vars.graph();
    let ghost info = g.infos[v.0 as int];
    let ghost start = types@;
    proof {
        assert(kids_below(g, info, g.rank[v.0 as int]));
    }
    let span = vars.get_span(v);
    match vars.get(v) {
        TyInfo::Unknown => {
            let id = types.intern(Ty::Error, span);
            proof {
                lemma_shape_parts(types@, id.0 as nat);
            }
            id
        },
        TyInfo::Error => {
            let id = types.intern(Ty::Error, span);
            proof {
                lemma_shape_parts(types@, id.0 as nat);
            }
            id
        },
        TyInfo::Ref(x) => {
            assert(kids(info)[0] == *x);
            reify(vars, types, *x)
        },
        TyInfo::Prim(p) => {
            let id = types.intern(Ty::Prim(*p), span);
            proof {
                lemma_shape_parts(types@, id.0 as nat);
            }
            id
        },
        TyInfo::Gen(index, scope) => {
            let id = types.intern(Ty::Gen(*index, *scope), span);
            proof {
                lemma_shape_parts(types@, id.0 as nat);
            }
            id
        },
        TyInfo::List(x) => {
            assert(kids(info)[0] == *x);
            let item = reify(vars, types, *x);
            let ghost mid = types@;
            let id = types.intern(Ty::List(item), span);
            proof {
                lemma_shape_parts(types@, id.0 as nat);
                lemma_shape_extends(mid, types@, item.0 as nat);
                lemma_extends_trans(start, mid, types@);
            }
            id
        },
        TyInfo::Func(i, o) => {
            assert(kids(info)[0] == *i && kids(info)[1] == *o);
            let input = reify(vars, types, *i);
            let ghost mid = types@;
            let output = reify(vars, types, *o);
            let ghost late = types@;
            let id = types.intern(Ty::Func(input, output), span);
            proof {
                lemma_shape_parts(types@, id.0 as nat);
                lemma_shape_extends(mid, late, input.0 as nat);
                lemma_shape_extends(late, types@, input.0 as nat);
                lemma_shape_extends(late, types@, output.0 as nat);
                lemma_extends_trans(start, mid, late);
                lemma_extends_trans(start, late, types@);
            }
            id
        },
        TyInfo::Tuple(xs) => {
            proof {
                assert forall|k: int| 0 <= k < xs@.len() implies vars.has(#[trigger] xs@[k])
                    && rank_of(g, xs@[k]) < rank_of(g, v) by {
                    assert(kids(info)[k] == xs@[k]);
                }
            }
            let ids = reify_all(vars, types, xs, Ghost(rank_of(g, v)));
            let ghost mid = types@;
            let ghost parts = ids@;
            let id = types.intern(Ty::Tuple(ids), span);
            proof {
                lemma_shape_parts(types@, id.0 as nat);
                lemma_extends_trans(start, mid, types@);
                assert forall|k: int| 0 <= k < parts.len() implies shape_of(
                    types@,
                    parts[k].0 as nat,
                ) == settled(var_shape(g, xs@[k])) by {
                    lemma_shape_extends(mid, types@, parts[k].0 as nat);
                }
                assert(types.shape(id)->Tuple_0 =~= settled(var_shape(g, v))->Tuple_0);
            }
            id
        },
        TyInfo::Data(data, xs) => {
            proof {
                assert forall|k: int| 0 <= k < xs@.len() implies vars.has(#[trigger] xs@[k])
                    && rank_of(g, xs@[k]) < rank_of(g, v) by {
                    assert(kids(info)[k] == xs@[k]);
                }
            }
            let ids = reify_all(vars, types, xs, Ghost(rank_of(g, v)));
            let ghost mid = types@;
            let ghost parts = ids@;
            let id = types.intern(Ty::Data(*data, ids), span);
            proof {
                lemma_shape_parts(types@, id.0 as nat);
                lemma_extends_trans(start, mid, types@);
                assert forall|k: int| 0 <= k < parts.len() implies shape_of(
                    types@,
                    parts[k].0 as nat,
                ) == settled(var_shape(g, xs@[k])) by {
                    lemma_shape_extends(mid, types@, parts[k].0 as nat);
                }
                assert(types.shape(id)->Data_1 =~= settled(var_shape(g, v))->Data_1);
            }
            id
        },
    }
}

/// The first unknown variable in the type that `v` stands for, if there is one.
pub open spec fn open_var(g: Graph, v: TyVar) -> Option<TyVar>
    decreases rank_of(g, v), 1nat, 0nat,
{
    if !has_var(g, v) {
        None
    } else {
        match g.infos[v.0 as int] {
            InfoView::Unknown => Some(v),
            InfoView::Ref(x) => open_part(g, x, rank_of(g, v)),
            InfoView::List(x) => open_part(g, x, rank_of(g, v)),
            InfoView::Func(i, o) => match open_part(g, i, rank_of(g, v)) {
                Some(u) => Some(u),
                None => open_part(g, o, rank_of(g, v)),
            },
            InfoView::Tuple(xs) => open_among(g, xs, rank_of(g, v), 0),
            InfoView::Data(_, xs) => open_among(g, xs, rank_of(g, v), 0),
            _ => None,
        }
    }
}

/// The first unknown variable in the type that `x` stands for, if the rank of `x` is
/// below `limit`.
pub open spec fn open_part(g: Graph, x: TyVar, limit: nat) -> Option<TyVar>
    decreases limit, 0nat, 0nat,
{
    if rank_of(g, x) < limit {
        open_var(g, x)
    } else {
        None
    }
}

/// The first unknown variable in the types that the variables of `xs` from the
/// position `from` on stand for.
pub open spec fn open_among(g: Graph, xs: Seq<TyVar>, limit: nat, from: nat) -> Option<TyVar>
    decreases limit, 0nat, xs.len() - from + 1,
{
    if from >= xs.len() {
        None
    } else {
        match open_part(g, xs[from as int], limit) {
            Some(u) => Some(u),
            None => open_among(g, xs, limit, from + 1),
        }
    }
}

/// The first unknown variable in the types that the variables of `vs` stand for.
fn first_open_among(vars: &VarTable, vs: &Vec<TyVar>, limit: Ghost<nat>) -> (r: Option<TyVar>)
    requires
        vars.wf(),
        forall|k: int|
            0 <= k < vs@.len() ==> vars.has(#[trigger] vs@[k]) && rank_of(vars.graph(), vs@[k])
                < limit@,
    ensures
        r == open_among(vars.graph(), vs@, limit@, 0),
        r matches Some(u) ==> vars.has(u),
    decreases limit@, 0nat,
{
    let mut k: usize = 0;
    while k < vs.len()
        invariant
            k <= vs.len(),
            vars.wf(),
            forall|j: int|
                0 <= j < vs@.len() ==> vars.has(#[trigger] vs@[j]) && rank_of(
                    vars.graph(),
                    vs@[j],
                ) < limit@,
            open_among(vars.graph(), vs@, limit@, 0) == open_among(
                vars.graph(),
                vs@,
                limit@,
                k as nat,
            ),
        decreases vs.len() - k,
    {
        proof {
            assert(vars.has(vs@[k as int]));
            assert(open_part(vars.graph(), vs@[k as int], limit@) == open_var(
                vars.graph(),
                vs@[k as int],
            ));
        }
        match first_open(vars, vs[k]) {
            Some(u) => {
                return Some(u);
            },
            None => {},
        }
        k += 1;
    }
    None
}

/// The first unknown variable in the type that `v` stands for, if there is one.
pub fn first_open(vars: &VarTable, v: TyVar) -> (r: Option<TyVar>)
    requires
        vars.wf(),
        vars.has(v),
    ensures
        r == open_var(vars.graph(), v),
        r matches Some(u) ==> vars.has(u),
    decreases rank_of(vars.graph(), v), 1nat,
{
    let ghost g = vars.graph();
    let ghost info = g.infos[v.0 as int];
    proof {
        assert(kids_below(g, info, g.rank[v.0 as int]));
    }
    match vars.get(v) {
        TyInfo::Unknown => Some(v),
        TyInfo::Ref(x) => {
            assert(kids(info)[0] == *x);
            first_open(vars, *x)
        },
        TyInfo::List(x) => {
            assert(kids(info)[0] == *x);
            first_open(vars, *x)
        },
        TyInfo::Func(i, o) => {
            assert(kids(info)[0] == *i && kids(info)[1] == *o);
            match first_open(vars, *i) {
                Some(u) => Some(u),
                None => first_open(vars, *o),
            }
        },
        TyInfo::Tuple(xs) => {
            proof {
                assert forall|k: int| 0 <= k < xs@.len() implies vars.has(#[trigger] xs@[k])
                    && rank_of(g, xs@[k]) < rank_of(g, v) by {
                    assert(kids(info)[k] == xs@[k]);
                }
            }
            first_open_among(vars, xs, Ghost(rank_of(g, v)))
        },
        TyInfo::Data(_, xs) => {
            proof {
                assert forall|k: int| 0 <= k < xs@.len() implies vars.has(#[trigger] xs@[k])
                    && rank_of(g, xs@[k]) < rank_of(g, v) by {
                    assert(kids(info)[k] == xs@[k]);
                }
            }
            first_open_among(vars, xs, Ghost(rank_of(g, v)))
        },
        _ => None,
    }
}

/// The graph `g` and the places `spans` of its variables with one variable more,
/// of which `info` is known and which was introduced at `span`, and that variable.
pub open spec fn put(g: Graph, spans: Seq<Span>, info: InfoView, span: Span) -> (
    Graph,
    Seq<Span>,
    TyVar,
) {
    (grown(g, info), spans.push(span), TyVar(g.infos.len() as usize))
}

/// What making a variable for the type `id` of the store `tys` gives: the graph and
/// the places of its variables with the new variables, and the variable for the
/// type. The parts of the type get their variables first, in their order; a generic
/// parameter of the list `scope` gets no variable, the variable of `gens` at its
/// position stands for it.
pub open spec fn made(
    g: Graph,
    spans: Seq<Span>,
    tys: Seq<TyView>,
    id: TyId,
    scope: GenScopeId,
    gens: Seq<TyVar>,
    span: Span,
) -> (Graph, Seq<Span>, TyVar)
    decreases id.0, 1nat, 0nat,
{
    if id.0 >= tys.len() {
        put(g, spans, InfoView::Error, span)
    } else {
        match tys[id.0 as int] {
            TyView::Error => put(g, spans, InfoView::Error, span),
            TyView::Prim(p) => put(g, spans, InfoView::Prim(p), span),
            TyView::Gen(index, sc) => if sc == scope && index < gens.len() {
                (g, spans, gens[index as int])
            } else {
                put(g, spans, InfoView::Gen(index, sc), span)
            },
            TyView::List(item) => if item.0 < id.0 {
                let m = made(g, spans, tys, item, scope, gens, span);
                put(m.0, m.1, InfoView::List(m.2), span)
            } else {
                put(g, spans, InfoView::Error, span)
            },
            TyView::Func(i, o) => if i.0 < id.0 && o.0 < id.0 {
                let a = made(g, spans, tys, i, scope, gens, span);
                let b = made(a.0, a.1, tys, o, scope, gens, span);
                put(b.0, b.1, InfoView::Func(a.2, b.2), span)
            } else {
                put(g, spans, InfoView::Error, span)
            },
            TyView::Tuple(fields) => {
                let m = made_all(g, spans, tys, fields, id.0 as nat, scope, gens, span, fields.len());
                put(m.0, m.1, InfoView::Tuple(m.2), span)
            },
            TyView::Data(data, args) => {
                let m = made_all(g, spans, tys, args, id.0 as nat, scope, gens, span, args.len());
                put(m.0, m.1, InfoView::Data(data, m.2), span)
            },
        }
    }
}

/// What making variables for the first `n` of the types `ids` gives, one after the
/// other; the types are below `limit`.
pub open spec fn made_all(
    g: Graph,
    spans: Seq<Span>,
    tys: Seq<TyView>,
    ids: Seq<TyId>,
    limit: nat,
    scope: GenScopeId,
    gens: Seq<TyVar>,
    span: Span,
    n: nat,
) -> (Graph, Seq<Span>, Seq<TyVar>)
    decreases limit, 0nat, n,
{
    if n == 0 || n > ids.len() {
        (g, spans, Seq::empty())
    } else {
        let m = made_all(g, spans, tys, ids, limit, scope, gens, span, (n - 1) as nat);
        if ids[n - 1].0 < limit {
            let x = made(m.0, m.1, tys, ids[n - 1], scope, gens, span);
            (x.0, x.1, m.2.push(x.2))
        } else {
            (m.0, m.1, m.2)
        }
    }
}

/// New variables for the types `ids`, with the variables `gens` in place of the
/// generic parameters of the list `scope`.
fn instantiate_all(
    vars: &mut VarTable,
    types: &Types,
    ids: &Vec<TyId>,
    limit: TyId,
    scope: GenScopeId,
    gens: &Vec<TyVar>,
    span: Span,
) -> (vs: Vec<TyVar>)
    requires
        old(vars).wf(),
        types.wf(),
        forall|k: int| 0 <= k < ids@.len() ==> (#[trigger] ids@[k]).0 < limit.0,
        limit.0 <= types@.len(),
        forall|k: int| 0 <= k < gens@.len() ==> old(vars).has(#[trigger] gens@[k]),
    ensures
        final(vars).wf(),
        grows(old(vars).graph(), final(vars).graph()),
        final(vars).spans().len() == final(vars)@.len(),
        vs@.len() == ids@.len(),
        (final(vars).graph(), final(vars).spans(), vs@) == made_all(
            old(vars).graph(),
            old(vars).spans(),
            types@,
            ids@,
            limit.0 as nat,
            scope,
            gens@,
            span,
            ids@.len(),
        ),
        forall|k: int|
            0 <= k < ids@.len() ==> final(vars).has(#[trigger] vs@[k]) && var_shape(
                final(vars).graph(),
                vs@[k],
            ) == with_gens(
                types.shape(ids@[k]),
                scope,
                var_shapes(old(vars).graph(), gens@),
            ),
    decreases limit.0, 0nat,
{
    let ghost start = vars.graph();
    let ghost wanted = var_shapes(start, gens@);
    let mut vs: Vec<TyVar> = Vec::new();
    let mut k: usize = 0;
    while k < ids.len()
        invariant
            k <= ids.len(),
            vars.wf(),
            types.wf(),
            graph_wf(start),
            grows(start, vars.graph()),
            wanted == var_shapes(start, gens@),
            limit.0 <= types@.len(),
            forall|j: int| 0 <= j < ids@.len() ==> (#[trigger] ids@[j]).0 < limit.0,
            forall|j: int| 0 <= j < gens@.len() ==> has_var(start, #[trigger] gens@[j]),
            vs@.len() == k,
            forall|j: int|
                0 <= j < k ==> vars.has(#[trigger] vs@[j]) && var_shape(vars.graph(), vs@[j])
                    == with_gens(types.shape(ids@[j]), scope, wanted),
            (vars.graph(), vars.spans(), vs@) == made_all(
                old(vars).graph(),
                old(vars).spans(),
                types@,
                ids@,
                limit.0 as nat,
                scope,
                gens@,
                span,
                k as nat,
            ),
        decreases ids.len() - k,
    {
        let ghost before = vars.graph();
        proof {
            assert forall|j: int| 0 <= j < gens@.len() implies vars.has(#[trigger] gens@[j]) by {
                assert(has_var(start, gens@[j]));
            }
            assert forall|j: int| 0 <= j < gens@.len() implies var_shape(before, gens@[j])
                == var_shape(start, gens@[j]) by {
                lemma_var_shape_grows(start, before, gens@[j]);
            }
            assert(var_shapes(before, gens@) =~= wanted);
        }
        let v = instantiate(vars, types, ids[k], scope, gens, span);
        proof {
            lemma_grows_trans(start, before, vars.graph());
            assert forall|j: int| 0 <= j < k implies vars.has(#[trigger] vs@[j]) && var_shape(
                vars.graph(),
                vs@[j],
            ) == with_gens(types.shape(ids@[j]), scope, wanted) by {
                lemma_var_shape_grows(before, vars.graph(), vs@[j]);
            }
        }
        vs.push(v);
        k += 1;
    }
    vs
}

/// A new variable for the type `id`, with the variables `gens` in place of the
/// generic parameters of the list `scope`. The variables are introduced at `span`.
pub fn instantiate(
    vars: &mut VarTable,
    types: &Types,
    id: TyId,
    scope: GenScopeId,
    gens: &Vec<TyVar>,
    span: Span,
) -> (v: TyVar)
    requires
        old(vars).wf(),
        types.wf(),
        types.has(id),
        forall|k: int| 0 <= k < gens@.len() ==> old(vars).has(#[trigger] gens@[k]),
    ensures
        final(vars).wf(),
        grows(old(vars).graph(), final(vars).graph()),
        final(vars).has(v),
        var_shape(final(vars).graph(), v) == with_gens(
            types.shape(id),
            scope,
            var_shapes(old(vars).graph(), gens@),
        ),
        (final(vars).graph(), final(vars).spans(), v) == made(
            old(vars).graph(),
            old(vars).spans(),
            types@,
            id,
            scope,
            gens@,
            span,
        ),
    decreases id.0, 1nat,
{
    let ghost start = vars.graph();
    let ghost wanted = var_shapes(start, gens@);
    proof {
        lemma_shape_parts(types@, id.0 as nat);
    }
    match types.get(id) {
        Ty::Error => {
            vars.insert(TyInfo::Error, span)
        },
        Ty::Prim(p) => vars.insert(TyInfo::Prim(*p), span),
        Ty::Gen(index, sc) => {
            if *sc == scope && *index < gens.len() {
                gens[*index]
            } else {
                vars.insert(TyInfo::Gen(*index, *sc), span)
            }
        },
        Ty::List(item) => {
            let x = instantiate(vars, types, *item, scope, gens, span);
            let ghost mid = vars.graph();
            let v = vars.insert(TyInfo::List(x), span);
            proof {
                lemma_above(mid.rank, x.0 as int);
                lemma_var_shape_grows(mid, vars.graph(), x);
                lemma_grows_trans(start, mid, vars.graph());
            }
            v
        },
        Ty::Func(i, o) => {
            let x = instantiate(vars, types, *i, scope, gens, span);
            let ghost mid = vars.graph();
            proof {
                assert forall|j: int| 0 <= j < gens@.len() implies vars.has(#[trigger] gens@[j])
                    && var_shape(mid, gens@[j]) == var_shape(start, gens@[j]) by {
                    lemma_var_shape_grows(start, mid, gens@[j]);
                }
                assert(var_shapes(mid, gens@) =~= wanted);
            }
            let y = instantiate(vars, types, *o, scope, gens, span);
            let ghost late = vars.graph();
            let v = vars.insert(TyInfo::Func(x, y), span);
            proof {
                lemma_above(late.rank, x.0 as int);
                lemma_above(late.rank, y.0 as int);
                lemma_var_shape_grows(mid, late, x);
                lemma_var_shape_grows(late, vars.graph(), x);
                lemma_var_shape_grows(late, vars.graph(), y);
                lemma_grows_trans(start, mid, late);
                lemma_grows_trans(start, late, vars.graph());
            }
            v
        },
        Ty::Tuple(fields) => {
            let xs = instantiate_all(vars, types, fields, id, scope, gens, span);
            let ghost mid = vars.graph();
            let ghost parts = xs@;
            let v = vars.insert(TyInfo::Tuple(xs), span);
            proof {
                lemma_grows_trans(start, mid, vars.graph());
                assert forall|k: int| 0 <= k < parts.len() implies rank_of(
                    vars.graph(),
                    parts[k],
                ) < rank_of(vars.graph(), v) && var_shape(vars.graph(), parts[k]) == with_gens(
                    types.shape(fields@[k]),
                    scope,
                    wanted,
                ) by {
                    lemma_above(mid.rank, parts[k].0 as int);
                    lemma_var_shape_grows(mid, vars.graph(), parts[k]);
                }
                assert(var_shape(vars.graph(), v)->Tuple_0 =~= with_gens(
                    types.shape(id),
                    scope,
                    wanted,
                )->Tuple_0);
            }
            v
        },
        Ty::Data(data, args) => {
            let xs = instantiate_all(vars, types, args, id, scope, gens, span);
            let ghost mid = vars.graph();
            let ghost parts = xs@;
            let v = vars.insert(TyInfo::Data(*data, xs), span);
            proof {
                lemma_grows_trans(start, mid, vars.graph());
                assert forall|k: int| 0 <= k < parts.len() implies rank_of(
                    vars.graph(),
                    parts[k],
                ) < rank_of(vars.graph(), v) && var_shape(vars.graph(), parts[k]) == with_gens(
                    types.shape(args@[k]),
                    scope,
                    wanted,
                ) by {
                    lemma_above(mid.rank, parts[k].0 as int);
                    lemma_var_shape_grows(mid, vars.graph(), parts[k]);
                }
                assert(var_shape(vars.graph(), v)->Data_1 =~= with_gens(
                    types.shape(id),
                    scope,
                    wanted,
                )->Data_1);
            }
            v
        },
    }
}

} // verus!
