//! Inference variables and their unification, as a mathematical model.
//!
//! The variables form a graph. A variable is unknown, refers to another variable, or
//! has a shape whose parts are variables. Unification only ever turns an unknown
//! variable into a reference; a rank that falls along every edge witnesses that the
//! graph has no cycle.

use crate::ty::{DataId, GenScopeId, Prim};
use vstd::prelude::*;

verus! {

/// The identity of an inference variable.
#[derive(Clone, Copy, Debug, PartialEq, Eq, Structural)]
pub struct TyVar(pub usize);

/// What is known of a variable, as a mathematical value.
pub enum InfoView {
    Unknown,
    Ref(TyVar),
    Error,
    Prim(Prim),
    List(TyVar),
    Tuple(Seq<TyVar>),
    Func(TyVar, TyVar),
    Data(DataId, Seq<TyVar>),
    Gen(usize, GenScopeId),
}

/// The variables of a table, each with its rank.
pub struct Graph {
    pub infos: Seq<InfoView>,
    pub rank: Seq<nat>,
}

/// Why two types cannot be made equal.
#[derive(Clone, Copy, Debug, PartialEq, Eq, Structural)]
pub enum Failure {
    /// The two types have different shapes.
    Mismatch,
    /// The unknown variable (first) occurs inside the type (second) it would become.
    Recursive(TyVar, TyVar),
}

/// What one step of unification does: the graph after it, the pairs of variables that
/// remain to be made equal, last pair first, and the failure, if the step failed.
pub struct Step {
    pub graph: Graph,
    pub pairs: Seq<(TyVar, TyVar)>,
    pub failure: Option<Failure>,
}

/// The variables that `info` mentions, in order.
pub open spec fn kids(info: InfoView) -> Seq<TyVar> {
    match info {
        InfoView::Ref(x) => seq![x],
        InfoView::List(x) => seq![x],
        InfoView::Tuple(xs) => xs,
        InfoView::Func(i, o) => seq![i, o],
        InfoView::Data(_, xs) => xs,
        _ => Seq::empty(),
    }
}

/// Whether `v` is a variable of `g`.
pub open spec fn has_var(g: Graph, v: TyVar) -> bool {
    v.0 < g.infos.len()
}

/// The rank of `v`.
pub open spec fn rank_of(g: Graph, v: TyVar) -> nat {
    if v.0 < g.rank.len() {
        g.rank[v.0 as int]
    } else {
        0
    }
}

/// Whether each variable that `info` mentions is a variable of `g` of a rank below
/// `limit`.
pub open spec fn kids_below(g: Graph, info: InfoView, limit: nat) -> bool {
    forall|k: int|
        0 <= k < kids(info).len() ==> has_var(g, #[trigger] kids(info)[k]) && rank_of(
            g,
            kids(info)[k],
        ) < limit
}

/// Whether `g` is well formed: each variable mentions variables of the graph only, and
/// only ones of a lower rank.
pub open spec fn graph_wf(g: Graph) -> bool {
    &&& g.rank.len() == g.infos.len()
    &&& g.infos.len() <= usize::MAX
    &&& forall|v: int|
        0 <= v < g.infos.len() ==> kids_below(g, #[trigger] g.infos[v], g.rank[v])
}

/// The variable that `v` stands for: the end of the chain of references from `v`.
pub open spec fn root(g: Graph, v: TyVar) -> TyVar
    decreases rank_of(g, v),
{
    if has_var(g, v) {
        match g.infos[v.0 as int] {
            InfoView::Ref(x) => if rank_of(g, x) < rank_of(g, v) {
                root(g, x)
            } else {
                v
            },
            _ => v,
        }
    } else {
        v
    }
}

/// Whether `to` can be reached from `from` along the variables that each mentions.
pub open spec fn reach(g: Graph, from: TyVar, to: TyVar) -> bool
    decreases rank_of(g, from),
{
    from == to || (has_var(g, from) && exists|k: int|
        0 <= k < kids(g.infos[from.0 as int]).len() && rank_of(
            g,
            #[trigger] kids(g.infos[from.0 as int])[k],
        ) < rank_of(g, from) && reach(g, kids(g.infos[from.0 as int])[k], to))
}

/// The graph `g` after the unknown variable `v` was made to refer to `x`. The rank of
/// everything that reaches `v` rises above that of `x`.
pub open spec fn refer(g: Graph, v: TyVar, x: TyVar) -> Graph {
    Graph {
        infos: g.infos.update(v.0 as int, InfoView::Ref(x)),
        rank: Seq::new(
            g.rank.len(),
            |y: int|
                if reach(g, TyVar(y as usize), v) {
                    g.rank[y] + rank_of(g, x) + 1
                } else {
                    g.rank[y]
                },
        ),
    }
}

/// Whether two shapes have the same head: the same primitive, the same generic
/// parameter, or the same constructor with as many parts.
pub open spec fn same_head(a: InfoView, b: InfoView) -> bool {
    match (a, b) {
        (InfoView::Prim(p), InfoView::Prim(q)) => p == q,
        (InfoView::Gen(i, s), InfoView::Gen(j, t)) => i == j && s == t,
        (InfoView::List(_), InfoView::List(_)) => true,
        (InfoView::Tuple(xs), InfoView::Tuple(ys)) => xs.len() == ys.len(),
        (InfoView::Func(_, _), InfoView::Func(_, _)) => true,
        (InfoView::Data(d, xs), InfoView::Data(e, ys)) => d == e && xs.len() == ys.len(),
        _ => false,
    }
}

/// The pairs of `xs` and `ys` from the position `from` on, the pair at `from` last.
pub open spec fn stacked(xs: Seq<TyVar>, ys: Seq<TyVar>, from: nat) -> Seq<(TyVar, TyVar)>
    decreases xs.len() - from,
{
    if from >= xs.len() || from >= ys.len() {
        Seq::empty()
    } else {
        stacked(xs, ys, from + 1).push((xs[from as int], ys[from as int]))
    }
}

/// One step of unification, on the pair `(a, b)`.
///
/// Both sides are followed to the variable they stand for. If that is the same
/// variable, nothing is done. Of two unknown variables, the one allocated later is
/// made to refer to the other. An unknown variable is made to refer to a known type,
/// unless it occurs inside that type. The error type is equal to everything. Two
/// known types must have the same head, and their parts remain to be made equal, in
/// order.
pub open spec fn step(g: Graph, a: TyVar, b: TyVar) -> Step {
    let ra = root(g, a);
    let rb = root(g, b);
    let ia = g.infos[ra.0 as int];
    let ib = g.infos[rb.0 as int];
    let done = Step { graph: g, pairs: Seq::empty(), failure: None };
    if ra == rb {
        done
    } else if ia is Unknown && ib is Unknown {
        if ra.0 < rb.0 {
            Step { graph: refer(g, rb, ra), ..done }
        } else {
            Step { graph: refer(g, ra, rb), ..done }
        }
    } else if ia is Unknown {
        if reach(g, rb, ra) {
            Step { failure: Some(Failure::Recursive(ra, rb)), ..done }
        } else {
            Step { graph: refer(g, ra, rb), ..done }
        }
    } else if ib is Unknown {
        if reach(g, ra, rb) {
            Step { failure: Some(Failure::Recursive(rb, ra)), ..done }
        } else {
            Step { graph: refer(g, rb, ra), ..done }
        }
    } else if ia is Error || ib is Error {
        done
    } else if same_head(ia, ib) {
        Step { pairs: stacked(kids(ia), kids(ib), 0), ..done }
    } else {
        Step { failure: Some(Failure::Mismatch), ..done }
    }
}

/// The number of unknown variables among `infos`.
pub open spec fn unknowns(infos: Seq<InfoView>) -> nat
    decreases infos.len(),
{
    if infos.len() == 0 {
        0
    } else {
        unknowns(infos.drop_last()) + if infos.last() is Unknown {
            1nat
        } else {
            0nat
        }
    }
}

/// The size of the type that `v` stands for, written out in full.
pub open spec fn tsize(g: Graph, v: TyVar) -> nat
    decreases rank_of(g, v), 1nat, 0nat,
{
    if has_var(g, v) {
        1 + tsize_from(g, kids(g.infos[v.0 as int]), rank_of(g, v), 0)
    } else {
        1
    }
}

/// The sizes of the types that the variables of `ks` from the position `from` on stand
/// for, added up; a variable whose rank is not below `limit` counts as nothing.
pub open spec fn tsize_from(g: Graph, ks: Seq<TyVar>, limit: nat, from: nat) -> nat
    decreases limit, 0nat, ks.len() - from,
{
    if from >= ks.len() {
        0
    } else {
        (if rank_of(g, ks[from as int]) < limit {
            tsize(g, ks[from as int])
        } else {
            0
        }) + tsize_from(g, ks, limit, from + 1)
    }
}

/// The sizes of the types of the pairs of `work`, added up.
pub open spec fn work_size(g: Graph, work: Seq<(TyVar, TyVar)>) -> nat
    decreases work.len(),
{
    if work.len() == 0 {
        0
    } else {
        work_size(g, work.drop_last()) + tsize(g, work.last().0) + tsize(g, work.last().1)
    }
}

/// Whether both variables of each pair of `work` are variables of `g`.
pub open spec fn work_ok(g: Graph, work: Seq<(TyVar, TyVar)>) -> bool {
    forall|i: int|
        0 <= i < work.len() ==> has_var(g, (#[trigger] work[i]).0) && has_var(g, work[i].1)
}

/// The variable that `v` stands for is a variable of the graph that refers to no
/// other; `v` reaches it, and it is no larger than `v`.
pub proof fn lemma_root(g: Graph, v: TyVar)
    requires
        graph_wf(g),
        has_var(g, v),
    ensures
        has_var(g, root(g, v)),
        !(g.infos[root(g, v).0 as int] is Ref),
        rank_of(g, root(g, v)) <= rank_of(g, v),
        reach(g, v, root(g, v)),
        tsize(g, root(g, v)) <= tsize(g, v),
        root(g, root(g, v)) == root(g, v),
    decreases rank_of(g, v),
{
    let info = g.infos[v.0 as int];
    assert(kids_below(g, info, g.rank[v.0 as int]));
    match info {
        InfoView::Ref(x) => {
            assert(kids(info)[0] == x);
            lemma_root(g, x);
            assert(tsize_from(g, kids(info), rank_of(g, v), 1) == 0);
            assert(tsize_from(g, kids(info), rank_of(g, v), 0) == tsize(g, x));
        },
        _ => {},
    }
}

/// Turning an unknown variable into something else leaves one unknown variable less.
pub proof fn lemma_unknowns_update(infos: Seq<InfoView>, v: int, info: InfoView)
    requires
        0 <= v < infos.len(),
        infos[v] is Unknown,
        !(info is Unknown),
    ensures
        unknowns(infos.update(v, info)) + 1 == unknowns(infos),
    decreases infos.len(),
{
    let after = infos.update(v, info);
    if v == infos.len() - 1 {
        assert(after.drop_last() =~= infos.drop_last());
    } else {
        assert(after.drop_last() =~= infos.drop_last().update(v, info));
        lemma_unknowns_update(infos.drop_last(), v, info);
    }
}

/// Making an unknown variable refer to a variable that does not reach it keeps the
/// graph well formed.
pub proof fn lemma_refer_wf(g: Graph, v: TyVar, x: TyVar)
    requires
        graph_wf(g),
        has_var(g, v),
        has_var(g, x),
        g.infos[v.0 as int] is Unknown,
        !reach(g, x, v),
    ensures
        graph_wf(refer(g, v, x)),
        refer(g, v, x).infos.len() == g.infos.len(),
        unknowns(refer(g, v, x).infos) < unknowns(g.infos),
{
    let g2 = refer(g, v, x);
    lemma_unknowns_update(g.infos, v.0 as int, InfoView::Ref(x));
    assert forall|y: int| 0 <= y < g2.infos.len() implies kids_below(
        g2,
        #[trigger] g2.infos[y],
        g2.rank[y],
    ) by {
        let vy = TyVar(y as usize);
        assert forall|k: int| 0 <= k < kids(g2.infos[y]).len() implies has_var(
            g2,
            #[trigger] kids(g2.infos[y])[k],
        ) && rank_of(g2, kids(g2.infos[y])[k]) < g2.rank[y] by {
            let z = kids(g2.infos[y])[k];
            if y == v.0 {
                assert(z == x);
                assert(reach(g, v, v));
            } else {
                assert(kids_below(g, g.infos[y], g.rank[y]));
                assert(z == kids(g.infos[y])[k]);
                assert(has_var(g, z));
                assert(TyVar(z.0 as int as usize) == z);
                if reach(g, z, v) {
                    assert(has_var(g, vy));
                    assert(vy.0 as int == y);
                    assert(kids(g.infos[vy.0 as int])[k] == z);
                    assert(rank_of(g, z) < rank_of(g, vy));
                    assert(reach(g, vy, v));
                }
            }
        }
    }
}

/// The pairs that `stacked` gives are made of the variables of `xs` and `ys`, and
/// their size is the size of what `xs` and `ys` stand for.
pub proof fn lemma_stacked(g: Graph, xs: Seq<TyVar>, ys: Seq<TyVar>, lx: nat, ly: nat, from: nat)
    requires
        xs.len() == ys.len(),
        forall|k: int| 0 <= k < xs.len() ==> has_var(g, #[trigger] xs[k]) && rank_of(g, xs[k]) < lx,
        forall|k: int| 0 <= k < ys.len() ==> has_var(g, #[trigger] ys[k]) && rank_of(g, ys[k]) < ly,
    ensures
        work_ok(g, stacked(xs, ys, from)),
        work_size(g, stacked(xs, ys, from)) == tsize_from(g, xs, lx, from) + tsize_from(
            g,
            ys,
            ly,
            from,
        ),
    decreases xs.len() - from,
{
    if from < xs.len() {
        lemma_stacked(g, xs, ys, lx, ly, from + 1);
        let rest = stacked(xs, ys, from + 1);
        let pair = (xs[from as int], ys[from as int]);
        assert(rest.push(pair).drop_last() =~= rest);
        assert(rest.push(pair).last() == pair);
    }
}

/// The size of two lists of pairs, one after the other, is the sum of their sizes.
pub proof fn lemma_work_size_concat(g: Graph, w1: Seq<(TyVar, TyVar)>, w2: Seq<(TyVar, TyVar)>)
    ensures
        work_size(g, w1 + w2) == work_size(g, w1) + work_size(g, w2),
    decreases w2.len(),
{
    if w2.len() == 0 {
        assert(w1 + w2 =~= w1);
    } else {
        assert((w1 + w2).drop_last() =~= w1 + w2.drop_last());
        lemma_work_size_concat(g, w1, w2.drop_last());
    }
}

/// A step keeps the graph well formed. Unless it fails, it leaves fewer unknown
/// variables, or leaves the graph as it is and less work than the pair it took.
pub proof fn lemma_step(g: Graph, a: TyVar, b: TyVar)
    requires
        graph_wf(g),
        has_var(g, a),
        has_var(g, b),
    ensures
        graph_wf(step(g, a, b).graph),
        step(g, a, b).graph.infos.len() == g.infos.len(),
        work_ok(step(g, a, b).graph, step(g, a, b).pairs),
        step(g, a, b).failure is Some ==> step(g, a, b).graph == g && step(g, a, b).pairs.len()
            == 0,
        step(g, a, b).failure matches Some(Failure::Recursive(x, y)) ==> has_var(g, x) && has_var(
            g,
            y,
        ),
        step(g, a, b).failure is None ==> unknowns(step(g, a, b).graph.infos) < unknowns(g.infos)
            || (step(g, a, b).graph == g && work_size(g, step(g, a, b).pairs) < tsize(g, a)
            + tsize(g, b)),
{
    lemma_root(g, a);
    lemma_root(g, b);
    let ra = root(g, a);
    let rb = root(g, b);
    let ia = g.infos[ra.0 as int];
    let ib = g.infos[rb.0 as int];
    assert(kids_below(g, ia, g.rank[ra.0 as int]));
    assert(kids_below(g, ib, g.rank[rb.0 as int]));
    if ra == rb {
    } else if ia is Unknown && ib is Unknown {
        if ra.0 < rb.0 {
            lemma_refer_wf(g, rb, ra);
        } else {
            lemma_refer_wf(g, ra, rb);
        }
    } else if ia is Unknown {
        if !reach(g, rb, ra) {
            lemma_refer_wf(g, ra, rb);
        }
    } else if ib is Unknown {
        if !reach(g, ra, rb) {
            lemma_refer_wf(g, rb, ra);
        }
    } else if ia is Error || ib is Error {
    } else if same_head(ia, ib) {
        lemma_stacked(g, kids(ia), kids(ib), rank_of(g, ra), rank_of(g, rb), 0);
    }
}

/// The graph after every pair of `work` was made equal, the last pair first, and the
/// failure that stopped the work, if one did. What was done before a failure stays
/// done.
pub open spec fn run(g: Graph, work: Seq<(TyVar, TyVar)>) -> (Graph, Option<Failure>)
    decreases unknowns(g.infos), work_size(g, work),
    when graph_wf(g) && work_ok(g, work)
{
    if work.len() == 0 {
        (g, None)
    } else {
        let s = step(g, work.last().0, work.last().1);
        match s.failure {
            Some(f) => (s.graph, Some(f)),
            None => {
                proof {
                    lemma_step(g, work.last().0, work.last().1);
                    lemma_work_size_concat(g, work.drop_last(), s.pairs);
                }
                run(s.graph, work.drop_last() + s.pairs)
            },
        }
    }
}

/// Unification keeps the graph well formed, and neither adds nor removes variables.
pub proof fn lemma_run(g: Graph, work: Seq<(TyVar, TyVar)>)
    requires
        graph_wf(g),
        work_ok(g, work),
    ensures
        graph_wf(run(g, work).0),
        run(g, work).0.infos.len() == g.infos.len(),
    decreases unknowns(g.infos), work_size(g, work),
{
    if work.len() > 0 {
        let s = step(g, work.last().0, work.last().1);
        lemma_step(g, work.last().0, work.last().1);
        if s.failure is None {
            lemma_work_size_concat(g, work.drop_last(), s.pairs);
            let next = work.drop_last() + s.pairs;
            assert(work_ok(s.graph, next)) by {
                assert forall|i: int| 0 <= i < next.len() implies has_var(
                    s.graph,
                    (#[trigger] next[i]).0,
                ) && has_var(s.graph, next[i].1) by {
                    if i < work.len() - 1 {
                        assert(next[i] == work[i]);
                    } else {
                        assert(next[i] == s.pairs[i - (work.len() - 1)]);
                    }
                }
            }
            lemma_run(s.graph, next);
        }
    }
}

/// What making `a` and `b` equal does to the graph `g`, and the failure, if they
/// cannot be made equal.
pub open spec fn unified(g: Graph, a: TyVar, b: TyVar) -> (Graph, Option<Failure>) {
    run(g, seq![(a, b)])
}

/// The pairs of `w`, each turned round.
pub open spec fn swapped(w: Seq<(TyVar, TyVar)>) -> Seq<(TyVar, TyVar)> {
    Seq::new(w.len(), |i: int| (w[i].1, w[i].0))
}

/// Whether `w2` holds the pairs of `w1` in the same order, each as it is or turned
/// round.
pub open spec fn mirrored(w1: Seq<(TyVar, TyVar)>, w2: Seq<(TyVar, TyVar)>) -> bool {
    &&& w1.len() == w2.len()
    &&& forall|i: int|
        0 <= i < w1.len() ==> (#[trigger] w2[i]) == w1[i] || w2[i] == (w1[i].1, w1[i].0)
}

/// Pairing `ys` with `xs` gives the pairs of `xs` with `ys`, each turned round.
pub proof fn lemma_stacked_swapped(xs: Seq<TyVar>, ys: Seq<TyVar>, from: nat)
    ensures
        stacked(ys, xs, from) == swapped(stacked(xs, ys, from)),
    decreases xs.len() - from,
{
    if from < xs.len() && from < ys.len() {
        lemma_stacked_swapped(xs, ys, from + 1);
    }
    assert(stacked(ys, xs, from) =~= swapped(stacked(xs, ys, from)));
}

/// A step does the same to the graph whichever side comes first, and leaves the same
/// pairs, each turned round.
pub proof fn lemma_step_symmetric(g: Graph, a: TyVar, b: TyVar)
    requires
        graph_wf(g),
        has_var(g, a),
        has_var(g, b),
    ensures
        step(g, b, a).graph == step(g, a, b).graph,
        step(g, b, a).failure == step(g, a, b).failure,
        step(g, b, a).pairs == swapped(step(g, a, b).pairs),
{
    lemma_root(g, a);
    lemma_root(g, b);
    let ra = root(g, a);
    let rb = root(g, b);
    let ia = g.infos[ra.0 as int];
    let ib = g.infos[rb.0 as int];
    lemma_stacked_swapped(kids(ia), kids(ib), 0);
    assert(swapped(Seq::<(TyVar, TyVar)>::empty()) =~= Seq::<(TyVar, TyVar)>::empty());
    assert(same_head(ia, ib) == same_head(ib, ia));
}

/// Unification gives the same graph and the same outcome when any of the pairs it
/// works on are turned round.
pub proof fn lemma_run_mirrored(g: Graph, w1: Seq<(TyVar, TyVar)>, w2: Seq<(TyVar, TyVar)>)
    requires
        graph_wf(g),
        work_ok(g, w1),
        mirrored(w1, w2),
    ensures
        run(g, w1) == run(g, w2),
    decreases unknowns(g.infos), work_size(g, w1),
{
    assert(work_ok(g, w2)) by {
        assert forall|i: int| 0 <= i < w2.len() implies has_var(g, (#[trigger] w2[i]).0)
            && has_var(g, w2[i].1) by {
            assert(has_var(g, w1[i].0) && has_var(g, w1[i].1));
        }
    }
    if w1.len() > 0 {
        let (a, b) = w1.last();
        let s1 = step(g, a, b);
        let s2 = step(g, w2.last().0, w2.last().1);
        lemma_step(g, a, b);
        lemma_step_symmetric(g, a, b);
        assert(w2.last() == w1.last() || w2.last() == (b, a));
        assert(s2.graph == s1.graph && s2.failure == s1.failure);
        if s1.failure is None {
            let n1 = w1.drop_last() + s1.pairs;
            let n2 = w2.drop_last() + s2.pairs;
            lemma_work_size_concat(g, w1.drop_last(), s1.pairs);
            assert(mirrored(n1, n2)) by {
                assert forall|i: int| 0 <= i < n1.len() implies (#[trigger] n2[i]) == n1[i]
                    || n2[i] == (n1[i].1, n1[i].0) by {
                    if i < w1.len() - 1 {
                        assert(n1[i] == w1[i] && n2[i] == w2[i]);
                    } else {
                        let k = i - (w1.len() - 1);
                        assert(n1[i] == s1.pairs[k] && n2[i] == s2.pairs[k]);
                    }
                }
            }
            assert(work_ok(s1.graph, n1)) by {
                assert forall|i: int| 0 <= i < n1.len() implies has_var(
                    s1.graph,
                    (#[trigger] n1[i]).0,
                ) && has_var(s1.graph, n1[i].1) by {
                    if i < w1.len() - 1 {
                        assert(n1[i] == w1[i]);
                    } else {
                        assert(n1[i] == s1.pairs[i - (w1.len() - 1)]);
                    }
                }
            }
            lemma_run_mirrored(s1.graph, n1, n2);
        }
    }
}

/// Unification is commutative: making `a` equal to `b` leaves the same graph, with
/// the same outcome, as making `b` equal to `a`.
pub proof fn lemma_unify_commutes(g: Graph, a: TyVar, b: TyVar)
    requires
        graph_wf(g),
        has_var(g, a),
        has_var(g, b),
    ensures
        unified(g, a, b) == unified(g, b, a),
{
    lemma_run_mirrored(g, seq![(a, b)], seq![(b, a)]);
}

/// Unification is idempotent: making equal two variables that stand for the same
/// variable succeeds and changes nothing.
pub proof fn lemma_unify_idempotent(g: Graph, a: TyVar, b: TyVar)
    requires
        graph_wf(g),
        has_var(g, a),
        has_var(g, b),
        root(g, a) == root(g, b),
    ensures
        unified(g, a, b) == (g, None::<Failure>),
{
    let w = seq![(a, b)];
    assert(w.drop_last() + Seq::<(TyVar, TyVar)>::empty() =~= Seq::<(TyVar, TyVar)>::empty());
    assert(run(g, Seq::<(TyVar, TyVar)>::empty()) == (g, None::<Failure>));
}

/// The occurs check: an unknown variable cannot be made equal to a known type that it
/// occurs in. Unification then fails, whichever side comes first, and changes nothing.
pub proof fn lemma_unify_occurs(g: Graph, v: TyVar, t: TyVar)
    requires
        graph_wf(g),
        has_var(g, v),
        has_var(g, t),
        g.infos[root(g, v).0 as int] is Unknown,
        !(g.infos[root(g, t).0 as int] is Unknown),
        reach(g, root(g, t), root(g, v)),
    ensures
        unified(g, v, t) == (g, Some(Failure::Recursive(root(g, v), root(g, t)))),
        unified(g, t, v) == (g, Some(Failure::Recursive(root(g, v), root(g, t)))),
{
    lemma_root(g, v);
    lemma_root(g, t);
}

/// An unknown variable cannot be made equal to a list whose items are of the type
/// that the variable stands for.
pub proof fn lemma_unify_list_of_self(g: Graph, v: TyVar, t: TyVar, item: TyVar)
    requires
        graph_wf(g),
        has_var(g, v),
        has_var(g, t),
        g.infos[root(g, v).0 as int] is Unknown,
        g.infos[t.0 as int] == InfoView::List(item),
        root(g, item) == root(g, v),
    ensures
        unified(g, v, t).1 == Some(Failure::Recursive(root(g, v), t)),
        unified(g, v, t).0 == g,
{
    let info = g.infos[t.0 as int];
    assert(kids_below(g, info, g.rank[t.0 as int]));
    assert(kids(info)[0] == item);
    lemma_root(g, item);
    assert(reach(g, t, root(g, v)));
    lemma_unify_occurs(g, v, t);
}

} // verus!
