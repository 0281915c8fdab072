//! The table of inference variables.

use crate::span::Span;
use crate::ty::{DataId, GenScopeId, Prim};
use crate::unify::{
    graph_wf, has_var, kids, kids_below, lemma_refer_wf, lemma_root, lemma_step,
    lemma_work_size_concat, rank_of, reach, refer, root, run, same_head, stacked, step, unified,
    unknowns, work_ok, work_size, Failure, Graph, InfoView, TyVar,
};
use vstd::prelude::*;

verus! {

/// What is known of an inference variable.
#[derive(Debug, PartialEq, Eq)]
pub enum TyInfo {
    /// Nothing is known yet.
    Unknown,
    /// The variable stands for another variable.
    Ref(TyVar),
    /// Stands in for a type that could not be determined.
    Error,
    Prim(Prim),
    List(TyVar),
    Tuple(Vec<TyVar>),
    Func(TyVar, TyVar),
    Data(DataId, Vec<TyVar>),
    Gen(usize, GenScopeId),
}

impl View for TyInfo {
    type V = InfoView;

    open spec fn view(&self) -> InfoView {
        match self {
            TyInfo::Unknown => InfoView::Unknown,
            TyInfo::Ref(x) => InfoView::Ref(*x),
            TyInfo::Error => InfoView::Error,
            TyInfo::Prim(p) => InfoView::Prim(*p),
            TyInfo::List(x) => InfoView::List(*x),
            TyInfo::Tuple(xs) => InfoView::Tuple(xs@),
            TyInfo::Func(i, o) => InfoView::Func(*i, *o),
            TyInfo::Data(data, xs) => InfoView::Data(*data, xs@),
            TyInfo::Gen(index, scope) => InfoView::Gen(*index, *scope),
        }
    }
}

/// A copy of the variables of `v`.
pub fn clone_vars(v: &Vec<TyVar>) -> (r: Vec<TyVar>)
    ensures
        r@ == v@,
{
    let mut out: Vec<TyVar> = Vec::new();
    let mut i: usize = 0;
    while i < v.len()
        invariant
            i <= v.len(),
            out.len() == i,
            forall|j: int| 0 <= j < i ==> out[j] == v[j],
        decreases v.len() - i,
    {
        out.push(v[i]);
        i += 1;
    }
    assert(out@ =~= v@);
    out
}

impl Clone for TyInfo {
    fn clone(&self) -> (r: TyInfo)
        ensures
            r@ == self@,
    {
        match self {
            TyInfo::Unknown => TyInfo::Unknown,
            TyInfo::Ref(x) => TyInfo::Ref(*x),
            TyInfo::Error => TyInfo::Error,
            TyInfo::Prim(p) => TyInfo::Prim(*p),
            TyInfo::List(x) => TyInfo::List(*x),
            TyInfo::Tuple(xs) => TyInfo::Tuple(clone_vars(xs)),
            TyInfo::Func(i, o) => TyInfo::Func(*i, *o),
            TyInfo::Data(data, xs) => TyInfo::Data(*data, clone_vars(xs)),
            TyInfo::Gen(index, scope) => TyInfo::Gen(*index, *scope),
        }
    }
}

/// Why two types could not be made equal, with the places to report.
#[derive(Clone, Copy, Debug, PartialEq, Eq, Structural)]
pub enum UnifyError {
    /// The two types have different shapes; the span is the place that asked for them
    /// to be equal.
    Mismatch(TyVar, TyVar, Span),
    /// The type would contain itself: the type, the place that introduced it, and the
    /// place that introduced the variable that occurs in it.
    Recursive(TyVar, Span, Span),
}

/// A rank above every rank of `rank`.
pub open spec fn above(rank: Seq<nat>) -> nat
    decreases rank.len(),
{
    if rank.len() == 0 {
        0
    } else if above(rank.drop_last()) > rank.last() {
        above(rank.drop_last())
    } else {
        rank.last() + 1
    }
}

/// `above` is above every rank.
pub proof fn lemma_above(rank: Seq<nat>, i: int)
    requires
        0 <= i < rank.len(),
    ensures
        rank[i] < above(rank),
    decreases rank.len(),
{
    if i < rank.len() - 1 {
        lemma_above(rank.drop_last(), i);
    }
}

/// The graph `g` with one more variable, of which `info` is known.
pub open spec fn grown(g: Graph, info: InfoView) -> Graph {
    Graph { infos: g.infos.push(info), rank: g.rank.push(above(g.rank)) }
}

/// A graph with one more variable has the variables of the graph and more.
pub proof fn lemma_grown_grows(g: Graph, info: InfoView)
    requires
        g.rank.len() == g.infos.len(),
    ensures
        crate::reify::grows(g, grown(g, info)),
{
}

/// The error to report for the failure `f` of making `a` and `b` equal.
pub open spec fn unify_error(
    f: Failure,
    a: TyVar,
    b: TyVar,
    blame: Span,
    spans: Seq<Span>,
) -> UnifyError {
    match f {
        Failure::Mismatch => UnifyError::Mismatch(a, b, blame),
        Failure::Recursive(var, ty) => UnifyError::Recursive(
            ty,
            spans[ty.0 as int],
            spans[var.0 as int],
        ),
    }
}

/// The table of inference variables.
pub struct VarTable {
    infos: Vec<TyInfo>,
    spans: Vec<Span>,
    rank: Ghost<Seq<nat>>,
}

impl VarTable {
    /// The variables of the table, as a graph.
    pub closed spec fn graph(&self) -> Graph {
        Graph { infos: Seq::new(self.infos@.len(), |i: int| self.infos@[i]@), rank: self.rank@ }
    }

    /// For each variable, the place in the source that introduced it.
    pub closed spec fn spans(&self) -> Seq<Span> {
        self.spans@
    }

    /// What is known of each variable.
    pub open spec fn view(&self) -> Seq<InfoView> {
        self.graph().infos
    }

    /// Whether the table is well formed.
    pub open spec fn wf(&self) -> bool {
        graph_wf(self.graph()) && self.spans().len() == self@.len()
    }

    /// Whether `v` is a variable of this table.
    pub open spec fn has(&self, v: TyVar) -> bool {
        has_var(self.graph(), v)
    }

    /// A table without variables.
    pub fn new() -> (r: VarTable)
        ensures
            r.wf(),
            r@.len() == 0,
            r.graph() == (Graph { infos: Seq::empty(), rank: Seq::empty() }),
            r.spans() == Seq::<Span>::empty(),
    {
        let r = VarTable { infos: Vec::new(), spans: Vec::new(), rank: Ghost(Seq::empty()) };
        proof {
            assert(r.graph().infos =~= Seq::<InfoView>::empty());
            assert(r.spans() =~= Seq::<Span>::empty());
        }
        r
    }

    /// The number of variables.
    pub fn len(&self) -> (n: usize)
        ensures
            n == self@.len(),
    {
        self.infos.len()
    }

    /// Whether every variable that `info` mentions is a variable of this table, so
    /// that `info` can be inserted.
    pub fn can_hold(&self, info: &TyInfo) -> (r: bool)
        ensures
            r == (forall|k: int| 0 <= k < kids(info@).len() ==> self.has(#[trigger] kids(info@)[k])),
    {
        let n = self.infos.len();
        assert(self@.len() == n);
        match info {
            TyInfo::Ref(x) => {
                assert(kids(info@).len() == 1 && kids(info@)[0] == *x);
                x.0 < n
            },
            TyInfo::List(x) => {
                assert(kids(info@).len() == 1 && kids(info@)[0] == *x);
                x.0 < n
            },
            TyInfo::Func(i, o) => {
                assert(kids(info@).len() == 2 && kids(info@)[0] == *i && kids(info@)[1] == *o);
                i.0 < n && o.0 < n
            },
            TyInfo::Tuple(xs) => Self::all_below(xs, n),
            TyInfo::Data(_, xs) => Self::all_below(xs, n),
            _ => true,
        }
    }

    /// Whether every variable of `vars` is less than `limit`.
    fn all_below(vars: &Vec<TyVar>, limit: usize) -> (r: bool)
        ensures
            r == (forall|k: int| 0 <= k < vars@.len() ==> (#[trigger] vars@[k]).0 < limit),
    {
        let mut i: usize = 0;
        while i < vars.len()
            invariant
                i <= vars.len(),
                forall|k: int| 0 <= k < i ==> (#[trigger] vars@[k]).0 < limit,
            decreases vars.len() - i,
        {
            if vars[i].0 >= limit {
                return false;
            }
            i += 1;
        }
        true
    }

    /// A new variable of which `info` is known, introduced at `span`. It is distinct
    /// from every variable that the table held.
    pub fn insert(&mut self, info: TyInfo, span: Span) -> (v: TyVar)
        requires
            old(self).wf(),
            forall|k: int| 0 <= k < kids(info@).len() ==> old(self).has(#[trigger] kids(info@)[k]),
        ensures
            final(self).wf(),
            v.0 == old(self)@.len(),
            final(self).graph() == grown(old(self).graph(), info@),
            final(self).spans() == old(self).spans().push(span),
    {
        let ghost g = self.graph();
        let v = TyVar(self.infos.len());
        self.infos.push(info);
        self.spans.push(span);
        self.rank = Ghost(g.rank.push(above(g.rank)));
        let count = self.infos.len();
        proof {
            let g2 = self.graph();
            assert(g2.infos.len() == count);
            assert(g2.infos =~= g.infos.push(info@));
            assert forall|y: int| 0 <= y < g2.infos.len() implies kids_below(
                g2,
                #[trigger] g2.infos[y],
                g2.rank[y],
            ) by {
                assert forall|k: int| 0 <= k < kids(g2.infos[y]).len() implies has_var(
                    g2,
                    #[trigger] kids(g2.infos[y])[k],
                ) && rank_of(g2, kids(g2.infos[y])[k]) < g2.rank[y] by {
                    let z = kids(g2.infos[y])[k];
                    if y < g.infos.len() {
                        assert(kids_below(g, g.infos[y], g.rank[y]));
                        assert(has_var(g, z));
                    } else {
                        assert(has_var(g, z));
                        lemma_above(g.rank, z.0 as int);
                    }
                }
            }
        }
        v
    }

    /// A new variable of which nothing is known, introduced at `span`.
    pub fn fresh_var(&mut self, span: Span) -> (v: TyVar)
        requires
            old(self).wf(),
        ensures
            final(self).wf(),
            v.0 == old(self)@.len(),
            final(self).graph() == grown(old(self).graph(), InfoView::Unknown),
            final(self).spans() == old(self).spans().push(span),
    {
        self.insert(TyInfo::Unknown, span)
    }

    /// What is known of the variable `v` itself.
    pub fn get(&self, v: TyVar) -> (info: &TyInfo)
        requires
            self.has(v),
        ensures
            info@ == self@[v.0 as int],
    {
        &self.infos[v.0]
    }

    /// The place in the source that introduced the variable `v`.
    pub fn get_span(&self, v: TyVar) -> (span: Span)
        requires
            self.wf(),
            self.has(v),
        ensures
            span == self.spans()[v.0 as int],
    {
        self.spans[v.0]
    }

    /// The variable that `v` stands for.
    pub fn find(&self, v: TyVar) -> (r: TyVar)
        requires
            self.wf(),
            self.has(v),
        ensures
            r == root(self.graph(), v),
            self.has(r),
    {
        let mut cur = v;
        loop
            invariant
                self.wf(),
                self.has(cur),
                root(self.graph(), cur) == root(self.graph(), v),
            decreases rank_of(self.graph(), cur),
        {
            proof {
                assert(kids_below(
                    self.graph(),
                    self.graph().infos[cur.0 as int],
                    self.graph().rank[cur.0 as int],
                ));
            }
            match &self.infos[cur.0] {
                TyInfo::Ref(x) => {
                    assert(kids(self.graph().infos[cur.0 as int])[0] == *x);
                    cur = *x;
                },
                _ => {
                    return cur;
                },
            }
        }
    }

    /// What the variable `v` is bound to: what is known of the variable it stands for,
    /// or nothing if that is unknown.
    pub fn resolve(&self, v: TyVar) -> (r: Option<TyInfo>)
        requires
            self.wf(),
            self.has(v),
        ensures
            match r {
                Some(info) => info@ == self@[root(self.graph(), v).0 as int] && !(info@ is Unknown),
                None => self@[root(self.graph(), v).0 as int] is Unknown,
            },
    {
        let r = self.find(v);
        match &self.infos[r.0] {
            TyInfo::Unknown => None,
            info => Some(info.clone()),
        }
    }

    /// Whether one of the variables `vars` reaches `target`.
    fn occurs_any(&self, vars: &Vec<TyVar>, limit: Ghost<nat>, target: TyVar) -> (r: bool)
        requires
            self.wf(),
            forall|k: int|
                0 <= k < vars@.len() ==> self.has(#[trigger] vars@[k]) && rank_of(
                    self.graph(),
                    vars@[k],
                ) < limit@,
        ensures
            r == (exists|k: int|
                0 <= k < vars@.len() && reach(self.graph(), #[trigger] vars@[k], target)),
        decreases limit@, 0nat,
    {
        let mut i: usize = 0;
        while i < vars.len()
            invariant
                i <= vars.len(),
                self.wf(),
                forall|k: int|
                    0 <= k < vars@.len() ==> self.has(#[trigger] vars@[k]) && rank_of(
                        self.graph(),
                        vars@[k],
                    ) < limit@,
                forall|k: int| 0 <= k < i ==> !reach(self.graph(), #[trigger] vars@[k], target),
            decreases vars.len() - i,
        {
            if self.occurs(vars[i], target) {
                return true;
            }
            i += 1;
        }
        false
    }

    /// The occurs check: whether `target` can be reached from `from` along what is
    /// known of the variables.
    pub fn occurs(&self, from: TyVar, target: TyVar) -> (r: bool)
        requires
            self.wf(),
            self.has(from),
        ensures
            r == reach(self.graph(), from, target),
        decreases rank_of(self.graph(), from), 1nat,
    {
        if from == target {
            return true;
        }
        let ghost g = self.graph();
        let ghost info = g.infos[from.0 as int];
        proof {
            assert(kids_below(g, info, g.rank[from.0 as int]));
        }
        match &self.infos[from.0] {
            TyInfo::Ref(x) => {
                assert(kids(info)[0] == *x);
                self.occurs(*x, target)
            },
            TyInfo::List(x) => {
                assert(kids(info)[0] == *x);
                self.occurs(*x, target)
            },
            TyInfo::Func(i, o) => {
                assert(kids(info)[0] == *i && kids(info)[1] == *o);
                self.occurs(*i, target) || self.occurs(*o, target)
            },
            TyInfo::Tuple(xs) => {
                proof {
                    assert forall|k: int| 0 <= k < xs@.len() implies self.has(#[trigger] xs@[k])
                        && rank_of(g, xs@[k]) < rank_of(g, from) by {
                        assert(kids(info)[k] == xs@[k]);
                    }
                }
                self.occurs_any(xs, Ghost(rank_of(g, from)), target)
            },
            TyInfo::Data(_, xs) => {
                proof {
                    assert forall|k: int| 0 <= k < xs@.len() implies self.has(#[trigger] xs@[k])
                        && rank_of(g, xs@[k]) < rank_of(g, from) by {
                        assert(kids(info)[k] == xs@[k]);
                    }
                }
                self.occurs_any(xs, Ghost(rank_of(g, from)), target)
            },
            _ => false,
        }
    }

    /// Makes the unknown variable `v` refer to `x`.
    fn set_ref(&mut self, v: TyVar, x: TyVar)
        requires
            old(self).wf(),
            old(self).has(v),
            old(self).has(x),
            old(self)@[v.0 as int] is Unknown,
            !reach(old(self).graph(), x, v),
        ensures
            final(self).wf(),
            final(self).graph() == refer(old(self).graph(), v, x),
            final(self).spans() == old(self).spans(),
    {
        let ghost g = self.graph();
        self.infos.set(v.0, TyInfo::Ref(x));
        self.rank = Ghost(refer(g, v, x).rank);
        proof {
            lemma_refer_wf(g, v, x);
            assert(self.graph().infos =~= refer(g, v, x).infos);
        }
    }

    /// Pushes the pairs of `xs` and `ys`, the first pair last.
    fn push_pairs(xs: &Vec<TyVar>, ys: &Vec<TyVar>, work: &mut Vec<(TyVar, TyVar)>)
        requires
            xs@.len() == ys@.len(),
        ensures
            final(work)@ == old(work)@ + stacked(xs@, ys@, 0),
    {
        let ghost start = work@;
        let mut k: usize = xs.len();
        assert(work@ =~= start + stacked(xs@, ys@, k as nat));
        while k > 0
            invariant
                k <= xs.len(),
                xs@.len() == ys@.len(),
                work@ == start + stacked(xs@, ys@, k as nat),
            decreases k,
        {
            k -= 1;
            work.push((xs[k], ys[k]));
            assert(work@ =~= start + stacked(xs@, ys@, k as nat));
        }
    }

    /// Pushes the pairs of the parts of the two known types `x` and `y`, if they have
    /// the same head; says whether they have.
    fn push_parts(&self, x: TyVar, y: TyVar, work: &mut Vec<(TyVar, TyVar)>) -> (r: bool)
        requires
            self.has(x),
            self.has(y),
        ensures
            r == same_head(self@[x.0 as int], self@[y.0 as int]),
            r ==> final(work)@ == old(work)@ + stacked(
                kids(self@[x.0 as int]),
                kids(self@[y.0 as int]),
                0,
            ),
            !r ==> final(work)@ == old(work)@,
    {
        let ghost ix = self@[x.0 as int];
        let ghost iy = self@[y.0 as int];
        match (&self.infos[x.0], &self.infos[y.0]) {
            (TyInfo::Prim(p), TyInfo::Prim(q)) => {
                assert(work@ =~= work@ + stacked(kids(ix), kids(iy), 0));
                *p == *q
            },
            (TyInfo::Gen(i, s), TyInfo::Gen(j, t)) => {
                assert(work@ =~= work@ + stacked(kids(ix), kids(iy), 0));
                *i == *j && *s == *t
            },
            (TyInfo::List(a), TyInfo::List(b)) => {
                work.push((*a, *b));
                proof {
                    reveal_with_fuel(stacked, 2);
                    assert(work@ =~= old(work)@ + stacked(kids(ix), kids(iy), 0));
                }
                true
            },
            (TyInfo::Func(a, b), TyInfo::Func(c, d)) => {
                work.push((*b, *d));
                work.push((*a, *c));
                proof {
                    reveal_with_fuel(stacked, 3);
                    assert(work@ =~= old(work)@ + stacked(kids(ix), kids(iy), 0));
                }
                true
            },
            (TyInfo::Tuple(xs), TyInfo::Tuple(ys)) => {
                if xs.len() == ys.len() {
                    Self::push_pairs(xs, ys, work);
                    true
                } else {
                    false
                }
            },
            (TyInfo::Data(d, xs), TyInfo::Data(e, ys)) => {
                if *d == *e && xs.len() == ys.len() {
                    Self::push_pairs(xs, ys, work);
                    true
                } else {
                    false
                }
            },
            _ => false,
        }
    }

    /// Whether nothing is known of the variable `v` itself.
    fn is_unknown(&self, v: TyVar) -> (r: bool)
        requires
            self.has(v),
        ensures
            r == (self@[v.0 as int] is Unknown),
    {
        match &self.infos[v.0] {
            TyInfo::Unknown => true,
            _ => false,
        }
    }

    /// Whether the variable `v` itself is the error type.
    fn is_error(&self, v: TyVar) -> (r: bool)
        requires
            self.has(v),
        ensures
            r == (self@[v.0 as int] is Error),
    {
        match &self.infos[v.0] {
            TyInfo::Error => true,
            _ => false,
        }
    }

    /// One step of unification on the pair `(a, b)`: what remains to be made equal is
    /// pushed on `work`.
    fn step(&mut self, a: TyVar, b: TyVar, work: &mut Vec<(TyVar, TyVar)>) -> (failure: Option<
        Failure,
    >)
        requires
            old(self).wf(),
            old(self).has(a),
            old(self).has(b),
        ensures
            final(self).wf(),
            final(self).spans() == old(self).spans(),
            final(self).graph() == step(old(self).graph(), a, b).graph,
            failure == step(old(self).graph(), a, b).failure,
            final(work)@ == old(work)@ + step(old(self).graph(), a, b).pairs,
    {
        let ghost g = self.graph();
        proof {
            lemma_root(g, a);
            lemma_root(g, b);
            lemma_step(g, a, b);
            assert(work@ =~= work@ + Seq::<(TyVar, TyVar)>::empty());
        }
        let ra = self.find(a);
        let rb = self.find(b);
        if ra == rb {
            return None;
        }
        let ua = self.is_unknown(ra);
        let ub = self.is_unknown(rb);
        if ua && ub {
            if ra.0 < rb.0 {
                self.set_ref(rb, ra);
            } else {
                self.set_ref(ra, rb);
            }
            None
        } else if ua {
            if self.occurs(rb, ra) {
                Some(Failure::Recursive(ra, rb))
            } else {
                self.set_ref(ra, rb);
                None
            }
        } else if ub {
            if self.occurs(ra, rb) {
                Some(Failure::Recursive(rb, ra))
            } else {
                self.set_ref(rb, ra);
                None
            }
        } else if self.is_error(ra) || self.is_error(rb) {
            None
        } else if self.push_parts(ra, rb, work) {
            None
        } else {
            Some(Failure::Mismatch)
        }
    }

    /// Makes the types that `a` and `b` stand for equal, or says why they cannot be.
    /// What was made equal before a failure stays equal. `blame` is the place in the
    /// source that asks for the two types to be equal.
    pub fn unify(&mut self, a: TyVar, b: TyVar, blame: Span) -> (r: Result<(), UnifyError>)
        requires
            old(self).wf(),
            old(self).has(a),
            old(self).has(b),
        ensures
            final(self).wf(),
            final(self).spans() == old(self).spans(),
            final(self)@.len() == old(self)@.len(),
            final(self).graph() == unified(old(self).graph(), a, b).0,
            r == (match unified(old(self).graph(), a, b).1 {
                Some(f) => Err(unify_error(f, a, b, blame, old(self).spans())),
                None => Ok(()),
            }),
            r matches Err(UnifyError::Recursive(ty, _, _)) ==> old(self).has(ty),
    {
        let ghost g0 = self.graph();
        let ghost w0 = seq![(a, b)];
        let mut work: Vec<(TyVar, TyVar)> = Vec::new();
        work.push((a, b));
        let mut failure: Option<Failure> = None;
        assert(work@ =~= w0);
        while work.len() > 0 && failure.is_none()
            invariant
                self.wf(),
                self.spans() == old(self).spans(),
                self@.len() == g0.infos.len(),
                work_ok(self.graph(), work@),
                failure is None ==> run(self.graph(), work@) == run(g0, w0),
                failure is Some ==> (self.graph(), failure) == run(g0, w0),
                failure matches Some(Failure::Recursive(x, y)) ==> self.has(x) && self.has(y),
            decreases unknowns(self@), work_size(self.graph(), work@),
        {
            let ghost g = self.graph();
            let ghost w = work@;
            let pair = work.pop().unwrap();
            proof {
                assert(pair == w.last());
                assert(work@ =~= w.drop_last());
                lemma_step(g, pair.0, pair.1);
                lemma_work_size_concat(g, w.drop_last(), step(g, pair.0, pair.1).pairs);
            }
            failure = self.step(pair.0, pair.1, &mut work);
            proof {
                let s = step(g, pair.0, pair.1);
                assert(work@ == w.drop_last() + s.pairs);
                assert(work_ok(self.graph(), work@)) by {
                    assert forall|i: int| 0 <= i < work@.len() implies has_var(
                        self.graph(),
                        (#[trigger] work@[i]).0,
                    ) && has_var(self.graph(), work@[i].1) by {
                        if i < w.len() - 1 {
                            assert(work@[i] == w[i]);
                        } else {
                            assert(work@[i] == s.pairs[i - (w.len() - 1)]);
                        }
                    }
                }
                if s.failure is Some {
                    assert(s.pairs =~= Seq::<(TyVar, TyVar)>::empty());
                    assert(work@ =~= w.drop_last());
                }
            }
        }
        match failure {
            None => Ok(()),
            Some(Failure::Mismatch) => Err(UnifyError::Mismatch(a, b, blame)),
            Some(Failure::Recursive(var, ty)) => Err(
                UnifyError::Recursive(ty, self.spans[ty.0], self.spans[var.0]),
            ),
        }
    }
}

} // verus!
