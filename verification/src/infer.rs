//! The inference engine: it walks the body of a definition, gives each node an
//! inference variable, and makes equal the variables that the rules of the language
//! ask to be equal.
//!
//! A failure is recorded once, and the error type stands in for the type of the node
//! that failed, so that the rest of the body can still be checked.

use crate::data::Datas;
use crate::def::Defs;
use crate::hir::{
    arms_typed, expr_typed, exprs_typed, lemma_arms_weaken, lemma_expr_weaken, lemma_exprs_weaken,
    lemma_pat_weaken, lemma_pats_weaken, pat_typed, pats_typed, slot_is_var, weaker, Demand, Arm,
    BinaryOp, Expr, ExprKind, Literal, PatKind, Pattern, SrcNode, TySlot, UnaryOp,
};
use crate::check::{
    arms_visits, expr_kids_visits, expr_visits, exprs_visits, lemma_arms_visits_same,
    lemma_exprs_visits_same, lemma_pats_visits_same, pat_kids_visits, pat_visits, pats_visits,
};
use crate::model::{
    all_eq_m, arms_m, cons_m, each_eq_m, expr_kind_m, expr_m, exprs_m, fields_m, gens_m, inst_m,
    pat_kind_m, pat_m, pats_m, solved_m, start_m,
};
use crate::ops::{binary_table, literal_prim, prim_of_literal, unary_table};
use crate::agree::{agree, lemma_run_keeps, lemma_unify_keeps_agreement, lemma_unify_sound};
use crate::reify::{
    grows, instantiate, lemma_var_shape_grows, var_shape, var_shapes, with_gens,
};
use crate::span::{Ident, Span};
use crate::ty::{GenScopeId, Prim, TyId, Types};
use crate::unify::{kids, root, unified, Graph, InfoView, TyVar};
use crate::vars::{grown, lemma_grown_grows, unify_error, TyInfo, UnifyError, VarTable};
use vstd::prelude::*;

verus! {

/// A failure of inference, with the inference variables of the types it concerns.
#[derive(Clone, Copy, Debug, PartialEq, Eq)]
pub enum InferError {
    Mismatch(TyVar, TyVar, Span),
    Recursive(TyVar, Span, Span),
    NoSuchField(TyVar, SrcNode<Ident>),
    NoSuchLocal(SrcNode<Ident>),
    WrongNumberOfParams(Span, usize, Span, usize),
    NoBranches(Span),
    InvalidUnaryOp(SrcNode<UnaryOp>, TyVar, Span),
    InvalidBinaryOp(SrcNode<BinaryOp>, TyVar, Span, TyVar, Span),
    NoSuchCons(SrcNode<Ident>),
    DefTypeNotSpecified(Span, Span, Ident),
}

/// An operator whose operand is not known yet: the operator, the operands with their
/// places, and the variable of the result.
#[derive(Clone, Copy, Debug, PartialEq, Eq)]
pub enum Pending {
    Unary(SrcNode<UnaryOp>, TyVar, Span, TyVar),
    Binary(SrcNode<BinaryOp>, TyVar, Span, TyVar, Span, TyVar),
}

/// Whether the variables of the error `e` are below `n`.
pub open spec fn error_ok(e: InferError, n: nat) -> bool {
    match e {
        InferError::Mismatch(a, b, _) => a.0 < n && b.0 < n,
        InferError::Recursive(a, _, _) => a.0 < n,
        InferError::NoSuchField(a, _) => a.0 < n,
        InferError::InvalidUnaryOp(_, a, _) => a.0 < n,
        InferError::InvalidBinaryOp(_, a, _, b, _) => a.0 < n && b.0 < n,
        _ => true,
    }
}

/// Whether the variables of the pending operator `p` are below `n`.
pub open spec fn pending_ok(p: Pending, n: nat) -> bool {
    match p {
        Pending::Unary(_, a, _, out) => a.0 < n && out.0 < n,
        Pending::Binary(_, a, _, b, _, out) => a.0 < n && b.0 < n && out.0 < n,
    }
}

/// The failure of inference for a failure of unification.
pub open spec fn infer_error(e: UnifyError) -> InferError {
    match e {
        UnifyError::Mismatch(a, b, span) => InferError::Mismatch(a, b, span),
        UnifyError::Recursive(ty, span, part) => InferError::Recursive(ty, span, part),
    }
}

/// The variable of the innermost name `name` of `scope`.
pub open spec fn scope_find(scope: Seq<(Ident, TyVar)>, name: Ident) -> Option<TyVar>
    decreases scope.len(),
{
    if scope.len() == 0 {
        None
    } else if scope.last().0 == name {
        Some(scope.last().1)
    } else {
        scope_find(scope.drop_last(), name)
    }
}

/// Whether the registries fit the store of types: the types that they mention are
/// types of the store.
pub open spec fn sigs_ok(types: &Types, datas: &Datas, defs: &Defs) -> bool {
    &&& types.wf()
    &&& datas.wf()
    &&& defs.wf()
    &&& forall|c: int, k: int|
        0 <= c < datas.conses().len() && 0 <= k < datas.conses()[c].fields@.len() ==> (
        #[trigger] datas.conses()[c].fields@[k]).0 < types@.len()
    &&& forall|d: int|
        0 <= d < defs@.len() ==> (#[trigger] defs@[d]).gen_scope.0 < datas.scopes().len() && (
        match defs@[d].ty {
            Some(t) => t.0 < types@.len(),
            None => true,
        })
}

/// Whether `b` knows what `a` knows: it has the variables of `a`, and what `a` knows
/// of a variable, `b` knows of it as well.
pub open spec fn learns(a: Seq<InfoView>, b: Seq<InfoView>) -> bool {
    &&& a.len() <= b.len()
    &&& forall|v: int| 0 <= v < a.len() && !(a[v] is Unknown) ==> #[trigger] b[v] == a[v]
}

/// The state of the inference of one body.
pub struct Engine {
    /// The inference variables.
    pub vars: VarTable,
    /// The failures so far.
    pub errors: Vec<InferError>,
    /// The names in scope, innermost last, each with the variable of its type.
    pub scope: Vec<(Ident, TyVar)>,
    /// The operators whose operands are not known yet.
    pub pending: Vec<Pending>,
    /// The variables that stand for the generic parameters of a definition that is
    /// referred to, each with the place of the reference.
    pub origins: Vec<(TyVar, Span)>,
    /// The pairs of variables that were asked to be made equal.
    pub asked: Ghost<Seq<(TyVar, TyVar)>>,
}

impl Engine {
    /// The number of inference variables.
    pub open spec fn bound(&self) -> nat {
        self.vars@.len()
    }

    /// Whether the state is well formed: every variable it mentions is a variable of
    /// its table.
    pub open spec fn wf(&self) -> bool {
        &&& self.vars.wf()
        &&& forall|i: int|
            0 <= i < self.scope@.len() ==> (#[trigger] self.scope@[i]).1.0 < self.bound()
        &&& forall|i: int|
            0 <= i < self.pending@.len() ==> pending_ok(#[trigger] self.pending@[i], self.bound())
        &&& forall|i: int|
            0 <= i < self.errors@.len() ==> error_ok(#[trigger] self.errors@[i], self.bound())
        &&& forall|i: int|
            0 <= i < self.origins@.len() ==> (#[trigger] self.origins@[i]).0.0 < self.bound()
        &&& forall|i: int|
            0 <= i < self.asked@.len() ==> (#[trigger] self.asked@[i]).0.0 < self.bound()
                && self.asked@[i].1.0 < self.bound()
        &&& self.errors@.len() == 0 ==> self.all_agree()
    }

    /// Whether the types of each pair that was asked to be made equal agree.
    pub open spec fn all_agree(&self) -> bool {
        forall|i: int|
            0 <= i < self.asked@.len() ==> agree(
                var_shape(self.vars.graph(), (#[trigger] self.asked@[i]).0),
                var_shape(self.vars.graph(), self.asked@[i].1),
            )
    }

    /// Whether `next` is a state that `self` may turn into: no variable is lost, and
    /// the names in scope are the same.
    pub open spec fn leads_to(&self, next: &Engine) -> bool {
        &&& next.wf()
        &&& self.bound() <= next.bound()
        &&& next.scope@ == self.scope@
        &&& self.errors@.len() <= next.errors@.len()
        &&& self.asked@.is_prefix_of(next.asked@)
        &&& learns(self.vars@, next.vars@)
    }

    /// A state with no variables and nothing in scope.
    pub fn new() -> (r: Engine)
        ensures
            r.wf(),
            r.bound() == 0,
            r.errors@.len() == 0,
            r.scope@.len() == 0,
            r.asked@.len() == 0,
            r.state() == start_m(),
    {
        let r = Engine {
            vars: VarTable::new(),
            errors: Vec::new(),
            scope: Vec::new(),
            pending: Vec::new(),
            origins: Vec::new(),
            asked: Ghost(Seq::empty()),
        };
        proof {
            assert(r.errors@ =~= Seq::<InferError>::empty());
            assert(r.scope@ =~= Seq::<(Ident, TyVar)>::empty());
            assert(r.pending@ =~= Seq::<Pending>::empty());
            assert(r.origins@ =~= Seq::<(TyVar, Span)>::empty());
        }
        r
    }

    /// A new variable of which `info` is known.
    pub fn insert(&mut self, info: TyInfo, span: Span) -> (v: TyVar)
        requires
            old(self).wf(),
            forall|k: int| 0 <= k < kids(info@).len() ==> (#[trigger] kids(info@)[k]).0 < old(self).bound(),
        ensures
            old(self).leads_to(final(self)),
            v.0 == old(self).bound(),
            final(self).vars.graph() == grown(old(self).vars.graph(), info@),
            final(self).vars.spans() == old(self).vars.spans().push(span),
            final(self).errors@ == old(self).errors@,
            final(self).pending@ == old(self).pending@,
            final(self).origins@ == old(self).origins@,
            final(self).asked@ == old(self).asked@,
    {
        let v = self.vars.insert(info, span);
        proof {
            lemma_grown_grows(old(self).vars.graph(), info@);
            self.lemma_grown(old(self));
        }
        v
    }

    /// A new variable of which nothing is known.
    pub fn fresh(&mut self, span: Span) -> (v: TyVar)
        requires
            old(self).wf(),
        ensures
            old(self).leads_to(final(self)),
            v.0 == old(self).bound(),
            final(self).vars.graph() == grown(old(self).vars.graph(), InfoView::Unknown),
            final(self).vars.spans() == old(self).vars.spans().push(span),
            final(self).errors@ == old(self).errors@,
            final(self).pending@ == old(self).pending@,
            final(self).origins@ == old(self).origins@,
            final(self).asked@ == old(self).asked@,
    {
        self.insert(TyInfo::Unknown, span)
    }

    /// Records the failure `e`, and gives a new variable that is the error type.
    pub fn fail(&mut self, e: InferError, span: Span) -> (v: TyVar)
        requires
            old(self).wf(),
            error_ok(e, old(self).bound()),
        ensures
            old(self).leads_to(final(self)),
            v.0 == old(self).bound(),
            final(self).vars.graph() == grown(old(self).vars.graph(), InfoView::Error),
            final(self).vars.spans() == old(self).vars.spans().push(span),
            final(self).errors@ == old(self).errors@.push(e),
            final(self).pending@ == old(self).pending@,
            final(self).origins@ == old(self).origins@,
            final(self).asked@ == old(self).asked@,
    {
        self.errors.push(e);
        self.vars.insert(TyInfo::Error, span)
    }

    /// Makes the types of `a` and `b` equal; a failure to do so is recorded. `blame`
    /// is the place that asks for the types to be equal.
    pub fn make_eq(&mut self, a: TyVar, b: TyVar, blame: Span)
        requires
            old(self).wf(),
            a.0 < old(self).bound(),
            b.0 < old(self).bound(),
        ensures
            old(self).leads_to(final(self)),
            final(self).bound() == old(self).bound(),
            final(self).vars.graph() == unified(old(self).vars.graph(), a, b).0,
            final(self).vars.spans() == old(self).vars.spans(),
            final(self).errors@ == (match unified(old(self).vars.graph(), a, b).1 {
                Some(f) => old(self).errors@.push(
                    infer_error(unify_error(f, a, b, blame, old(self).vars.spans())),
                ),
                None => old(self).errors@,
            }),
            final(self).pending@ == old(self).pending@,
            final(self).origins@ == old(self).origins@,
            final(self).asked@ == old(self).asked@.push((a, b)),
    {
        proof {
            let g = self.vars.graph();
            lemma_run_keeps(g, seq![(a, b)]);
            if unified(g, a, b).1 is None {
                lemma_unify_sound(g, a, b);
            }
            assert forall|i: int| 0 <= i < self.asked@.len() && agree(
                var_shape(g, self.asked@[i].0),
                var_shape(g, self.asked@[i].1),
            ) implies agree(
                var_shape(unified(g, a, b).0, (#[trigger] self.asked@[i]).0),
                var_shape(unified(g, a, b).0, self.asked@[i].1),
            ) by {
                lemma_unify_keeps_agreement(g, a, b, self.asked@[i].0, self.asked@[i].1);
            }
        }
        self.asked = Ghost(self.asked@.push((a, b)));
        match self.vars.unify(a, b, blame) {
            Ok(()) => {},
            Err(UnifyError::Mismatch(x, y, span)) => {
                self.errors.push(InferError::Mismatch(x, y, span));
            },
            Err(UnifyError::Recursive(ty, span, part)) => {
                self.errors.push(InferError::Recursive(ty, span, part));
            },
        }
    }

    /// The pairs that agreed in `before` agree in `self`, where `self` has the
    /// variables of `before` and more, and the same pairs.
    pub proof fn lemma_grown(&self, before: &Engine)
        requires
            before.vars.wf(),
            grows(before.vars.graph(), self.vars.graph()),
            self.asked@ == before.asked@,
            forall|i: int|
                0 <= i < before.asked@.len() ==> (#[trigger] before.asked@[i]).0.0 < before.bound()
                    && before.asked@[i].1.0 < before.bound(),
        ensures
            before.all_agree() ==> self.all_agree(),
    {
        assert forall|i: int| 0 <= i < self.asked@.len() implies var_shape(
            self.vars.graph(),
            (#[trigger] self.asked@[i]).0,
        ) == var_shape(before.vars.graph(), self.asked@[i].0) && var_shape(
            self.vars.graph(),
            self.asked@[i].1,
        ) == var_shape(before.vars.graph(), self.asked@[i].1) by {
            assert(before.asked@[i].0.0 < before.bound());
            lemma_var_shape_grows(before.vars.graph(), self.vars.graph(), self.asked@[i].0);
            lemma_var_shape_grows(before.vars.graph(), self.vars.graph(), self.asked@[i].1);
        }
    }

    /// The variable of the innermost name `name` in scope.
    pub fn lookup_local(&self, name: Ident) -> (r: Option<TyVar>)
        requires
            self.wf(),
        ensures
            r == scope_find(self.scope@, name),
            r matches Some(v) ==> v.0 < self.bound(),
    {
        let mut i: usize = self.scope.len();
        assert(self.scope@.subrange(0, i as int) =~= self.scope@);
        while i > 0
            invariant
                i <= self.scope.len(),
                self.wf(),
                scope_find(self.scope@, name) == scope_find(
                    self.scope@.subrange(0, i as int),
                    name,
                ),
            decreases i,
        {
            i -= 1;
            proof {
                let cur = self.scope@.subrange(0, i + 1);
                assert(cur.last() == self.scope@[i as int]);
                assert(cur.drop_last() =~= self.scope@.subrange(0, i as int));
            }
            if self.scope[i].0 == name {
                return Some(self.scope[i].1);
            }
        }
        None
    }

    /// Whether `next` is a state that `self` may turn into by bringing names into
    /// scope: no variable is lost, and the names that were in scope still are.
    pub open spec fn binds_to(&self, next: &Engine) -> bool {
        &&& next.wf()
        &&& self.bound() <= next.bound()
        &&& self.scope@.len() <= next.scope@.len()
        &&& next.scope@.subrange(0, self.scope@.len() as int) == self.scope@
        &&& self.errors@.len() <= next.errors@.len()
        &&& self.asked@.is_prefix_of(next.asked@)
        &&& learns(self.vars@, next.vars@)
    }

    /// New variables for `n` generic parameters of a definition referred to at `span`.
    fn fresh_gens(&mut self, n: usize, span: Span) -> (gens: Vec<TyVar>)
        requires
            old(self).wf(),
        ensures
            old(self).leads_to(final(self)),
            gens@.len() == n,
            forall|k: int| 0 <= k < n ==> (#[trigger] gens@[k]).0 < final(self).bound(),
            (final(self).state(), gens@) == gens_m(old(self).state(), n as nat, span),
    {
        let mut gens: Vec<TyVar> = Vec::new();
        let mut k: usize = 0;
        assert(gens@ =~= Seq::<TyVar>::empty());
        while k < n
            invariant
                k <= n,
                old(self).leads_to(self),
                gens@.len() == k,
                forall|j: int| 0 <= j < k ==> (#[trigger] gens@[j]).0 < self.bound(),
                (self.state(), gens@) == gens_m(old(self).state(), k as nat, span),
            decreases n - k,
        {
            let v = self.fresh(span);
            self.origins.push((v, span));
            gens.push(v);
            k += 1;
        }
        gens
    }

    /// A new variable for the type `ty`, with the variables `gens` in place of the
    /// generic parameters of the list `scope`.
    pub fn instantiate_ty(
        &mut self,
        types: &Types,
        ty: TyId,
        scope: GenScopeId,
        gens: &Vec<TyVar>,
        span: Span,
    ) -> (v: TyVar)
        requires
            old(self).wf(),
            types.wf(),
            types.has(ty),
            forall|k: int| 0 <= k < gens@.len() ==> (#[trigger] gens@[k]).0 < old(self).bound(),
        ensures
            old(self).leads_to(final(self)),
            v.0 < final(self).bound(),
            final(self).asked@ == old(self).asked@,
            final(self).errors@ == old(self).errors@,
            final(self).pending@ == old(self).pending@,
            final(self).origins@ == old(self).origins@,
            grows(old(self).vars.graph(), final(self).vars.graph()),
            var_shape(final(self).vars.graph(), v) == with_gens(
                types.shape(ty),
                scope,
                var_shapes(old(self).vars.graph(), gens@),
            ),
            (final(self).state(), v) == inst_m(old(self).state(), types@, ty, scope, gens@, span),
    {
        let v = instantiate(&mut self.vars, types, ty, scope, gens, span);
        proof {
            self.lemma_grown(old(self));
        }
        v
    }

    /// The variables for a constructor applied to `count` fields at `span`: the
    /// variable of the data type, and a variable for each field. A constructor that
    /// is not declared, or that has another number of fields, is recorded as a
    /// failure.
    #[verifier::rlimit(80)]
    fn cons_vars(
        &mut self,
        types: &Types,
        datas: &Datas,
        defs: &Defs,
        name: SrcNode<Ident>,
        count: usize,
        span: Span,
    ) -> (r: (TyVar, Vec<TyVar>))
        requires
            old(self).wf(),
            sigs_ok(types, datas, defs),
        ensures
            old(self).leads_to(final(self)),
            r.0.0 < final(self).bound(),
            r.1@.len() == count,
            forall|k: int| 0 <= k < count ==> (#[trigger] r.1@[k]).0 < final(self).bound(),
            (final(self).state(), r.0, r.1@) == cons_m(
                old(self).state(),
                types@,
                *datas,
                name,
                count,
                span,
            ),
    {
        match datas.lookup_cons(name.inner) {
            None => {
                let whole = self.fail(InferError::NoSuchCons(name), span);
                let fields = self.fresh_gens(count, span);
                (whole, fields)
            },
            Some(ci) => {
                let cons = datas.get_cons(ci);
                let data = datas.get_data(cons.data);
                let n = datas.get_scope(data.gen_scope).len();
                let gens = self.fresh_gens(n, span);
                if cons.fields.len() != count {
                    self.errors.push(
                        InferError::WrongNumberOfParams(span, count, cons.span, cons.fields.len()),
                    );
                }
                let ghost entered = self.state();
                let mut fields: Vec<TyVar> = Vec::new();
                let mut k: usize = 0;
                assert(fields@ =~= Seq::<TyVar>::empty());
                while k < count
                    invariant
                        k <= count,
                        old(self).leads_to(self),
                        sigs_ok(types, datas, defs),
                        (self.state(), fields@) == fields_m(
                            entered,
                            types@,
                            cons.fields@,
                            data.gen_scope,
                            gens@,
                            span,
                            k as nat,
                        ),
                        *cons == datas.conses()[ci as int],
                        ci < datas.conses().len(),
                        fields@.len() == k,
                        forall|j: int| 0 <= j < k ==> (#[trigger] fields@[j]).0 < self.bound(),
                        forall|j: int| 0 <= j < gens@.len() ==> (#[trigger] gens@[j]).0 < self.bound(),
                    decreases count - k,
                {
                    let v = if k < cons.fields.len() {
                        assert(datas.conses()[ci as int].fields@[k as int].0 < types@.len());
                        self.instantiate_ty(types, cons.fields[k], data.gen_scope, &gens, span)
                    } else {
                        self.fresh(span)
                    };
                    fields.push(v);
                    k += 1;
                }
                let whole = self.insert(TyInfo::Data(cons.data, gens), span);
                (whole, fields)
            },
        }
    }

    /// Makes the type of each variable of `a` equal to that of the variable of `b` at
    /// its position, in the order of the positions, as far as both have one; each
    /// failure to do so is recorded.
    fn make_all_eq(&mut self, a: &Vec<TyVar>, b: &Vec<TyVar>, blame: Span)
        requires
            old(self).wf(),
            forall|k: int| 0 <= k < a@.len() ==> (#[trigger] a@[k]).0 < old(self).bound(),
            forall|k: int| 0 <= k < b@.len() ==> (#[trigger] b@[k]).0 < old(self).bound(),
        ensures
            old(self).leads_to(final(self)),
            final(self).bound() == old(self).bound(),
            final(self).vars.graph() == all_unified(
                old(self).vars.graph(),
                a@,
                b@,
                paired(a@, b@),
            ),
            final(self).vars.spans() == old(self).vars.spans(),
            final(self).errors@ == old(self).errors@ + all_failures(
                old(self).vars.graph(),
                old(self).vars.spans(),
                a@,
                b@,
                blame,
                paired(a@, b@),
            ),
            final(self).asked@ == old(self).asked@ + pairs(a@, b@, paired(a@, b@)),
            final(self).pending@ == old(self).pending@,
            final(self).origins@ == old(self).origins@,
            final(self).state() == all_eq_m(old(self).state(), a@, b@, blame, paired(a@, b@)),
    {
        let ghost g = self.vars.graph();
        let ghost spans = self.vars.spans();
        let mut k: usize = 0;
        assert(self.errors@ =~= old(self).errors@ + all_failures(g, spans, a@, b@, blame, 0));
        assert(self.asked@ =~= old(self).asked@ + pairs(a@, b@, 0));
        while k < a.len() && k < b.len()
            invariant
                k <= a.len(),
                k <= b.len(),
                old(self).leads_to(self),
                self.bound() == old(self).bound(),
                forall|j: int| 0 <= j < a@.len() ==> (#[trigger] a@[j]).0 < self.bound(),
                forall|j: int| 0 <= j < b@.len() ==> (#[trigger] b@[j]).0 < self.bound(),
                g == old(self).vars.graph(),
                spans == old(self).vars.spans(),
                self.vars.graph() == all_unified(g, a@, b@, k as nat),
                self.vars.spans() == spans,
                self.errors@ == old(self).errors@ + all_failures(g, spans, a@, b@, blame, k as nat),
                self.asked@ == old(self).asked@ + pairs(a@, b@, k as nat),
                self.pending@ == old(self).pending@,
                self.origins@ == old(self).origins@,
                self.state() == all_eq_m(old(self).state(), a@, b@, blame, k as nat),
            decreases a.len() - k,
        {
            self.make_eq(a[k], b[k], blame);
            proof {
                assert(self.errors@ =~= old(self).errors@ + all_failures(
                    g,
                    spans,
                    a@,
                    b@,
                    blame,
                    (k + 1) as nat,
                ));
                assert(self.asked@ =~= old(self).asked@ + pairs(a@, b@, (k + 1) as nat));
            }
            k += 1;
        }
    }

    /// Makes the type of each variable of `a` equal to that of `b`.
    fn make_each_eq(&mut self, a: &Vec<TyVar>, b: TyVar, blame: Span)
        requires
            old(self).wf(),
            forall|k: int| 0 <= k < a@.len() ==> (#[trigger] a@[k]).0 < old(self).bound(),
            b.0 < old(self).bound(),
        ensures
            old(self).leads_to(final(self)),
            final(self).bound() == old(self).bound(),
            each_asked(final(self).asked@, a@, b),
            final(self).state() == each_eq_m(old(self).state(), a@, b, blame, a@.len()),
    {
        let mut k: usize = 0;
        while k < a.len()
            invariant
                k <= a.len(),
                self.state() == each_eq_m(old(self).state(), a@, b, blame, k as nat),
                old(self).leads_to(self),
                self.bound() == old(self).bound(),
                b.0 < self.bound(),
                forall|j: int| 0 <= j < a@.len() ==> (#[trigger] a@[j]).0 < self.bound(),
                forall|j: int| 0 <= j < k ==> self.asked@.contains((#[trigger] a@[j], b)),
            decreases a.len() - k,
        {
            let ghost before = self.asked@;
            self.make_eq(a[k], b, blame);
            proof {
                assert(self.asked@[before.len() as int] == (a@[k as int], b));
                assert forall|j: int| 0 <= j < k + 1 implies self.asked@.contains(
                    (#[trigger] a@[j], b),
                ) by {
                    if j < k {
                        lemma_asked_kept(before, self.asked@, (a@[j], b));
                    }
                }
            }
            k += 1;
        }
    }
}

/// A pair that was asked for stays asked for.
pub proof fn lemma_asked_kept(a: Seq<(TyVar, TyVar)>, b: Seq<(TyVar, TyVar)>, pair: (TyVar, TyVar))
    requires
        a.is_prefix_of(b),
        a.contains(pair),
    ensures
        b.contains(pair),
{
    let i = choose|i: int| 0 <= i < a.len() && a[i] == pair;
    assert(b[i] == a[i]);
}

/// The variable in the place for a type, if there is one.
pub open spec fn slot_var(s: TySlot) -> TyVar {
    match s {
        TySlot::Var(v) => v,
        _ => TyVar(0),
    }
}

/// The variables of the types of the patterns `ps`.
pub open spec fn pat_slots(ps: Seq<Pattern>) -> Seq<TyVar> {
    Seq::new(ps.len(), |k: int| slot_var(ps[k].ty))
}

/// The variables of the types of the expressions `es`.
pub open spec fn expr_slots(es: Seq<Expr>) -> Seq<TyVar> {
    Seq::new(es.len(), |k: int| slot_var(es[k].ty))
}

/// The number of positions that both `a` and `b` have.
pub open spec fn paired(a: Seq<TyVar>, b: Seq<TyVar>) -> nat {
    if a.len() <= b.len() {
        a.len()
    } else {
        b.len()
    }
}

/// The first `n` variables of `a`, each with the variable of `b` at its position.
pub open spec fn pairs(a: Seq<TyVar>, b: Seq<TyVar>, n: nat) -> Seq<(TyVar, TyVar)>
    decreases n,
{
    if n == 0 {
        Seq::empty()
    } else {
        pairs(a, b, (n - 1) as nat).push((a[n - 1], b[n - 1]))
    }
}

/// The graph `g` after each of the first `n` variables of `a` was unified with the
/// variable of `b` at its position, in the order of the positions.
pub open spec fn all_unified(g: Graph, a: Seq<TyVar>, b: Seq<TyVar>, n: nat) -> Graph
    decreases n,
{
    if n == 0 {
        g
    } else {
        unified(all_unified(g, a, b, (n - 1) as nat), a[n - 1], b[n - 1]).0
    }
}

/// The failures of those unifications, in their order, as they are recorded; `blame`
/// is the place that asks for the types to be equal.
pub open spec fn all_failures(
    g: Graph,
    spans: Seq<Span>,
    a: Seq<TyVar>,
    b: Seq<TyVar>,
    blame: Span,
    n: nat,
) -> Seq<InferError>
    decreases n,
{
    if n == 0 {
        Seq::empty()
    } else {
        let before = all_failures(g, spans, a, b, blame, (n - 1) as nat);
        match unified(all_unified(g, a, b, (n - 1) as nat), a[n - 1], b[n - 1]).1 {
            Some(f) => before.push(infer_error(unify_error(f, a[n - 1], b[n - 1], blame, spans))),
            None => before,
        }
    }
}

/// Whether each variable of `vs` was asked to be made equal to `e`.
pub open spec fn each_asked(asked: Seq<(TyVar, TyVar)>, vs: Seq<TyVar>, e: TyVar) -> bool {
    forall|k: int| 0 <= k < vs.len() ==> asked.contains((#[trigger] vs[k], e))
}

/// What the analysis has done for a pattern with the variable `v`.
///
/// The variable of a literal is known to be of the literal's type, that of a tuple
/// to be the tuple of the types of its parts, that of a list to be a list; the items
/// of a list were asked to be of the type of its items, and the rest of a list to be
/// of the type of the list.
pub open spec fn pat_rule(
    kind: PatKind,
    v: TyVar,
    infos: Seq<InfoView>,
    asked: Seq<(TyVar, TyVar)>,
) -> bool {
    match kind {
        PatKind::Literal(l) => infos[v.0 as int] == InfoView::Prim(literal_prim(l)),
        PatKind::Tuple(items) => infos[v.0 as int] == InfoView::Tuple(pat_slots(items@)),
        PatKind::ListExact(items) => infos[v.0 as int] is List && each_asked(
            asked,
            pat_slots(items@),
            infos[v.0 as int]->List_0,
        ),
        PatKind::ListFront(items, tail) => infos[v.0 as int] is List && each_asked(
            asked,
            pat_slots(items@),
            infos[v.0 as int]->List_0,
        ) && (match tail {
            Some(t) => asked.contains((slot_var(t.ty), v)),
            None => true,
        }),
        _ => true,
    }
}

/// What the analysis has done for an arm of a match on a value with the variable
/// `matched`, whose result has the variable `result`: the body was asked to be of
/// the type of the result, and, where the arm has `count` parameters, its pattern,
/// or the tuple of its patterns, was asked to be of the type of the value.
pub open spec fn arm_rule(
    arm: Arm,
    count: nat,
    matched: TyVar,
    result: TyVar,
    infos: Seq<InfoView>,
    asked: Seq<(TyVar, TyVar)>,
) -> bool {
    &&& asked.contains((slot_var(arm.body.ty), result))
    &&& arm.params@.len() == count ==> if count == 1 {
        asked.contains((matched, slot_var(arm.params@[0].ty)))
    } else {
        exists|w: TyVar|
            w.0 < infos.len() && #[trigger] infos[w.0 as int] == InfoView::Tuple(
                pat_slots(arm.params@),
            ) && asked.contains((matched, w))
    }
}

/// What the analysis has done for an expression with the variable `v`.
///
/// The variable of a literal is known to be of the literal's type, that of a tuple
/// to be the tuple of the types of its parts, that of a function to be a function to
/// the type of its body, that of a list to be a list whose items were asked to be of
/// the type of its items. What is applied was asked to be a function from the type
/// of the argument to the type of the application. The operands of a binary operator
/// were asked to be of one type. The arms of a match were asked to fit the value and
/// the result.
pub open spec fn kind_rule(
    kind: ExprKind,
    v: TyVar,
    infos: Seq<InfoView>,
    asked: Seq<(TyVar, TyVar)>,
) -> bool {
    match kind {
        ExprKind::Error => infos[v.0 as int] == InfoView::Error,
        ExprKind::Literal(l) => infos[v.0 as int] == InfoView::Prim(literal_prim(l)),
        ExprKind::Tuple(items) => infos[v.0 as int] == InfoView::Tuple(expr_slots(items@)),
        ExprKind::List(items) => infos[v.0 as int] is List && each_asked(
            asked,
            expr_slots(items@),
            infos[v.0 as int]->List_0,
        ),
        ExprKind::Func(_, body) => infos[v.0 as int] is Func && infos[v.0 as int]->Func_1
            == slot_var(body.ty),
        ExprKind::Apply(f, arg) => exists|w: TyVar|
            w.0 < infos.len() && #[trigger] infos[w.0 as int] == InfoView::Func(
                slot_var(arg.ty),
                v,
            ) && asked.contains((slot_var(f.ty), w)),
        ExprKind::Binary(_, left, right) => asked.contains(
            (slot_var(left.ty), slot_var(right.ty)),
        ),
        ExprKind::Match(matched, arms) => forall|k: int|
            0 <= k < arms@.len() ==> arm_rule(
                #[trigger] arms@[k],
                arms@[0].params@.len(),
                slot_var(matched.ty),
                v,
                infos,
                asked,
            ),
        _ => true,
    }
}

/// The demand on the tree that inference makes: the place for the type of each node
/// holds a variable below `n`, and the analysis has done for the node what the rules
/// ask.
pub open spec fn ruled(n: nat, infos: Seq<InfoView>, asked: Seq<(TyVar, TyVar)>) -> Demand {
    Demand {
        e: |o: Expr, i: Expr| slot_is_var(o.ty, n) && kind_rule(o.kind, slot_var(o.ty), infos, asked),
        p: |o: Pattern, i: Pattern|
            slot_is_var(o.ty, n) && pat_rule(o.kind, slot_var(o.ty), infos, asked),
    }
}

/// What was done for an arm stays done.
pub proof fn lemma_arm_rule_mono(
    arm: Arm,
    count: nat,
    matched: TyVar,
    result: TyVar,
    infos: Seq<InfoView>,
    asked: Seq<(TyVar, TyVar)>,
    infos2: Seq<InfoView>,
    asked2: Seq<(TyVar, TyVar)>,
)
    requires
        arm_rule(arm, count, matched, result, infos, asked),
        learns(infos, infos2),
        asked.is_prefix_of(asked2),
    ensures
        arm_rule(arm, count, matched, result, infos2, asked2),
{
    lemma_asked_kept(asked, asked2, (slot_var(arm.body.ty), result));
    if arm.params@.len() == count {
        if count == 1 {
            lemma_asked_kept(asked, asked2, (matched, slot_var(arm.params@[0].ty)));
        } else {
            let w = choose|w: TyVar|
                w.0 < infos.len() && #[trigger] infos[w.0 as int] == InfoView::Tuple(
                    pat_slots(arm.params@),
                ) && asked.contains((matched, w));
            lemma_asked_kept(asked, asked2, (matched, w));
            assert(infos2[w.0 as int] == infos[w.0 as int]);
        }
    }
}

/// What was asked of each variable of `vs` stays asked.
pub proof fn lemma_each_asked_mono(
    asked: Seq<(TyVar, TyVar)>,
    asked2: Seq<(TyVar, TyVar)>,
    vs: Seq<TyVar>,
    e: TyVar,
)
    requires
        each_asked(asked, vs, e),
        asked.is_prefix_of(asked2),
    ensures
        each_asked(asked2, vs, e),
{
    assert forall|k: int| 0 <= k < vs.len() implies asked2.contains((#[trigger] vs[k], e)) by {
        lemma_asked_kept(asked, asked2, (vs[k], e));
    }
}

/// What was done for the nodes of a tree stays done when more is learnt and asked.
pub proof fn lemma_ruled_mono(
    n: nat,
    infos: Seq<InfoView>,
    asked: Seq<(TyVar, TyVar)>,
    n2: nat,
    infos2: Seq<InfoView>,
    asked2: Seq<(TyVar, TyVar)>,
)
    requires
        n <= n2,
        n <= infos.len(),
        learns(infos, infos2),
        asked.is_prefix_of(asked2),
    ensures
        weaker(ruled(n, infos, asked), ruled(n2, infos2, asked2)),
{
    let p = ruled(n, infos, asked);
    let q = ruled(n2, infos2, asked2);
    assert forall|o: Expr, i: Expr| #[trigger] (p.e)(o, i) implies (q.e)(o, i) by {
        let v = slot_var(o.ty);
        assert(v.0 < infos.len());
        match o.kind {
            ExprKind::Error | ExprKind::Literal(_) | ExprKind::Tuple(_) | ExprKind::Func(_, _) => {
                assert(infos2[v.0 as int] == infos[v.0 as int]);
            },
            ExprKind::List(items) => {
                assert(infos2[v.0 as int] == infos[v.0 as int]);
                lemma_each_asked_mono(
                    asked,
                    asked2,
                    expr_slots(items@),
                    infos[v.0 as int]->List_0,
                );
            },
            ExprKind::Apply(f, arg) => {
                let w = choose|w: TyVar|
                    w.0 < infos.len() && #[trigger] infos[w.0 as int] == InfoView::Func(
                        slot_var(arg.ty),
                        v,
                    ) && asked.contains((slot_var(f.ty), w));
                lemma_asked_kept(asked, asked2, (slot_var(f.ty), w));
                assert(infos2[w.0 as int] == infos[w.0 as int]);
            },
            ExprKind::Binary(_, left, right) => {
                lemma_asked_kept(asked, asked2, (slot_var(left.ty), slot_var(right.ty)));
            },
            ExprKind::Match(matched, arms) => {
                assert forall|k: int| 0 <= k < arms@.len() implies arm_rule(
                    #[trigger] arms@[k],
                    arms@[0].params@.len(),
                    slot_var(matched.ty),
                    v,
                    infos2,
                    asked2,
                ) by {
                    lemma_arm_rule_mono(
                        arms@[k],
                        arms@[0].params@.len(),
                        slot_var(matched.ty),
                        v,
                        infos,
                        asked,
                        infos2,
                        asked2,
                    );
                }
            },
            _ => {},
        }
    }
    assert forall|o: Pattern, i: Pattern| #[trigger] (p.p)(o, i) implies (q.p)(o, i) by {
        let v = slot_var(o.ty);
        assert(v.0 < infos.len());
        match o.kind {
            PatKind::Literal(_) | PatKind::Tuple(_) => {
                assert(infos2[v.0 as int] == infos[v.0 as int]);
            },
            PatKind::ListExact(items) => {
                assert(infos2[v.0 as int] == infos[v.0 as int]);
                lemma_each_asked_mono(
                    asked,
                    asked2,
                    pat_slots(items@),
                    infos[v.0 as int]->List_0,
                );
            },
            PatKind::ListFront(items, tail) => {
                assert(infos2[v.0 as int] == infos[v.0 as int]);
                lemma_each_asked_mono(
                    asked,
                    asked2,
                    pat_slots(items@),
                    infos[v.0 as int]->List_0,
                );
                match tail {
                    Some(t) => lemma_asked_kept(asked, asked2, (slot_var(t.ty), v)),
                    None => {},
                }
            },
            _ => {},
        }
    }
}

impl Engine {
    /// The demand that the state makes on the tree that inference gives.
    pub open spec fn demand(&self) -> Demand {
        ruled(self.bound(), self.vars@, self.asked@)
    }
}

/// What the state `a` demands of a tree, a state that `a` leads to demands as well.
pub proof fn lemma_demand_mono(a: Engine, b: Engine)
    requires
        a.bound() <= b.bound(),
        learns(a.vars@, b.vars@),
        a.asked@.is_prefix_of(b.asked@),
    ensures
        weaker(a.demand(), b.demand()),
{
    lemma_ruled_mono(a.bound(), a.vars@, a.asked@, b.bound(), b.vars@, b.asked@);
}

/// The variables of typed patterns.
fn pattern_vars(pats: &Vec<Pattern>, n: Ghost<nat>) -> (vs: Vec<TyVar>)
    requires
        forall|k: int| 0 <= k < pats@.len() ==> slot_is_var((#[trigger] pats@[k]).ty, n@),
    ensures
        vs@ == pat_slots(pats@),
        forall|k: int| 0 <= k < vs@.len() ==> (#[trigger] vs@[k]).0 < n@,
{
    let mut vs: Vec<TyVar> = Vec::new();
    let mut k: usize = 0;
    while k < pats.len()
        invariant
            k <= pats.len(),
            vs@.len() == k,
            forall|j: int| 0 <= j < pats@.len() ==> slot_is_var((#[trigger] pats@[j]).ty, n@),
            forall|j: int| 0 <= j < k ==> #[trigger] vs@[j] == slot_var(pats@[j].ty),
        decreases pats.len() - k,
    {
        assert(slot_is_var(pats@[k as int].ty, n@));
        match pats[k].ty {
            TySlot::Var(v) => {
                vs.push(v);
            },
            _ => {
                vs.push(TyVar(0));
            },
        }
        k += 1;
    }
    proof {
        assert(vs@ =~= pat_slots(pats@));
        assert forall|j: int| 0 <= j < vs@.len() implies (#[trigger] vs@[j]).0 < n@ by {
            assert(slot_is_var(pats@[j].ty, n@));
        }
    }
    vs
}

/// The variables of typed expressions.
fn expr_vars(exprs: &Vec<Expr>, n: Ghost<nat>) -> (vs: Vec<TyVar>)
    requires
        forall|k: int| 0 <= k < exprs@.len() ==> slot_is_var((#[trigger] exprs@[k]).ty, n@),
    ensures
        vs@ == expr_slots(exprs@),
        forall|k: int| 0 <= k < vs@.len() ==> (#[trigger] vs@[k]).0 < n@,
{
    let mut vs: Vec<TyVar> = Vec::new();
    let mut k: usize = 0;
    while k < exprs.len()
        invariant
            k <= exprs.len(),
            vs@.len() == k,
            forall|j: int| 0 <= j < exprs@.len() ==> slot_is_var((#[trigger] exprs@[j]).ty, n@),
            forall|j: int| 0 <= j < k ==> #[trigger] vs@[j] == slot_var(exprs@[j].ty),
        decreases exprs.len() - k,
    {
        assert(slot_is_var(exprs@[k as int].ty, n@));
        match exprs[k].ty {
            TySlot::Var(v) => {
                vs.push(v);
            },
            _ => {
                vs.push(TyVar(0));
            },
        }
        k += 1;
    }
    proof {
        assert(vs@ =~= expr_slots(exprs@));
        assert forall|j: int| 0 <= j < vs@.len() implies (#[trigger] vs@[j]).0 < n@ by {
            assert(slot_is_var(exprs@[j].ty, n@));
        }
    }
    vs
}

/// The places of typed patterns hold variables.
pub proof fn lemma_pats_slots(out: Seq<Pattern>, inp: Seq<Pattern>, e: Engine)
    requires
        pats_typed(out, inp, e.demand()),
    ensures
        forall|k: int| 0 <= k < out.len() ==> slot_is_var((#[trigger] out[k]).ty, e.bound()),
{
    assert forall|k: int| 0 <= k < out.len() implies slot_is_var(
        (#[trigger] out[k]).ty,
        e.bound(),
    ) by {
        assert(pat_typed(out[k], inp[k], e.demand()));
    }
}

/// The places of typed expressions hold variables.
pub proof fn lemma_exprs_slots(out: Seq<Expr>, inp: Seq<Expr>, e: Engine)
    requires
        exprs_typed(out, inp, e.demand()),
    ensures
        forall|k: int| 0 <= k < out.len() ==> slot_is_var((#[trigger] out[k]).ty, e.bound()),
{
    assert forall|k: int| 0 <= k < out.len() implies slot_is_var(
        (#[trigger] out[k]).ty,
        e.bound(),
    ) by {
        assert(expr_typed(out[k], inp[k], e.demand()));
    }
}

/// The start of the start of a sequence is a start of the sequence.
pub proof fn lemma_prefix<T>(a: Seq<T>, b: Seq<T>, c: Seq<T>)
    requires
        a.len() <= b.len() <= c.len(),
        b.subrange(0, a.len() as int) == a,
        c.subrange(0, b.len() as int) == b,
    ensures
        c.subrange(0, a.len() as int) == a,
{
    assert forall|i: int| 0 <= i < a.len() implies c[i] == a[i] by {
        assert(b.subrange(0, a.len() as int)[i] == a[i]);
        assert(c.subrange(0, b.len() as int)[i] == b[i]);
    }
    assert(c.subrange(0, a.len() as int) =~= a);
}

/// A sequence is a start of itself, and of itself with one more element.
pub proof fn lemma_prefix_self<T>(a: Seq<T>, x: T)
    ensures
        a.subrange(0, a.len() as int) == a,
        a.push(x).subrange(0, a.len() as int) == a,
{
    assert(a.subrange(0, a.len() as int) =~= a);
    assert(a.push(x).subrange(0, a.len() as int) =~= a);
}

impl Engine {
    /// Gives each pattern of `pats` a variable, and brings the names of the patterns
    /// into scope.
    #[verifier::loop_isolation(false)]
    pub fn infer_pats(&mut self, types: &Types, datas: &Datas, defs: &Defs, pats: &Vec<Pattern>) -> (out:
        Vec<Pattern>)
        requires
            old(self).wf(),
            sigs_ok(types, datas, defs),
        ensures
            old(self).binds_to(final(self)),
            pats_typed(out@, pats@, final(self).demand()),
            (final(self).state(), pat_slots(out@), pats_visits(out@, out@.len())) == pats_m(
                old(self).state(),
                types@,
                *datas,
                pats@,
                pats@.len(),
            ),
        decreases pats,
    {
        let mut out: Vec<Pattern> = Vec::new();
        let mut k: usize = 0;
        proof {
            lemma_prefix_self(self.scope@, (Ident(0), TyVar(0)));
            assert(pat_slots(out@) =~= Seq::<TyVar>::empty());
        }
        while k < pats.len()
            invariant
                k <= pats.len(),
                old(self).binds_to(self),
                out@.len() == k,
                (self.state(), pat_slots(out@), pats_visits(out@, k as nat)) == pats_m(
                    old(self).state(),
                    types@,
                    *datas,
                    pats@,
                    k as nat,
                ),
                forall|j: int|
                    0 <= j < k ==> pat_typed(#[trigger] out@[j], pats@[j], self.demand()),
            decreases pats.len() - k,
        {
            let ghost before = *self;
            let p = self.infer_pat(types, datas, defs, &pats[k]);
            proof {
                lemma_demand_mono(before, *self);
                assert forall|j: int| 0 <= j < k implies pat_typed(
                    #[trigger] out@[j],
                    pats@[j],
                    self.demand(),
                ) by {
                    lemma_pat_weaken(out@[j], pats@[j], before.demand(), self.demand());
                }
                lemma_prefix(old(self).scope@, before.scope@, self.scope@);
            }
            let ghost done = out@;
            out.push(p);
            proof {
                lemma_pats_visits_same(done, out@, k as nat);
                assert(pat_slots(out@) =~= pat_slots(done).push(slot_var(p.ty)));
            }
            k += 1;
        }
        out
    }

    /// Gives the pattern `pat` and the patterns inside it a variable each, and brings
    /// their names into scope.
    #[verifier::rlimit(80)]
    pub fn infer_pat(&mut self, types: &Types, datas: &Datas, defs: &Defs, pat: &Pattern) -> (out:
        Pattern)
        requires
            old(self).wf(),
            sigs_ok(types, datas, defs),
        ensures
            old(self).binds_to(final(self)),
            pat_typed(out, *pat, final(self).demand()),
            out.ty is Var,
            (final(self).state(), slot_var(out.ty), pat_visits(out)) == pat_m(
                old(self).state(),
                types@,
                *datas,
                *pat,
            ),
        decreases pat,
    {
        let span = pat.span;
        let ghost entered = self.state();
        proof {
            lemma_prefix_self(self.scope@, (Ident(0), TyVar(0)));
        }
        let (kind, v) = match &pat.kind {
            PatKind::Wildcard => {
                let v = self.fresh(span);
                (PatKind::Wildcard, v)
            },
            PatKind::Literal(l) => {
                let v = self.insert(TyInfo::Prim(prim_of_literal(*l)), span);
                (PatKind::Literal(*l), v)
            },
            PatKind::Tuple(items) => {
                let inner = self.infer_pats(types, datas, defs, items);
                let ghost mid = *self;
                proof {
                    lemma_pats_slots(inner@, items@, mid);
                }
                let vs = pattern_vars(&inner, Ghost(mid.bound()));
                let v = self.insert(TyInfo::Tuple(vs), span);
                proof {
                    lemma_demand_mono(mid, *self);
                    lemma_pats_weaken(inner@, items@, mid.demand(), self.demand());
                    assert(pat_rule(PatKind::Tuple(inner), v, self.vars@, self.asked@));
                    assert((self.state(), v, pat_kids_visits(PatKind::Tuple(inner))) == pat_kind_m(
                        entered,
                        types@,
                        *datas,
                        pat.kind,
                        span,
                    ));
                }
                (PatKind::Tuple(inner), v)
            },
            PatKind::ListExact(items) => {
                let inner = self.infer_pats(types, datas, defs, items);
                let ghost mid = *self;
                proof {
                    lemma_pats_slots(inner@, items@, mid);
                }
                let vs = pattern_vars(&inner, Ghost(mid.bound()));
                let item = self.fresh(span);
                self.make_each_eq(&vs, item, span);
                let ghost asked = self.asked@;
                let v = self.insert(TyInfo::List(item), span);
                proof {
                    lemma_demand_mono(mid, *self);
                    lemma_pats_weaken(inner@, items@, mid.demand(), self.demand());
                    assert(pat_rule(PatKind::ListExact(inner), v, self.vars@, self.asked@));
                    assert((self.state(), v, pat_kids_visits(PatKind::ListExact(inner)))
                        == pat_kind_m(entered, types@, *datas, pat.kind, span));
                }
                (PatKind::ListExact(inner), v)
            },
            PatKind::ListFront(items, tail) => {
                let inner = self.infer_pats(types, datas, defs, items);
                let ghost mid = *self;
                proof {
                    lemma_pats_slots(inner@, items@, mid);
                }
                let vs = pattern_vars(&inner, Ghost(mid.bound()));
                let item = self.fresh(span);
                self.make_each_eq(&vs, item, span);
                let v = self.insert(TyInfo::List(item), span);
                let ghost listed = *self;
                let rest = match tail {
                    Some(t) => {
                        let typed = self.infer_pat(types, datas, defs, &**t);
                        let ghost late = *self;
                        match typed.ty {
                            TySlot::Var(tv) => {
                                self.make_eq(tv, v, span);
                                proof {
                                    assert(self.asked@[late.asked@.len() as int] == (tv, v));
                                }
                            },
                            _ => {},
                        }
                        proof {
                            lemma_demand_mono(late, *self);
                            lemma_pat_weaken(typed, **t, late.demand(), self.demand());
                        }
                        Some(Box::new(typed))
                    },
                    None => None,
                };
                proof {
                    lemma_demand_mono(mid, *self);
                    lemma_pats_weaken(inner@, items@, mid.demand(), self.demand());
                    lemma_prefix_self(listed.scope@, (Ident(0), TyVar(0)));
                    lemma_prefix(old(self).scope@, listed.scope@, self.scope@);
                    lemma_each_asked_mono(listed.asked@, self.asked@, vs@, item);
                    assert(self.vars@[v.0 as int] == listed.vars@[v.0 as int]);
                    assert(pat_rule(PatKind::ListFront(inner, rest), v, self.vars@, self.asked@));
                    assert((self.state(), v, pat_kids_visits(PatKind::ListFront(inner, rest)))
                        == pat_kind_m(entered, types@, *datas, pat.kind, span));
                }
                (PatKind::ListFront(inner, rest), v)
            },
            PatKind::Cons(name, fields) => {
                let inner = self.infer_pats(types, datas, defs, fields);
                let ghost mid = *self;
                proof {
                    lemma_pats_slots(inner@, fields@, mid);
                }
                let vs = pattern_vars(&inner, Ghost(mid.bound()));
                let (whole, wanted) = self.cons_vars(types, datas, defs, *name, fields.len(), span);
                self.make_all_eq(&vs, &wanted, span);
                proof {
                    lemma_demand_mono(mid, *self);
                    lemma_pats_weaken(inner@, fields@, mid.demand(), self.demand());
                    assert((self.state(), whole, pat_kids_visits(PatKind::Cons(*name, inner)))
                        == pat_kind_m(entered, types@, *datas, pat.kind, span));
                }
                (PatKind::Cons(*name, inner), whole)
            },
        };
        assert(old(self).binds_to(self));
        assert(pat_rule(kind, v, self.vars@, self.asked@));
        assert((self.state(), v, pat_kids_visits(kind)) == pat_kind_m(
            entered,
            types@,
            *datas,
            pat.kind,
            span,
        ));
        match pat.name {
            Some(name) => {
                let ghost before = self.scope@;
                self.scope.push((name, v));
                proof {
                    lemma_prefix_self(before, (name, v));
                    lemma_prefix(old(self).scope@, before, self.scope@);
                }
            },
            None => {},
        }
        Pattern { kind, name: pat.name, span, ty: TySlot::Var(v) }
    }
}

impl Engine {
    /// Gives each expression of `exprs` a variable.
    #[verifier::loop_isolation(false)]
    pub fn infer_exprs(&mut self, types: &Types, datas: &Datas, defs: &Defs, exprs: &Vec<Expr>) -> (out:
        Vec<Expr>)
        requires
            old(self).wf(),
            sigs_ok(types, datas, defs),
        ensures
            old(self).leads_to(final(self)),
            exprs_typed(out@, exprs@, final(self).demand()),
            (final(self).state(), expr_slots(out@), exprs_visits(out@, out@.len())) == exprs_m(
                old(self).state(),
                types@,
                *datas,
                defs@,
                exprs@,
                exprs@.len(),
            ),
        decreases exprs,
    {
        let mut out: Vec<Expr> = Vec::new();
        let mut k: usize = 0;
        assert(expr_slots(out@) =~= Seq::<TyVar>::empty());
        while k < exprs.len()
            invariant
                k <= exprs.len(),
                old(self).leads_to(self),
                out@.len() == k,
                (self.state(), expr_slots(out@), exprs_visits(out@, k as nat)) == exprs_m(
                    old(self).state(),
                    types@,
                    *datas,
                    defs@,
                    exprs@,
                    k as nat,
                ),
                forall|j: int|
                    0 <= j < k ==> expr_typed(#[trigger] out@[j], exprs@[j], self.demand()),
            decreases exprs.len() - k,
        {
            let ghost before = *self;
            let e = self.infer_expr(types, datas, defs, &exprs[k]);
            proof {
                lemma_demand_mono(before, *self);
                assert forall|j: int| 0 <= j < k implies expr_typed(
                    #[trigger] out@[j],
                    exprs@[j],
                    self.demand(),
                ) by {
                    lemma_expr_weaken(out@[j], exprs@[j], before.demand(), self.demand());
                }
            }
            let ghost done = out@;
            out.push(e);
            proof {
                lemma_exprs_visits_same(done, out@, k as nat);
                assert(expr_slots(out@) =~= expr_slots(done).push(slot_var(e.ty)));
            }
            k += 1;
        }
        out
    }

    /// Gives the arms of a match their variables: the patterns of each arm are made
    /// equal to the value `matched`, and its body to the result `result`. An arm with
    /// another number of parameters than `count` is recorded as a failure, and its
    /// patterns get the error type.
    #[verifier::loop_isolation(false)]
    #[verifier::rlimit(80)]
    fn infer_arms(
        &mut self,
        types: &Types,
        datas: &Datas,
        defs: &Defs,
        arms: &Vec<Arm>,
        matched: TyVar,
        result: TyVar,
        count: usize,
        first: Span,
    ) -> (out: Vec<Arm>)
        requires
            old(self).wf(),
            sigs_ok(types, datas, defs),
            matched.0 < old(self).bound(),
            result.0 < old(self).bound(),
        ensures
            old(self).leads_to(final(self)),
            arms_typed(out@, arms@, final(self).demand()),
            forall|k: int|
                0 <= k < out@.len() ==> arm_rule(
                    #[trigger] out@[k],
                    count as nat,
                    matched,
                    result,
                    final(self).vars@,
                    final(self).asked@,
                ),
            (final(self).state(), arms_visits(out@, out@.len())) == arms_m(
                old(self).state(),
                types@,
                *datas,
                defs@,
                arms@,
                matched,
                result,
                count,
                first,
                arms@.len(),
            ),
        decreases arms,
    {
        let mut out: Vec<Arm> = Vec::new();
        let mut k: usize = 0;
        while k < arms.len()
            invariant
                k <= arms.len(),
                old(self).leads_to(self),
                out@.len() == k,
                (self.state(), arms_visits(out@, k as nat)) == arms_m(
                    old(self).state(),
                    types@,
                    *datas,
                    defs@,
                    arms@,
                    matched,
                    result,
                    count,
                    first,
                    k as nat,
                ),
                arms_typed(out@, arms@.subrange(0, k as int), self.demand()),
                forall|j: int|
                    0 <= j < k ==> arm_rule(
                        #[trigger] out@[j],
                        count as nat,
                        matched,
                        result,
                        self.vars@,
                        self.asked@,
                    ),
            decreases arms.len() - k,
        {
            let ghost before = *self;
            let ghost done = out@;
            let arm = &arms[k];
            let depth = self.scope.len();
            let params = self.infer_pats(types, datas, defs, &arm.params);
            let ghost mid = *self;
            proof {
                lemma_pats_slots(params@, arm.params@, mid);
            }
            let vs = pattern_vars(&params, Ghost(mid.bound()));
            if arm.params.len() == count {
                let pattern = if count == 1 {
                    vs[0]
                } else {
                    self.insert(TyInfo::Tuple(vs), arm.span)
                };
                let ghost asking = self.asked@;
                self.make_eq(matched, pattern, arm.span);
                proof {
                    assert(self.asked@[asking.len() as int] == (matched, pattern));
                }
            } else {
                let failed = self.fail(
                    InferError::WrongNumberOfParams(first, count, arm.span, arm.params.len()),
                    arm.span,
                );
                self.make_each_eq(&vs, failed, arm.span);
            }
            let ghost fitted = *self;
            let body = self.infer_expr(types, datas, defs, &arm.body);
            let ghost late = *self;
            match body.ty {
                TySlot::Var(bv) => {
                    let ghost asking = self.asked@;
                    self.make_eq(bv, result, arm.body.span);
                    proof {
                        assert(self.asked@[asking.len() as int] == (bv, result));
                    }
                },
                _ => {},
            }
            self.scope.truncate(depth);
            let typed = Arm { params, body, span: arm.span };
            proof {
                assert(self.scope@ =~= before.scope@);
                lemma_demand_mono(before, *self);
                lemma_demand_mono(mid, *self);
                lemma_demand_mono(late, *self);
                lemma_pats_weaken(typed.params@, arm.params@, mid.demand(), self.demand());
                lemma_expr_weaken(typed.body, arm.body, late.demand(), self.demand());
                lemma_arms_weaken(
                    done,
                    arms@.subrange(0, k as int),
                    before.demand(),
                    self.demand(),
                );
                assert(slot_is_var(typed.body.ty, late.bound()));
                if arm.params@.len() == count {
                    if count == 1 {
                        lemma_asked_kept(
                            fitted.asked@,
                            self.asked@,
                            (matched, slot_var(typed.params@[0].ty)),
                        );
                    } else {
                        let w = TyVar(mid.bound() as usize);
                        assert(fitted.vars@[w.0 as int] == InfoView::Tuple(
                            pat_slots(typed.params@),
                        ));
                        assert(self.vars@[w.0 as int] == fitted.vars@[w.0 as int]);
                        lemma_asked_kept(fitted.asked@, self.asked@, (matched, w));
                    }
                }
                assert(arm_rule(typed, count as nat, matched, result, self.vars@, self.asked@));
                assert forall|j: int| 0 <= j < k implies arm_rule(
                    #[trigger] done[j],
                    count as nat,
                    matched,
                    result,
                    self.vars@,
                    self.asked@,
                ) by {
                    lemma_arm_rule_mono(
                        done[j],
                        count as nat,
                        matched,
                        result,
                        before.vars@,
                        before.asked@,
                        self.vars@,
                        self.asked@,
                    );
                }
            }
            let ghost had = out@;
            out.push(typed);
            proof {
                lemma_arms_visits_same(had, out@, k as nat);
                let now = arms@.subrange(0, k + 1);
                assert forall|i: int| 0 <= i < out@.len() implies {
                    &&& (#[trigger] out@[i]).span == now[i].span
                    &&& pats_typed(out@[i].params@, now[i].params@, self.demand())
                    &&& expr_typed(out@[i].body, now[i].body, self.demand())
                } by {
                    if i < k {
                        assert(out@[i] == done[i]);
                        assert(now[i] == arms@.subrange(0, k as int)[i]);
                    }
                }
                assert forall|j: int| 0 <= j < k + 1 implies arm_rule(
                    #[trigger] out@[j],
                    count as nat,
                    matched,
                    result,
                    self.vars@,
                    self.asked@,
                ) by {
                    if j < k {
                        assert(out@[j] == done[j]);
                    }
                }
            }
            k += 1;
        }
        assert(arms@.subrange(0, k as int) =~= arms@);
        out
    }

    /// Gives the expression `expr` and the expressions inside it a variable each, and
    /// makes equal the variables that must be.
    #[verifier::rlimit(100)]
    pub fn infer_expr(&mut self, types: &Types, datas: &Datas, defs: &Defs, expr: &Expr) -> (out:
        Expr)
        requires
            old(self).wf(),
            sigs_ok(types, datas, defs),
        ensures
            old(self).leads_to(final(self)),
            expr_typed(out, *expr, final(self).demand()),
            out.ty is Var,
            (final(self).state(), slot_var(out.ty), expr_visits(out)) == expr_m(
                old(self).state(),
                types@,
                *datas,
                defs@,
                *expr,
            ),
        decreases expr,
    {
        let span = expr.span;
        let ghost entered = self.state();
        let (kind, v) = match &expr.kind {
            ExprKind::Error => {
                let v = self.insert(TyInfo::Error, span);
                proof {
                    assert((self.state(), v, expr_kids_visits(ExprKind::Error))
                        == expr_kind_m(entered, types@, *datas, defs@, expr.kind, span));
                }
                (ExprKind::Error, v)
            },
            ExprKind::Literal(l) => {
                let v = self.insert(TyInfo::Prim(prim_of_literal(*l)), span);
                proof {
                    assert((self.state(), v, expr_kids_visits(ExprKind::Literal(*l)))
                        == expr_kind_m(entered, types@, *datas, defs@, expr.kind, span));
                }
                (ExprKind::Literal(*l), v)
            },
            ExprKind::Local(name) => {
                let v = match self.lookup_local(*name) {
                    Some(v) => v,
                    None => self.fail(
                        InferError::NoSuchLocal(SrcNode { inner: *name, span }),
                        span,
                    ),
                };
                proof {
                    assert((self.state(), v, expr_kids_visits(ExprKind::Local(*name)))
                        == expr_kind_m(entered, types@, *datas, defs@, expr.kind, span));
                }
                (ExprKind::Local(*name), v)
            },
            ExprKind::Global(name) => {
                let v = match defs.lookup(*name) {
                    None => self.fail(
                        InferError::NoSuchLocal(SrcNode { inner: *name, span }),
                        span,
                    ),
                    Some(id) => {
                        let def = defs.get(id);
                        match def.ty {
                            Some(t) => {
                                let n = datas.get_scope(def.gen_scope).len();
                                let gens = self.fresh_gens(n, span);
                                self.instantiate_ty(types, t, def.gen_scope, &gens, span)
                            },
                            None => self.fail(
                                InferError::DefTypeNotSpecified(def.span, span, *name),
                                span,
                            ),
                        }
                    },
                };
                proof {
                    assert((self.state(), v, expr_kids_visits(ExprKind::Global(*name)))
                        == expr_kind_m(entered, types@, *datas, defs@, expr.kind, span));
                }
                (ExprKind::Global(*name), v)
            },
            ExprKind::Tuple(items) => {
                let inner = self.infer_exprs(types, datas, defs, items);
                let ghost mid = *self;
                proof {
                    lemma_exprs_slots(inner@, items@, mid);
                }
                let vs = expr_vars(&inner, Ghost(mid.bound()));
                let v = self.insert(TyInfo::Tuple(vs), span);
                proof {
                    lemma_demand_mono(mid, *self);
                    lemma_exprs_weaken(inner@, items@, mid.demand(), self.demand());
                    assert(kind_rule(ExprKind::Tuple(inner), v, self.vars@, self.asked@));
                }
                proof {
                    assert((self.state(), v, expr_kids_visits(ExprKind::Tuple(inner)))
                        == expr_kind_m(entered, types@, *datas, defs@, expr.kind, span));
                }
                (ExprKind::Tuple(inner), v)
            },
            ExprKind::List(items) => {
                let inner = self.infer_exprs(types, datas, defs, items);
                let ghost mid = *self;
                proof {
                    lemma_exprs_slots(inner@, items@, mid);
                }
                let vs = expr_vars(&inner, Ghost(mid.bound()));
                let item = self.fresh(span);
                self.make_each_eq(&vs, item, span);
                let v = self.insert(TyInfo::List(item), span);
                proof {
                    lemma_demand_mono(mid, *self);
                    lemma_exprs_weaken(inner@, items@, mid.demand(), self.demand());
                    assert(kind_rule(ExprKind::List(inner), v, self.vars@, self.asked@));
                }
                proof {
                    assert((self.state(), v, expr_kids_visits(ExprKind::List(inner)))
                        == expr_kind_m(entered, types@, *datas, defs@, expr.kind, span));
                }
                (ExprKind::List(inner), v)
            },
            ExprKind::Cons(name, fields) => {
                let inner = self.infer_exprs(types, datas, defs, fields);
                let ghost mid = *self;
                proof {
                    lemma_exprs_slots(inner@, fields@, mid);
                }
                let vs = expr_vars(&inner, Ghost(mid.bound()));
                let (whole, wanted) = self.cons_vars(types, datas, defs, *name, fields.len(), span);
                self.make_all_eq(&vs, &wanted, span);
                proof {
                    lemma_demand_mono(mid, *self);
                    lemma_exprs_weaken(inner@, fields@, mid.demand(), self.demand());
                }
                proof {
                    assert((self.state(), whole, expr_kids_visits(ExprKind::Cons(*name, inner)))
                        == expr_kind_m(entered, types@, *datas, defs@, expr.kind, span));
                }
                (ExprKind::Cons(*name, inner), whole)
            },
            ExprKind::Access(tuple, field) => {
                let inner = self.infer_expr(types, datas, defs, &**tuple);
                let ghost mid = *self;
                let av = match inner.ty {
                    TySlot::Var(av) => av,
                    _ => TyVar(0),
                };
                let root = self.vars.find(av);
                let picked = match self.vars.get(root) {
                    TyInfo::Tuple(xs) => if field.inner.index < xs.len() {
                        proof {
                            let g = self.vars.graph();
                            assert(crate::unify::kids_below(
                                g,
                                g.infos[root.0 as int],
                                g.rank[root.0 as int],
                            ));
                            assert(kids(g.infos[root.0 as int])[field.inner.index as int]
                                == xs@[field.inner.index as int]);
                        }
                        Some(xs[field.inner.index])
                    } else {
                        None
                    },
                    _ => None,
                };
                let v = match picked {
                    Some(v) => v,
                    None => self.fail(
                        InferError::NoSuchField(
                            av,
                            SrcNode { inner: field.inner.name, span: field.span },
                        ),
                        span,
                    ),
                };
                proof {
                    lemma_demand_mono(mid, *self);
                    lemma_expr_weaken(inner, **tuple, mid.demand(), self.demand());
                }
                proof {
                    assert((self.state(), v, expr_kids_visits(ExprKind::Access(Box::new(inner), *field)))
                        == expr_kind_m(entered, types@, *datas, defs@, expr.kind, span));
                }
                (ExprKind::Access(Box::new(inner), *field), v)
            },
            ExprKind::Unary(op, operand) => {
                let inner = self.infer_expr(types, datas, defs, &**operand);
                let ghost mid = *self;
                let av = match inner.ty {
                    TySlot::Var(av) => av,
                    _ => TyVar(0),
                };
                let v = self.fresh(span);
                self.pending.push(Pending::Unary(*op, av, operand.span, v));
                proof {
                    lemma_demand_mono(mid, *self);
                    lemma_expr_weaken(inner, **operand, mid.demand(), self.demand());
                }
                proof {
                    assert((self.state(), v, expr_kids_visits(ExprKind::Unary(*op, Box::new(inner))))
                        == expr_kind_m(entered, types@, *datas, defs@, expr.kind, span));
                }
                (ExprKind::Unary(*op, Box::new(inner)), v)
            },
            ExprKind::Binary(op, left, right) => {
                let a = self.infer_expr(types, datas, defs, &**left);
                let ghost first = *self;
                let b = self.infer_expr(types, datas, defs, &**right);
                let ghost mid = *self;
                let av = match a.ty {
                    TySlot::Var(av) => av,
                    _ => TyVar(0),
                };
                let bv = match b.ty {
                    TySlot::Var(bv) => bv,
                    _ => TyVar(0),
                };
                self.make_eq(av, bv, op.span);
                let ghost asked = self.asked@;
                let v = self.fresh(span);
                self.pending.push(Pending::Binary(*op, av, left.span, bv, right.span, v));
                proof {
                    lemma_demand_mono(first, *self);
                    lemma_demand_mono(mid, *self);
                    lemma_expr_weaken(a, **left, first.demand(), self.demand());
                    lemma_expr_weaken(b, **right, mid.demand(), self.demand());
                    assert(asked[mid.asked@.len() as int] == (av, bv));
                    assert(kind_rule(
                        ExprKind::Binary(*op, Box::new(a), Box::new(b)),
                        v,
                        self.vars@,
                        self.asked@,
                    ));
                }
                proof {
                    assert((self.state(), v, expr_kids_visits(ExprKind::Binary(*op, Box::new(a), Box::new(b))))
                        == expr_kind_m(entered, types@, *datas, defs@, expr.kind, span));
                }
                (ExprKind::Binary(*op, Box::new(a), Box::new(b)), v)
            },
            ExprKind::Func(param, body) => {
                let pv = self.fresh(param.span);
                let ghost scope_before = self.scope@;
                self.scope.push((param.inner, pv));
                let inner = self.infer_expr(types, datas, defs, &**body);
                let ghost mid = *self;
                self.scope.pop();
                proof {
                    assert(self.scope@ =~= scope_before);
                }
                let bv = match inner.ty {
                    TySlot::Var(bv) => bv,
                    _ => TyVar(0),
                };
                let v = self.insert(TyInfo::Func(pv, bv), span);
                proof {
                    lemma_demand_mono(mid, *self);
                    lemma_expr_weaken(inner, **body, mid.demand(), self.demand());
                    assert(kind_rule(
                        ExprKind::Func(*param, Box::new(inner)),
                        v,
                        self.vars@,
                        self.asked@,
                    ));
                }
                proof {
                    assert((self.state(), v, expr_kids_visits(ExprKind::Func(*param, Box::new(inner))))
                        == expr_kind_m(entered, types@, *datas, defs@, expr.kind, span));
                }
                (ExprKind::Func(*param, Box::new(inner)), v)
            },
            ExprKind::Apply(f, arg) => {
                let a = self.infer_expr(types, datas, defs, &**f);
                let ghost first = *self;
                let b = self.infer_expr(types, datas, defs, &**arg);
                let ghost mid = *self;
                let fv = match a.ty {
                    TySlot::Var(fv) => fv,
                    _ => TyVar(0),
                };
                let av = match b.ty {
                    TySlot::Var(av) => av,
                    _ => TyVar(0),
                };
                let v = self.fresh(span);
                let wanted = self.insert(TyInfo::Func(av, v), span);
                let ghost asking = *self;
                self.make_eq(fv, wanted, span);
                proof {
                    lemma_demand_mono(first, *self);
                    lemma_demand_mono(mid, *self);
                    lemma_expr_weaken(a, **f, first.demand(), self.demand());
                    lemma_expr_weaken(b, **arg, mid.demand(), self.demand());
                    assert(self.asked@[asking.asked@.len() as int] == (fv, wanted));
                    assert(self.vars@[wanted.0 as int] == asking.vars@[wanted.0 as int]);
                    assert(self.vars@[wanted.0 as int] == InfoView::Func(av, v));
                    assert(kind_rule(
                        ExprKind::Apply(Box::new(a), Box::new(b)),
                        v,
                        self.vars@,
                        self.asked@,
                    ));
                }
                proof {
                    assert((self.state(), v, expr_kids_visits(ExprKind::Apply(Box::new(a), Box::new(b))))
                        == expr_kind_m(entered, types@, *datas, defs@, expr.kind, span));
                }
                (ExprKind::Apply(Box::new(a), Box::new(b)), v)
            },
            ExprKind::Match(matched, arms) => {
                let inner = self.infer_expr(types, datas, defs, &**matched);
                let ghost first = *self;
                let mv = match inner.ty {
                    TySlot::Var(mv) => mv,
                    _ => TyVar(0),
                };
                let v = if arms.len() == 0 {
                    self.fail(InferError::NoBranches(span), span)
                } else {
                    self.fresh(span)
                };
                let (count, place) = if arms.len() == 0 {
                    (0, span)
                } else {
                    (arms[0].params.len(), arms[0].span)
                };
                let typed = self.infer_arms(types, datas, defs, arms, mv, v, count, place);
                proof {
                    lemma_demand_mono(first, *self);
                    lemma_expr_weaken(inner, **matched, first.demand(), self.demand());
                    if arms@.len() > 0 {
                        assert(pats_typed(typed@[0].params@, arms@[0].params@, self.demand()));
                    }
                    assert(kind_rule(
                        ExprKind::Match(Box::new(inner), typed),
                        v,
                        self.vars@,
                        self.asked@,
                    ));
                }
                proof {
                    assert((self.state(), v, expr_kids_visits(ExprKind::Match(Box::new(inner), typed)))
                        == expr_kind_m(entered, types@, *datas, defs@, expr.kind, span));
                }
                (ExprKind::Match(Box::new(inner), typed), v)
            },
        };
        assert(kind_rule(kind, v, self.vars@, self.asked@));
        Expr { kind, span, ty: TySlot::Var(v) }
    }
}

/// What is known of an operand, as far as the operators are concerned.
#[derive(Clone, Copy, Debug, PartialEq, Eq, Structural)]
pub enum Operand {
    /// Nothing is known yet.
    Unknown,
    /// The error type.
    Error,
    Prim(Prim),
    List,
    /// A generic parameter.
    Gen,
    /// Any other type.
    Other,
}

/// What `info` is, as far as the operators are concerned.
pub open spec fn operand_of(info: InfoView) -> Operand {
    match info {
        InfoView::Unknown => Operand::Unknown,
        InfoView::Error => Operand::Error,
        InfoView::Prim(p) => Operand::Prim(p),
        InfoView::List(_) => Operand::List,
        InfoView::Gen(_, _) => Operand::Gen,
        _ => Operand::Other,
    }
}

impl Engine {
    /// What is known of the type that `v` stands for, as far as the operators are
    /// concerned.
    pub fn operand(&self, v: TyVar) -> (r: Operand)
        requires
            self.wf(),
            v.0 < self.bound(),
        ensures
            r == operand_of(self.vars@[root(self.vars.graph(), v).0 as int]),
    {
        let root = self.vars.find(v);
        match self.vars.get(root) {
            TyInfo::Unknown => Operand::Unknown,
            TyInfo::Error => Operand::Error,
            TyInfo::Prim(p) => Operand::Prim(*p),
            TyInfo::List(_) => Operand::List,
            TyInfo::Gen(_, _) => Operand::Gen,
            _ => Operand::Other,
        }
    }

    /// Gives the result `out` of an operator the primitive type `result`, or records
    /// the failure `e` if the operator has no result.
    fn conclude(&mut self, out: TyVar, result: Option<Prim>, e: InferError, span: Span)
        requires
            old(self).wf(),
            out.0 < old(self).bound(),
            error_ok(e, old(self).bound()),
        ensures
            old(self).leads_to(final(self)),
            final(self).pending@ == old(self).pending@,
            final(self).origins@ == old(self).origins@,
            final(self).vars.spans() == old(self).vars.spans().push(span),
            final(self).vars.graph() == concluded(old(self).vars.graph(), out, result),
            final(self).errors@ == errors_after(
                match result {
                    Some(_) => old(self).errors@,
                    None => old(self).errors@.push(e),
                },
                grown(old(self).vars.graph(), result_info(result)),
                out,
                TyVar(old(self).bound() as usize),
                span,
                old(self).vars.spans().push(span),
            ),
    {
        let v = match result {
            Some(p) => self.insert(TyInfo::Prim(p), span),
            None => self.fail(e, span),
        };
        self.make_eq(out, v, span);
    }

    /// Settles the pending operator `p`, if enough is known of its operand; says
    /// whether it is settled. What is concluded is the verdict on the operator.
    pub fn settle(&mut self, p: Pending) -> (done: bool)
        requires
            old(self).wf(),
            pending_ok(p, old(self).bound()),
        ensures
            old(self).leads_to(final(self)),
            final(self).pending@ == old(self).pending@,
            final(self).origins@ == old(self).origins@,
            done == !(verdict_on(old(self).vars.graph(), p) is Wait),
            final(self).vars.spans() == spans_after(
                old(self).vars.graph(),
                old(self).vars.spans(),
                p,
            ),
            match verdict_on(old(self).vars.graph(), p) {
                Verdict::Wait => final(self).vars.graph() == old(self).vars.graph() && final(self).errors@ == old(self).errors@,
                Verdict::Same => final(self).vars.graph() == unified(
                    old(self).vars.graph(),
                    result_of(p),
                    operand_var(p),
                ).0 && final(self).errors@ == errors_after(
                    old(self).errors@,
                    old(self).vars.graph(),
                    result_of(p),
                    operand_var(p),
                    sign_span(p),
                    old(self).vars.spans(),
                ),
                Verdict::Prim(r) => final(self).vars.graph() == concluded(
                    old(self).vars.graph(),
                    result_of(p),
                    Some(r),
                ) && final(self).errors@ == errors_after(
                    old(self).errors@,
                    grown(old(self).vars.graph(), InfoView::Prim(r)),
                    result_of(p),
                    TyVar(old(self).bound() as usize),
                    sign_span(p),
                    old(self).vars.spans().push(sign_span(p)),
                ),
                Verdict::Invalid => final(self).vars.graph() == concluded(
                    old(self).vars.graph(),
                    result_of(p),
                    None,
                ) && final(self).errors@ == errors_after(
                    old(self).errors@.push(invalid(p)),
                    grown(old(self).vars.graph(), InfoView::Error),
                    result_of(p),
                    TyVar(old(self).bound() as usize),
                    sign_span(p),
                    old(self).vars.spans().push(sign_span(p)),
                ),
            },
    {
        match p {
            Pending::Unary(op, a, a_span, out) => {
                let e = InferError::InvalidUnaryOp(op, a, a_span);
                match self.operand(a) {
                    Operand::Unknown => false,
                    Operand::Error => {
                        self.make_eq(out, a, op.span);
                        true
                    },
                    Operand::Prim(prim) => {
                        self.conclude(out, unary_table(op.inner, prim), e, op.span);
                        true
                    },
                    _ => {
                        self.conclude(out, None, e, op.span);
                        true
                    },
                }
            },
            Pending::Binary(op, a, a_span, b, b_span, out) => {
                let e = InferError::InvalidBinaryOp(op, a, a_span, b, b_span);
                match self.operand(a) {
                    Operand::Unknown => false,
                    Operand::Error => {
                        self.make_eq(out, a, op.span);
                        true
                    },
                    Operand::Prim(prim) => {
                        self.conclude(out, binary_table(op.inner, prim), e, op.span);
                        true
                    },
                    Operand::List => {
                        match op.inner {
                            BinaryOp::Join => {
                                self.make_eq(out, a, op.span);
                            },
                            _ => {
                                self.conclude(out, None, e, op.span);
                            },
                        }
                        true
                    },
                    _ => {
                        self.conclude(out, None, e, op.span);
                        true
                    },
                }
            },
        }
    }

    /// Settles the pending operators, again and again until none of them can be
    /// settled. Those that stay pending were pending before, and the type of their
    /// operand is not known.
    #[verifier::rlimit(80)]
    pub fn solve(&mut self)
        requires
            old(self).wf(),
        ensures
            old(self).leads_to(final(self)),
            forall|i: int|
                0 <= i < final(self).pending@.len() ==> old(self).pending@.contains(
                    #[trigger] final(self).pending@[i],
                ) && verdict_on(final(self).vars.graph(), final(self).pending@[i]) is Wait,
            final(self).solving() == solved(old(self).solving()),
            final(self).origins@ == old(self).origins@,
            final(self).state() == solved_m(old(self).state()),
    {
        loop
            invariant_except_break
                solved(self.solving()) == solved(old(self).solving()),
            invariant
                old(self).leads_to(self),
                self.origins@ == old(self).origins@,
                forall|i: int|
                    0 <= i < self.pending@.len() ==> old(self).pending@.contains(
                        #[trigger] self.pending@[i],
                    ),
            ensures
                old(self).leads_to(self),
                forall|i: int|
                    0 <= i < self.pending@.len() ==> old(self).pending@.contains(
                        #[trigger] self.pending@[i],
                    ) && verdict_on(self.vars.graph(), self.pending@[i]) is Wait,
                self.solving() == solved(old(self).solving()),
                self.origins@ == old(self).origins@,
            decreases self.pending@.len(),
        {
            let ghost start = self.pending@;
            let ghost entered = self.solving();
            let mut queue: Vec<Pending> = Vec::new();
            let mut k: usize = 0;
            while k < self.pending.len()
                invariant
                    k <= self.pending.len(),
                    self.wf(),
                    self.pending@ == start,
                    queue@ == self.pending@.subrange(0, k as int),
                decreases self.pending.len() - k,
            {
                queue.push(self.pending[k]);
                assert(queue@ =~= self.pending@.subrange(0, k + 1));
                k += 1;
            }
            assert(queue@ =~= start);
            self.pending = Vec::new();
            let mut settled: usize = 0;
            let ghost resting = self.vars.graph();
            let mut i: usize = 0;
            assert(self.solving() == pass(entered, 0)) by {
                assert(self.pending@ =~= Seq::<Pending>::empty());
            }
            while i < queue.len()
                invariant
                    i <= queue.len(),
                    queue@ == start,
                    entered.pending == start,
                    self.solving() == pass(entered, i as nat),
                    self.origins@ == old(self).origins@,
                    old(self).leads_to(self),
                    settled <= i,
                    self.pending@.len() + settled == i,
                    settled == 0 ==> self.vars.graph() == resting,
                    forall|j: int|
                        0 <= j < queue@.len() ==> pending_ok(#[trigger] queue@[j], self.bound()),
                    forall|j: int|
                        0 <= j < self.pending@.len() ==> start.contains(
                            #[trigger] self.pending@[j],
                        ) && (settled == 0 ==> verdict_on(resting, self.pending@[j]) is Wait),
                decreases queue.len() - i,
            {
                let ghost kept = self.pending@;
                let ghost was = self.solving();
                if self.settle(queue[i]) {
                    settled += 1;
                    proof {
                        assert(self.solving() == pass(entered, (i + 1) as nat));
                    }
                } else {
                    self.pending.push(queue[i]);
                    proof {
                        assert(self.solving() == pass(entered, (i + 1) as nat));
                        assert(start[i as int] == queue@[i as int]);
                        assert forall|j: int| 0 <= j < self.pending@.len() implies start.contains(
                            #[trigger] self.pending@[j],
                        ) && (settled == 0 ==> verdict_on(resting, self.pending@[j]) is Wait) by {
                            if j < kept.len() {
                                assert(self.pending@[j] == kept[j]);
                            }
                        }
                    }
                }
                i += 1;
            }
            proof {
                assert forall|j: int| 0 <= j < self.pending@.len() implies old(self).pending@.contains(#[trigger] self.pending@[j]) by {
                    let x = self.pending@[j];
                    let at = choose|at: int| 0 <= at < start.len() && start[at] == x;
                    assert(old(self).pending@.contains(start[at]));
                }
            }
            proof {
                assert(self.solving() == pass(entered, entered.pending.len()));
                assert(self.pending@.len() + settled == entered.pending.len());
            }
            if settled == 0 {
                break;
            }
        }
    }
}

/// What the settling of pending operators works on: the graph, the places that
/// introduced its variables, the failures that are recorded, and the operators that
/// are pending.
pub struct Solving {
    pub graph: Graph,
    pub spans: Seq<Span>,
    pub errors: Seq<InferError>,
    pub pending: Seq<Pending>,
}

impl Engine {
    /// What the settling of pending operators works on, in this state.
    pub open spec fn solving(&self) -> Solving {
        Solving {
            graph: self.vars.graph(),
            spans: self.vars.spans(),
            errors: self.errors@,
            pending: self.pending@,
        }
    }
}

/// The places that introduced the variables after the pending operator `p` was
/// looked at: a verdict that gives the result a primitive type or the error type
/// introduces a variable at the sign of the operator.
pub open spec fn spans_after(g: Graph, spans: Seq<Span>, p: Pending) -> Seq<Span> {
    match verdict_on(g, p) {
        Verdict::Wait => spans,
        Verdict::Same => spans,
        _ => spans.push(sign_span(p)),
    }
}

/// The graph after the pending operator `p` was looked at.
pub open spec fn graph_after(g: Graph, p: Pending) -> Graph {
    match verdict_on(g, p) {
        Verdict::Wait => g,
        Verdict::Same => unified(g, result_of(p), operand_var(p)).0,
        Verdict::Prim(r) => concluded(g, result_of(p), Some(r)),
        Verdict::Invalid => concluded(g, result_of(p), None),
    }
}

/// The failures after the pending operator `p` was looked at: an operator that is
/// not defined on its operand is recorded, and then what keeps the result from
/// having the type that the verdict gives it.
pub open spec fn failures_after(
    errors: Seq<InferError>,
    g: Graph,
    spans: Seq<Span>,
    p: Pending,
) -> Seq<InferError> {
    match verdict_on(g, p) {
        Verdict::Wait => errors,
        Verdict::Same => errors_after(errors, g, result_of(p), operand_var(p), sign_span(p), spans),
        Verdict::Prim(r) => errors_after(
            errors,
            grown(g, InfoView::Prim(r)),
            result_of(p),
            TyVar(g.infos.len() as usize),
            sign_span(p),
            spans.push(sign_span(p)),
        ),
        Verdict::Invalid => errors_after(
            errors.push(invalid(p)),
            grown(g, InfoView::Error),
            result_of(p),
            TyVar(g.infos.len() as usize),
            sign_span(p),
            spans.push(sign_span(p)),
        ),
    }
}

/// One pass over the first `n` of the pending operators of `s`: each is looked at in
/// turn, and stays pending where the verdict is to wait.
pub open spec fn pass(s: Solving, n: nat) -> Solving
    decreases n,
{
    if n == 0 || n > s.pending.len() {
        Solving { graph: s.graph, spans: s.spans, errors: s.errors, pending: Seq::empty() }
    } else {
        let b = pass(s, (n - 1) as nat);
        let p = s.pending[n - 1];
        Solving {
            graph: graph_after(b.graph, p),
            spans: spans_after(b.graph, b.spans, p),
            errors: failures_after(b.errors, b.graph, b.spans, p),
            pending: if verdict_on(b.graph, p) is Wait {
                b.pending.push(p)
            } else {
                b.pending
            },
        }
    }
}

/// The pending operators settled: passes over them, again and again, until a pass
/// settles none.
pub open spec fn solved(s: Solving) -> Solving
    decreases s.pending.len(),
{
    let after = pass(s, s.pending.len());
    if after.pending.len() < s.pending.len() {
        solved(after)
    } else {
        after
    }
}

/// What is concluded for an operator.
pub enum Verdict {
    /// Nothing yet: the type of the operand is not known.
    Wait,
    /// The result has the type of the operand.
    Same,
    /// The result has a primitive type.
    Prim(Prim),
    /// The operator is not defined on the operand.
    Invalid,
}

/// The operand that decides on the pending operator `p`.
pub open spec fn operand_var(p: Pending) -> TyVar {
    match p {
        Pending::Unary(_, a, _, _) => a,
        Pending::Binary(_, a, _, _, _, _) => a,
    }
}

/// The variable of the result of the pending operator `p`.
pub open spec fn result_of(p: Pending) -> TyVar {
    match p {
        Pending::Unary(_, _, _, out) => out,
        Pending::Binary(_, _, _, _, _, out) => out,
    }
}

/// The place where the sign of the pending operator `p` is written.
pub open spec fn sign_span(p: Pending) -> Span {
    match p {
        Pending::Unary(op, _, _, _) => op.span,
        Pending::Binary(op, _, _, _, _, _) => op.span,
    }
}

/// The failure of the pending operator `p` on its operands.
pub open spec fn invalid(p: Pending) -> InferError {
    match p {
        Pending::Unary(op, a, a_span, _) => InferError::InvalidUnaryOp(op, a, a_span),
        Pending::Binary(op, a, a_span, b, b_span, _) => InferError::InvalidBinaryOp(
            op,
            a,
            a_span,
            b,
            b_span,
        ),
    }
}

/// What is concluded for the pending operator `p` from what is known of its operand.
///
/// The result of an operator on the error type is the error type. An operator on a
/// primitive type has the result that the table of operators gives; lists can be
/// joined, and the result is a list of the same type. On any other type, a generic
/// parameter among them, the operator is not defined.
pub open spec fn verdict(p: Pending, operand: Operand) -> Verdict {
    match operand {
        Operand::Unknown => Verdict::Wait,
        Operand::Error => Verdict::Same,
        Operand::Prim(q) => {
            let result = match p {
                Pending::Unary(op, _, _, _) => crate::ops::unary_result(op.inner, q),
                Pending::Binary(op, _, _, _, _, _) => crate::ops::binary_result(op.inner, q),
            };
            match result {
                Some(r) => Verdict::Prim(r),
                None => Verdict::Invalid,
            }
        },
        Operand::List => match p {
            Pending::Binary(op, _, _, _, _, _) => if op.inner == BinaryOp::Join {
                Verdict::Same
            } else {
                Verdict::Invalid
            },
            _ => Verdict::Invalid,
        },
        _ => Verdict::Invalid,
    }
}

/// What is concluded for the pending operator `p` in the graph `g`.
pub open spec fn verdict_on(g: crate::unify::Graph, p: Pending) -> Verdict {
    verdict(p, operand_of(g.infos[root(g, operand_var(p)).0 as int]))
}

/// What is known of a new variable for the result `result` of an operator: a
/// primitive type, or the error type where the operator has no result.
pub open spec fn result_info(result: Option<Prim>) -> InfoView {
    match result {
        Some(p) => InfoView::Prim(p),
        None => InfoView::Error,
    }
}

/// The graph `g` after the result `out` of an operator was given the type `result`,
/// or the error type where there is none.
pub open spec fn concluded(g: crate::unify::Graph, out: TyVar, result: Option<Prim>) -> crate::unify::Graph {
    unified(grown(g, result_info(result)), out, TyVar(g.infos.len() as usize)).0
}

/// The failures `errors` and, after them, the failure of making `a` and `b` equal in
/// the graph `g`, if they cannot be.
pub open spec fn errors_after(
    errors: Seq<InferError>,
    g: crate::unify::Graph,
    a: TyVar,
    b: TyVar,
    blame: Span,
    spans: Seq<Span>,
) -> Seq<InferError> {
    match unified(g, a, b).1 {
        Some(f) => errors.push(infer_error(unify_error(f, a, b, blame, spans))),
        None => errors,
    }
}

} // verus!
