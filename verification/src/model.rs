//! The inference of types as a mathematical function of the state of inference.
//!
//! The state holds the graph of the variables, the places that introduced them, the
//! failures that are recorded, the names in scope, the operators that are pending,
//! and the references to generic definitions. Each step of the inference is a
//! function from a state to the state after it.

use crate::data::Datas;
use crate::def::{def_at, Def, DefId};
use crate::hir::{Arm, DefDecl, Expr, ExprKind, PatKind, Pattern, SrcNode};
use crate::infer::{
    errors_after, paired, scope_find, solved, Engine, InferError, Pending, Solving,
};
use crate::ops::literal_prim;
use crate::reify::{made, made_all};
use crate::span::{Ident, Span};
use crate::ty::{extends, GenScopeId, TyId, TyView};
use crate::unify::{root, unified, Graph, InfoView, TyVar};
use crate::vars::grown;
use vstd::prelude::*;

verus! {

/// The state of inference, as a mathematical value.
pub struct Infer {
    pub graph: Graph,
    pub spans: Seq<Span>,
    pub errors: Seq<InferError>,
    pub scope: Seq<(Ident, TyVar)>,
    pub pending: Seq<Pending>,
    pub origins: Seq<(TyVar, Span)>,
}

impl Engine {
    /// The state of inference.
    pub open spec fn state(&self) -> Infer {
        Infer {
            graph: self.vars.graph(),
            spans: self.vars.spans(),
            errors: self.errors@,
            scope: self.scope@,
            pending: self.pending@,
            origins: self.origins@,
        }
    }
}

/// The variable that the state `s` introduces next.
pub open spec fn next_var(s: Infer) -> TyVar {
    TyVar(s.graph.infos.len() as usize)
}

/// The state `s` with one variable more, of which `info` is known and which was
/// introduced at `span`.
pub open spec fn ins(s: Infer, info: InfoView, span: Span) -> Infer {
    Infer { graph: grown(s.graph, info), spans: s.spans.push(span), ..s }
}

/// The state `s` with the failure `e` recorded, and a variable more that is the
/// error type.
pub open spec fn failed(s: Infer, e: InferError, span: Span) -> Infer {
    ins(Infer { errors: s.errors.push(e), ..s }, InfoView::Error, span)
}

/// The state `s` after the types of `a` and `b` were made equal; a failure to do so
/// is recorded, with `blame` as the place that asked for it.
pub open spec fn eq(s: Infer, a: TyVar, b: TyVar, blame: Span) -> Infer {
    Infer {
        graph: unified(s.graph, a, b).0,
        errors: errors_after(s.errors, s.graph, a, b, blame, s.spans),
        ..s
    }
}

/// The state `s` with `n` new variables for the generic parameters of a definition
/// that is referred to at `span`, and those variables.
pub open spec fn gens_m(s: Infer, n: nat, span: Span) -> (Infer, Seq<TyVar>)
    decreases n,
{
    if n == 0 {
        (s, Seq::empty())
    } else {
        let p = gens_m(s, (n - 1) as nat, span);
        let v = next_var(p.0);
        let t = ins(p.0, InfoView::Unknown, span);
        (Infer { origins: t.origins.push((v, span)), ..t }, p.1.push(v))
    }
}

/// The state `s` with a new variable for the type `id` of the store `tys`, with the
/// variables `gens` in place of the generic parameters of the list `scope`; and
/// that variable.
pub open spec fn inst_m(
    s: Infer,
    tys: Seq<TyView>,
    id: TyId,
    scope: GenScopeId,
    gens: Seq<TyVar>,
    span: Span,
) -> (Infer, TyVar) {
    let m = made(s.graph, s.spans, tys, id, scope, gens, span);
    (Infer { graph: m.0, spans: m.1, ..s }, m.2)
}

/// The state `s` with variables for the first `k` of `count` fields of a
/// constructor with the fields `fields`: a field of the constructor gets a variable
/// for its type, a field beyond them a variable of which nothing is known.
pub open spec fn fields_m(
    s: Infer,
    tys: Seq<TyView>,
    fields: Seq<TyId>,
    scope: GenScopeId,
    gens: Seq<TyVar>,
    span: Span,
    k: nat,
) -> (Infer, Seq<TyVar>)
    decreases k,
{
    if k == 0 {
        (s, Seq::empty())
    } else {
        let p = fields_m(s, tys, fields, scope, gens, span, (k - 1) as nat);
        let x = if k - 1 < fields.len() {
            inst_m(p.0, tys, fields[k - 1], scope, gens, span)
        } else {
            (ins(p.0, InfoView::Unknown, span), next_var(p.0))
        };
        (x.0, p.1.push(x.1))
    }
}

/// The state `s` with the variables for the constructor `name` applied to `count`
/// fields at `span`; the variable of the data type; and the variables of the
/// fields. A constructor that is not declared, or that has another number of fields,
/// is recorded as a failure.
pub open spec fn cons_m(
    s: Infer,
    tys: Seq<TyView>,
    datas: Datas,
    name: SrcNode<Ident>,
    count: usize,
    span: Span,
) -> (Infer, TyVar, Seq<TyVar>) {
    match datas.cons_of(name.inner) {
        None => {
            let f = failed(s, InferError::NoSuchCons(name), span);
            let g = gens_m(f, count as nat, span);
            (g.0, next_var(s), g.1)
        },
        Some(ci) => {
            let cons = datas.conses()[ci];
            let data = datas.datas()[cons.data.0 as int];
            let g = gens_m(s, datas.scopes()[data.gen_scope.0 as int].len(), span);
            let e = if cons.fields@.len() != count {
                Infer {
                    errors: g.0.errors.push(
                        InferError::WrongNumberOfParams(
                            span,
                            count,
                            cons.span,
                            cons.fields@.len() as usize,
                        ),
                    ),
                    ..g.0
                }
            } else {
                g.0
            };
            let f = fields_m(e, tys, cons.fields@, data.gen_scope, g.1, span, count as nat);
            (ins(f.0, InfoView::Data(cons.data, g.1), span), next_var(f.0), f.1)
        },
    }
}

/// The state `s` after the type of each of the first `n` variables of `a` was made
/// equal to that of `b`, in their order.
pub open spec fn each_eq_m(s: Infer, a: Seq<TyVar>, b: TyVar, blame: Span, n: nat) -> Infer
    decreases n,
{
    if n == 0 || n > a.len() {
        s
    } else {
        eq(each_eq_m(s, a, b, blame, (n - 1) as nat), a[n - 1], b, blame)
    }
}

/// The state `s` after the type of each of the first `n` variables of `a` was made
/// equal to that of the variable of `b` at its position, in their order.
pub open spec fn all_eq_m(s: Infer, a: Seq<TyVar>, b: Seq<TyVar>, blame: Span, n: nat) -> Infer
    decreases n,
{
    if n == 0 || n > a.len() || n > b.len() {
        s
    } else {
        eq(all_eq_m(s, a, b, blame, (n - 1) as nat), a[n - 1], b[n - 1], blame)
    }
}

/// The inference of a pattern: the state after it, the variable of the pattern, and
/// the variables of its nodes in the order in which their types are settled. The
/// name of the pattern, if it has one, comes into scope with the variable of the
/// pattern.
pub open spec fn pat_m(s: Infer, tys: Seq<TyView>, datas: Datas, p: Pattern) -> (
    Infer,
    TyVar,
    Seq<TyVar>,
)
    decreases p, 1nat,
{
    let r = pat_kind_m(s, tys, datas, p.kind, p.span);
    let bound = match p.name {
        Some(name) => Infer { scope: r.0.scope.push((name, r.1)), ..r.0 },
        None => r.0,
    };
    (bound, r.1, seq![r.1] + r.2)
}

/// The inference of what a pattern of the kind `kind` at `span` is made of: the
/// state after it, the variable of the pattern, and the variables of the nodes
/// inside it.
///
/// The parts come first. A literal is of its primitive type, a tuple the tuple of
/// the types of its parts, a list a list of items of one type; the rest of a list is
/// of the type of the list; a constructor is of its data type, and its fields are of
/// the types of the fields of the constructor.
pub open spec fn pat_kind_m(s: Infer, tys: Seq<TyView>, datas: Datas, kind: PatKind, span: Span) -> (
    Infer,
    TyVar,
    Seq<TyVar>,
)
    decreases kind, 0nat,
{
    match kind {
        PatKind::Wildcard => (ins(s, InfoView::Unknown, span), next_var(s), Seq::empty()),
        PatKind::Literal(l) => (
            ins(s, InfoView::Prim(literal_prim(l)), span),
            next_var(s),
            Seq::empty(),
        ),
        PatKind::Tuple(items) => {
            let m = pats_m(s, tys, datas, items@, items@.len());
            (ins(m.0, InfoView::Tuple(m.1), span), next_var(m.0), m.2)
        },
        PatKind::ListExact(items) => {
            let m = pats_m(s, tys, datas, items@, items@.len());
            let item = next_var(m.0);
            let t = each_eq_m(ins(m.0, InfoView::Unknown, span), m.1, item, span, m.1.len());
            (ins(t, InfoView::List(item), span), next_var(t), m.2)
        },
        PatKind::ListFront(items, tail) => {
            let m = pats_m(s, tys, datas, items@, items@.len());
            let item = next_var(m.0);
            let t = each_eq_m(ins(m.0, InfoView::Unknown, span), m.1, item, span, m.1.len());
            let v = next_var(t);
            let u = ins(t, InfoView::List(item), span);
            match tail {
                Some(rest) => {
                    let r = pat_m(u, tys, datas, *rest);
                    (eq(r.0, r.1, v, span), v, m.2 + r.2)
                },
                None => (u, v, m.2),
            }
        },
        PatKind::Cons(name, fields) => {
            let m = pats_m(s, tys, datas, fields@, fields@.len());
            let c = cons_m(m.0, tys, datas, name, fields@.len() as usize, span);
            (all_eq_m(c.0, m.1, c.2, span, paired(m.1, c.2)), c.1, m.2)
        },
    }
}

/// The inference of the first `n` patterns of `ps`, one after the other: the state
/// after it, the variables of the patterns, and the variables of their nodes.
pub open spec fn pats_m(s: Infer, tys: Seq<TyView>, datas: Datas, ps: Seq<Pattern>, n: nat) -> (
    Infer,
    Seq<TyVar>,
    Seq<TyVar>,
)
    decreases ps, n,
{
    if n == 0 || n > ps.len() {
        (s, Seq::empty(), Seq::empty())
    } else {
        let m = pats_m(s, tys, datas, ps, (n - 1) as nat);
        let r = pat_m(m.0, tys, datas, ps[n - 1]);
        (r.0, m.1.push(r.1), m.2 + r.2)
    }
}

/// The inference of an expression: the state after it, the variable of the
/// expression, and the variables of its nodes in the order in which their types are
/// settled.
pub open spec fn expr_m(s: Infer, tys: Seq<TyView>, datas: Datas, defs: Seq<Def>, e: Expr) -> (
    Infer,
    TyVar,
    Seq<TyVar>,
)
    decreases e, 1nat,
{
    let r = expr_kind_m(s, tys, datas, defs, e.kind, e.span);
    (r.0, r.1, seq![r.1] + r.2)
}

/// The inference of what an expression of the kind `kind` at `span` is made of: the
/// state after it, the variable of the expression, and the variables of the nodes
/// inside it.
///
/// The parts come first. A name stands for the innermost variable of that name in
/// scope; a reference to a definition for its type, with new variables for its
/// generic parameters; a name that is not there, and a definition whose type is not
/// known, is recorded as a failure. A field of a tuple has the type of that part of
/// the tuple; where the type is not known to be a tuple with that part, a failure is
/// recorded. An operator is left pending, with a new variable for its result; the
/// operands of a binary operator are of one type. A function is a function from the
/// type of its parameter to the type of its body; what is applied must be a function
/// from the type of the argument. A match without arms is recorded as a failure.
pub open spec fn expr_kind_m(
    s: Infer,
    tys: Seq<TyView>,
    datas: Datas,
    defs: Seq<Def>,
    kind: ExprKind,
    span: Span,
) -> (Infer, TyVar, Seq<TyVar>)
    decreases kind, 0nat,
{
    match kind {
        ExprKind::Error => (ins(s, InfoView::Error, span), next_var(s), Seq::empty()),
        ExprKind::Literal(l) => (
            ins(s, InfoView::Prim(literal_prim(l)), span),
            next_var(s),
            Seq::empty(),
        ),
        ExprKind::Local(name) => match scope_find(s.scope, name) {
            Some(v) => (s, v, Seq::empty()),
            None => (
                failed(s, InferError::NoSuchLocal(SrcNode { inner: name, span }), span),
                next_var(s),
                Seq::empty(),
            ),
        },
        ExprKind::Global(name) => match def_at(defs, name) {
            None => (
                failed(s, InferError::NoSuchLocal(SrcNode { inner: name, span }), span),
                next_var(s),
                Seq::empty(),
            ),
            Some(id) => {
                let def = defs[id.0 as int];
                match def.ty {
                    Some(t) => {
                        let g = gens_m(s, datas.scopes()[def.gen_scope.0 as int].len(), span);
                        let i = inst_m(g.0, tys, t, def.gen_scope, g.1, span);
                        (i.0, i.1, Seq::empty())
                    },
                    None => (
                        failed(s, InferError::DefTypeNotSpecified(def.span, span, name), span),
                        next_var(s),
                        Seq::empty(),
                    ),
                }
            },
        },
        ExprKind::Tuple(items) => {
            let m = exprs_m(s, tys, datas, defs, items@, items@.len());
            (ins(m.0, InfoView::Tuple(m.1), span), next_var(m.0), m.2)
        },
        ExprKind::List(items) => {
            let m = exprs_m(s, tys, datas, defs, items@, items@.len());
            let item = next_var(m.0);
            let t = each_eq_m(ins(m.0, InfoView::Unknown, span), m.1, item, span, m.1.len());
            (ins(t, InfoView::List(item), span), next_var(t), m.2)
        },
        ExprKind::Cons(name, fields) => {
            let m = exprs_m(s, tys, datas, defs, fields@, fields@.len());
            let c = cons_m(m.0, tys, datas, name, fields@.len() as usize, span);
            (all_eq_m(c.0, m.1, c.2, span, paired(m.1, c.2)), c.1, m.2)
        },
        ExprKind::Access(tuple, field) => {
            let r = expr_m(s, tys, datas, defs, *tuple);
            let e = InferError::NoSuchField(
                r.1,
                SrcNode { inner: field.inner.name, span: field.span },
            );
            match r.0.graph.infos[root(r.0.graph, r.1).0 as int] {
                InfoView::Tuple(xs) => if field.inner.index < xs.len() {
                    (r.0, xs[field.inner.index as int], r.2)
                } else {
                    (failed(r.0, e, span), next_var(r.0), r.2)
                },
                _ => (failed(r.0, e, span), next_var(r.0), r.2),
            }
        },
        ExprKind::Unary(op, operand) => {
            let r = expr_m(s, tys, datas, defs, *operand);
            let v = next_var(r.0);
            let t = ins(r.0, InfoView::Unknown, span);
            (
                Infer { pending: t.pending.push(Pending::Unary(op, r.1, operand.span, v)), ..t },
                v,
                r.2,
            )
        },
        ExprKind::Binary(op, left, right) => {
            let a = expr_m(s, tys, datas, defs, *left);
            let b = expr_m(a.0, tys, datas, defs, *right);
            let t = eq(b.0, a.1, b.1, op.span);
            let v = next_var(t);
            let u = ins(t, InfoView::Unknown, span);
            (
                Infer {
                    pending: u.pending.push(
                        Pending::Binary(op, a.1, left.span, b.1, right.span, v),
                    ),
                    ..u
                },
                v,
                a.2 + b.2,
            )
        },
        ExprKind::Func(param, body) => {
            let pv = next_var(s);
            let t = ins(s, InfoView::Unknown, param.span);
            let r = expr_m(
                Infer { scope: t.scope.push((param.inner, pv)), ..t },
                tys,
                datas,
                defs,
                *body,
            );
            let back = Infer { scope: s.scope, ..r.0 };
            (ins(back, InfoView::Func(pv, r.1), span), next_var(back), r.2)
        },
        ExprKind::Apply(f, arg) => {
            let a = expr_m(s, tys, datas, defs, *f);
            let b = expr_m(a.0, tys, datas, defs, *arg);
            let v = next_var(b.0);
            let t = ins(b.0, InfoView::Unknown, span);
            let wanted = next_var(t);
            (eq(ins(t, InfoView::Func(b.1, v), span), a.1, wanted, span), v, a.2 + b.2)
        },
        ExprKind::Match(matched, arms) => {
            let r = expr_m(s, tys, datas, defs, *matched);
            let v = next_var(r.0);
            let t = if arms@.len() == 0 {
                failed(r.0, InferError::NoBranches(span), span)
            } else {
                ins(r.0, InfoView::Unknown, span)
            };
            let count = if arms@.len() == 0 {
                0usize
            } else {
                arms@[0].params@.len() as usize
            };
            let place = if arms@.len() == 0 {
                span
            } else {
                arms@[0].span
            };
            let m = arms_m(t, tys, datas, defs, arms@, r.1, v, count, place, arms@.len());
            (m.0, v, r.2 + m.1)
        },
    }
}

/// The inference of the first `n` expressions of `es`, one after the other: the
/// state after it, the variables of the expressions, and the variables of their
/// nodes.
pub open spec fn exprs_m(
    s: Infer,
    tys: Seq<TyView>,
    datas: Datas,
    defs: Seq<Def>,
    es: Seq<Expr>,
    n: nat,
) -> (Infer, Seq<TyVar>, Seq<TyVar>)
    decreases es, n,
{
    if n == 0 || n > es.len() {
        (s, Seq::empty(), Seq::empty())
    } else {
        let m = exprs_m(s, tys, datas, defs, es, (n - 1) as nat);
        let r = expr_m(m.0, tys, datas, defs, es[n - 1]);
        (r.0, m.1.push(r.1), m.2 + r.2)
    }
}

/// The inference of the first `n` arms of a match, one after the other: the state
/// after it, and the variables of their nodes. The patterns of an arm must fit the
/// value `matched`, one pattern as it is and more as a tuple, and its body the
/// result `result`; an arm with another number of patterns than `count` is recorded
/// as a failure, with `first` as the place of the first arm, and its patterns get the
/// error type. The names of the patterns are in scope in the body only.
pub open spec fn arms_m(
    s: Infer,
    tys: Seq<TyView>,
    datas: Datas,
    defs: Seq<Def>,
    arms: Seq<Arm>,
    matched: TyVar,
    result: TyVar,
    count: usize,
    first: Span,
    n: nat,
) -> (Infer, Seq<TyVar>)
    decreases arms, n,
{
    if n == 0 || n > arms.len() {
        (s, Seq::empty())
    } else {
        let m = arms_m(s, tys, datas, defs, arms, matched, result, count, first, (n - 1) as nat);
        let arm = arms[n - 1];
        let p = pats_m(m.0, tys, datas, arm.params@, arm.params@.len());
        let fitted = if arm.params@.len() == count {
            if count == 1 {
                eq(p.0, matched, p.1[0], arm.span)
            } else {
                eq(ins(p.0, InfoView::Tuple(p.1), arm.span), matched, next_var(p.0), arm.span)
            }
        } else {
            each_eq_m(
                failed(
                    p.0,
                    InferError::WrongNumberOfParams(
                        first,
                        count,
                        arm.span,
                        arm.params@.len() as usize,
                    ),
                    arm.span,
                ),
                p.1,
                next_var(p.0),
                arm.span,
                p.1.len(),
            )
        };
        let b = expr_m(fitted, tys, datas, defs, arm.body);
        let e = eq(b.0, b.1, result, arm.body.span);
        (Infer { scope: m.0.scope, ..e }, m.1 + p.2 + b.2)
    }
}

/// The state in which the inference of a definition starts: nothing is known.
pub open spec fn start_m() -> Infer {
    Infer {
        graph: Graph { infos: Seq::empty(), rank: Seq::empty() },
        spans: Seq::empty(),
        errors: Seq::empty(),
        scope: Seq::empty(),
        pending: Seq::empty(),
        origins: Seq::empty(),
    }
}

/// The state `s` after the pending operators were settled.
pub open spec fn solved_m(s: Infer) -> Infer {
    let r = solved(Solving { graph: s.graph, spans: s.spans, errors: s.errors, pending: s.pending });
    Infer { graph: r.graph, spans: r.spans, errors: r.errors, pending: r.pending, ..s }
}

/// The inference of the definition `id` of the registry `defs`, which is declared
/// as `decl`: the state after it, the variable of the body, and the variables of the
/// nodes of the body. The body is inferred from nothing; where the definition is
/// said to have a type, the body must have that type; then the pending operators
/// are settled.
pub open spec fn def_m(
    tys: Seq<TyView>,
    datas: Datas,
    defs: Seq<Def>,
    decl: DefDecl,
    id: DefId,
) -> (Infer, TyVar, Seq<TyVar>) {
    let b = expr_m(start_m(), tys, datas, defs, decl.body);
    let def = defs[id.0 as int];
    let hinted = match def.hint {
        Some(hint) => if hint.0 < tys.len() {
            let i = inst_m(b.0, tys, hint, def.gen_scope, Seq::empty(), decl.span);
            eq(i.0, b.1, i.1, decl.span)
        } else {
            b.0
        },
        None => b.0,
    };
    (solved_m(hinted), b.1, b.2)
}

/// Whether every type of a field of a constructor of the registry is below `n`.
pub open spec fn fields_known(datas: Datas, n: nat) -> bool {
    forall|c: int, k: int|
        0 <= c < datas.conses().len() && 0 <= k < datas.conses()[c].fields@.len() ==> (
        #[trigger] datas.conses()[c].fields@[k]).0 < n
}

/// Whether every type that the definitions `defs` have or are said to have is below
/// `n`.
pub open spec fn defs_known(defs: Seq<Def>, n: nat) -> bool {
    &&& defs.len() <= usize::MAX
    &&& forall|d: int|
        0 <= d < defs.len() ==> (match (#[trigger] defs[d]).ty {
            Some(t) => t.0 < n,
            None => true,
        }) && (match defs[d].hint {
            Some(t) => t.0 < n,
            None => true,
        })
}

/// Making a variable for a type reads the store up to that type only.
pub proof fn lemma_made_same(
    g: Graph,
    spans: Seq<Span>,
    a: Seq<TyView>,
    b: Seq<TyView>,
    id: TyId,
    scope: GenScopeId,
    gens: Seq<TyVar>,
    span: Span,
)
    requires
        extends(a, b),
        id.0 < a.len(),
    ensures
        made(g, spans, a, id, scope, gens, span) == made(g, spans, b, id, scope, gens, span),
    decreases id.0, 1nat, 0nat,
{
    assert(a[id.0 as int] == b[id.0 as int]);
    match a[id.0 as int] {
        TyView::List(item) => {
            if item.0 < id.0 {
                lemma_made_same(g, spans, a, b, item, scope, gens, span);
            }
        },
        TyView::Func(i, o) => {
            if i.0 < id.0 && o.0 < id.0 {
                lemma_made_same(g, spans, a, b, i, scope, gens, span);
                let x = made(g, spans, a, i, scope, gens, span);
                lemma_made_same(x.0, x.1, a, b, o, scope, gens, span);
            }
        },
        TyView::Tuple(fields) => {
            lemma_made_all_same(g, spans, a, b, fields, id.0 as nat, scope, gens, span, fields.len());
        },
        TyView::Data(_, args) => {
            lemma_made_all_same(g, spans, a, b, args, id.0 as nat, scope, gens, span, args.len());
        },
        _ => {},
    }
}

/// Making variables for types reads the store up to those types only.
pub proof fn lemma_made_all_same(
    g: Graph,
    spans: Seq<Span>,
    a: Seq<TyView>,
    b: Seq<TyView>,
    ids: Seq<TyId>,
    limit: nat,
    scope: GenScopeId,
    gens: Seq<TyVar>,
    span: Span,
    n: nat,
)
    requires
        extends(a, b),
        limit <= a.len(),
    ensures
        made_all(g, spans, a, ids, limit, scope, gens, span, n) == made_all(
            g,
            spans,
            b,
            ids,
            limit,
            scope,
            gens,
            span,
            n,
        ),
    decreases limit, 0nat, n,
{
    if n > 0 && n <= ids.len() {
        lemma_made_all_same(g, spans, a, b, ids, limit, scope, gens, span, (n - 1) as nat);
        let m = made_all(g, spans, a, ids, limit, scope, gens, span, (n - 1) as nat);
        if ids[n - 1].0 < limit {
            lemma_made_same(m.0, m.1, a, b, ids[n - 1], scope, gens, span);
        }
    }
}

/// The variables for the fields of a constructor are the same in a store that
/// extends the store.
pub proof fn lemma_fields_same(
    s: Infer,
    a: Seq<TyView>,
    b: Seq<TyView>,
    fields: Seq<TyId>,
    scope: GenScopeId,
    gens: Seq<TyVar>,
    span: Span,
    k: nat,
)
    requires
        extends(a, b),
        forall|f: int| 0 <= f < fields.len() ==> (#[trigger] fields[f]).0 < a.len(),
    ensures
        fields_m(s, a, fields, scope, gens, span, k) == fields_m(s, b, fields, scope, gens, span, k),
    decreases k,
{
    if k > 0 {
        lemma_fields_same(s, a, b, fields, scope, gens, span, (k - 1) as nat);
        let p = fields_m(s, a, fields, scope, gens, span, (k - 1) as nat);
        if k - 1 < fields.len() {
            assert(fields[k - 1].0 < a.len());
            lemma_made_same(p.0.graph, p.0.spans, a, b, fields[k - 1], scope, gens, span);
        }
    }
}

/// The variables for a constructor are the same in a store that extends the store.
pub proof fn lemma_cons_same(
    s: Infer,
    a: Seq<TyView>,
    b: Seq<TyView>,
    datas: Datas,
    name: SrcNode<Ident>,
    count: usize,
    span: Span,
)
    requires
        extends(a, b),
        datas.wf(),
        fields_known(datas, a.len()),
    ensures
        cons_m(s, a, datas, name, count, span) == cons_m(s, b, datas, name, count, span),
{
    match datas.cons_of(name.inner) {
        None => {},
        Some(ci) => {
            let cons = datas.conses()[ci];
            let data = datas.datas()[cons.data.0 as int];
            let g = gens_m(s, datas.scopes()[data.gen_scope.0 as int].len(), span);
            let e = if cons.fields@.len() != count {
                Infer {
                    errors: g.0.errors.push(
                        InferError::WrongNumberOfParams(
                            span,
                            count,
                            cons.span,
                            cons.fields@.len() as usize,
                        ),
                    ),
                    ..g.0
                }
            } else {
                g.0
            };
            assert forall|f: int| 0 <= f < cons.fields@.len() implies (#[trigger] cons.fields@[f]).0
                < a.len() by {
                assert(datas.conses()[ci].fields@[f].0 < a.len());
            }
            lemma_fields_same(e, a, b, cons.fields@, data.gen_scope, g.1, span, count as nat);
        },
    }
}

/// The inference of a pattern is the same in a store that extends the store.
pub proof fn lemma_pat_same(s: Infer, a: Seq<TyView>, b: Seq<TyView>, datas: Datas, p: Pattern)
    requires
        extends(a, b),
        datas.wf(),
        fields_known(datas, a.len()),
    ensures
        pat_m(s, a, datas, p) == pat_m(s, b, datas, p),
    decreases p, 1nat,
{
    lemma_pat_kind_same(s, a, b, datas, p.kind, p.span);
}

/// The inference of what a pattern is made of is the same in a store that extends
/// the store.
pub proof fn lemma_pat_kind_same(
    s: Infer,
    a: Seq<TyView>,
    b: Seq<TyView>,
    datas: Datas,
    kind: PatKind,
    span: Span,
)
    requires
        extends(a, b),
        datas.wf(),
        fields_known(datas, a.len()),
    ensures
        pat_kind_m(s, a, datas, kind, span) == pat_kind_m(s, b, datas, kind, span),
    decreases kind, 0nat,
{
    match kind {
        PatKind::Tuple(items) => {
            lemma_pats_same(s, a, b, datas, items@, items@.len());
        },
        PatKind::ListExact(items) => {
            lemma_pats_same(s, a, b, datas, items@, items@.len());
        },
        PatKind::ListFront(items, tail) => {
            lemma_pats_same(s, a, b, datas, items@, items@.len());
            let m = pats_m(s, a, datas, items@, items@.len());
            let item = next_var(m.0);
            let t = each_eq_m(ins(m.0, InfoView::Unknown, span), m.1, item, span, m.1.len());
            let u = ins(t, InfoView::List(item), span);
            match tail {
                Some(rest) => {
                    lemma_pat_same(u, a, b, datas, *rest);
                },
                None => {},
            }
        },
        PatKind::Cons(name, fields) => {
            lemma_pats_same(s, a, b, datas, fields@, fields@.len());
            let m = pats_m(s, a, datas, fields@, fields@.len());
            lemma_cons_same(m.0, a, b, datas, name, fields@.len() as usize, span);
        },
        _ => {},
    }
}

/// The inference of patterns is the same in a store that extends the store.
pub proof fn lemma_pats_same(
    s: Infer,
    a: Seq<TyView>,
    b: Seq<TyView>,
    datas: Datas,
    ps: Seq<Pattern>,
    n: nat,
)
    requires
        extends(a, b),
        datas.wf(),
        fields_known(datas, a.len()),
    ensures
        pats_m(s, a, datas, ps, n) == pats_m(s, b, datas, ps, n),
    decreases ps, n,
{
    if n > 0 && n <= ps.len() {
        lemma_pats_same(s, a, b, datas, ps, (n - 1) as nat);
        let m = pats_m(s, a, datas, ps, (n - 1) as nat);
        lemma_pat_same(m.0, a, b, datas, ps[n - 1]);
    }
}

/// The inference of an expression is the same in a store that extends the store.
pub proof fn lemma_expr_same(
    s: Infer,
    a: Seq<TyView>,
    b: Seq<TyView>,
    datas: Datas,
    defs: Seq<Def>,
    e: Expr,
)
    requires
        extends(a, b),
        datas.wf(),
        fields_known(datas, a.len()),
        defs_known(defs, a.len()),
    ensures
        expr_m(s, a, datas, defs, e) == expr_m(s, b, datas, defs, e),
    decreases e, 1nat,
{
    lemma_expr_kind_same(s, a, b, datas, defs, e.kind, e.span);
}

/// The inference of what an expression is made of is the same in a store that
/// extends the store.
pub proof fn lemma_expr_kind_same(
    s: Infer,
    a: Seq<TyView>,
    b: Seq<TyView>,
    datas: Datas,
    defs: Seq<Def>,
    kind: ExprKind,
    span: Span,
)
    requires
        extends(a, b),
        datas.wf(),
        fields_known(datas, a.len()),
        defs_known(defs, a.len()),
    ensures
        expr_kind_m(s, a, datas, defs, kind, span) == expr_kind_m(s, b, datas, defs, kind, span),
    decreases kind, 0nat,
{
    match kind {
        ExprKind::Global(name) => {
            match def_at(defs, name) {
                Some(id) => {
                    let i = choose|i: int| 0 <= i < defs.len() && defs[i].name == name;
                    let def = defs[id.0 as int];
                    {
                        assert(def == defs[i]);
                        match def.ty {
                            Some(t) => {
                                let g = gens_m(
                                    s,
                                    datas.scopes()[def.gen_scope.0 as int].len(),
                                    span,
                                );
                                lemma_made_same(
                                    g.0.graph,
                                    g.0.spans,
                                    a,
                                    b,
                                    t,
                                    def.gen_scope,
                                    g.1,
                                    span,
                                );
                            },
                            None => {},
                        }
                    }
                },
                None => {},
            }
        },
        ExprKind::Tuple(items) => {
            lemma_exprs_same(s, a, b, datas, defs, items@, items@.len());
        },
        ExprKind::List(items) => {
            lemma_exprs_same(s, a, b, datas, defs, items@, items@.len());
        },
        ExprKind::Cons(name, fields) => {
            lemma_exprs_same(s, a, b, datas, defs, fields@, fields@.len());
            let m = exprs_m(s, a, datas, defs, fields@, fields@.len());
            lemma_cons_same(m.0, a, b, datas, name, fields@.len() as usize, span);
        },
        ExprKind::Access(tuple, _) => {
            lemma_expr_same(s, a, b, datas, defs, *tuple);
        },
        ExprKind::Unary(_, operand) => {
            lemma_expr_same(s, a, b, datas, defs, *operand);
        },
        ExprKind::Binary(_, left, right) => {
            lemma_expr_same(s, a, b, datas, defs, *left);
            let x = expr_m(s, a, datas, defs, *left);
            lemma_expr_same(x.0, a, b, datas, defs, *right);
        },
        ExprKind::Func(param, body) => {
            let pv = next_var(s);
            let t = ins(s, InfoView::Unknown, param.span);
            lemma_expr_same(
                Infer { scope: t.scope.push((param.inner, pv)), ..t },
                a,
                b,
                datas,
                defs,
                *body,
            );
        },
        ExprKind::Apply(f, arg) => {
            lemma_expr_same(s, a, b, datas, defs, *f);
            let x = expr_m(s, a, datas, defs, *f);
            lemma_expr_same(x.0, a, b, datas, defs, *arg);
        },
        ExprKind::Match(matched, arms) => {
            lemma_expr_same(s, a, b, datas, defs, *matched);
            let r = expr_m(s, a, datas, defs, *matched);
            let v = next_var(r.0);
            let t = if arms@.len() == 0 {
                failed(r.0, InferError::NoBranches(span), span)
            } else {
                ins(r.0, InfoView::Unknown, span)
            };
            let count = if arms@.len() == 0 {
                0usize
            } else {
                arms@[0].params@.len() as usize
            };
            let place = if arms@.len() == 0 {
                span
            } else {
                arms@[0].span
            };
            lemma_arms_same(t, a, b, datas, defs, arms@, r.1, v, count, place, arms@.len());
        },
        _ => {},
    }
}

/// The inference of expressions is the same in a store that extends the store.
pub proof fn lemma_exprs_same(
    s: Infer,
    a: Seq<TyView>,
    b: Seq<TyView>,
    datas: Datas,
    defs: Seq<Def>,
    es: Seq<Expr>,
    n: nat,
)
    requires
        extends(a, b),
        datas.wf(),
        fields_known(datas, a.len()),
        defs_known(defs, a.len()),
    ensures
        exprs_m(s, a, datas, defs, es, n) == exprs_m(s, b, datas, defs, es, n),
    decreases es, n,
{
    if n > 0 && n <= es.len() {
        lemma_exprs_same(s, a, b, datas, defs, es, (n - 1) as nat);
        let m = exprs_m(s, a, datas, defs, es, (n - 1) as nat);
        lemma_expr_same(m.0, a, b, datas, defs, es[n - 1]);
    }
}

/// The inference of the arms of a match is the same in a store that extends the
/// store.
pub proof fn lemma_arms_same(
    s: Infer,
    a: Seq<TyView>,
    b: Seq<TyView>,
    datas: Datas,
    defs: Seq<Def>,
    arms: Seq<Arm>,
    matched: TyVar,
    result: TyVar,
    count: usize,
    first: Span,
    n: nat,
)
    requires
        extends(a, b),
        datas.wf(),
        fields_known(datas, a.len()),
        defs_known(defs, a.len()),
    ensures
        arms_m(s, a, datas, defs, arms, matched, result, count, first, n) == arms_m(
            s,
            b,
            datas,
            defs,
            arms,
            matched,
            result,
            count,
            first,
            n,
        ),
    decreases arms, n,
{
    if n > 0 && n <= arms.len() {
        lemma_arms_same(s, a, b, datas, defs, arms, matched, result, count, first, (n - 1) as nat);
        let m = arms_m(s, a, datas, defs, arms, matched, result, count, first, (n - 1) as nat);
        let arm = arms[n - 1];
        lemma_pats_same(m.0, a, b, datas, arm.params@, arm.params@.len());
        let p = pats_m(m.0, a, datas, arm.params@, arm.params@.len());
        let fitted = if arm.params@.len() == count {
            if count == 1 {
                eq(p.0, matched, p.1[0], arm.span)
            } else {
                eq(ins(p.0, InfoView::Tuple(p.1), arm.span), matched, next_var(p.0), arm.span)
            }
        } else {
            each_eq_m(
                failed(
                    p.0,
                    InferError::WrongNumberOfParams(
                        first,
                        count,
                        arm.span,
                        arm.params@.len() as usize,
                    ),
                    arm.span,
                ),
                p.1,
                next_var(p.0),
                arm.span,
                p.1.len(),
            )
        };
        lemma_expr_same(fitted, a, b, datas, defs, arm.body);
    }
}

/// The inference of a definition is the same in a store that extends the store.
pub proof fn lemma_def_same(
    a: Seq<TyView>,
    b: Seq<TyView>,
    datas: Datas,
    defs: Seq<Def>,
    decl: DefDecl,
    id: DefId,
)
    requires
        extends(a, b),
        datas.wf(),
        fields_known(datas, a.len()),
        defs_known(defs, a.len()),
        id.0 < defs.len(),
    ensures
        def_m(a, datas, defs, decl, id) == def_m(b, datas, defs, decl, id),
{
    lemma_expr_same(start_m(), a, b, datas, defs, decl.body);
    let x = expr_m(start_m(), a, datas, defs, decl.body);
    let def = defs[id.0 as int];
    match def.hint {
        Some(hint) => {
            assert(hint.0 < a.len());
            lemma_made_same(x.0.graph, x.0.spans, a, b, hint, def.gen_scope, Seq::empty(), decl.span);
        },
        None => {},
    }
}

} // verus!
