//! The tree that the analysis works on.

use crate::data::Named;
use crate::span::{Ident, Span};
use crate::ty::{Prim, TyId};
use crate::unify::TyVar;
use vstd::prelude::*;

verus! {

/// A value together with the place in the source that it was written at.
#[derive(Clone, Copy, Debug, PartialEq, Eq)]
pub struct SrcNode<T> {
    pub inner: T,
    pub span: Span,
}

/// An operator with one operand.
#[derive(Clone, Copy, Debug, PartialEq, Eq, Structural)]
pub enum UnaryOp {
    Neg,
    Not,
}

/// An operator with two operands.
#[derive(Clone, Copy, Debug, PartialEq, Eq, Structural)]
pub enum BinaryOp {
    Add,
    Sub,
    Mul,
    Div,
    Rem,
    Eq,
    NotEq,
    Less,
    LessEq,
    More,
    MoreEq,
    And,
    Or,
    Join,
}

/// The sign that a unary operator is written with.
pub open spec fn unary_text(op: UnaryOp) -> Seq<char> {
    match op {
        UnaryOp::Neg => "-"@,
        UnaryOp::Not => "!"@,
    }
}

/// The name of a unary operator.
pub open spec fn unary_name(op: UnaryOp) -> Seq<char> {
    match op {
        UnaryOp::Neg => "Neg"@,
        UnaryOp::Not => "Not"@,
    }
}

/// The sign that a binary operator is written with.
pub open spec fn binary_text(op: BinaryOp) -> Seq<char> {
    match op {
        BinaryOp::Add => "+"@,
        BinaryOp::Sub => "-"@,
        BinaryOp::Mul => "*"@,
        BinaryOp::Div => "/"@,
        BinaryOp::Rem => "%"@,
        BinaryOp::Eq => "="@,
        BinaryOp::NotEq => "!="@,
        BinaryOp::Less => "<"@,
        BinaryOp::LessEq => "<="@,
        BinaryOp::More => ">"@,
        BinaryOp::MoreEq => ">="@,
        BinaryOp::And => "and"@,
        BinaryOp::Or => "or"@,
        BinaryOp::Join => "++"@,
    }
}

/// The name of a binary operator.
pub open spec fn binary_name(op: BinaryOp) -> Seq<char> {
    match op {
        BinaryOp::Add => "Add"@,
        BinaryOp::Sub => "Sub"@,
        BinaryOp::Mul => "Mul"@,
        BinaryOp::Div => "Div"@,
        BinaryOp::Rem => "Rem"@,
        BinaryOp::Eq => "Eq"@,
        BinaryOp::NotEq => "NotEq"@,
        BinaryOp::Less => "Less"@,
        BinaryOp::LessEq => "LessEq"@,
        BinaryOp::More => "More"@,
        BinaryOp::MoreEq => "MoreEq"@,
        BinaryOp::And => "And"@,
        BinaryOp::Or => "Or"@,
        BinaryOp::Join => "Join"@,
    }
}

impl UnaryOp {
    /// The sign that the operator is written with.
    pub fn sign(self) -> (s: &'static str)
        ensures
            s@ == unary_text(self),
    {
        match self {
            UnaryOp::Neg => "-",
            UnaryOp::Not => "!",
        }
    }

    /// The name of the operator.
    pub fn name(self) -> (s: &'static str)
        ensures
            s@ == unary_name(self),
    {
        match self {
            UnaryOp::Neg => "Neg",
            UnaryOp::Not => "Not",
        }
    }
}

impl BinaryOp {
    /// The sign that the operator is written with.
    pub fn sign(self) -> (s: &'static str)
        ensures
            s@ == binary_text(self),
    {
        match self {
            BinaryOp::Add => "+",
            BinaryOp::Sub => "-",
            BinaryOp::Mul => "*",
            BinaryOp::Div => "/",
            BinaryOp::Rem => "%",
            BinaryOp::Eq => "=",
            BinaryOp::NotEq => "!=",
            BinaryOp::Less => "<",
            BinaryOp::LessEq => "<=",
            BinaryOp::More => ">",
            BinaryOp::MoreEq => ">=",
            BinaryOp::And => "and",
            BinaryOp::Or => "or",
            BinaryOp::Join => "++",
        }
    }

    /// The name of the operator.
    pub fn name(self) -> (s: &'static str)
        ensures
            s@ == binary_name(self),
    {
        match self {
            BinaryOp::Add => "Add",
            BinaryOp::Sub => "Sub",
            BinaryOp::Mul => "Mul",
            BinaryOp::Div => "Div",
            BinaryOp::Rem => "Rem",
            BinaryOp::Eq => "Eq",
            BinaryOp::NotEq => "NotEq",
            BinaryOp::Less => "Less",
            BinaryOp::LessEq => "LessEq",
            BinaryOp::More => "More",
            BinaryOp::MoreEq => "MoreEq",
            BinaryOp::And => "And",
            BinaryOp::Or => "Or",
            BinaryOp::Join => "Join",
        }
    }
}

/// A type as it is written in the source.
#[derive(Debug, PartialEq, Eq)]
pub enum TypeKind {
    Prim(Prim),
    List(Box<TypeExpr>),
    Tuple(Vec<TypeExpr>),
    Func(Box<TypeExpr>, Box<TypeExpr>),
    /// A generic parameter, a data type or an alias, by its name, with arguments.
    Named(Ident, Vec<TypeExpr>),
}

/// A type as it is written in the source, with the place it is written at.
#[derive(Debug, PartialEq, Eq)]
pub struct TypeExpr {
    pub kind: TypeKind,
    pub span: Span,
}

/// The declaration of a constructor of a data type.
#[derive(Debug, PartialEq, Eq)]
pub struct VariantDecl {
    pub name: Ident,
    pub span: Span,
    pub fields: Vec<TypeExpr>,
}

/// The declaration of a data type.
#[derive(Debug, PartialEq, Eq)]
pub struct DataDecl {
    pub name: Ident,
    pub span: Span,
    pub gens: Vec<Named>,
    pub variants: Vec<VariantDecl>,
}

/// The declaration of a type alias.
#[derive(Debug, PartialEq, Eq)]
pub struct AliasDecl {
    pub name: Ident,
    pub span: Span,
    pub gens: Vec<Named>,
    pub ty: TypeExpr,
}

/// The declaration of a definition: its name, its generic parameters, the type it is
/// said to have, if any, and its body.
#[derive(Debug, PartialEq, Eq)]
pub struct DefDecl {
    pub name: Ident,
    pub span: Span,
    pub gens: Vec<Named>,
    pub hint: Option<TypeExpr>,
    pub body: Expr,
}

/// A program: its declarations.
#[derive(Debug, PartialEq, Eq)]
pub struct Program {
    pub datas: Vec<DataDecl>,
    pub aliases: Vec<AliasDecl>,
    pub defs: Vec<DefDecl>,
}

/// The place of a node for its type: empty at first, then an inference variable, at
/// last a type.
#[derive(Clone, Copy, Debug, PartialEq, Eq, Structural)]
pub enum TySlot {
    Unbound,
    Var(TyVar),
    Known(TyId),
}

/// A literal value.
#[derive(Clone, Copy, Debug, PartialEq, Eq, Structural)]
pub enum Literal {
    Bool(bool),
    Nat(u64),
    Int(i64),
    Char(char),
}

/// A field of a tuple, as it is written and as the position it stands for.
#[derive(Clone, Copy, Debug, PartialEq, Eq, Structural)]
pub struct Field {
    pub name: Ident,
    pub index: usize,
}

/// The shape that a pattern asks of a value.
#[derive(Debug, PartialEq, Eq)]
pub enum PatKind {
    Wildcard,
    Literal(Literal),
    Tuple(Vec<Pattern>),
    /// A list of exactly these items.
    ListExact(Vec<Pattern>),
    /// A list that starts with these items; the pattern after them is for the rest.
    ListFront(Vec<Pattern>, Option<Box<Pattern>>),
    /// A constructor applied to patterns for its fields.
    Cons(SrcNode<Ident>, Vec<Pattern>),
}

/// A pattern, with the name that the matched value is bound to, if any.
#[derive(Debug, PartialEq, Eq)]
pub struct Pattern {
    pub kind: PatKind,
    pub name: Option<Ident>,
    pub span: Span,
    pub ty: TySlot,
}

/// An arm of a match: a pattern for each parameter, and a body.
#[derive(Debug, PartialEq, Eq)]
pub struct Arm {
    pub params: Vec<Pattern>,
    pub body: Expr,
    pub span: Span,
}

/// What an expression is made of.
#[derive(Debug, PartialEq, Eq)]
pub enum ExprKind {
    /// Stands in for an expression that could not be read.
    Error,
    Literal(Literal),
    Local(Ident),
    Global(Ident),
    Tuple(Vec<Expr>),
    List(Vec<Expr>),
    /// A constructor applied to its fields.
    Cons(SrcNode<Ident>, Vec<Expr>),
    Access(Box<Expr>, SrcNode<Field>),
    Unary(SrcNode<UnaryOp>, Box<Expr>),
    Binary(SrcNode<BinaryOp>, Box<Expr>, Box<Expr>),
    /// A function of one parameter.
    Func(SrcNode<Ident>, Box<Expr>),
    Apply(Box<Expr>, Box<Expr>),
    Match(Box<Expr>, Vec<Arm>),
}

/// An expression, with the place it is written at and the place for its type.
#[derive(Debug, PartialEq, Eq)]
pub struct Expr {
    pub kind: ExprKind,
    pub span: Span,
    pub ty: TySlot,
}

/// What is asked of the nodes of a tree that was made from another tree: of each
/// expression and the expression it was made from, and of each pattern and the
/// pattern it was made from.
pub struct Demand {
    pub e: spec_fn(Expr, Expr) -> bool,
    pub p: spec_fn(Pattern, Pattern) -> bool,
}

/// Whether the demand `q` holds wherever the demand `p` holds.
pub open spec fn weaker(p: Demand, q: Demand) -> bool {
    &&& forall|o: Expr, i: Expr| #[trigger] (p.e)(o, i) ==> (q.e)(o, i)
    &&& forall|o: Pattern, i: Pattern| #[trigger] (p.p)(o, i) ==> (q.p)(o, i)
}

/// Whether the pattern `out` is the pattern `inp` with other places for the types,
/// and every node of it meets the demand `ok`.
pub open spec fn pat_typed(out: Pattern, inp: Pattern, ok: Demand) -> bool
    decreases out,
{
    &&& (ok.p)(out, inp)
    &&& out.name == inp.name
    &&& out.span == inp.span
    &&& match (out.kind, inp.kind) {
        (PatKind::Wildcard, PatKind::Wildcard) => true,
        (PatKind::Literal(a), PatKind::Literal(b)) => a == b,
        (PatKind::Tuple(a), PatKind::Tuple(b)) => pats_typed(a@, b@, ok),
        (PatKind::ListExact(a), PatKind::ListExact(b)) => pats_typed(a@, b@, ok),
        (PatKind::ListFront(a, ta), PatKind::ListFront(b, tb)) => pats_typed(a@, b@, ok) && match (
            ta,
            tb,
        ) {
            (Some(x), Some(y)) => pat_typed(*x, *y, ok),
            (None, None) => true,
            _ => false,
        },
        (PatKind::Cons(n, a), PatKind::Cons(m, b)) => n == m && pats_typed(a@, b@, ok),
        _ => false,
    }
}

/// Whether each pattern of `out` is the pattern of `inp` at its position, typed.
pub open spec fn pats_typed(out: Seq<Pattern>, inp: Seq<Pattern>, ok: Demand) -> bool
    decreases out,
{
    out.len() == inp.len() && forall|i: int|
        0 <= i < out.len() ==> pat_typed(#[trigger] out[i], inp[i], ok)
}

/// Whether the expression `out` is the expression `inp` with other places for the
/// types, and every node of it meets the demand `ok`.
pub open spec fn expr_typed(out: Expr, inp: Expr, ok: Demand) -> bool
    decreases out,
{
    &&& (ok.e)(out, inp)
    &&& out.span == inp.span
    &&& match (out.kind, inp.kind) {
        (ExprKind::Error, ExprKind::Error) => true,
        (ExprKind::Literal(a), ExprKind::Literal(b)) => a == b,
        (ExprKind::Local(a), ExprKind::Local(b)) => a == b,
        (ExprKind::Global(a), ExprKind::Global(b)) => a == b,
        (ExprKind::Tuple(a), ExprKind::Tuple(b)) => exprs_typed(a@, b@, ok),
        (ExprKind::List(a), ExprKind::List(b)) => exprs_typed(a@, b@, ok),
        (ExprKind::Cons(n, a), ExprKind::Cons(m, b)) => n == m && exprs_typed(a@, b@, ok),
        (ExprKind::Access(a, f), ExprKind::Access(b, g)) => f == g && expr_typed(*a, *b, ok),
        (ExprKind::Unary(o, a), ExprKind::Unary(p, b)) => o == p && expr_typed(*a, *b, ok),
        (ExprKind::Binary(o, a, c), ExprKind::Binary(p, b, d)) => o == p && expr_typed(*a, *b, ok)
            && expr_typed(*c, *d, ok),
        (ExprKind::Func(x, a), ExprKind::Func(y, b)) => x == y && expr_typed(*a, *b, ok),
        (ExprKind::Apply(a, c), ExprKind::Apply(b, d)) => expr_typed(*a, *b, ok) && expr_typed(
            *c,
            *d,
            ok,
        ),
        (ExprKind::Match(a, xs), ExprKind::Match(b, ys)) => expr_typed(*a, *b, ok) && arms_typed(
            xs@,
            ys@,
            ok,
        ),
        _ => false,
    }
}

/// Whether each expression of `out` is the expression of `inp` at its position, typed.
pub open spec fn exprs_typed(out: Seq<Expr>, inp: Seq<Expr>, ok: Demand) -> bool
    decreases out,
{
    out.len() == inp.len() && forall|i: int|
        0 <= i < out.len() ==> expr_typed(#[trigger] out[i], inp[i], ok)
}

/// Whether each arm of `out` is the arm of `inp` at its position, typed.
pub open spec fn arms_typed(out: Seq<Arm>, inp: Seq<Arm>, ok: Demand) -> bool
    decreases out,
{
    out.len() == inp.len() && forall|i: int|
        0 <= i < out.len() ==> {
            &&& (#[trigger] out[i]).span == inp[i].span
            &&& pats_typed(out[i].params@, inp[i].params@, ok)
            &&& expr_typed(out[i].body, inp[i].body, ok)
        }
}

/// Whether the place `s` for a type holds an inference variable below `n`.
pub open spec fn slot_is_var(s: TySlot, n: nat) -> bool {
    match s {
        TySlot::Var(v) => v.0 < n,
        _ => false,
    }
}

/// Whether the place `s` for a type holds a type below `n`.
pub open spec fn slot_is_known(s: TySlot, n: nat) -> bool {
    match s {
        TySlot::Known(id) => id.0 < n,
        _ => false,
    }
}

/// The demand that the place for the type of each node holds an inference variable
/// below `n`.
pub open spec fn var_slot(n: nat) -> Demand {
    Demand {
        e: |o: Expr, i: Expr| slot_is_var(o.ty, n),
        p: |o: Pattern, i: Pattern| slot_is_var(o.ty, n),
    }
}

/// The demand that the place for the type of each node holds a type below `n`.
pub open spec fn known_slot(n: nat) -> Demand {
    Demand {
        e: |o: Expr, i: Expr| slot_is_known(o.ty, n),
        p: |o: Pattern, i: Pattern| slot_is_known(o.ty, n),
    }
}

/// A typed pattern stays typed under a weaker demand.
pub proof fn lemma_pat_weaken(out: Pattern, inp: Pattern, p: Demand, q: Demand)
    requires
        pat_typed(out, inp, p),
        weaker(p, q),
    ensures
        pat_typed(out, inp, q),
    decreases out,
{
    assert((p.p)(out, inp));
    match (out.kind, inp.kind) {
        (PatKind::Tuple(a), PatKind::Tuple(b)) => lemma_pats_weaken(a@, b@, p, q),
        (PatKind::ListExact(a), PatKind::ListExact(b)) => lemma_pats_weaken(a@, b@, p, q),
        (PatKind::ListFront(a, ta), PatKind::ListFront(b, tb)) => {
            lemma_pats_weaken(a@, b@, p, q);
            match (ta, tb) {
                (Some(x), Some(y)) => lemma_pat_weaken(*x, *y, p, q),
                _ => {},
            }
        },
        (PatKind::Cons(n, a), PatKind::Cons(m, b)) => lemma_pats_weaken(a@, b@, p, q),
        _ => {},
    }
}

/// Typed patterns stay typed under a weaker demand.
pub proof fn lemma_pats_weaken(out: Seq<Pattern>, inp: Seq<Pattern>, p: Demand, q: Demand)
    requires
        pats_typed(out, inp, p),
        weaker(p, q),
    ensures
        pats_typed(out, inp, q),
    decreases out,
{
    assert forall|i: int| 0 <= i < out.len() implies pat_typed(#[trigger] out[i], inp[i], q) by {
        lemma_pat_weaken(out[i], inp[i], p, q);
    }
}

/// A typed expression stays typed under a weaker demand.
pub proof fn lemma_expr_weaken(out: Expr, inp: Expr, p: Demand, q: Demand)
    requires
        expr_typed(out, inp, p),
        weaker(p, q),
    ensures
        expr_typed(out, inp, q),
    decreases out,
{
    assert((p.e)(out, inp));
    match (out.kind, inp.kind) {
        (ExprKind::Tuple(a), ExprKind::Tuple(b)) => lemma_exprs_weaken(a@, b@, p, q),
        (ExprKind::List(a), ExprKind::List(b)) => lemma_exprs_weaken(a@, b@, p, q),
        (ExprKind::Cons(n, a), ExprKind::Cons(m, b)) => lemma_exprs_weaken(a@, b@, p, q),
        (ExprKind::Access(a, f), ExprKind::Access(b, g)) => lemma_expr_weaken(*a, *b, p, q),
        (ExprKind::Unary(o, a), ExprKind::Unary(r, b)) => lemma_expr_weaken(*a, *b, p, q),
        (ExprKind::Binary(o, a, c), ExprKind::Binary(r, b, d)) => {
            lemma_expr_weaken(*a, *b, p, q);
            lemma_expr_weaken(*c, *d, p, q);
        },
        (ExprKind::Func(x, a), ExprKind::Func(y, b)) => lemma_expr_weaken(*a, *b, p, q),
        (ExprKind::Apply(a, c), ExprKind::Apply(b, d)) => {
            lemma_expr_weaken(*a, *b, p, q);
            lemma_expr_weaken(*c, *d, p, q);
        },
        (ExprKind::Match(a, xs), ExprKind::Match(b, ys)) => {
            lemma_expr_weaken(*a, *b, p, q);
            lemma_arms_weaken(xs@, ys@, p, q);
        },
        _ => {},
    }
}

/// Typed expressions stay typed under a weaker demand.
pub proof fn lemma_exprs_weaken(out: Seq<Expr>, inp: Seq<Expr>, p: Demand, q: Demand)
    requires
        exprs_typed(out, inp, p),
        weaker(p, q),
    ensures
        exprs_typed(out, inp, q),
    decreases out,
{
    assert forall|i: int| 0 <= i < out.len() implies expr_typed(#[trigger] out[i], inp[i], q) by {
        lemma_expr_weaken(out[i], inp[i], p, q);
    }
}

/// Typed arms stay typed under a weaker demand.
pub proof fn lemma_arms_weaken(out: Seq<Arm>, inp: Seq<Arm>, p: Demand, q: Demand)
    requires
        arms_typed(out, inp, p),
        weaker(p, q),
    ensures
        arms_typed(out, inp, q),
    decreases out,
{
    assert forall|i: int| 0 <= i < out.len() implies {
        &&& (#[trigger] out[i]).span == inp[i].span
        &&& pats_typed(out[i].params@, inp[i].params@, q)
        &&& expr_typed(out[i].body, inp[i].body, q)
    } by {
        lemma_pats_weaken(out[i].params@, inp[i].params@, p, q);
        lemma_expr_weaken(out[i].body, inp[i].body, p, q);
    }
}

/// The demand for a type below `n` is weaker than the demand for a type below any
/// number that is not greater.
pub proof fn lemma_known_slot_mono(n: nat, m: nat)
    requires
        n <= m,
    ensures
        weaker(known_slot(n), known_slot(m)),
{
}

/// Whether a node that meets the demand `p`, whatever it was made from, meets the
/// demand `r`, whatever it is held against.
pub open spec fn carries(p: Demand, r: Demand) -> bool {
    &&& forall|o: Expr, m: Expr, i: Expr| #[trigger] (p.e)(o, m) ==> #[trigger] (r.e)(o, i)
    &&& forall|o: Pattern, m: Pattern, i: Pattern| #[trigger]
        (p.p)(o, m) ==> #[trigger] (r.p)(o, i)
}

/// A pattern made from a pattern that was made from a third is made from the third.
pub proof fn lemma_pat_through(out: Pattern, mid: Pattern, inp: Pattern, p: Demand, q: Demand, r: Demand)
    requires
        pat_typed(out, mid, p),
        pat_typed(mid, inp, q),
        carries(p, r),
    ensures
        pat_typed(out, inp, r),
    decreases out,
{
    assert((p.p)(out, mid));
    assert((r.p)(out, inp));
    match (out.kind, mid.kind, inp.kind) {
        (PatKind::Tuple(a), PatKind::Tuple(b), PatKind::Tuple(c)) => lemma_pats_through(
            a@,
            b@,
            c@,
            p,
            q,
            r,
        ),
        (PatKind::ListExact(a), PatKind::ListExact(b), PatKind::ListExact(c)) => lemma_pats_through(
            a@,
            b@,
            c@,
            p,
            q,
            r,
        ),
        (PatKind::ListFront(a, ta), PatKind::ListFront(b, tb), PatKind::ListFront(c, tc)) => {
            lemma_pats_through(a@, b@, c@, p, q, r);
            match (ta, tb, tc) {
                (Some(x), Some(y), Some(z)) => lemma_pat_through(*x, *y, *z, p, q, r),
                _ => {},
            }
        },
        (PatKind::Cons(n, a), PatKind::Cons(m, b), PatKind::Cons(l, c)) => lemma_pats_through(
            a@,
            b@,
            c@,
            p,
            q,
            r,
        ),
        _ => {},
    }
}

/// Patterns made from patterns that were made from others are made from those.
pub proof fn lemma_pats_through(
    out: Seq<Pattern>,
    mid: Seq<Pattern>,
    inp: Seq<Pattern>,
    p: Demand,
    q: Demand,
    r: Demand,
)
    requires
        pats_typed(out, mid, p),
        pats_typed(mid, inp, q),
        carries(p, r),
    ensures
        pats_typed(out, inp, r),
    decreases out,
{
    assert forall|i: int| 0 <= i < out.len() implies pat_typed(#[trigger] out[i], inp[i], r) by {
        assert(pat_typed(mid[i], inp[i], q));
        lemma_pat_through(out[i], mid[i], inp[i], p, q, r);
    }
}

/// An expression made from an expression that was made from a third is made from the
/// third.
pub proof fn lemma_expr_through(out: Expr, mid: Expr, inp: Expr, p: Demand, q: Demand, r: Demand)
    requires
        expr_typed(out, mid, p),
        expr_typed(mid, inp, q),
        carries(p, r),
    ensures
        expr_typed(out, inp, r),
    decreases out,
{
    assert((p.e)(out, mid));
    assert((r.e)(out, inp));
    match (out.kind, mid.kind, inp.kind) {
        (ExprKind::Tuple(a), ExprKind::Tuple(b), ExprKind::Tuple(c)) => lemma_exprs_through(
            a@,
            b@,
            c@,
            p,
            q,
            r,
        ),
        (ExprKind::List(a), ExprKind::List(b), ExprKind::List(c)) => lemma_exprs_through(
            a@,
            b@,
            c@,
            p,
            q,
            r,
        ),
        (ExprKind::Cons(n, a), ExprKind::Cons(m, b), ExprKind::Cons(l, c)) => lemma_exprs_through(
            a@,
            b@,
            c@,
            p,
            q,
            r,
        ),
        (ExprKind::Access(a, f), ExprKind::Access(b, g), ExprKind::Access(c, h)) => lemma_expr_through(
            *a,
            *b,
            *c,
            p,
            q,
            r,
        ),
        (ExprKind::Unary(o, a), ExprKind::Unary(s, b), ExprKind::Unary(t, c)) => lemma_expr_through(
            *a,
            *b,
            *c,
            p,
            q,
            r,
        ),
        (ExprKind::Binary(o, a, x), ExprKind::Binary(s, b, y), ExprKind::Binary(t, c, z)) => {
            lemma_expr_through(*a, *b, *c, p, q, r);
            lemma_expr_through(*x, *y, *z, p, q, r);
        },
        (ExprKind::Func(n, a), ExprKind::Func(m, b), ExprKind::Func(l, c)) => lemma_expr_through(
            *a,
            *b,
            *c,
            p,
            q,
            r,
        ),
        (ExprKind::Apply(a, x), ExprKind::Apply(b, y), ExprKind::Apply(c, z)) => {
            lemma_expr_through(*a, *b, *c, p, q, r);
            lemma_expr_through(*x, *y, *z, p, q, r);
        },
        (ExprKind::Match(a, xs), ExprKind::Match(b, ys), ExprKind::Match(c, zs)) => {
            lemma_expr_through(*a, *b, *c, p, q, r);
            lemma_arms_through(xs@, ys@, zs@, p, q, r);
        },
        _ => {},
    }
}

/// Expressions made from expressions that were made from others are made from those.
pub proof fn lemma_exprs_through(
    out: Seq<Expr>,
    mid: Seq<Expr>,
    inp: Seq<Expr>,
    p: Demand,
    q: Demand,
    r: Demand,
)
    requires
        exprs_typed(out, mid, p),
        exprs_typed(mid, inp, q),
        carries(p, r),
    ensures
        exprs_typed(out, inp, r),
    decreases out,
{
    assert forall|i: int| 0 <= i < out.len() implies expr_typed(#[trigger] out[i], inp[i], r) by {
        assert(expr_typed(mid[i], inp[i], q));
        lemma_expr_through(out[i], mid[i], inp[i], p, q, r);
    }
}

/// Arms made from arms that were made from others are made from those.
pub proof fn lemma_arms_through(
    out: Seq<Arm>,
    mid: Seq<Arm>,
    inp: Seq<Arm>,
    p: Demand,
    q: Demand,
    r: Demand,
)
    requires
        arms_typed(out, mid, p),
        arms_typed(mid, inp, q),
        carries(p, r),
    ensures
        arms_typed(out, inp, r),
    decreases out,
{
    assert forall|i: int| 0 <= i < out.len() implies {
        &&& (#[trigger] out[i]).span == inp[i].span
        &&& pats_typed(out[i].params@, inp[i].params@, r)
        &&& expr_typed(out[i].body, inp[i].body, r)
    } by {
        assert(mid[i].span == inp[i].span);
        lemma_pats_through(out[i].params@, mid[i].params@, inp[i].params@, p, q, r);
        lemma_expr_through(out[i].body, mid[i].body, inp[i].body, p, q, r);
    }
}

} // verus!
