//! The mid-level representation that the optimiser works on.

pub use crate::span::Ident;
use vstd::prelude::*;

verus! {

/// Identifies a procedure of a program.
#[derive(Clone, Copy, Debug, PartialEq, Eq, Structural)]
pub struct ProcId(pub usize);

/// A constant value.
#[derive(Debug, PartialEq, Eq)]
pub enum Const {
    Bool(bool),
    Nat(u64),
    Int(i64),
    Char(char),
    Tuple(Vec<Const>),
    List(Vec<Const>),
}

/// What a constant is, as a mathematical value.
pub enum ConstView {
    Bool(bool),
    Nat(u64),
    Int(i64),
    Char(char),
    Tuple(Seq<ConstView>),
    List(Seq<ConstView>),
}

/// The values of a sequence of constants.
pub open spec fn consts_view(s: Seq<Const>) -> Seq<ConstView>
    decreases s,
{
    Seq::new(s.len(), |i: int| if 0 <= i < s.len() { const_view(s[i]) } else { arbitrary() })
}

/// The value of a constant.
pub open spec fn const_view(c: Const) -> ConstView
    decreases c,
{
    match c {
        Const::Bool(b) => ConstView::Bool(b),
        Const::Nat(n) => ConstView::Nat(n),
        Const::Int(n) => ConstView::Int(n),
        Const::Char(c) => ConstView::Char(c),
        Const::Tuple(fields) => ConstView::Tuple(consts_view(fields@)),
        Const::List(items) => ConstView::List(consts_view(items@)),
    }
}

impl View for Const {
    type V = ConstView;

    open spec fn view(&self) -> ConstView {
        const_view(*self)
    }
}

/// Copies each constant of `v`.
fn clone_consts(v: &Vec<Const>) -> (r: Vec<Const>)
    ensures
        consts_view(r@) == consts_view(v@),
    decreases v,
{
    let mut out: Vec<Const> = Vec::new();
    let mut i: usize = 0;
    while i < v.len()
        invariant
            i <= v.len(),
            out.len() == i,
            forall|j: int| 0 <= j < i ==> out[j]@ == v[j]@,
        decreases v.len() - i,
    {
        out.push(v[i].clone());
        i += 1;
    }
    assert(consts_view(out@) =~= consts_view(v@));
    out
}

impl Clone for Const {
    fn clone(&self) -> (r: Const)
        ensures
            r@ == self@,
        decreases self,
    {
        match self {
            Const::Bool(b) => Const::Bool(*b),
            Const::Nat(n) => Const::Nat(*n),
            Const::Int(n) => Const::Int(*n),
            Const::Char(c) => Const::Char(*c),
            Const::Tuple(fields) => Const::Tuple(clone_consts(fields)),
            Const::List(items) => Const::List(clone_consts(items)),
        }
    }
}

/// Whether the two vectors hold equal constants, one by one.
fn consts_same(a: &Vec<Const>, b: &Vec<Const>) -> (r: bool)
    ensures
        r == (consts_view(a@) == consts_view(b@)),
    decreases a,
{
    if a.len() != b.len() {
        assert(consts_view(a@).len() != consts_view(b@).len());
        return false;
    }
    let mut i: usize = 0;
    while i < a.len()
        invariant
            i <= a.len(),
            a.len() == b.len(),
            forall|j: int| 0 <= j < i ==> a[j]@ == b[j]@,
        decreases a.len() - i,
    {
        if !a[i].same_as(&b[i]) {
            assert(consts_view(a@)[i as int] != consts_view(b@)[i as int]);
            return false;
        }
        i += 1;
    }
    assert(consts_view(a@) =~= consts_view(b@));
    true
}

impl Const {
    /// Whether `self` and `other` are the same value.
    pub fn same_as(&self, other: &Const) -> (r: bool)
        ensures
            r == (self@ == other@),
        decreases self,
    {
        match (self, other) {
            (Const::Bool(a), Const::Bool(b)) => *a == *b,
            (Const::Nat(a), Const::Nat(b)) => *a == *b,
            (Const::Int(a), Const::Int(b)) => *a == *b,
            (Const::Char(a), Const::Char(b)) => *a == *b,
            (Const::Tuple(a), Const::Tuple(b)) => consts_same(a, b),
            (Const::List(a), Const::List(b)) => consts_same(a, b),
            _ => false,
        }
    }
}

/// The value of an optional constant.
pub open spec fn opt_const_view(c: Option<Const>) -> Option<ConstView> {
    match c {
        Some(c) => Some(c@),
        None => None,
    }
}

/// A built-in operation.
#[derive(Clone, Copy, Debug, PartialEq, Eq, Structural)]
pub enum Intrinsic {
    NotBool,
    AddNat,
    AddInt,
    SubNat,
    MulNat,
    EqNat,
    LessNat,
    Join,
}

/// How a reference to a procedure may be treated.
#[derive(Clone, Copy, Debug, PartialEq, Eq, Structural)]
pub struct GlobalFlags {
    /// Whether the procedure's body may stand in place of the reference.
    pub can_inline: bool,
}

/// The shape that a pattern asks of a value.
#[derive(Debug, PartialEq, Eq)]
pub enum Pat {
    Wildcard,
    Const(Const),
    Tuple(Vec<Binding>),
    ListExact(Vec<Binding>),
    ListFront(Vec<Binding>, Option<Box<Binding>>),
}

/// A pattern, with the name that the matched value is bound to, if any.
#[derive(Debug, PartialEq, Eq)]
pub struct Binding {
    pub pat: Pat,
    pub name: Option<Ident>,
}

/// What a pattern is, as a mathematical value.
pub enum PatView {
    Wildcard,
    Const(ConstView),
    Tuple(Seq<BindingView>),
    ListExact(Seq<BindingView>),
    ListFront(Seq<BindingView>, Option<Box<BindingView>>),
}

/// What a binding is, as a mathematical value.
pub struct BindingView {
    pub pat: PatView,
    pub name: Option<Ident>,
}

/// The values of a sequence of bindings.
pub open spec fn bindings_view(s: Seq<Binding>) -> Seq<BindingView>
    decreases s,
{
    Seq::new(
        s.len(),
        |i: int|
            if 0 <= i < s.len() {
                binding_view(s[i])
            } else {
                arbitrary()
            },
    )
}

/// The value of a pattern.
pub open spec fn pat_view(p: Pat) -> PatView
    decreases p,
{
    match p {
        Pat::Wildcard => PatView::Wildcard,
        Pat::Const(c) => PatView::Const(c@),
        Pat::Tuple(fields) => PatView::Tuple(bindings_view(fields@)),
        Pat::ListExact(items) => PatView::ListExact(bindings_view(items@)),
        Pat::ListFront(items, tail) => PatView::ListFront(
            bindings_view(items@),
            match tail {
                Some(t) => Some(Box::new(binding_view(*t))),
                None => None,
            },
        ),
    }
}

/// The value of a binding.
pub open spec fn binding_view(b: Binding) -> BindingView
    decreases b,
{
    BindingView { pat: pat_view(b.pat), name: b.name }
}

impl View for Pat {
    type V = PatView;

    open spec fn view(&self) -> PatView {
        pat_view(*self)
    }
}

impl View for Binding {
    type V = BindingView;

    open spec fn view(&self) -> BindingView {
        binding_view(*self)
    }
}

/// An expression.
#[derive(Debug, PartialEq, Eq)]
pub enum Expr {
    Const(Const),
    Global(ProcId, GlobalFlags),
    Local(Ident),
    Intrinsic(Intrinsic, Vec<Expr>),
    Match(Box<Expr>, Vec<(Binding, Expr)>),
    Tuple(Vec<Expr>),
    List(Vec<Expr>),
    Access(Box<Expr>, usize),
    Func(Vec<Ident>, Ident, Box<Expr>),
    Apply(Box<Expr>, Box<Expr>),
    Variant(usize, Box<Expr>),
}

/// What an expression is, as a mathematical value.
pub enum ExprView {
    Const(ConstView),
    Global(ProcId, GlobalFlags),
    Local(Ident),
    Intrinsic(Intrinsic, Seq<ExprView>),
    Match(Box<ExprView>, Seq<(BindingView, ExprView)>),
    Tuple(Seq<ExprView>),
    List(Seq<ExprView>),
    Access(Box<ExprView>, usize),
    Func(Seq<Ident>, Ident, Box<ExprView>),
    Apply(Box<ExprView>, Box<ExprView>),
    Variant(usize, Box<ExprView>),
}

/// The values of a sequence of expressions.
pub open spec fn exprs_view(s: Seq<Expr>) -> Seq<ExprView>
    decreases s,
{
    Seq::new(
        s.len(),
        |i: int| if 0 <= i < s.len() { expr_view(s[i]) } else { arbitrary() },
    )
}

/// The values of the arms of a match.
pub open spec fn arms_view(s: Seq<(Binding, Expr)>) -> Seq<(BindingView, ExprView)>
    decreases s,
{
    Seq::new(
        s.len(),
        |i: int|
            if 0 <= i < s.len() {
                (s[i].0@, expr_view(s[i].1))
            } else {
                arbitrary()
            },
    )
}

/// The value of an expression.
pub open spec fn expr_view(e: Expr) -> ExprView
    decreases e,
{
    match e {
        Expr::Const(c) => ExprView::Const(c@),
        Expr::Global(id, flags) => ExprView::Global(id, flags),
        Expr::Local(name) => ExprView::Local(name),
        Expr::Intrinsic(op, args) => ExprView::Intrinsic(op, exprs_view(args@)),
        Expr::Match(pred, arms) => ExprView::Match(Box::new(expr_view(*pred)), arms_view(arms@)),
        Expr::Tuple(fields) => ExprView::Tuple(exprs_view(fields@)),
        Expr::List(items) => ExprView::List(exprs_view(items@)),
        Expr::Access(tuple, field) => ExprView::Access(Box::new(expr_view(*tuple)), field),
        Expr::Func(captures, arg, body) => ExprView::Func(
            captures@,
            arg,
            Box::new(expr_view(*body)),
        ),
        Expr::Apply(f, arg) => ExprView::Apply(
            Box::new(expr_view(*f)),
            Box::new(expr_view(*arg)),
        ),
        Expr::Variant(variant, inner) => ExprView::Variant(variant, Box::new(expr_view(*inner))),
    }
}

impl View for Expr {
    type V = ExprView;

    open spec fn view(&self) -> ExprView {
        expr_view(*self)
    }
}

/// A procedure: a named, top-level expression.
#[derive(Debug, PartialEq, Eq)]
pub struct Proc {
    pub body: Expr,
}

/// A program: its procedures, each identified by its position.
#[derive(Debug, PartialEq, Eq)]
pub struct Context {
    pub procs: Vec<Proc>,
}

/// The bodies of a sequence of procedures.
pub open spec fn procs_view(s: Seq<Proc>) -> Seq<ExprView> {
    Seq::new(s.len(), |i: int| s[i].body@)
}

impl View for Context {
    type V = Seq<ExprView>;

    open spec fn view(&self) -> Seq<ExprView> {
        procs_view(self.procs@)
    }
}

/// Copies each binding of `v`.
fn clone_bindings(v: &Vec<Binding>) -> (r: Vec<Binding>)
    ensures
        bindings_view(r@) == bindings_view(v@),
    decreases v,
{
    let mut out: Vec<Binding> = Vec::new();
    let mut i: usize = 0;
    while i < v.len()
        invariant
            i <= v.len(),
            out.len() == i,
            forall|j: int| 0 <= j < i ==> out[j]@ == v[j]@,
        decreases v.len() - i,
    {
        out.push(v[i].clone());
        i += 1;
    }
    assert(bindings_view(out@) =~= bindings_view(v@));
    out
}

impl Clone for Pat {
    fn clone(&self) -> (r: Pat)
        ensures
            r@ == self@,
        decreases self,
    {
        match self {
            Pat::Wildcard => Pat::Wildcard,
            Pat::Const(c) => Pat::Const(c.clone()),
            Pat::Tuple(fields) => Pat::Tuple(clone_bindings(fields)),
            Pat::ListExact(items) => Pat::ListExact(clone_bindings(items)),
            Pat::ListFront(items, tail) => {
                let items2 = clone_bindings(items);
                let tail2 = match tail {
                    Some(t) => Some(Box::new((**t).clone())),
                    None => None,
                };
                Pat::ListFront(items2, tail2)
            },
        }
    }
}

impl Clone for Binding {
    fn clone(&self) -> (r: Binding)
        ensures
            r@ == self@,
        decreases self,
    {
        Binding { pat: self.pat.clone(), name: self.name }
    }
}

/// Copies each expression of `v`.
fn clone_exprs(v: &Vec<Expr>) -> (r: Vec<Expr>)
    ensures
        exprs_view(r@) == exprs_view(v@),
    decreases v,
{
    let mut out: Vec<Expr> = Vec::new();
    let mut i: usize = 0;
    while i < v.len()
        invariant
            i <= v.len(),
            out.len() == i,
            forall|j: int| 0 <= j < i ==> out[j]@ == v[j]@,
        decreases v.len() - i,
    {
        out.push(v[i].clone());
        i += 1;
    }
    assert(exprs_view(out@) =~= exprs_view(v@));
    out
}

/// Copies each arm of `v`.
fn clone_arms(v: &Vec<(Binding, Expr)>) -> (r: Vec<(Binding, Expr)>)
    ensures
        arms_view(r@) == arms_view(v@),
    decreases v,
{
    let mut out: Vec<(Binding, Expr)> = Vec::new();
    let mut i: usize = 0;
    while i < v.len()
        invariant
            i <= v.len(),
            out.len() == i,
            forall|j: int| 0 <= j < i ==> out[j].0@ == v[j].0@ && out[j].1@ == v[j].1@,
        decreases v.len() - i,
    {
        let binding = v[i].0.clone();
        let body = v[i].1.clone();
        out.push((binding, body));
        i += 1;
    }
    assert(arms_view(out@) =~= arms_view(v@));
    out
}

/// Copies each name of `v`.
pub(crate) fn clone_idents(v: &Vec<Ident>) -> (r: Vec<Ident>)
    ensures
        r@ == v@,
{
    let mut out: Vec<Ident> = Vec::new();
    let mut i: usize = 0;
    while i < v.len()
        invariant
            i <= v.len(),
            out.len() == i,
            forall|j: int| 0 <= j < i ==> out[j] == v[j],
        decreases v.len() - i,
    {
        out.push(v[i]);
        i += 1;
    }
    assert(out@ =~= v@);
    out
}

impl Clone for Expr {
    fn clone(&self) -> (r: Expr)
        ensures
            r@ == self@,
        decreases self,
    {
        match self {
            Expr::Const(c) => Expr::Const(c.clone()),
            Expr::Global(id, flags) => Expr::Global(*id, *flags),
            Expr::Local(name) => Expr::Local(*name),
            Expr::Intrinsic(op, args) => Expr::Intrinsic(*op, clone_exprs(args)),
            Expr::Match(pred, arms) => {
                let pred2 = (**pred).clone();
                Expr::Match(Box::new(pred2), clone_arms(arms))
            },
            Expr::Tuple(fields) => Expr::Tuple(clone_exprs(fields)),
            Expr::List(items) => Expr::List(clone_exprs(items)),
            Expr::Access(tuple, field) => Expr::Access(Box::new((**tuple).clone()), *field),
            Expr::Func(captures, arg, body) => Expr::Func(
                clone_idents(captures),
                *arg,
                Box::new((**body).clone()),
            ),
            Expr::Apply(f, arg) => Expr::Apply(
                Box::new((**f).clone()),
                Box::new((**arg).clone()),
            ),
            Expr::Variant(variant, inner) => Expr::Variant(*variant, Box::new((**inner).clone())),
        }
    }
}

} // verus!
