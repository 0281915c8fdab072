//! Constant folding: evaluating, ahead of time, the parts of a program whose value is
//! already known.
//!
//! Folding never changes what a program computes. An operation is evaluated only when
//! its operands are constants of the kind it works on and the result can be
//! represented; a reference to a procedure is replaced by the procedure's body only
//! while that procedure is not already being inlined.

use crate::mir::{
    arms_view, bindings_view, clone_idents, consts_view, exprs_view, opt_const_view, Binding,
    BindingView, Const, ConstView, Context, Expr, ExprView, GlobalFlags, Ident, Intrinsic, Pat,
    PatView, Proc, ProcId,
};
use vstd::prelude::*;

verus! {

/// A stack of names in scope, innermost last, each with the constant it is known to hold.
pub type Scope = Seq<(Ident, Option<ConstView>)>;

/// What a stack of names in scope is, as a mathematical value.
pub open spec fn stack_view(s: Seq<(Ident, Option<Const>)>) -> Scope {
    Seq::new(s.len(), |i: int| (s[i].0, opt_const_view(s[i].1)))
}

/// The innermost entry of `stack` for `name`: `None` if the name is not in scope,
/// `Some(None)` if it is in scope with no known value.
pub open spec fn lookup(stack: Scope, name: Ident) -> Option<Option<ConstView>>
    decreases stack.len(),
{
    if stack.len() == 0 {
        None
    } else if stack.last().0 == name {
        Some(stack.last().1)
    } else {
        lookup(stack.drop_last(), name)
    }
}

/// Whether the constant `c` has the shape that the binding `b` asks for.
///
/// A tuple pattern is compared with a tuple field by field, as far as both have fields.
/// A list pattern with a tail compares its items with the front of the list and its
/// tail with the rest.
pub open spec fn pat_matches(b: BindingView, c: ConstView) -> bool
    decreases b,
{
    match b.pat {
        PatView::Wildcard => true,
        PatView::Const(x) => x == c,
        PatView::Tuple(fields) => match c {
            ConstView::Tuple(cs) => forall|i: int|
                0 <= i < fields.len() && i < cs.len() ==> pat_matches(#[trigger] fields[i], cs[i]),
            _ => false,
        },
        PatView::ListExact(items) => match c {
            ConstView::List(cs) => cs.len() == items.len() && forall|i: int|
                0 <= i < items.len() && i < cs.len() ==> pat_matches(#[trigger] items[i], cs[i]),
            _ => false,
        },
        PatView::ListFront(items, tail) => match c {
            ConstView::List(cs) => cs.len() >= items.len() && (forall|i: int|
                0 <= i < items.len() && i < cs.len() ==> pat_matches(#[trigger] items[i], cs[i]))
                && match tail {
                Some(t) => pat_matches(
                    *t,
                    ConstView::List(cs.subrange(items.len() as int, cs.len() as int)),
                ),
                None => true,
            },
            _ => false,
        },
    }
}

/// The position of the first arm at or after `from` whose pattern `c` matches.
pub open spec fn first_match(arms: Seq<(BindingView, ExprView)>, c: ConstView, from: nat) -> Option<
    nat,
>
    decreases arms.len() - from,
{
    if from >= arms.len() {
        None
    } else if pat_matches(arms[from as int].0, c) {
        Some(from)
    } else {
        first_match(arms, c, from + 1)
    }
}

/// The constant that an expression is, if it is one.
pub open spec fn const_of(e: ExprView) -> Option<ConstView> {
    match e {
        ExprView::Const(c) => Some(c),
        _ => None,
    }
}

/// The constant that an optional expression is known to be.
pub open spec fn known_const(e: Option<&Expr>) -> Option<ConstView> {
    match e {
        Some(e) => const_of(e@),
        None => None,
    }
}

/// The names that the binding `b` brings into scope, outermost first, when it is
/// matched against a value that is the constant `known`, or an unknown value.
///
/// The binding's own name holds `known`, else the constant that its pattern demands,
/// else nothing. The names of the patterns inside it are not known.
pub open spec fn extract(b: BindingView, known: Option<ConstView>) -> Scope
    decreases b, 0nat,
{
    let own = match b.name {
        Some(name) => seq![
            (
                name,
                match known {
                    Some(c) => Some(c),
                    None => match b.pat {
                        PatView::Const(c) => Some(c),
                        _ => None,
                    },
                },
            ),
        ],
        None => Seq::empty(),
    };
    let inner = match b.pat {
        PatView::Wildcard => Seq::empty(),
        PatView::Const(_) => Seq::empty(),
        PatView::Tuple(fields) => extract_all(fields, fields.len()),
        PatView::ListExact(items) => extract_all(items, items.len()),
        PatView::ListFront(items, tail) => extract_all(items, items.len()) + match tail {
            Some(t) => extract(*t, None),
            None => Seq::empty(),
        },
    };
    own + inner
}

/// The names that the first `n` bindings of `bs` bring into scope, in order.
pub open spec fn extract_all(bs: Seq<BindingView>, n: nat) -> Scope
    decreases bs, n,
{
    if n == 0 || n > bs.len() {
        Seq::empty()
    } else {
        extract_all(bs, (n - 1) as nat) + extract(bs[n - 1], None)
    }
}

/// Whether a reference to the procedure `id` is replaced by its body, while the
/// procedures `active` are being inlined.
pub open spec fn inlines(
    procs: Seq<ExprView>,
    id: ProcId,
    flags: GlobalFlags,
    active: Seq<ProcId>,
) -> bool {
    flags.can_inline && id.0 < procs.len() && active.len() < procs.len() && !active.contains(id)
}

/// Whether every expression of `es` is a constant.
pub open spec fn all_const(es: Seq<ExprView>) -> bool {
    forall|i: int| 0 <= i < es.len() ==> (#[trigger] es[i]) is Const
}

/// The constants that the expressions of `es` are.
pub open spec fn consts_of(es: Seq<ExprView>) -> Seq<ConstView> {
    Seq::new(
        es.len(),
        |i: int|
            match es[i] {
                ExprView::Const(c) => c,
                _ => ConstView::Bool(false),
            },
    )
}

/// The result of the operation `op` on the operands `args`, where it is known.
///
/// Negation is evaluated on a boolean constant; an addition on two constants of its
/// kind whose sum that kind can hold. Anything else is left as it is.
pub open spec fn fold_intrinsic(op: Intrinsic, args: Seq<ExprView>) -> ExprView {
    let x = if args.len() > 0 {
        const_of(args[0])
    } else {
        None
    };
    let y = if args.len() > 1 {
        const_of(args[1])
    } else {
        None
    };
    match (op, x, y) {
        (Intrinsic::NotBool, Some(ConstView::Bool(b)), _) => ExprView::Const(ConstView::Bool(!b)),
        (Intrinsic::AddNat, Some(ConstView::Nat(a)), Some(ConstView::Nat(b))) => if a + b
            <= u64::MAX {
            ExprView::Const(ConstView::Nat((a + b) as u64))
        } else {
            ExprView::Intrinsic(op, args)
        },
        (Intrinsic::AddInt, Some(ConstView::Int(a)), Some(ConstView::Int(b))) => if i64::MIN <= a
            + b <= i64::MAX {
            ExprView::Const(ConstView::Int((a + b) as i64))
        } else {
            ExprView::Intrinsic(op, args)
        },
        _ => ExprView::Intrinsic(op, args),
    }
}

/// The expression `e` after folding, in a program with the procedure bodies `procs`,
/// with the names `stack` in scope, while the procedures `active` are being inlined.
pub open spec fn fold(procs: Seq<ExprView>, e: ExprView, stack: Scope, active: Seq<ProcId>) -> ExprView
    decreases procs.len() - active.len(), e,
{
    match e {
        ExprView::Const(_) => e,
        ExprView::Global(id, flags) => if inlines(procs, id, flags, active) {
            fold(procs, procs[id.0 as int], Seq::empty(), active.push(id))
        } else {
            e
        },
        ExprView::Local(name) => match lookup(stack, name) {
            Some(Some(c)) => ExprView::Const(c),
            _ => e,
        },
        ExprView::Intrinsic(op, args) => fold_intrinsic(op, fold_all(procs, args, stack, active)),
        ExprView::Match(pred, arms) => {
            let p = fold(procs, *pred, stack, active);
            let chosen = match p {
                ExprView::Const(c) => first_match(arms, c, 0),
                _ => None,
            };
            match chosen {
                Some(i) if i < arms.len() => ExprView::Match(
                    Box::new(p),
                    seq![fold_arm(procs, arms[i as int], const_of(p), stack, active)],
                ),
                _ => ExprView::Match(
                    Box::new(p),
                    fold_arms(procs, arms, const_of(p), stack, active),
                ),
            }
        },
        ExprView::Tuple(fields) => {
            let fs = fold_all(procs, fields, stack, active);
            if all_const(fs) {
                ExprView::Const(ConstView::Tuple(consts_of(fs)))
            } else {
                ExprView::Tuple(fs)
            }
        },
        ExprView::List(items) => {
            let is = fold_all(procs, items, stack, active);
            if all_const(is) {
                ExprView::Const(ConstView::List(consts_of(is)))
            } else {
                ExprView::List(is)
            }
        },
        ExprView::Access(tuple, field) => {
            let t = fold(procs, *tuple, stack, active);
            match t {
                ExprView::Const(ConstView::Tuple(cs)) => if field < cs.len() {
                    ExprView::Const(cs[field as int])
                } else {
                    ExprView::Access(Box::new(t), field)
                },
                _ => ExprView::Access(Box::new(t), field),
            }
        },
        ExprView::Func(captures, arg, body) => ExprView::Func(
            captures,
            arg,
            Box::new(fold(procs, *body, stack.push((arg, None)), active)),
        ),
        ExprView::Apply(f, arg) => ExprView::Apply(
            Box::new(fold(procs, *f, stack, active)),
            Box::new(fold(procs, *arg, stack, active)),
        ),
        ExprView::Variant(variant, inner) => ExprView::Variant(
            variant,
            Box::new(fold(procs, *inner, stack, active)),
        ),
    }
}

/// Each expression of `es` after folding.
pub open spec fn fold_all(
    procs: Seq<ExprView>,
    es: Seq<ExprView>,
    stack: Scope,
    active: Seq<ProcId>,
) -> Seq<ExprView>
    decreases procs.len() - active.len(), es,
{
    Seq::new(
        es.len(),
        |i: int|
            if 0 <= i < es.len() {
                fold(procs, es[i], stack, active)
            } else {
                arbitrary()
            },
    )
}

/// An arm after folding, when the matched value is the constant `known`, or unknown:
/// its body is folded with the names of its binding in scope.
pub open spec fn fold_arm(
    procs: Seq<ExprView>,
    arm: (BindingView, ExprView),
    known: Option<ConstView>,
    stack: Scope,
    active: Seq<ProcId>,
) -> (BindingView, ExprView)
    decreases procs.len() - active.len(), arm,
{
    (arm.0, fold(procs, arm.1, stack + extract(arm.0, known), active))
}

/// Each arm of `arms` after folding.
pub open spec fn fold_arms(
    procs: Seq<ExprView>,
    arms: Seq<(BindingView, ExprView)>,
    known: Option<ConstView>,
    stack: Scope,
    active: Seq<ProcId>,
) -> Seq<(BindingView, ExprView)>
    decreases procs.len() - active.len(), arms,
{
    Seq::new(
        arms.len(),
        |i: int|
            if 0 <= i < arms.len() {
                fold_arm(procs, arms[i], known, stack, active)
            } else {
                arbitrary()
            },
    )
}

/// The bodies of a program after each procedure from `from` on was folded in turn,
/// each in the program as the procedures before it left it.
pub open spec fn fold_procs(procs: Seq<ExprView>, from: nat) -> Seq<ExprView>
    decreases procs.len() - from,
{
    if from >= procs.len() {
        procs
    } else {
        fold_procs(
            procs.update(
                from as int,
                fold(procs, procs[from as int], Seq::empty(), seq![ProcId(from as usize)]),
            ),
            from + 1,
        )
    }
}

/// Whether `id` occurs in `v`.
fn contains_proc(v: &Vec<ProcId>, id: ProcId) -> (r: bool)
    ensures
        r == v@.contains(id),
{
    let mut i: usize = 0;
    while i < v.len()
        invariant
            i <= v.len(),
            forall|j: int| 0 <= j < i ==> v[j] != id,
        decreases v.len() - i,
    {
        if v[i] == id {
            assert(v@[i as int] == id);
            return true;
        }
        i += 1;
    }
    false
}

/// The constant that the innermost entry of `stack` for `name` holds, if it holds one.
fn find_local(stack: &Vec<(Ident, Option<Const>)>, name: Ident) -> (r: Option<Const>)
    ensures
        opt_const_view(r) == (match lookup(stack_view(stack@), name) {
            Some(Some(c)) => Some(c),
            _ => None,
        }),
{
    let ghost sv = stack_view(stack@);
    let mut i: usize = stack.len();
    assert(sv.subrange(0, i as int) =~= sv);
    while i > 0
        invariant
            i <= stack.len(),
            sv == stack_view(stack@),
            lookup(sv, name) == lookup(sv.subrange(0, i as int), name),
        decreases i,
    {
        i -= 1;
        proof {
            let cur = sv.subrange(0, i + 1);
            assert(cur.last() == sv[i as int]);
            assert(cur.drop_last() =~= sv.subrange(0, i as int));
        }
        let entry = &stack[i];
        if entry.0 == name {
            return match &entry.1 {
                Some(c) => Some(c.clone()),
                None => None,
            };
        }
    }
    None
}

/// The constants of `cs` from the position `from` on.
fn clone_rest(cs: &Vec<Const>, from: usize) -> (r: Vec<Const>)
    requires
        from <= cs.len(),
    ensures
        consts_view(r@) == consts_view(cs@).subrange(from as int, cs.len() as int),
{
    let mut out: Vec<Const> = Vec::new();
    let mut i: usize = from;
    while i < cs.len()
        invariant
            from <= i <= cs.len(),
            out.len() == i - from,
            forall|j: int| 0 <= j < out.len() ==> out[j]@ == cs[from + j]@,
        decreases cs.len() - i,
    {
        out.push(cs[i].clone());
        i += 1;
    }
    assert(consts_view(out@) =~= consts_view(cs@).subrange(from as int, cs.len() as int));
    out
}

/// Whether each of the first `n` constants of `cs` has the shape that the binding at
/// its position in `bs` asks for.
fn matches_front(bs: &Vec<Binding>, cs: &Vec<Const>, n: usize) -> (r: bool)
    requires
        n <= bs.len(),
        n <= cs.len(),
    ensures
        r == (forall|i: int|
            0 <= i < n ==> pat_matches(#[trigger] bindings_view(bs@)[i], consts_view(cs@)[i])),
    decreases bs,
{
    let mut i: usize = 0;
    while i < n
        invariant
            i <= n,
            n <= bs.len(),
            n <= cs.len(),
            forall|j: int|
                0 <= j < i ==> pat_matches(#[trigger] bindings_view(bs@)[j], consts_view(cs@)[j]),
        decreases n - i,
    {
        if !matches_const(&bs[i], &cs[i]) {
            assert(!pat_matches(bindings_view(bs@)[i as int], consts_view(cs@)[i as int]));
            return false;
        }
        i += 1;
    }
    true
}

/// Whether the constant has the shape that the binding asks for.
pub fn matches_const(binding: &Binding, constant: &Const) -> (r: bool)
    ensures
        r == pat_matches(binding@, constant@),
    decreases binding,
{
    match &binding.pat {
        Pat::Wildcard => true,
        Pat::Const(x) => x.same_as(constant),
        Pat::Tuple(fields) => match constant {
            Const::Tuple(cs) => {
                assert(constant@ == ConstView::Tuple(consts_view(cs@)));
                assert(binding@.pat->Tuple_0 == bindings_view(fields@));
                assert(bindings_view(fields@).len() == fields.len());
                assert(consts_view(cs@).len() == cs.len());
                let n = if fields.len() <= cs.len() {
                    fields.len()
                } else {
                    cs.len()
                };
                matches_front(fields, cs, n)
            },
            _ => false,
        },
        Pat::ListExact(items) => match constant {
            Const::List(cs) => {
                assert(constant@ == ConstView::List(consts_view(cs@)));
                assert(binding@.pat->ListExact_0 == bindings_view(items@));
                assert(bindings_view(items@).len() == items.len());
                assert(consts_view(cs@).len() == cs.len());
                cs.len() == items.len() && matches_front(items, cs, items.len())
            },
            _ => false,
        },
        Pat::ListFront(items, tail) => match constant {
            Const::List(cs) => {
                assert(constant@ == ConstView::List(consts_view(cs@)));
                assert(binding@.pat is ListFront);
                assert(binding@.pat->ListFront_0 == bindings_view(items@));
                assert(bindings_view(items@).len() == items.len());
                assert(consts_view(cs@).len() == cs.len());
                if cs.len() < items.len() {
                    return false;
                }
                if !matches_front(items, cs, items.len()) {
                    return false;
                }
                match tail {
                    Some(t) => {
                        let rest = Const::List(clone_rest(cs, items.len()));
                        assert(binding@.pat->ListFront_1 == Some(Box::new((**t)@)));
                        assert(rest@ == ConstView::List(
                            consts_view(cs@).subrange(items.len() as int, cs.len() as int),
                        ));
                        matches_const(&**t, &rest)
                    },
                    None => true,
                }
            },
            _ => false,
        },
    }
}

/// The position of the first arm whose pattern the constant matches.
fn find_arm(arms: &Vec<(Binding, Expr)>, c: &Const) -> (r: Option<usize>)
    ensures
        match r {
            Some(i) => i < arms.len() && first_match(arms_view(arms@), c@, 0) == Some(i as nat),
            None => first_match(arms_view(arms@), c@, 0) is None,
        },
{
    let mut i: usize = 0;
    while i < arms.len()
        invariant
            i <= arms.len(),
            first_match(arms_view(arms@), c@, 0) == first_match(arms_view(arms@), c@, i as nat),
        decreases arms.len() - i,
    {
        if matches_const(&arms[i].0, c) {
            return Some(i);
        }
        i += 1;
    }
    None
}

/// Extends `bindings` by what each binding of `bs` brings into scope, in order.
fn extract_each(bs: &Vec<Binding>, bindings: &mut Vec<(Ident, Option<Const>)>)
    ensures
        final(bindings)@.len() >= old(bindings)@.len(),
        final(bindings)@.subrange(0, old(bindings)@.len() as int) == old(bindings)@,
        stack_view(final(bindings)@) == stack_view(old(bindings)@) + extract_all(
            bindings_view(bs@),
            bs@.len(),
        ),
    decreases bs,
{
    let ghost start = bindings@;
    let mut i: usize = 0;
    assert(stack_view(bindings@) =~= stack_view(start) + extract_all(bindings_view(bs@), 0));
    while i < bs.len()
        invariant
            i <= bs.len(),
            bindings@.len() >= start.len(),
            bindings@.subrange(0, start.len() as int) == start,
            stack_view(bindings@) == stack_view(start) + extract_all(
                bindings_view(bs@),
                i as nat,
            ),
        decreases bs.len() - i,
    {
        let ghost before = bindings@;
        bs[i].try_extract_inner(None, bindings);
        proof {
            assert(bindings@.subrange(0, start.len() as int) =~= before.subrange(
                0,
                start.len() as int,
            )) by {
                assert(bindings@.subrange(0, before.len() as int) == before);
                assert forall|j: int| 0 <= j < start.len() implies bindings@[j] == before[j] by {
                    assert(bindings@.subrange(0, before.len() as int)[j] == before[j]);
                }
            }
            assert(bindings_view(bs@)[i as int] == bs[i as int]@);
            assert(stack_view(bindings@) =~= stack_view(start) + extract_all(
                bindings_view(bs@),
                (i + 1) as nat,
            ));
        }
        i += 1;
    }
}

impl Binding {
    /// Extends `bindings` by the names that this binding brings into scope when it is
    /// matched against `expr`, outermost first.
    ///
    /// The binding's own name holds the constant that `expr` is, else the constant that
    /// the pattern demands, else nothing; the names inside the pattern hold nothing.
    pub fn try_extract_inner(
        &self,
        expr: Option<&Expr>,
        bindings: &mut Vec<(Ident, Option<Const>)>,
    )
        ensures
            final(bindings)@.len() >= old(bindings)@.len(),
            final(bindings)@.subrange(0, old(bindings)@.len() as int) == old(bindings)@,
            stack_view(final(bindings)@) == stack_view(old(bindings)@) + extract(
                self@,
                known_const(expr),
            ),
        decreases self,
    {
        let ghost start = bindings@;
        if let Some(name) = self.name {
            let value = match expr {
                Some(Expr::Const(constant)) => Some(constant.clone()),
                _ => match &self.pat {
                    Pat::Const(constant) => Some(constant.clone()),
                    _ => None,
                },
            };
            bindings.push((name, value));
        }
        let ghost named = bindings@;
        proof {
            assert(named.subrange(0, start.len() as int) =~= start);
        }
        match &self.pat {
            Pat::Wildcard => {},
            Pat::Const(_) => {},
            Pat::Tuple(fields) => {
                extract_each(fields, bindings);
            },
            Pat::ListExact(items) => {
                extract_each(items, bindings);
            },
            Pat::ListFront(items, tail) => {
                extract_each(items, bindings);
                let ghost fronted = bindings@;
                match tail {
                    Some(t) => {
                        (**t).try_extract_inner(None, bindings);
                        proof {
                            assert forall|j: int| 0 <= j < named.len() implies bindings@[j]
                                == named[j] by {
                                assert(bindings@.subrange(0, fronted.len() as int)[j]
                                    == fronted[j]);
                                assert(fronted.subrange(0, named.len() as int)[j] == named[j]);
                            }
                            assert(bindings@.subrange(0, named.len() as int) =~= named);
                        }
                    },
                    None => {},
                }
            },
        }
        proof {
            assert forall|j: int| 0 <= j < start.len() implies bindings@[j] == start[j] by {
                assert(bindings@.subrange(0, named.len() as int)[j] == named[j]);
                assert(named.subrange(0, start.len() as int)[j] == start[j]);
            }
            assert(bindings@.subrange(0, start.len() as int) =~= start);
            assert(stack_view(bindings@) =~= stack_view(start) + extract(
                self@,
                known_const(expr),
            ));
        }
    }

    /// The names that this binding brings into scope when it is matched against `expr`,
    /// outermost first, each with the constant it is known to hold.
    pub fn try_extract(&self, expr: &Expr) -> (bindings: Vec<(Ident, Option<Const>)>)
        ensures
            stack_view(bindings@) == extract(self@, const_of(expr@)),
    {
        let mut bindings: Vec<(Ident, Option<Const>)> = Vec::new();
        self.try_extract_inner(Some(expr), &mut bindings);
        assert(stack_view(bindings@) =~= extract(self@, const_of(expr@)));
        bindings
    }
}

/// Whether every expression of `es` is a constant.
fn is_all_const(es: &Vec<Expr>) -> (r: bool)
    ensures
        r == all_const(exprs_view(es@)),
{
    let mut i: usize = 0;
    while i < es.len()
        invariant
            i <= es.len(),
            forall|j: int| 0 <= j < i ==> (#[trigger] exprs_view(es@)[j]) is Const,
        decreases es.len() - i,
    {
        match &es[i] {
            Expr::Const(_) => {},
            _ => {
                assert(!(exprs_view(es@)[i as int] is Const));
                return false;
            },
        }
        i += 1;
    }
    true
}

/// The constants that the expressions of `es` are.
fn take_consts(es: &Vec<Expr>) -> (r: Vec<Const>)
    ensures
        consts_view(r@) == consts_of(exprs_view(es@)),
{
    let mut out: Vec<Const> = Vec::new();
    let mut i: usize = 0;
    while i < es.len()
        invariant
            i <= es.len(),
            out.len() == i,
            forall|j: int| 0 <= j < i ==> out[j]@ == consts_of(exprs_view(es@))[j],
        decreases es.len() - i,
    {
        let c = match &es[i] {
            Expr::Const(c) => c.clone(),
            _ => Const::Bool(false),
        };
        out.push(c);
        i += 1;
    }
    assert(consts_view(out@) =~= consts_of(exprs_view(es@)));
    out
}

/// The operation `op` on the operands `args`, evaluated where its result is known.
fn fold_op(op: Intrinsic, args: Vec<Expr>) -> (r: Expr)
    ensures
        r@ == fold_intrinsic(op, exprs_view(args@)),
{
    let folded: Option<Const> = match op {
        Intrinsic::NotBool => if args.len() > 0 {
            match &args[0] {
                Expr::Const(Const::Bool(b)) => Some(Const::Bool(!*b)),
                _ => None,
            }
        } else {
            None
        },
        Intrinsic::AddNat => if args.len() > 1 {
            match &args[0] {
                Expr::Const(Const::Nat(a)) => match &args[1] {
                    Expr::Const(Const::Nat(b)) => if *a <= u64::MAX - *b {
                        Some(Const::Nat(*a + *b))
                    } else {
                        None
                    },
                    _ => None,
                },
                _ => None,
            }
        } else {
            None
        },
        Intrinsic::AddInt => if args.len() > 1 {
            match &args[0] {
                Expr::Const(Const::Int(a)) => match &args[1] {
                    Expr::Const(Const::Int(b)) => {
                        let fits = if *b >= 0 {
                            *a <= i64::MAX - *b
                        } else {
                            *a >= i64::MIN - *b
                        };
                        if fits {
                            Some(Const::Int(*a + *b))
                        } else {
                            None
                        }
                    },
                    _ => None,
                },
                _ => None,
            }
        } else {
            None
        },
        _ => None,
    };
    proof {
        if args.len() > 0 {
            assert(exprs_view(args@)[0] == args[0]@);
        }
        if args.len() > 1 {
            assert(exprs_view(args@)[1] == args[1]@);
        }
    }
    match folded {
        Some(c) => Expr::Const(c),
        None => Expr::Intrinsic(op, args),
    }
}

/// Folds each expression of `exprs`.
#[verifier::loop_isolation(false)]
fn visit_all(
    ctx: &Context,
    exprs: &Vec<Expr>,
    stack: &mut Vec<(Ident, Option<Const>)>,
    proc_stack: &mut Vec<ProcId>,
) -> (r: Vec<Expr>)
    ensures
        exprs_view(r@) == fold_all(
            ctx@,
            exprs_view(exprs@),
            stack_view(old(stack)@),
            old(proc_stack)@,
        ),
        final(stack)@ == old(stack)@,
        final(proc_stack)@ == old(proc_stack)@,
    decreases ctx.procs.len() - old(proc_stack).len(), exprs,
{
    let ghost stack0 = stack@;
    let ghost active0 = proc_stack@;
    let mut out: Vec<Expr> = Vec::new();
    let mut i: usize = 0;
    while i < exprs.len()
        invariant
            i <= exprs.len(),
            out.len() == i,
            stack@ == stack0,
            proc_stack@ == active0,
            forall|j: int|
                0 <= j < i ==> out[j]@ == fold(
                    ctx@,
                    exprs[j]@,
                    stack_view(stack0),
                    active0,
                ),
        decreases exprs.len() - i,
    {
        let folded = visit(ctx, &exprs[i], stack, proc_stack);
        out.push(folded);
        i += 1;
    }
    assert(exprs_view(out@) =~= fold_all(ctx@, exprs_view(exprs@), stack_view(stack0), active0));
    out
}

/// Folds the body of an arm, with the names of its binding in scope.
fn visit_arm(
    ctx: &Context,
    arm: &(Binding, Expr),
    pred: &Expr,
    stack: &mut Vec<(Ident, Option<Const>)>,
    proc_stack: &mut Vec<ProcId>,
) -> (r: (Binding, Expr))
    ensures
        (r.0@, r.1@) == fold_arm(
            ctx@,
            (arm.0@, arm.1@),
            const_of(pred@),
            stack_view(old(stack)@),
            old(proc_stack)@,
        ),
        final(stack)@ == old(stack)@,
        final(proc_stack)@ == old(proc_stack)@,
    decreases ctx.procs.len() - old(proc_stack).len(), arm,
{
    let ghost stack0 = stack@;
    let old_stack = stack.len();
    let mut names = arm.0.try_extract(pred);
    let ghost extracted = names@;
    stack.append(&mut names);
    proof {
        assert(stack_view(stack0 + extracted) =~= stack_view(stack0) + stack_view(extracted));
    }
    let body = visit(ctx, &arm.1, stack, proc_stack);
    stack.truncate(old_stack);
    proof {
        assert(stack@ =~= stack0);
    }
    (arm.0.clone(), body)
}

/// Folds the body of each arm of `arms`.
#[verifier::loop_isolation(false)]
fn visit_arms(
    ctx: &Context,
    arms: &Vec<(Binding, Expr)>,
    pred: &Expr,
    stack: &mut Vec<(Ident, Option<Const>)>,
    proc_stack: &mut Vec<ProcId>,
) -> (r: Vec<(Binding, Expr)>)
    ensures
        arms_view(r@) == fold_arms(
            ctx@,
            arms_view(arms@),
            const_of(pred@),
            stack_view(old(stack)@),
            old(proc_stack)@,
        ),
        final(stack)@ == old(stack)@,
        final(proc_stack)@ == old(proc_stack)@,
    decreases ctx.procs.len() - old(proc_stack).len(), arms,
{
    let ghost stack0 = stack@;
    let ghost active0 = proc_stack@;
    let mut out: Vec<(Binding, Expr)> = Vec::new();
    let mut i: usize = 0;
    while i < arms.len()
        invariant
            i <= arms.len(),
            out.len() == i,
            stack@ == stack0,
            proc_stack@ == active0,
            forall|j: int|
                0 <= j < i ==> (out[j].0@, out[j].1@) == fold_arm(
                    ctx@,
                    (arms[j].0@, arms[j].1@),
                    const_of(pred@),
                    stack_view(stack0),
                    active0,
                ),
        decreases arms.len() - i,
    {
        let folded = visit_arm(ctx, &arms[i], pred, stack, proc_stack);
        out.push(folded);
        i += 1;
    }
    assert(arms_view(out@) =~= fold_arms(
        ctx@,
        arms_view(arms@),
        const_of(pred@),
        stack_view(stack0),
        active0,
    ));
    out
}

/// Folds `expr`, in the program `ctx`, with the names of `stack` in scope, while the
/// procedures of `proc_stack` are being inlined. Both stacks are left as they were.
pub fn visit(
    ctx: &Context,
    expr: &Expr,
    stack: &mut Vec<(Ident, Option<Const>)>,
    proc_stack: &mut Vec<ProcId>,
) -> (r: Expr)
    ensures
        r@ == fold(ctx@, expr@, stack_view(old(stack)@), old(proc_stack)@),
        final(stack)@ == old(stack)@,
        final(proc_stack)@ == old(proc_stack)@,
    decreases ctx.procs.len() - old(proc_stack).len(), expr,
{
    let ghost stack0 = stack@;
    let ghost active0 = proc_stack@;
    match expr {
        Expr::Const(c) => Expr::Const(c.clone()),
        Expr::Global(id, flags) => {
            if flags.can_inline && id.0 < ctx.procs.len() && proc_stack.len() < ctx.procs.len()
                && !contains_proc(proc_stack, *id) {
                proc_stack.push(*id);
                let mut inner: Vec<(Ident, Option<Const>)> = Vec::new();
                proof {
                    assert(stack_view(inner@) =~= Seq::empty());
                    assert(ctx@[id.0 as int] == ctx.procs[id.0 as int].body@);
                }
                let folded = visit(ctx, &ctx.procs[id.0].body, &mut inner, proc_stack);
                proc_stack.pop();
                proof {
                    assert(proc_stack@ =~= active0);
                }
                folded
            } else {
                Expr::Global(*id, *flags)
            }
        },
        Expr::Local(name) => match find_local(stack, *name) {
            Some(c) => Expr::Const(c),
            None => Expr::Local(*name),
        },
        Expr::Intrinsic(op, args) => {
            let folded = visit_all(ctx, args, stack, proc_stack);
            fold_op(*op, folded)
        },
        Expr::Match(pred, arms) => {
            let p = visit(ctx, &**pred, stack, proc_stack);
            let chosen = match &p {
                Expr::Const(c) => find_arm(arms, c),
                _ => None,
            };
            let folded = match chosen {
                Some(i) => {
                    let arm = visit_arm(ctx, &arms[i], &p, stack, proc_stack);
                    let mut one: Vec<(Binding, Expr)> = Vec::new();
                    one.push(arm);
                    proof {
                        assert(arms_view(arms@)[i as int] == (arms[i as int].0@, arms[i as int].1@));
                        assert(arms_view(one@) =~= seq![
                            fold_arm(
                                ctx@,
                                arms_view(arms@)[i as int],
                                const_of(p@),
                                stack_view(stack0),
                                active0,
                            ),
                        ]);
                    }
                    one
                },
                None => visit_arms(ctx, arms, &p, stack, proc_stack),
            };
            Expr::Match(Box::new(p), folded)
        },
        Expr::Tuple(fields) => {
            let folded = visit_all(ctx, fields, stack, proc_stack);
            if is_all_const(&folded) {
                Expr::Const(Const::Tuple(take_consts(&folded)))
            } else {
                Expr::Tuple(folded)
            }
        },
        Expr::List(items) => {
            let folded = visit_all(ctx, items, stack, proc_stack);
            if is_all_const(&folded) {
                Expr::Const(Const::List(take_consts(&folded)))
            } else {
                Expr::List(folded)
            }
        },
        Expr::Access(tuple, field) => {
            let folded = visit(ctx, &**tuple, stack, proc_stack);
            let picked = match &folded {
                Expr::Const(Const::Tuple(cs)) => if *field < cs.len() {
                    assert(consts_view(cs@)[*field as int] == cs[*field as int]@);
                    Some(cs[*field].clone())
                } else {
                    assert(consts_view(cs@).len() == cs.len());
                    None
                },
                _ => None,
            };
            match picked {
                Some(c) => Expr::Const(c),
                None => Expr::Access(Box::new(folded), *field),
            }
        },
        Expr::Func(captures, arg, body) => {
            stack.push((*arg, None));
            proof {
                assert(stack_view(stack@) =~= stack_view(stack0).push((*arg, None)));
            }
            let folded = visit(ctx, &**body, stack, proc_stack);
            stack.pop();
            proof {
                assert(stack@ =~= stack0);
            }
            Expr::Func(clone_idents(captures), *arg, Box::new(folded))
        },
        Expr::Apply(f, arg) => {
            let f2 = visit(ctx, &**f, stack, proc_stack);
            let arg2 = visit(ctx, &**arg, stack, proc_stack);
            Expr::Apply(Box::new(f2), Box::new(arg2))
        },
        Expr::Variant(variant, inner) => {
            let folded = visit(ctx, &**inner, stack, proc_stack);
            Expr::Variant(*variant, Box::new(folded))
        },
    }
}

/// The pass that folds constants into one another, evaluating expressions ahead of
/// time where possible. References to names and to procedures are folded too, where
/// what they stand for is known.
#[derive(Debug)]
pub struct ConstFold;

impl Default for ConstFold {
    fn default() -> (r: ConstFold) {
        ConstFold
    }
}

impl ConstFold {
    /// Folds the body of each procedure of `ctx`, in the order of their positions. A
    /// procedure is never inlined into its own body.
    pub fn apply(&mut self, ctx: &mut Context)
        ensures
            final(ctx)@ == fold_procs(old(ctx)@, 0),
    {
        let ghost start = ctx@;
        let mut i: usize = 0;
        while i < ctx.procs.len()
            invariant
                i <= ctx.procs.len(),
                ctx@.len() == start.len(),
                fold_procs(ctx@, i as nat) == fold_procs(start, 0),
            decreases ctx.procs.len() - i,
        {
            let ghost before = ctx@;
            let mut stack: Vec<(Ident, Option<Const>)> = Vec::new();
            let mut proc_stack: Vec<ProcId> = Vec::new();
            proc_stack.push(ProcId(i));
            proof {
                assert(stack_view(stack@) =~= Seq::empty());
                assert(proc_stack@ =~= seq![ProcId(i)]);
            }
            let body = visit(&*ctx, &ctx.procs[i].body, &mut stack, &mut proc_stack);
            ctx.procs.set(i, Proc { body });
            proof {
                assert(ctx@ =~= before.update(i as int, body@));
            }
            i += 1;
        }
    }
}

} // verus!
