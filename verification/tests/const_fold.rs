use tao_analysis::const_fold::{matches_const, visit, ConstFold};
use tao_analysis::mir::{Binding, Const, Context, Expr, GlobalFlags, Ident, Intrinsic, Pat, Proc, ProcId};

fn num(n: u64) -> Expr {
    Expr::Const(Const::Nat(n))
}

fn fold(expr: &Expr) -> Expr {
    let ctx = Context { procs: Vec::new() };
    let mut stack = Vec::new();
    let mut procs = Vec::new();
    visit(&ctx, expr, &mut stack, &mut procs)
}

fn bind(name: u64, pat: Pat) -> Binding {
    Binding { pat, name: Some(Ident(name)) }
}

fn anon(pat: Pat) -> Binding {
    Binding { pat, name: None }
}

#[test]
fn adds_naturals() {
    let e = Expr::Intrinsic(Intrinsic::AddNat, vec![num(2), num(3)]);
    assert_eq!(fold(&e), num(5));
}

#[test]
fn adds_integers() {
    let e = Expr::Intrinsic(
        Intrinsic::AddInt,
        vec![Expr::Const(Const::Int(-7)), Expr::Const(Const::Int(4))],
    );
    assert_eq!(fold(&e), Expr::Const(Const::Int(-3)));
}

#[test]
fn negates_booleans() {
    let e = Expr::Intrinsic(Intrinsic::NotBool, vec![Expr::Const(Const::Bool(true))]);
    assert_eq!(fold(&e), Expr::Const(Const::Bool(false)));
}

#[test]
fn leaves_overflowing_sum() {
    let e = Expr::Intrinsic(Intrinsic::AddNat, vec![num(u64::MAX), num(1)]);
    assert_eq!(fold(&e), Expr::Intrinsic(Intrinsic::AddNat, vec![num(u64::MAX), num(1)]));
    let e = Expr::Intrinsic(
        Intrinsic::AddInt,
        vec![Expr::Const(Const::Int(i64::MIN)), Expr::Const(Const::Int(-1))],
    );
    assert_eq!(
        fold(&e),
        Expr::Intrinsic(
            Intrinsic::AddInt,
            vec![Expr::Const(Const::Int(i64::MIN)), Expr::Const(Const::Int(-1))],
        )
    );
}

#[test]
fn leaves_operands_of_another_kind() {
    let e = Expr::Intrinsic(Intrinsic::AddNat, vec![num(1), Expr::Const(Const::Bool(true))]);
    assert_eq!(
        fold(&e),
        Expr::Intrinsic(Intrinsic::AddNat, vec![num(1), Expr::Const(Const::Bool(true))])
    );
    let e = Expr::Intrinsic(Intrinsic::MulNat, vec![num(2), num(3)]);
    assert_eq!(fold(&e), Expr::Intrinsic(Intrinsic::MulNat, vec![num(2), num(3)]));
}

#[test]
fn folds_nested_operations() {
    let inner = Expr::Intrinsic(Intrinsic::AddNat, vec![num(1), num(2)]);
    let e = Expr::Intrinsic(Intrinsic::AddNat, vec![inner, num(4)]);
    assert_eq!(fold(&e), num(7));
}

#[test]
fn tuple_of_constants_becomes_constant() {
    let e = Expr::Tuple(vec![num(1), Expr::Intrinsic(Intrinsic::AddNat, vec![num(1), num(1)])]);
    assert_eq!(fold(&e), Expr::Const(Const::Tuple(vec![Const::Nat(1), Const::Nat(2)])));
    let e = Expr::Tuple(vec![num(1), Expr::Local(Ident(9))]);
    assert_eq!(fold(&e), Expr::Tuple(vec![num(1), Expr::Local(Ident(9))]));
    assert_eq!(fold(&Expr::Tuple(vec![])), Expr::Const(Const::Tuple(vec![])));
}

#[test]
fn list_of_constants_becomes_constant() {
    let e = Expr::List(vec![num(1), num(2)]);
    assert_eq!(fold(&e), Expr::Const(Const::List(vec![Const::Nat(1), Const::Nat(2)])));
}

#[test]
fn access_picks_field() {
    let e = Expr::Access(Box::new(Expr::Tuple(vec![num(10), num(20)])), 1);
    assert_eq!(fold(&e), num(20));
    let e = Expr::Access(Box::new(Expr::Tuple(vec![num(10), num(20)])), 2);
    assert_eq!(
        fold(&e),
        Expr::Access(Box::new(Expr::Const(Const::Tuple(vec![Const::Nat(10), Const::Nat(20)]))), 2)
    );
}

#[test]
fn local_takes_innermost_known_value() {
    let ctx = Context { procs: Vec::new() };
    let mut stack = vec![(Ident(1), Some(Const::Nat(5))), (Ident(2), None), (Ident(1), Some(Const::Nat(6)))];
    let mut procs = Vec::new();
    assert_eq!(visit(&ctx, &Expr::Local(Ident(1)), &mut stack, &mut procs), num(6));
    assert_eq!(visit(&ctx, &Expr::Local(Ident(2)), &mut stack, &mut procs), Expr::Local(Ident(2)));
    assert_eq!(visit(&ctx, &Expr::Local(Ident(3)), &mut stack, &mut procs), Expr::Local(Ident(3)));
    assert_eq!(stack.len(), 3);
}

#[test]
fn function_parameter_shadows() {
    let ctx = Context { procs: Vec::new() };
    let mut stack = vec![(Ident(1), Some(Const::Nat(5)))];
    let mut procs = Vec::new();
    let f = Expr::Func(vec![], Ident(1), Box::new(Expr::Local(Ident(1))));
    assert_eq!(
        visit(&ctx, &f, &mut stack, &mut procs),
        Expr::Func(vec![], Ident(1), Box::new(Expr::Local(Ident(1))))
    );
    let g = Expr::Func(vec![], Ident(2), Box::new(Expr::Local(Ident(1))));
    assert_eq!(
        visit(&ctx, &g, &mut stack, &mut procs),
        Expr::Func(vec![], Ident(2), Box::new(num(5)))
    );
    assert_eq!(stack, vec![(Ident(1), Some(Const::Nat(5)))]);
}

#[test]
fn match_on_constant_keeps_first_matching_arm() {
    let arms = vec![
        (anon(Pat::Const(Const::Nat(1))), num(10)),
        (bind(7, Pat::Wildcard), Expr::Local(Ident(7))),
        (anon(Pat::Wildcard), num(30)),
    ];
    let e = Expr::Match(Box::new(num(2)), arms);
    assert_eq!(
        fold(&e),
        Expr::Match(Box::new(num(2)), vec![(bind(7, Pat::Wildcard), num(2))])
    );
}

#[test]
fn match_on_unknown_keeps_all_arms() {
    let arms = vec![
        (bind(7, Pat::Const(Const::Nat(1))), Expr::Local(Ident(7))),
        (bind(8, Pat::Wildcard), Expr::Local(Ident(8))),
    ];
    let e = Expr::Match(Box::new(Expr::Local(Ident(3))), arms);
    assert_eq!(
        fold(&e),
        Expr::Match(
            Box::new(Expr::Local(Ident(3))),
            vec![
                (bind(7, Pat::Const(Const::Nat(1))), num(1)),
                (bind(8, Pat::Wildcard), Expr::Local(Ident(8))),
            ]
        )
    );
}

#[test]
fn match_without_matching_arm_keeps_all_arms() {
    let arms = vec![(anon(Pat::Const(Const::Nat(1))), num(10))];
    let e = Expr::Match(Box::new(num(2)), arms);
    assert_eq!(
        fold(&e),
        Expr::Match(Box::new(num(2)), vec![(anon(Pat::Const(Const::Nat(1))), num(10))])
    );
}

#[test]
fn patterns_match_by_shape() {
    let pair = Const::Tuple(vec![Const::Nat(1), Const::Bool(true)]);
    assert!(matches_const(&anon(Pat::Wildcard), &pair));
    assert!(matches_const(
        &anon(Pat::Tuple(vec![anon(Pat::Const(Const::Nat(1))), anon(Pat::Wildcard)])),
        &pair
    ));
    assert!(!matches_const(
        &anon(Pat::Tuple(vec![anon(Pat::Const(Const::Nat(2))), anon(Pat::Wildcard)])),
        &pair
    ));
    assert!(!matches_const(&anon(Pat::ListExact(vec![])), &pair));
    let list = Const::List(vec![Const::Nat(1), Const::Nat(2), Const::Nat(3)]);
    assert!(!matches_const(&anon(Pat::ListExact(vec![anon(Pat::Wildcard)])), &list));
    assert!(matches_const(
        &anon(Pat::ListExact(vec![anon(Pat::Wildcard), anon(Pat::Wildcard), anon(Pat::Wildcard)])),
        &list
    ));
    assert!(matches_const(&anon(Pat::ListFront(vec![anon(Pat::Const(Const::Nat(1)))], None)), &list));
    let tail = anon(Pat::ListExact(vec![anon(Pat::Const(Const::Nat(2))), anon(Pat::Wildcard)]));
    assert!(matches_const(
        &anon(Pat::ListFront(vec![anon(Pat::Wildcard)], Some(Box::new(tail)))),
        &list
    ));
    let short = anon(Pat::ListExact(vec![anon(Pat::Wildcard)]));
    assert!(!matches_const(
        &anon(Pat::ListFront(vec![anon(Pat::Wildcard)], Some(Box::new(short)))),
        &list
    ));
    assert!(!matches_const(
        &anon(Pat::ListFront(
            vec![anon(Pat::Wildcard), anon(Pat::Wildcard), anon(Pat::Wildcard), anon(Pat::Wildcard)],
            None
        )),
        &list
    ));
}

#[test]
fn extract_names_outermost_first() {
    let inner = bind(2, Pat::Const(Const::Nat(4)));
    let tail = bind(4, Pat::Wildcard);
    let b = bind(
        1,
        Pat::ListFront(vec![inner, anon(Pat::Tuple(vec![bind(3, Pat::Wildcard)]))], Some(Box::new(tail))),
    );
    let known = b.try_extract(&Expr::Const(Const::List(vec![])));
    assert_eq!(
        known,
        vec![
            (Ident(1), Some(Const::List(vec![]))),
            (Ident(2), Some(Const::Nat(4))),
            (Ident(3), None),
            (Ident(4), None),
        ]
    );
    let unknown = b.try_extract(&Expr::Local(Ident(9)));
    assert_eq!(unknown[0], (Ident(1), None));
    assert_eq!(unknown.len(), 4);
}

#[test]
fn extract_inner_appends() {
    let b = bind(1, Pat::Const(Const::Bool(true)));
    let mut out = vec![(Ident(5), None)];
    b.try_extract_inner(None, &mut out);
    assert_eq!(out, vec![(Ident(5), None), (Ident(1), Some(Const::Bool(true)))]);
    anon(Pat::Wildcard).try_extract_inner(Some(&num(1)), &mut out);
    assert_eq!(out.len(), 2);
}

#[test]
fn inlines_procedures_once() {
    let can = GlobalFlags { can_inline: true };
    let cannot = GlobalFlags { can_inline: false };
    let mut ctx = Context {
        procs: vec![
            Proc { body: Expr::Intrinsic(Intrinsic::AddNat, vec![num(1), Expr::Global(ProcId(1), can)]) },
            Proc { body: num(41) },
            Proc { body: Expr::Apply(Box::new(Expr::Global(ProcId(2), can)), Box::new(Expr::Global(ProcId(1), cannot))) },
            Proc { body: Expr::Global(ProcId(9), can) },
        ],
    };
    let mut pass = ConstFold::default();
    pass.apply(&mut ctx);
    assert_eq!(ctx.procs[0].body, num(42));
    assert_eq!(ctx.procs[1].body, num(41));
    assert_eq!(
        ctx.procs[2].body,
        Expr::Apply(Box::new(Expr::Global(ProcId(2), can)), Box::new(Expr::Global(ProcId(1), cannot)))
    );
    assert_eq!(ctx.procs[3].body, Expr::Global(ProcId(9), can));
}

#[test]
fn mutual_recursion_is_unrolled_until_it_closes() {
    let can = GlobalFlags { can_inline: true };
    let mut ctx = Context {
        procs: vec![
            Proc { body: Expr::Variant(0, Box::new(Expr::Global(ProcId(1), can))) },
            Proc { body: Expr::Variant(1, Box::new(Expr::Global(ProcId(0), can))) },
        ],
    };
    ConstFold.apply(&mut ctx);
    let zero = Expr::Variant(
        0,
        Box::new(Expr::Variant(1, Box::new(Expr::Global(ProcId(0), can)))),
    );
    assert_eq!(ctx.procs[0].body, zero.clone());
    assert_eq!(
        ctx.procs[1].body,
        Expr::Variant(1, Box::new(Expr::Variant(0, Box::new(Expr::Variant(1, Box::new(Expr::Global(ProcId(0), can)))))))
    );
}
