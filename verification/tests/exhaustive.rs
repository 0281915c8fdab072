use tao_analysis::check::check_matches;
use tao_analysis::data::Datas;
use tao_analysis::error::Error;
use tao_analysis::example::ExamplePat;
use tao_analysis::exhaustive::{example_of, lower, missing_case, Head, Pat};
use tao_analysis::hir::{Arm, Expr, ExprKind, Literal, PatKind, Pattern, SrcNode, TySlot};
use tao_analysis::span::{Ident, Span, SrcId};
use tao_analysis::ty::{DataId, GenScopeId};

fn sp(n: usize) -> Span {
    Span::new(SrcId(0), n, n + 1)
}

fn lit(h: Head) -> Pat {
    Pat::Ctor(h, vec![])
}

fn pair(a: Pat, b: Pat) -> Pat {
    Pat::Ctor(Head::Tuple, vec![a, b])
}

fn link(a: Pat, b: Pat) -> Pat {
    Pat::Ctor(Head::Link, vec![a, b])
}

fn maybe() -> Datas {
    let mut datas = Datas::new();
    let (scope, _) = datas.declare_scope(&vec![]);
    let data = datas.declare_data(Ident(1), sp(0), scope).unwrap();
    assert_eq!(data, DataId(0));
    assert_eq!(scope, GenScopeId(0));
    assert_eq!(datas.declare_cons(data, Ident(2), sp(1)), Ok(0));
    assert_eq!(datas.declare_cons(data, Ident(3), sp(2)), Ok(1));
    datas.define_cons(1, vec![]);
    datas
}

fn pattern(kind: PatKind) -> Pattern {
    Pattern { kind, name: None, span: sp(0), ty: TySlot::Unbound }
}

#[test]
fn wildcard_covers_everything() {
    let datas = Datas::new();
    assert_eq!(missing_case(&datas, &vec![vec![Pat::Wild]], 1), None);
    assert_eq!(missing_case(&datas, &vec![vec![lit(Head::True)], vec![Pat::Wild]], 1), None);
    assert_eq!(missing_case(&datas, &vec![], 1), Some(vec![Pat::Wild]));
    assert_eq!(missing_case(&datas, &vec![], 0), Some(vec![]));
    assert_eq!(missing_case(&datas, &vec![vec![]], 0), None);
}

#[test]
fn booleans_need_both_values() {
    let datas = Datas::new();
    assert_eq!(missing_case(&datas, &vec![vec![lit(Head::True)]], 1), Some(vec![lit(Head::False)]));
    assert_eq!(missing_case(&datas, &vec![vec![lit(Head::False)]], 1), Some(vec![lit(Head::True)]));
    assert_eq!(
        missing_case(&datas, &vec![vec![lit(Head::False)], vec![lit(Head::True)]], 1),
        None
    );
}

#[test]
fn tuples_are_covered_part_by_part() {
    let datas = Datas::new();
    let rows = vec![
        vec![pair(lit(Head::True), Pat::Wild)],
        vec![pair(lit(Head::False), lit(Head::True))],
    ];
    assert_eq!(
        missing_case(&datas, &rows, 1),
        Some(vec![pair(lit(Head::False), lit(Head::False))])
    );
    let rows = vec![
        vec![pair(lit(Head::True), Pat::Wild)],
        vec![pair(Pat::Wild, lit(Head::True))],
        vec![pair(lit(Head::False), lit(Head::False))],
    ];
    assert_eq!(missing_case(&datas, &rows, 1), None);
}

#[test]
fn numbers_need_a_pattern_for_the_rest() {
    let datas = Datas::new();
    let rows = vec![vec![lit(Head::Nat(0))], vec![lit(Head::Nat(2))]];
    assert_eq!(missing_case(&datas, &rows, 1), Some(vec![lit(Head::Nat(1))]));
    let rows = vec![vec![lit(Head::Nat(0))], vec![Pat::Wild]];
    assert_eq!(missing_case(&datas, &rows, 1), None);
    let rows = vec![vec![lit(Head::Int(0))], vec![lit(Head::Int(-4))]];
    assert_eq!(missing_case(&datas, &rows, 1), Some(vec![lit(Head::Int(1))]));
    let rows = vec![vec![lit(Head::Char('a'))]];
    assert_eq!(missing_case(&datas, &rows, 1), Some(vec![lit(Head::Other)]));
}

#[test]
fn lists_are_covered_by_length() {
    let datas = Datas::new();
    let rows = vec![vec![lit(Head::Nil)]];
    assert_eq!(missing_case(&datas, &rows, 1), Some(vec![link(Pat::Wild, Pat::Wild)]));
    let rows = vec![vec![lit(Head::Nil)], vec![link(Pat::Wild, lit(Head::Nil))]];
    assert_eq!(
        missing_case(&datas, &rows, 1),
        Some(vec![link(Pat::Wild, link(Pat::Wild, Pat::Wild))])
    );
    let rows = vec![vec![lit(Head::Nil)], vec![link(Pat::Wild, Pat::Wild)]];
    assert_eq!(missing_case(&datas, &rows, 1), None);
}

#[test]
fn constructors_are_tried_in_order_of_declaration() {
    let datas = maybe();
    let rows = vec![vec![Pat::Ctor(Head::Variant(1), vec![])]];
    assert_eq!(missing_case(&datas, &rows, 1), Some(vec![Pat::Ctor(Head::Variant(0), vec![])]));
    let rows = vec![
        vec![Pat::Ctor(Head::Variant(1), vec![])],
        vec![Pat::Ctor(Head::Variant(0), vec![])],
    ];
    assert_eq!(missing_case(&datas, &rows, 1), None);
}

#[test]
fn rows_of_another_length_take_no_part() {
    let datas = Datas::new();
    let rows = vec![vec![Pat::Wild, Pat::Wild], vec![lit(Head::True)]];
    assert_eq!(missing_case(&datas, &rows, 1), Some(vec![lit(Head::False)]));
    let rows = vec![vec![lit(Head::True), lit(Head::True)], vec![lit(Head::False), Pat::Wild]];
    assert_eq!(missing_case(&datas, &rows, 2), Some(vec![lit(Head::True), lit(Head::False)]));
}

#[test]
fn patterns_are_lowered() {
    let datas = maybe();
    assert_eq!(lower(&datas, &pattern(PatKind::Wildcard)), Pat::Wild);
    assert_eq!(lower(&datas, &pattern(PatKind::Literal(Literal::Bool(true)))), lit(Head::True));
    assert_eq!(lower(&datas, &pattern(PatKind::Literal(Literal::Nat(4)))), lit(Head::Nat(4)));
    let items = vec![pattern(PatKind::Wildcard), pattern(PatKind::Literal(Literal::Int(-1)))];
    assert_eq!(
        lower(&datas, &pattern(PatKind::Tuple(items))),
        pair(Pat::Wild, lit(Head::Int(-1)))
    );
    let items = vec![pattern(PatKind::Literal(Literal::Char('a'))), pattern(PatKind::Wildcard)];
    assert_eq!(
        lower(&datas, &pattern(PatKind::ListExact(items))),
        link(lit(Head::Char('a')), link(Pat::Wild, lit(Head::Nil)))
    );
    let items = vec![pattern(PatKind::Wildcard)];
    assert_eq!(
        lower(&datas, &pattern(PatKind::ListFront(items, None))),
        link(Pat::Wild, Pat::Wild)
    );
    let items = vec![pattern(PatKind::Wildcard)];
    let tail = pattern(PatKind::ListExact(vec![]));
    assert_eq!(
        lower(&datas, &pattern(PatKind::ListFront(items, Some(Box::new(tail))))),
        link(Pat::Wild, lit(Head::Nil))
    );
    let known = PatKind::Cons(SrcNode { inner: Ident(3), span: sp(1) }, vec![]);
    assert_eq!(lower(&datas, &pattern(known)), Pat::Ctor(Head::Variant(1), vec![]));
    let unknown = PatKind::Cons(SrcNode { inner: Ident(9), span: sp(1) }, vec![]);
    assert_eq!(lower(&datas, &pattern(unknown)), Pat::Wild);
}

#[test]
fn examples_are_reported_as_they_are_written() {
    let datas = maybe();
    assert_eq!(example_of(&datas, &Pat::Wild), ExamplePat::Wildcard);
    assert_eq!(example_of(&datas, &lit(Head::Other)), ExamplePat::Wildcard);
    assert_eq!(example_of(&datas, &lit(Head::False)), ExamplePat::Bool(false));
    assert_eq!(example_of(&datas, &lit(Head::Nat(3))), ExamplePat::Nat(3));
    assert_eq!(example_of(&datas, &lit(Head::Int(-3))), ExamplePat::Int(-3));
    assert_eq!(example_of(&datas, &lit(Head::Char('c'))), ExamplePat::Char('c'));
    assert_eq!(
        example_of(&datas, &pair(Pat::Wild, lit(Head::True))),
        ExamplePat::Tuple(vec![ExamplePat::Wildcard, ExamplePat::Bool(true)])
    );
    assert_eq!(example_of(&datas, &lit(Head::Nil)), ExamplePat::List(vec![]));
    assert_eq!(
        example_of(&datas, &link(lit(Head::Nat(1)), link(Pat::Wild, lit(Head::Nil)))),
        ExamplePat::List(vec![ExamplePat::Nat(1), ExamplePat::Wildcard])
    );
    assert_eq!(
        example_of(&datas, &link(Pat::Wild, Pat::Wild)),
        ExamplePat::ListFront(vec![ExamplePat::Wildcard])
    );
    assert_eq!(
        example_of(&datas, &Pat::Ctor(Head::Variant(0), vec![Pat::Wild])),
        ExamplePat::Cons(Ident(2), vec![ExamplePat::Wildcard])
    );
}

fn expr(kind: ExprKind, at: usize) -> Expr {
    Expr { kind, span: sp(at), ty: TySlot::Unbound }
}

fn truth(b: bool) -> Pattern {
    pattern(PatKind::Literal(Literal::Bool(b)))
}

fn arm(params: Vec<Pattern>, body: Expr) -> Arm {
    Arm { params, body, span: sp(0) }
}

fn on(at: usize, arms: Vec<Arm>) -> Expr {
    expr(ExprKind::Match(Box::new(expr(ExprKind::Literal(Literal::Bool(true)), 0)), arms), at)
}

#[test]
fn a_match_is_reported_after_the_matches_inside_it() {
    let datas = Datas::new();
    let one = expr(ExprKind::Literal(Literal::Nat(1)), 0);
    let inner = on(20, vec![arm(vec![truth(false)], one)]);
    let outer = on(10, vec![arm(vec![truth(true)], inner)]);
    let whole = expr(ExprKind::Tuple(vec![outer, on(30, vec![])]), 40);
    let mut errors = vec![Error::NoSuchData(SrcNode { inner: Ident(9), span: sp(7) })];
    check_matches(&datas, &whole, &mut errors);
    assert_eq!(
        errors,
        vec![
            Error::NoSuchData(SrcNode { inner: Ident(9), span: sp(7) }),
            Error::NotExhaustive(sp(20), ExamplePat::Bool(true)),
            Error::NotExhaustive(sp(10), ExamplePat::Bool(false)),
        ]
    );
}

#[test]
fn a_match_on_several_values_is_reported_with_an_example_for_each() {
    let datas = Datas::new();
    let one = || expr(ExprKind::Literal(Literal::Nat(1)), 0);
    let two = on(
        5,
        vec![
            arm(vec![truth(true), pattern(PatKind::Wildcard)], one()),
            arm(vec![truth(false), truth(true)], one()),
            arm(vec![truth(false)], one()),
        ],
    );
    let mut errors = Vec::new();
    check_matches(&datas, &two, &mut errors);
    assert_eq!(
        errors,
        vec![Error::NotExhaustive(
            sp(5),
            ExamplePat::Tuple(vec![ExamplePat::Bool(false), ExamplePat::Bool(false)])
        )]
    );
}

#[test]
fn an_arm_for_any_value_completes_a_match() {
    let datas = maybe();
    let one = || expr(ExprKind::Literal(Literal::Nat(1)), 0);
    let covered = on(
        5,
        vec![
            arm(vec![pattern(PatKind::Literal(Literal::Nat(3))), truth(true)], one()),
            arm(vec![pattern(PatKind::Wildcard), pattern(PatKind::Wildcard)], one()),
        ],
    );
    let mut errors = Vec::new();
    check_matches(&datas, &covered, &mut errors);
    assert_eq!(errors, vec![]);
}
