use tao_analysis::context::analyze;
use tao_analysis::data::Named;
use tao_analysis::def::DefId;
use tao_analysis::error::Error;
use tao_analysis::example::ExamplePat;
use tao_analysis::hir::{
    AliasDecl, Arm, BinaryOp, DataDecl, DefDecl, Expr, ExprKind, Field, Literal, PatKind, Pattern,
    Program, SrcNode, TySlot, TypeExpr, TypeKind, UnaryOp, VariantDecl,
};
use tao_analysis::span::{Ident, Span, SrcId};
use tao_analysis::ty::{AliasId, DataId, GenScopeId, Prim, Ty, TyId, Types};

const BOOL: u64 = 1;
const TRUE: u64 = 2;
const FALSE: u64 = 3;

fn sp(n: usize) -> Span {
    Span::new(SrcId(0), n, n + 1)
}

fn ex(kind: ExprKind, n: usize) -> Expr {
    Expr { kind, span: sp(n), ty: TySlot::Unbound }
}

fn num(v: u64, n: usize) -> Expr {
    ex(ExprKind::Literal(Literal::Nat(v)), n)
}

fn boolean(v: bool, n: usize) -> Expr {
    ex(ExprKind::Literal(Literal::Bool(v)), n)
}

fn local(name: u64, n: usize) -> Expr {
    ex(ExprKind::Local(Ident(name)), n)
}

fn global(name: u64, n: usize) -> Expr {
    ex(ExprKind::Global(Ident(name)), n)
}

fn func(param: u64, pn: usize, body: Expr, n: usize) -> Expr {
    ex(ExprKind::Func(SrcNode { inner: Ident(param), span: sp(pn) }, Box::new(body)), n)
}

fn apply(f: Expr, arg: Expr, n: usize) -> Expr {
    ex(ExprKind::Apply(Box::new(f), Box::new(arg)), n)
}

fn cons(name: u64, fields: Vec<Expr>, n: usize) -> Expr {
    ex(ExprKind::Cons(SrcNode { inner: Ident(name), span: sp(n) }, fields), n)
}

fn binary(op: BinaryOp, on: usize, a: Expr, b: Expr, n: usize) -> Expr {
    ex(ExprKind::Binary(SrcNode { inner: op, span: sp(on) }, Box::new(a), Box::new(b)), n)
}

fn pat(kind: PatKind, name: Option<u64>, n: usize) -> Pattern {
    Pattern { kind, name: name.map(Ident), span: sp(n), ty: TySlot::Unbound }
}

fn cons_pat(name: u64, fields: Vec<Pattern>, n: usize) -> Pattern {
    pat(PatKind::Cons(SrcNode { inner: Ident(name), span: sp(n) }, fields), None, n)
}

fn arm(params: Vec<Pattern>, body: Expr, n: usize) -> Arm {
    Arm { params, body, span: sp(n) }
}

fn matching(on: Expr, arms: Vec<Arm>, n: usize) -> Expr {
    ex(ExprKind::Match(Box::new(on), arms), n)
}

fn prim(p: Prim, n: usize) -> TypeExpr {
    TypeExpr { kind: TypeKind::Prim(p), span: sp(n) }
}

fn named(name: u64, args: Vec<TypeExpr>, n: usize) -> TypeExpr {
    TypeExpr { kind: TypeKind::Named(Ident(name), args), span: sp(n) }
}

fn arrow(i: TypeExpr, o: TypeExpr, n: usize) -> TypeExpr {
    TypeExpr { kind: TypeKind::Func(Box::new(i), Box::new(o)), span: sp(n) }
}

fn list_of(item: TypeExpr, n: usize) -> TypeExpr {
    TypeExpr { kind: TypeKind::List(Box::new(item)), span: sp(n) }
}

fn gen(name: u64, n: usize) -> Named {
    Named { name: Ident(name), span: sp(n) }
}

fn bool_data() -> DataDecl {
    DataDecl {
        name: Ident(BOOL),
        span: sp(900),
        gens: vec![],
        variants: vec![
            VariantDecl { name: Ident(TRUE), span: sp(901), fields: vec![] },
            VariantDecl { name: Ident(FALSE), span: sp(902), fields: vec![] },
        ],
    }
}

fn def(name: u64, n: usize, hint: Option<TypeExpr>, body: Expr) -> DefDecl {
    DefDecl { name: Ident(name), span: sp(n), gens: vec![], hint, body }
}

fn program(datas: Vec<DataDecl>, defs: Vec<DefDecl>) -> Program {
    Program { datas, aliases: vec![], defs }
}

fn id_of(tys: &mut Types, ty: Ty) -> TyId {
    tys.intern(ty, sp(9999))
}

#[test]
fn constructor_checks_against_its_data_type() {
    let p = program(
        vec![bool_data()],
        vec![def(10, 0, Some(named(BOOL, vec![], 1)), cons(TRUE, vec![], 2))],
    );
    let a = analyze(&p);
    assert_eq!(a.errors, vec![]);
    assert_eq!(a.typed.len(), 1);
    let mut tys = a.tys;
    let before = tys.len();
    let wanted = id_of(&mut tys, Ty::Data(DataId(0), vec![]));
    assert_eq!(tys.len(), before);
    assert_eq!(a.typed[0].ty, wanted);
    assert_eq!(a.typed[0].body.ty, TySlot::Known(wanted));
    assert_eq!(a.typed[0].name, Ident(10));
    assert_eq!(a.defs.get(DefId(0)).ty, Some(wanted));
}

#[test]
fn match_that_leaves_a_constructor_out_is_reported() {
    let body = func(
        20,
        3,
        matching(local(20, 4), vec![arm(vec![cons_pat(TRUE, vec![], 5)], num(1, 6), 7)], 8),
        9,
    );
    let hint = arrow(named(BOOL, vec![], 1), prim(Prim::Nat, 2), 0);
    let p = program(vec![bool_data()], vec![def(10, 11, Some(hint), body)]);
    let a = analyze(&p);
    assert_eq!(a.errors, vec![Error::NotExhaustive(sp(8), ExamplePat::Cons(Ident(FALSE), vec![]))]);
}

#[test]
fn match_that_covers_every_constructor_passes() {
    let arms = vec![
        arm(vec![cons_pat(FALSE, vec![], 5)], num(0, 6), 7),
        arm(vec![cons_pat(TRUE, vec![], 12)], num(1, 13), 14),
    ];
    let body = func(20, 3, matching(local(20, 4), arms, 8), 9);
    let hint = arrow(named(BOOL, vec![], 1), prim(Prim::Nat, 2), 0);
    let a = analyze(&program(vec![bool_data()], vec![def(10, 11, Some(hint), body)]));
    assert_eq!(a.errors, vec![]);
}

#[test]
fn unannotated_operator_function_needs_a_hint() {
    let add = func(
        30,
        1,
        func(31, 2, binary(BinaryOp::Add, 3, local(30, 4), local(31, 5), 6), 7),
        8,
    );
    let first = apply(apply(global(40, 10), num(1, 11), 12), num(2, 13), 14);
    let second = apply(
        apply(global(40, 20), ex(ExprKind::Literal(Literal::Int(-1)), 21), 22),
        ex(ExprKind::Literal(Literal::Int(-2)), 23),
        24,
    );
    let p = program(
        vec![],
        vec![
            def(40, 9, None, add),
            def(41, 15, Some(prim(Prim::Nat, 16)), first),
            def(42, 25, Some(prim(Prim::Int, 26)), second),
        ],
    );
    let a = analyze(&p);
    assert_eq!(
        a.errors,
        vec![
            Error::DefTypeNotSpecified(sp(9), sp(1), Ident(40)),
            Error::DefTypeNotSpecified(sp(9), sp(10), Ident(40)),
            Error::DefTypeNotSpecified(sp(9), sp(20), Ident(40)),
        ]
    );
    assert_eq!(a.defs.get(DefId(0)).ty, None);
    assert_eq!(a.typed.len(), 3);
}

#[test]
fn operator_function_with_a_hint_checks() {
    let add = func(
        30,
        1,
        func(31, 2, binary(BinaryOp::Add, 3, local(30, 4), local(31, 5), 6), 7),
        8,
    );
    let hint = arrow(prim(Prim::Nat, 50), arrow(prim(Prim::Nat, 51), prim(Prim::Nat, 52), 53), 54);
    let use_it = apply(apply(global(40, 10), num(1, 11), 12), num(2, 13), 14);
    let p = program(
        vec![],
        vec![def(40, 9, Some(hint), add), def(41, 15, Some(prim(Prim::Nat, 16)), use_it)],
    );
    let a = analyze(&p);
    assert_eq!(a.errors, vec![]);
    let mut tys = a.tys;
    let nat_ty = id_of(&mut tys, Ty::Prim(Prim::Nat));
    assert_eq!(a.typed[1].ty, nat_ty);
}

#[test]
fn definition_without_hint_takes_the_type_of_its_body() {
    let p = program(
        vec![],
        vec![
            def(40, 0, None, num(1, 1)),
            def(
                41,
                2,
                Some(prim(Prim::Nat, 3)),
                binary(BinaryOp::Add, 4, global(40, 5), global(40, 6), 7),
            ),
        ],
    );
    let a = analyze(&p);
    assert_eq!(a.errors, vec![]);
    let mut tys = a.tys;
    let nat_ty = id_of(&mut tys, Ty::Prim(Prim::Nat));
    assert_eq!(a.defs.get(DefId(0)).ty, Some(nat_ty));
    assert_eq!(a.typed[0].ty, nat_ty);
    assert_eq!(a.typed[1].body.ty, TySlot::Known(nat_ty));
}

#[test]
fn generic_definition_is_instantiated_anew_at_each_use() {
    let identity = DefDecl {
        name: Ident(40),
        span: sp(0),
        gens: vec![gen(60, 1)],
        hint: Some(arrow(named(60, vec![], 2), named(60, vec![], 3), 4)),
        body: func(30, 5, local(30, 6), 7),
    };
    let p = program(
        vec![],
        vec![
            identity,
            def(41, 8, Some(prim(Prim::Nat, 9)), apply(global(40, 10), num(1, 11), 12)),
            def(42, 13, Some(prim(Prim::Bool, 14)), apply(global(40, 15), boolean(true, 16), 17)),
        ],
    );
    let a = analyze(&p);
    assert_eq!(a.errors, vec![]);
    let mut tys = a.tys;
    let g = id_of(&mut tys, Ty::Gen(0, GenScopeId(0)));
    let wanted = id_of(&mut tys, Ty::Func(g, g));
    assert_eq!(a.typed[0].ty, wanted);
}

#[test]
fn body_must_have_the_hinted_type() {
    let p = program(vec![], vec![def(40, 0, Some(prim(Prim::Nat, 1)), boolean(true, 2))]);
    let a = analyze(&p);
    let mut tys = a.tys;
    let nat_ty = id_of(&mut tys, Ty::Prim(Prim::Nat));
    let bool_ty = id_of(&mut tys, Ty::Prim(Prim::Bool));
    assert_eq!(a.errors, vec![Error::Mismatch(bool_ty, nat_ty, Some(sp(0)))]);
}

#[test]
fn unknown_names_are_reported() {
    let p = program(
        vec![],
        vec![
            def(40, 0, Some(prim(Prim::Nat, 1)), local(77, 2)),
            def(41, 3, Some(prim(Prim::Nat, 4)), global(78, 5)),
            def(42, 6, Some(prim(Prim::Nat, 7)), cons(79, vec![], 8)),
        ],
    );
    let a = analyze(&p);
    assert_eq!(
        a.errors,
        vec![
            Error::NoSuchLocal(SrcNode { inner: Ident(77), span: sp(2) }),
            Error::NoSuchLocal(SrcNode { inner: Ident(78), span: sp(5) }),
            Error::NoSuchCons(SrcNode { inner: Ident(79), span: sp(8) }),
        ]
    );
}

#[test]
fn match_needs_arms_of_one_length() {
    let none = matching(num(1, 1), vec![], 2);
    let arms = vec![
        arm(vec![pat(PatKind::Wildcard, None, 10)], num(1, 11), 12),
        arm(vec![pat(PatKind::Wildcard, None, 13), pat(PatKind::Wildcard, None, 14)], num(2, 15), 16),
    ];
    let uneven = matching(num(1, 17), arms, 18);
    let p = program(
        vec![],
        vec![
            def(40, 0, Some(prim(Prim::Nat, 3)), none),
            def(41, 4, Some(prim(Prim::Nat, 5)), uneven),
        ],
    );
    let a = analyze(&p);
    assert_eq!(
        a.errors,
        vec![Error::NoBranches(sp(2)), Error::WrongNumberOfParams(sp(12), 1, sp(16), 2)]
    );
}

#[test]
fn fields_are_looked_up_in_tuples() {
    let pair = ex(ExprKind::Tuple(vec![num(1, 1), boolean(true, 2)]), 3);
    let second = ex(
        ExprKind::Access(
            Box::new(pair),
            SrcNode { inner: Field { name: Ident(70), index: 1 }, span: sp(4) },
        ),
        5,
    );
    let pair2 = ex(ExprKind::Tuple(vec![num(1, 11), boolean(true, 12)]), 13);
    let third = ex(
        ExprKind::Access(
            Box::new(pair2),
            SrcNode { inner: Field { name: Ident(71), index: 2 }, span: sp(14) },
        ),
        15,
    );
    let p = program(
        vec![],
        vec![
            def(40, 0, Some(prim(Prim::Bool, 6)), second),
            def(41, 10, Some(prim(Prim::Bool, 16)), third),
        ],
    );
    let a = analyze(&p);
    let mut tys = a.tys;
    let nat_ty = id_of(&mut tys, Ty::Prim(Prim::Nat));
    let bool_ty = id_of(&mut tys, Ty::Prim(Prim::Bool));
    let pair_ty = id_of(&mut tys, Ty::Tuple(vec![nat_ty, bool_ty]));
    assert_eq!(
        a.errors,
        vec![Error::NoSuchField(pair_ty, SrcNode { inner: Ident(71), span: sp(14) })]
    );
    assert_eq!(a.typed[0].body.ty, TySlot::Known(bool_ty));
}

#[test]
fn operators_are_defined_on_some_types_only() {
    let not_nat = ex(
        ExprKind::Unary(SrcNode { inner: UnaryOp::Not, span: sp(1) }, Box::new(num(1, 2))),
        3,
    );
    let add_bools = binary(BinaryOp::Add, 11, boolean(true, 12), boolean(false, 13), 14);
    let neg = ex(
        ExprKind::Unary(SrcNode { inner: UnaryOp::Neg, span: sp(21) }, Box::new(num(1, 22))),
        23,
    );
    let less = binary(BinaryOp::Less, 31, num(1, 32), num(2, 33), 34);
    let p = program(
        vec![],
        vec![
            def(40, 0, Some(prim(Prim::Bool, 4)), not_nat),
            def(41, 10, Some(prim(Prim::Bool, 15)), add_bools),
            def(42, 20, Some(prim(Prim::Int, 24)), neg),
            def(43, 30, Some(prim(Prim::Bool, 35)), less),
        ],
    );
    let a = analyze(&p);
    let mut tys = a.tys;
    let nat_ty = id_of(&mut tys, Ty::Prim(Prim::Nat));
    let bool_ty = id_of(&mut tys, Ty::Prim(Prim::Bool));
    assert_eq!(
        a.errors,
        vec![
            Error::InvalidUnaryOp(SrcNode { inner: UnaryOp::Not, span: sp(1) }, nat_ty, sp(2)),
            Error::InvalidBinaryOp(
                SrcNode { inner: BinaryOp::Add, span: sp(11) },
                bool_ty,
                sp(12),
                bool_ty,
                sp(13)
            ),
        ]
    );
}

#[test]
fn operator_on_generic_parameter_is_reported() {
    let twice = DefDecl {
        name: Ident(40),
        span: sp(0),
        gens: vec![gen(60, 1)],
        hint: Some(arrow(named(60, vec![], 2), named(60, vec![], 3), 4)),
        body: func(30, 5, binary(BinaryOp::Add, 6, local(30, 7), local(30, 8), 9), 10),
    };
    let a = analyze(&program(vec![], vec![twice]));
    let mut tys = a.tys;
    let g = id_of(&mut tys, Ty::Gen(0, GenScopeId(0)));
    assert_eq!(
        a.errors,
        vec![Error::InvalidBinaryOp(
            SrcNode { inner: BinaryOp::Add, span: sp(6) },
            g,
            sp(7),
            g,
            sp(8)
        )]
    );
}

#[test]
fn type_that_stays_unknown_is_reported_once() {
    let empty = ex(ExprKind::List(vec![]), 1);
    let body = matching(empty, vec![arm(vec![pat(PatKind::Wildcard, None, 2)], num(1, 3), 4)], 5);
    let a = analyze(&program(vec![], vec![def(40, 0, Some(prim(Prim::Nat, 6)), body)]));
    let mut tys = a.tys;
    let err = id_of(&mut tys, Ty::Error);
    let list = id_of(&mut tys, Ty::List(err));
    assert_eq!(a.errors, vec![Error::CannotInfer(list, None)]);
}

#[test]
fn unknown_type_from_generic_definition_names_the_use() {
    let nil = DefDecl {
        name: Ident(40),
        span: sp(0),
        gens: vec![gen(60, 1)],
        hint: Some(list_of(named(60, vec![], 2), 3)),
        body: ex(ExprKind::List(vec![]), 4),
    };
    let body = matching(
        global(40, 11),
        vec![arm(vec![pat(PatKind::Wildcard, None, 12)], num(1, 13), 14)],
        15,
    );
    let a = analyze(&program(vec![], vec![nil, def(41, 10, Some(prim(Prim::Nat, 16)), body)]));
    let mut tys = a.tys;
    let err = id_of(&mut tys, Ty::Error);
    let list = id_of(&mut tys, Ty::List(err));
    assert_eq!(a.errors, vec![Error::CannotInfer(list, Some(sp(11)))]);
}

#[test]
fn lists_are_joined() {
    let left = ex(ExprKind::List(vec![num(1, 1)]), 2);
    let right = ex(ExprKind::List(vec![num(2, 3)]), 4);
    let body = binary(BinaryOp::Join, 5, left, right, 6);
    let a = analyze(&program(vec![], vec![def(40, 0, Some(list_of(prim(Prim::Nat, 7), 8)), body)]));
    assert_eq!(a.errors, vec![]);
}

#[test]
fn duplicate_names_are_reported_and_checking_goes_on() {
    let twice = DataDecl {
        name: Ident(5),
        span: sp(0),
        gens: vec![gen(60, 1), gen(60, 2)],
        variants: vec![
            VariantDecl { name: Ident(6), span: sp(3), fields: vec![] },
            VariantDecl { name: Ident(6), span: sp(4), fields: vec![] },
        ],
    };
    let again = DataDecl { name: Ident(5), span: sp(5), gens: vec![], variants: vec![] };
    let p = Program {
        datas: vec![twice, again],
        aliases: vec![AliasDecl { name: Ident(5), span: sp(6), gens: vec![], ty: prim(Prim::Nat, 7) }],
        defs: vec![
            def(40, 8, Some(prim(Prim::Nat, 9)), num(1, 10)),
            def(40, 11, Some(prim(Prim::Nat, 12)), num(2, 13)),
            def(41, 14, Some(prim(Prim::Nat, 15)), global(40, 16)),
        ],
    };
    let a = analyze(&p);
    assert_eq!(
        a.errors,
        vec![
            Error::DuplicateGenName(Ident(60), sp(1), sp(2)),
            Error::DuplicateConsName(Ident(6), sp(3), sp(4)),
            Error::DuplicateTypeName(Ident(5), sp(0), sp(5)),
            Error::DuplicateTypeName(Ident(5), sp(0), sp(6)),
            Error::DuplicateDefName(Ident(40), sp(8), sp(11)),
        ]
    );
    assert_eq!(a.typed.len(), 2);
    assert_eq!(a.typed[1].name, Ident(41));
    assert_eq!(a.datas.data_count(), 1);
    assert_eq!(a.datas.cons_count(), 1);
    assert_eq!(a.datas.alias_count(), 0);
    assert_eq!(a.datas.get_scope(GenScopeId(0)).len(), 1);
}

#[test]
fn generic_arguments_must_match_the_parameters() {
    let pair = DataDecl {
        name: Ident(5),
        span: sp(0),
        gens: vec![gen(60, 1), gen(61, 2)],
        variants: vec![VariantDecl {
            name: Ident(6),
            span: sp(3),
            fields: vec![named(60, vec![], 4), named(61, vec![], 5)],
        }],
    };
    let p = program(
        vec![pair],
        vec![def(40, 6, Some(named(5, vec![prim(Prim::Nat, 7)], 8)), num(1, 9))],
    );
    let a = analyze(&p);
    assert_eq!(a.errors, vec![Error::WrongNumberOfGenerics(sp(8), 1, sp(0), 2)]);
}

#[test]
fn generic_data_type_is_applied_to_arguments() {
    let pair = DataDecl {
        name: Ident(5),
        span: sp(0),
        gens: vec![gen(60, 1), gen(61, 2)],
        variants: vec![VariantDecl {
            name: Ident(6),
            span: sp(3),
            fields: vec![named(60, vec![], 4), named(61, vec![], 5)],
        }],
    };
    let hint = named(5, vec![prim(Prim::Nat, 7), prim(Prim::Bool, 8)], 9);
    let good = cons(6, vec![num(1, 10), boolean(true, 11)], 12);
    let bad = cons(6, vec![boolean(true, 20), boolean(true, 21)], 22);
    let hint2 = named(5, vec![prim(Prim::Nat, 23), prim(Prim::Bool, 24)], 25);
    let p = program(vec![pair], vec![def(40, 6, Some(hint), good), def(41, 26, Some(hint2), bad)]);
    let a = analyze(&p);
    let mut tys = a.tys;
    let nat_ty = id_of(&mut tys, Ty::Prim(Prim::Nat));
    let bool_ty = id_of(&mut tys, Ty::Prim(Prim::Bool));
    let wanted = id_of(&mut tys, Ty::Data(DataId(0), vec![nat_ty, bool_ty]));
    let found = id_of(&mut tys, Ty::Data(DataId(0), vec![bool_ty, bool_ty]));
    assert_eq!(a.typed[0].ty, wanted);
    assert_eq!(a.errors, vec![Error::Mismatch(found, wanted, Some(sp(26)))]);
    assert_eq!(a.datas.get_cons(0).fields.len(), 2);
}

#[test]
fn undeclared_type_is_reported() {
    let p = program(vec![], vec![def(40, 0, Some(named(99, vec![], 1)), num(1, 2))]);
    let a = analyze(&p);
    assert_eq!(a.errors, vec![Error::NoSuchData(SrcNode { inner: Ident(99), span: sp(1) })]);
}

#[test]
fn aliases_are_expanded() {
    let p = Program {
        datas: vec![],
        aliases: vec![
            AliasDecl { name: Ident(5), span: sp(0), gens: vec![], ty: named(6, vec![prim(Prim::Nat, 1)], 2) },
            AliasDecl {
                name: Ident(6),
                span: sp(3),
                gens: vec![gen(60, 4)],
                ty: list_of(named(60, vec![], 5), 6),
            },
        ],
        defs: vec![def(40, 7, Some(named(5, vec![], 8)), ex(ExprKind::List(vec![num(1, 9)]), 10))],
    };
    let a = analyze(&p);
    assert_eq!(a.errors, vec![]);
    let mut tys = a.tys;
    let nat_ty = id_of(&mut tys, Ty::Prim(Prim::Nat));
    let list = id_of(&mut tys, Ty::List(nat_ty));
    assert_eq!(a.typed[0].ty, list);
    assert_eq!(a.datas.get_alias(AliasId(0)).ty, Some(list));
    let g = id_of(&mut tys, Ty::Gen(0, GenScopeId(1)));
    let generic = id_of(&mut tys, Ty::List(g));
    assert_eq!(a.datas.get_alias(AliasId(1)).ty, Some(generic));
}

#[test]
fn alias_of_itself_is_reported() {
    let p = Program {
        datas: vec![],
        aliases: vec![AliasDecl {
            name: Ident(5),
            span: sp(0),
            gens: vec![],
            ty: list_of(named(5, vec![], 1), 2),
        }],
        defs: vec![def(40, 3, Some(prim(Prim::Nat, 4)), num(1, 5))],
    };
    let a = analyze(&p);
    let mut tys = a.tys;
    let err = id_of(&mut tys, Ty::Error);
    assert_eq!(a.errors, vec![Error::RecursiveAlias(AliasId(0), err, sp(1))]);
    assert_eq!(a.datas.get_alias(AliasId(0)).ty, Some(err));
    assert_eq!(a.typed.len(), 1);
}

#[test]
fn aliases_of_one_another_are_reported() {
    let p = Program {
        datas: vec![],
        aliases: vec![
            AliasDecl { name: Ident(5), span: sp(0), gens: vec![], ty: named(6, vec![], 1) },
            AliasDecl { name: Ident(6), span: sp(2), gens: vec![], ty: named(5, vec![], 3) },
        ],
        defs: vec![],
    };
    let a = analyze(&p);
    let mut tys = a.tys;
    let err = id_of(&mut tys, Ty::Error);
    assert_eq!(
        a.errors,
        vec![
            Error::RecursiveAlias(AliasId(0), err, sp(3)),
            Error::RecursiveAlias(AliasId(1), err, sp(1)),
        ]
    );
}

#[test]
fn the_diagnostics_of_registration_come_first_and_in_order() {
    // data T A A = K Missing | K;  data T = L
    // type T = Nat;  type R = [R]
    // def f : Missing2 = 1;  def f : R = 2;  def g = True (no such constructor)
    let t = DataDecl {
        name: Ident(1),
        span: sp(0),
        gens: vec![gen(10, 1), gen(10, 2)],
        variants: vec![
            VariantDecl { name: Ident(2), span: sp(3), fields: vec![named(90, vec![], 4)] },
            VariantDecl { name: Ident(2), span: sp(5), fields: vec![] },
        ],
    };
    let again = DataDecl {
        name: Ident(1),
        span: sp(6),
        gens: vec![],
        variants: vec![VariantDecl { name: Ident(3), span: sp(7), fields: vec![] }],
    };
    let taken = AliasDecl { name: Ident(1), span: sp(8), gens: vec![], ty: prim(Prim::Nat, 9) };
    let row = AliasDecl {
        name: Ident(4),
        span: sp(10),
        gens: vec![],
        ty: list_of(named(4, vec![], 11), 12),
    };
    let p = Program {
        datas: vec![t, again],
        aliases: vec![taken, row],
        defs: vec![
            def(40, 20, Some(named(91, vec![], 21)), num(1, 22)),
            def(40, 23, Some(named(4, vec![], 24)), num(2, 25)),
            def(41, 26, None, cons(77, vec![], 27)),
        ],
    };
    let a = analyze(&p);
    let mut tys = a.tys;
    let hole = id_of(&mut tys, Ty::Error);
    assert_eq!(a.registered.datas, vec![Some(DataId(0)), None]);
    assert_eq!(a.registered.conses, vec![vec![Some(0), None], vec![]]);
    assert_eq!(a.registered.aliases, vec![None, Some(AliasId(0))]);
    assert_eq!(a.typed.len(), 2);
    assert_eq!(a.typed[0].name, Ident(40));
    assert_eq!(a.typed[0].span, sp(20));
    assert_eq!(a.typed[1].name, Ident(41));
    let setup = vec![
        Error::DuplicateGenName(Ident(10), sp(1), sp(2)),
        Error::DuplicateConsName(Ident(2), sp(3), sp(5)),
        Error::DuplicateTypeName(Ident(1), sp(0), sp(6)),
        Error::DuplicateTypeName(Ident(1), sp(0), sp(8)),
        Error::NoSuchData(SrcNode { inner: Ident(90), span: sp(4) }),
        Error::RecursiveAlias(AliasId(0), hole, sp(11)),
        Error::NoSuchData(SrcNode { inner: Ident(91), span: sp(21) }),
        Error::RecursiveAlias(AliasId(0), hole, sp(11)),
        Error::DuplicateDefName(Ident(40), sp(20), sp(23)),
    ];
    assert!(a.errors.len() > setup.len());
    assert_eq!(a.errors[..setup.len()], setup[..]);
    assert_eq!(
        a.errors[setup.len()..],
        [Error::NoSuchCons(SrcNode { inner: Ident(77), span: sp(27) })]
    );
}
