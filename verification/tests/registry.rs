use tao_analysis::context::{define_types, register_types};
use tao_analysis::data::{Alias, Datas, Duplicate, Named, TypeEntry, TypeRef};
use tao_analysis::def::{Def, DefId, Defs};
use tao_analysis::error::Error;
use tao_analysis::hir::{AliasDecl, DataDecl, Program, SrcNode, TypeExpr, TypeKind, VariantDecl};
use tao_analysis::span::{Ident, Span, SrcId};
use tao_analysis::ty::{AliasId, DataId, GenScopeId, Prim, Ty, TyId, Types};

fn sp(n: usize) -> Span {
    Span::new(SrcId(0), n, n + 1)
}

fn param(name: u64, n: usize) -> Named {
    Named { name: Ident(name), span: sp(n) }
}

#[test]
fn generic_parameters_are_kept_once() {
    let mut datas = Datas::new();
    let (scope, dups) =
        datas.declare_scope(&vec![param(1, 0), param(2, 1), param(1, 2), param(2, 3), param(1, 4)]);
    assert_eq!(scope, GenScopeId(0));
    assert_eq!(
        dups,
        vec![
            Duplicate { name: Ident(1), old: sp(0), new: sp(2) },
            Duplicate { name: Ident(2), old: sp(1), new: sp(3) },
            Duplicate { name: Ident(1), old: sp(0), new: sp(4) },
        ]
    );
    assert_eq!(datas.get_scope(scope), &vec![param(1, 0), param(2, 1)]);
    let (second, dups) = datas.declare_scope(&vec![]);
    assert_eq!(second, GenScopeId(1));
    assert_eq!(dups, vec![]);
    assert_eq!(datas.scope_count(), 2);
}

#[test]
fn type_names_are_declared_once() {
    let mut datas = Datas::new();
    let (scope, _) = datas.declare_scope(&vec![]);
    assert_eq!(datas.lookup_type(Ident(7)), None);
    assert_eq!(datas.declare_data(Ident(7), sp(0), scope), Ok(DataId(0)));
    assert_eq!(datas.declare_alias(Ident(8), sp(1), scope), Ok(AliasId(0)));
    assert_eq!(
        datas.declare_data(Ident(8), sp(2), scope),
        Err(Duplicate { name: Ident(8), old: sp(1), new: sp(2) })
    );
    assert_eq!(
        datas.declare_alias(Ident(7), sp(3), scope),
        Err(Duplicate { name: Ident(7), old: sp(0), new: sp(3) })
    );
    assert_eq!(datas.declare_data(Ident(9), sp(4), scope), Ok(DataId(1)));
    assert_eq!(
        datas.lookup_type(Ident(7)),
        Some(TypeEntry { name: Ident(7), span: sp(0), target: TypeRef::Data(DataId(0)) })
    );
    assert_eq!(
        datas.lookup_type(Ident(8)),
        Some(TypeEntry { name: Ident(8), span: sp(1), target: TypeRef::Alias(AliasId(0)) })
    );
    assert_eq!(datas.data_count(), 2);
    assert_eq!(datas.alias_count(), 1);
    assert_eq!(datas.get_data(DataId(1)).name, Ident(9));
    assert_eq!(datas.get_alias_span(AliasId(0)), sp(1));
    assert_eq!(
        datas.get_alias(AliasId(0)),
        Alias { name: Ident(8), span: sp(1), gen_scope: scope, ty: None }
    );
    datas.define_alias(AliasId(0), TyId(5));
    assert_eq!(datas.get_alias(AliasId(0)).ty, Some(TyId(5)));
}

#[test]
fn constructors_are_declared_once() {
    let mut datas = Datas::new();
    let (scope, _) = datas.declare_scope(&vec![]);
    let one = datas.declare_data(Ident(1), sp(0), scope).unwrap();
    let two = datas.declare_data(Ident(2), sp(1), scope).unwrap();
    assert_eq!(datas.declare_cons(one, Ident(10), sp(2)), Ok(0));
    assert_eq!(datas.declare_cons(two, Ident(11), sp(3)), Ok(1));
    assert_eq!(
        datas.declare_cons(one, Ident(10), sp(4)),
        Err(Duplicate { name: Ident(10), old: sp(2), new: sp(4) })
    );
    assert_eq!(
        datas.declare_cons(two, Ident(10), sp(5)),
        Err(Duplicate { name: Ident(10), old: sp(2), new: sp(5) })
    );
    assert_eq!(datas.declare_cons(one, Ident(12), sp(6)), Ok(2));
    assert_eq!(datas.lookup_cons(Ident(11)), Some(1));
    assert_eq!(datas.lookup_cons(Ident(13)), None);
    assert_eq!(datas.cons_count(), 3);
    assert_eq!(datas.get_data(one).cons, vec![0, 2]);
    assert_eq!(datas.get_data(two).cons, vec![1]);
    assert_eq!(datas.get_cons(2).data, one);
    datas.define_cons(2, vec![TyId(4), TyId(5)]);
    assert_eq!(datas.get_cons(2).fields, vec![TyId(4), TyId(5)]);
    assert_eq!(datas.get_cons(2).name, Ident(12));
    assert_eq!(datas.get_cons(0).fields, vec![]);
}

#[test]
fn definitions_are_declared_once() {
    let mut defs = Defs::new();
    assert_eq!(defs.lookup(Ident(1)), None);
    assert_eq!(defs.declare(Ident(1), sp(0), GenScopeId(0), Some(TyId(3))), Ok(DefId(0)));
    assert_eq!(defs.declare(Ident(2), sp(1), GenScopeId(1), None), Ok(DefId(1)));
    assert_eq!(
        defs.declare(Ident(1), sp(2), GenScopeId(2), None),
        Err(Duplicate { name: Ident(1), old: sp(0), new: sp(2) })
    );
    assert_eq!(defs.len(), 2);
    assert_eq!(defs.lookup(Ident(2)), Some(DefId(1)));
    assert_eq!(
        defs.get(DefId(0)),
        Def {
            name: Ident(1),
            span: sp(0),
            gen_scope: GenScopeId(0),
            hint: Some(TyId(3)),
            ty: Some(TyId(3))
        }
    );
    assert_eq!(defs.get(DefId(1)).ty, None);
    defs.set_ty(DefId(1), Some(TyId(9)));
    assert_eq!(defs.get(DefId(1)).ty, Some(TyId(9)));
    assert_eq!(defs.get(DefId(1)).hint, None);
}

fn written(kind: TypeKind, n: usize) -> TypeExpr {
    TypeExpr { kind, span: sp(n) }
}

fn name(id: u64, args: Vec<TypeExpr>, n: usize) -> TypeExpr {
    written(TypeKind::Named(Ident(id), args), n)
}

#[test]
fn fields_and_aliases_are_filled_in_and_what_stands_for_no_type_is_reported() {
    // data Pair A B = Both A [B] | Odd Missing (Pair A) | Both Nat
    // type Row = [Row];  type Twice A = Pair A A;  type Pair = Nat
    let pair = DataDecl {
        name: Ident(1),
        span: sp(0),
        gens: vec![param(10, 1), param(11, 2)],
        variants: vec![
            VariantDecl {
                name: Ident(2),
                span: sp(3),
                fields: vec![
                    name(10, vec![], 4),
                    written(TypeKind::List(Box::new(name(11, vec![], 5))), 6),
                ],
            },
            VariantDecl {
                name: Ident(3),
                span: sp(7),
                fields: vec![name(99, vec![], 8), name(1, vec![name(10, vec![], 9)], 10)],
            },
            VariantDecl {
                name: Ident(2),
                span: sp(11),
                fields: vec![written(TypeKind::Prim(Prim::Nat), 12)],
            },
        ],
    };
    let row = AliasDecl {
        name: Ident(5),
        span: sp(20),
        gens: vec![],
        ty: written(TypeKind::List(Box::new(name(5, vec![], 21))), 22),
    };
    let twice = AliasDecl {
        name: Ident(6),
        span: sp(23),
        gens: vec![param(12, 24)],
        ty: name(1, vec![name(12, vec![], 25), name(12, vec![], 26)], 27),
    };
    let taken = AliasDecl {
        name: Ident(1),
        span: sp(28),
        gens: vec![],
        ty: written(TypeKind::Prim(Prim::Nat), 29),
    };
    let program = Program { datas: vec![pair], aliases: vec![row, twice, taken], defs: vec![] };
    let mut datas = Datas::new();
    let mut tys = Types::new();
    let mut errors = Vec::new();
    let reg = register_types(&program, &mut datas, &mut errors);
    assert_eq!(reg.datas, vec![Some(DataId(0))]);
    assert_eq!(reg.conses, vec![vec![Some(0), Some(1), None]]);
    assert_eq!(reg.aliases, vec![Some(AliasId(0)), Some(AliasId(1)), None]);
    assert_eq!(
        errors,
        vec![
            Error::DuplicateConsName(Ident(2), sp(3), sp(11)),
            Error::DuplicateTypeName(Ident(1), sp(0), sp(28)),
        ]
    );
    errors.clear();
    define_types(&program, &mut tys, &mut datas, &reg, &mut errors);

    let hole = tys.intern(Ty::Error, sp(99));
    let a = tys.intern(Ty::Gen(0, GenScopeId(0)), sp(99));
    let b = tys.intern(Ty::Gen(1, GenScopeId(0)), sp(99));
    let bs = tys.intern(Ty::List(b), sp(99));
    assert_eq!(datas.get_cons(0).fields, vec![a, bs]);
    assert_eq!(datas.get_cons(1).fields, vec![hole, hole]);
    assert_eq!(datas.get_cons(0).name, Ident(2));
    assert_eq!(datas.get_cons(1).data, DataId(0));

    assert_eq!(datas.get_alias(AliasId(0)).ty, Some(hole));
    let c = tys.intern(Ty::Gen(0, GenScopeId(2)), sp(99));
    let both = tys.intern(Ty::Data(DataId(0), vec![c, c]), sp(99));
    assert_eq!(datas.get_alias(AliasId(1)).ty, Some(both));
    assert_eq!(datas.get_alias(AliasId(1)).name, Ident(6));

    assert_eq!(
        errors,
        vec![
            Error::NoSuchData(SrcNode { inner: Ident(99), span: sp(8) }),
            Error::WrongNumberOfGenerics(sp(10), 1, sp(0), 2),
            Error::RecursiveAlias(AliasId(0), hole, sp(21)),
        ]
    );
}
