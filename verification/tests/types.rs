use tao_analysis::span::{Span, SrcId};
use tao_analysis::ty::{DataId, GenScopeId, Prim, Ty, TyId, Types};

fn at(n: usize) -> Span {
    Span::new(SrcId(0), n, n + 1)
}

#[test]
fn interning_gives_one_identity_per_shape() {
    let mut t = Types::new();
    let nat = t.intern(Ty::Prim(Prim::Nat), at(0));
    let int = t.intern(Ty::Prim(Prim::Int), at(1));
    assert_ne!(nat, int);
    assert_eq!(t.intern(Ty::Prim(Prim::Nat), at(2)), nat);
    let list = t.intern(Ty::List(nat), at(3));
    assert_eq!(t.intern(Ty::List(nat), at(4)), list);
    assert_ne!(t.intern(Ty::List(int), at(5)), list);
    let pair = t.intern(Ty::Tuple(vec![nat, int]), at(6));
    assert_eq!(t.intern(Ty::Tuple(vec![nat, int]), at(7)), pair);
    assert_ne!(t.intern(Ty::Tuple(vec![int, nat]), at(8)), pair);
    assert_ne!(t.intern(Ty::Tuple(vec![nat]), at(9)), pair);
    let f = t.intern(Ty::Func(nat, int), at(10));
    assert_eq!(t.intern(Ty::Func(nat, int), at(11)), f);
    assert_ne!(t.intern(Ty::Func(int, nat), at(12)), f);
    let data = t.intern(Ty::Data(DataId(0), vec![nat]), at(13));
    assert_eq!(t.intern(Ty::Data(DataId(0), vec![nat]), at(14)), data);
    assert_ne!(t.intern(Ty::Data(DataId(1), vec![nat]), at(15)), data);
    assert_ne!(t.intern(Ty::Data(DataId(0), vec![int]), at(16)), data);
    let g = t.intern(Ty::Gen(0, GenScopeId(0)), at(17));
    assert_ne!(t.intern(Ty::Gen(1, GenScopeId(0)), at(18)), g);
    assert_ne!(t.intern(Ty::Gen(0, GenScopeId(1)), at(19)), g);
    assert_eq!(t.intern(Ty::Error, at(20)), t.intern(Ty::Error, at(21)));
}

#[test]
fn interning_counts_and_remembers_first_place() {
    let mut t = Types::new();
    assert_eq!(t.len(), 0);
    let nat = t.intern(Ty::Prim(Prim::Nat), at(7));
    assert_eq!(nat, TyId(0));
    let list = t.intern(Ty::List(nat), at(8));
    assert_eq!(list, TyId(1));
    let again = t.intern(Ty::Prim(Prim::Nat), at(9));
    assert_eq!(again, TyId(0));
    assert_eq!(t.len(), 2);
    assert_eq!(t.get_span(nat), at(7));
    assert_eq!(t.try_span(list), Some(at(8)));
    assert_eq!(t.try_span(TyId(2)), None);
    assert_eq!(t.get(list), &Ty::List(nat));
}

#[test]
fn store_tells_what_it_can_hold() {
    let mut t = Types::new();
    assert!(t.can_hold(&Ty::Prim(Prim::Bool)));
    assert!(!t.can_hold(&Ty::List(TyId(0))));
    let b = t.intern(Ty::Prim(Prim::Bool), at(0));
    assert!(t.can_hold(&Ty::List(b)));
    assert!(t.can_hold(&Ty::Tuple(vec![b, b])));
    assert!(!t.can_hold(&Ty::Tuple(vec![b, TyId(1)])));
    assert!(!t.can_hold(&Ty::Func(b, TyId(3))));
    assert!(t.can_hold(&Ty::Data(DataId(9), vec![])));
}

#[test]
fn nodes_compare_by_shape() {
    assert!(Ty::Tuple(vec![TyId(1), TyId(2)]).same_as(&Ty::Tuple(vec![TyId(1), TyId(2)])));
    assert!(!Ty::Tuple(vec![TyId(1), TyId(2)]).same_as(&Ty::Tuple(vec![TyId(1)])));
    assert!(!Ty::List(TyId(1)).same_as(&Ty::Tuple(vec![TyId(1)])));
    assert!(Ty::Error.same_as(&Ty::Error));
    assert_eq!(Ty::Data(DataId(2), vec![TyId(0)]).clone(), Ty::Data(DataId(2), vec![TyId(0)]));
}
