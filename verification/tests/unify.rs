use tao_analysis::span::{Span, SrcId};
use tao_analysis::ty::{DataId, GenScopeId, Prim};
use tao_analysis::unify::TyVar;
use tao_analysis::vars::{TyInfo, UnifyError, VarTable};

fn at(n: usize) -> Span {
    Span::new(SrcId(0), n, n + 1)
}

fn blame() -> Span {
    Span::new(SrcId(0), 100, 101)
}

fn snapshot(t: &VarTable) -> Vec<(TyVar, Option<TyInfo>)> {
    let mut out = Vec::new();
    for i in 0..t.len() {
        out.push((t.find(TyVar(i)), t.resolve(TyVar(i))));
    }
    out
}

fn sample() -> (VarTable, TyVar, TyVar) {
    let mut t = VarTable::new();
    let a = t.fresh_var(at(0));
    let b = t.fresh_var(at(1));
    let nat = t.insert(TyInfo::Prim(Prim::Nat), at(2));
    let c = t.fresh_var(at(3));
    let left = t.insert(TyInfo::Tuple(vec![a, nat, c]), at(4));
    let bool_ = t.insert(TyInfo::Prim(Prim::Bool), at(5));
    let right = t.insert(TyInfo::Tuple(vec![bool_, b, b]), at(6));
    (t, left, right)
}

#[test]
fn fresh_variables_are_distinct_and_unknown() {
    let mut t = VarTable::new();
    let a = t.fresh_var(at(0));
    let b = t.fresh_var(at(1));
    assert_ne!(a, b);
    assert_eq!(t.len(), 2);
    assert_eq!(t.resolve(a), None);
    assert_eq!(t.find(a), a);
    assert_eq!(t.get_span(b), at(1));
    assert_eq!(t.get(a), &TyInfo::Unknown);
}

#[test]
fn unknowns_unify_to_the_earlier_one() {
    let mut t = VarTable::new();
    let a = t.fresh_var(at(0));
    let b = t.fresh_var(at(1));
    assert_eq!(t.unify(b, a, blame()), Ok(()));
    assert_eq!(t.find(b), a);
    assert_eq!(t.find(a), a);
    assert_eq!(t.get(b), &TyInfo::Ref(a));
    let nat = t.insert(TyInfo::Prim(Prim::Nat), at(2));
    assert_eq!(t.unify(b, nat, blame()), Ok(()));
    assert_eq!(t.resolve(a), Some(TyInfo::Prim(Prim::Nat)));
    assert_eq!(t.resolve(b), Some(TyInfo::Prim(Prim::Nat)));
}

#[test]
fn unification_binds_parts_in_order() {
    let (mut t, left, right) = sample();
    assert_eq!(t.unify(left, right, blame()), Ok(()));
    assert_eq!(t.resolve(TyVar(0)), Some(TyInfo::Prim(Prim::Bool)));
    assert_eq!(t.resolve(TyVar(1)), Some(TyInfo::Prim(Prim::Nat)));
    assert_eq!(t.resolve(TyVar(3)), Some(TyInfo::Prim(Prim::Nat)));
}

#[test]
fn unification_is_commutative() {
    let (mut one, left, right) = sample();
    let (mut two, _, _) = sample();
    assert_eq!(one.unify(left, right, blame()), Ok(()));
    assert_eq!(two.unify(right, left, blame()), Ok(()));
    assert_eq!(snapshot(&one), snapshot(&two));
}

#[test]
fn unification_is_commutative_when_it_fails() {
    let build = || {
        let mut t = VarTable::new();
        let a = t.fresh_var(at(0));
        let nat = t.insert(TyInfo::Prim(Prim::Nat), at(1));
        let int = t.insert(TyInfo::Prim(Prim::Int), at(2));
        let left = t.insert(TyInfo::Tuple(vec![a, nat]), at(3));
        let right = t.insert(TyInfo::Tuple(vec![nat, int]), at(4));
        (t, left, right)
    };
    let (mut one, left, right) = build();
    let (mut two, _, _) = build();
    assert_eq!(one.unify(left, right, blame()), Err(UnifyError::Mismatch(left, right, blame())));
    assert_eq!(two.unify(right, left, blame()), Err(UnifyError::Mismatch(right, left, blame())));
    assert_eq!(snapshot(&one), snapshot(&two));
    assert_eq!(one.resolve(TyVar(0)), Some(TyInfo::Prim(Prim::Nat)));
}

#[test]
fn unification_is_idempotent() {
    let (mut t, left, right) = sample();
    assert_eq!(t.unify(left, right, blame()), Ok(()));
    let before = snapshot(&t);
    assert_eq!(t.unify(left, right, blame()), Ok(()));
    assert_eq!(t.unify(TyVar(1), TyVar(3), blame()), Ok(()));
    assert_eq!(t.unify(TyVar(3), TyVar(3), blame()), Ok(()));
    assert_eq!(snapshot(&t), before);
}

#[test]
fn occurs_check_rejects_list_of_itself() {
    let mut t = VarTable::new();
    let v = t.fresh_var(at(0));
    let list = t.insert(TyInfo::List(v), at(1));
    assert!(t.occurs(list, v));
    assert!(!t.occurs(v, list));
    let before = snapshot(&t);
    assert_eq!(t.unify(v, list, blame()), Err(UnifyError::Recursive(list, at(1), at(0))));
    assert_eq!(t.unify(list, v, blame()), Err(UnifyError::Recursive(list, at(1), at(0))));
    assert_eq!(snapshot(&t), before);
}

#[test]
fn occurs_check_follows_references() {
    let mut t = VarTable::new();
    let v = t.fresh_var(at(0));
    let w = t.fresh_var(at(1));
    assert_eq!(t.unify(v, w, blame()), Ok(()));
    let inner = t.insert(TyInfo::Func(w, w), at(2));
    let outer = t.insert(TyInfo::Tuple(vec![inner]), at(3));
    assert_eq!(t.unify(outer, v, blame()), Err(UnifyError::Recursive(outer, at(3), at(0))));
}

#[test]
fn shapes_must_agree() {
    let mut t = VarTable::new();
    let nat = t.insert(TyInfo::Prim(Prim::Nat), at(0));
    let int = t.insert(TyInfo::Prim(Prim::Int), at(1));
    assert_eq!(t.unify(nat, int, blame()), Err(UnifyError::Mismatch(nat, int, blame())));
    let nat2 = t.insert(TyInfo::Prim(Prim::Nat), at(2));
    assert_eq!(t.unify(nat, nat2, blame()), Ok(()));
    let one = t.insert(TyInfo::Tuple(vec![nat]), at(3));
    let two = t.insert(TyInfo::Tuple(vec![nat, nat]), at(4));
    assert_eq!(t.unify(one, two, blame()), Err(UnifyError::Mismatch(one, two, blame())));
    let list = t.insert(TyInfo::List(nat), at(5));
    assert_eq!(t.unify(one, list, blame()), Err(UnifyError::Mismatch(one, list, blame())));
    let d0 = t.insert(TyInfo::Data(DataId(0), vec![nat]), at(6));
    let d1 = t.insert(TyInfo::Data(DataId(1), vec![nat]), at(7));
    let d0b = t.insert(TyInfo::Data(DataId(0), vec![nat2]), at(8));
    assert_eq!(t.unify(d0, d1, blame()), Err(UnifyError::Mismatch(d0, d1, blame())));
    assert_eq!(t.unify(d0, d0b, blame()), Ok(()));
    let g0 = t.insert(TyInfo::Gen(0, GenScopeId(0)), at(9));
    let g1 = t.insert(TyInfo::Gen(1, GenScopeId(0)), at(10));
    let g0b = t.insert(TyInfo::Gen(0, GenScopeId(0)), at(11));
    assert_eq!(t.unify(g0, g1, blame()), Err(UnifyError::Mismatch(g0, g1, blame())));
    assert_eq!(t.unify(g0, g0b, blame()), Ok(()));
    let f = t.insert(TyInfo::Func(nat, int), at(12));
    let g = t.insert(TyInfo::Func(nat, nat), at(13));
    assert_eq!(t.unify(f, g, blame()), Err(UnifyError::Mismatch(f, g, blame())));
}

#[test]
fn error_type_unifies_with_everything() {
    let mut t = VarTable::new();
    let err = t.insert(TyInfo::Error, at(0));
    let nat = t.insert(TyInfo::Prim(Prim::Nat), at(1));
    let list = t.insert(TyInfo::List(err), at(2));
    let nats = t.insert(TyInfo::List(nat), at(3));
    assert_eq!(t.unify(err, nat, blame()), Ok(()));
    assert_eq!(t.unify(list, nats, blame()), Ok(()));
    let v = t.fresh_var(at(4));
    assert_eq!(t.unify(v, err, blame()), Ok(()));
    assert_eq!(t.resolve(v), Some(TyInfo::Error));
}

#[test]
fn failure_keeps_what_was_unified() {
    let mut t = VarTable::new();
    let a = t.fresh_var(at(0));
    let nat = t.insert(TyInfo::Prim(Prim::Nat), at(1));
    let int = t.insert(TyInfo::Prim(Prim::Int), at(2));
    let left = t.insert(TyInfo::Func(a, nat), at(3));
    let right = t.insert(TyInfo::Func(int, int), at(4));
    assert_eq!(t.unify(left, right, blame()), Err(UnifyError::Mismatch(left, right, blame())));
    assert_eq!(t.resolve(a), Some(TyInfo::Prim(Prim::Int)));
}

#[test]
fn table_tells_what_it_can_hold() {
    let mut t = VarTable::new();
    assert!(t.can_hold(&TyInfo::Unknown));
    assert!(!t.can_hold(&TyInfo::List(TyVar(0))));
    let v = t.fresh_var(at(0));
    assert!(t.can_hold(&TyInfo::Func(v, v)));
    assert!(!t.can_hold(&TyInfo::Tuple(vec![v, TyVar(1)])));
    assert!(!t.can_hold(&TyInfo::Ref(TyVar(4))));
}
