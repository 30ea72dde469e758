use formality::env::{close_ty, Env};
use formality::eq::{eq_parameter, eq_ty};
use formality::subst::{copy_ty, Substitution};
use formality::ty::{
    AdtId, Binder, BoundVar, DebruijnIndex, InferenceVar, KindedVarIndex, Lt, LtData, Parameter,
    ParameterKind, PlaceholderVar, PredicateTy, RigidName, RigidTy, ScalarId, Ty, TyData,
    Universe, VarIndex, Variable,
};

fn scalar(s: ScalarId) -> Ty {
    Ty::new(TyData::RigidTy(RigidTy::from_scalar(s)))
}

fn adt(id: u64, parameters: Vec<Parameter>) -> Ty {
    Ty::new(TyData::RigidTy(RigidTy { name: RigidName::AdtId(AdtId { id }), parameters }))
}

fn bound(depth: usize, index: u64) -> Variable {
    Variable::BoundVar(BoundVar {
        debruijn: Some(DebruijnIndex { index: depth }),
        var_index: VarIndex { index },
    })
}

fn infer(index: usize) -> Variable {
    Variable::InferenceVar(InferenceVar { index })
}

#[test]
fn debruijn_shifts() {
    let d = DebruijnIndex { index: 2 };
    assert_eq!(d.shift_in(), DebruijnIndex { index: 3 });
    assert_eq!(d.shift_out(), Some(DebruijnIndex { index: 1 }));
    assert_eq!(DebruijnIndex { index: 0 }.shift_out(), None);
}

#[test]
fn variable_shifts_only_touch_bound_variables() {
    assert_eq!(bound(0, 4).shift_in(), bound(1, 4));
    assert_eq!(bound(1, 4).shift_out(), Some(bound(0, 4)));
    assert_eq!(bound(0, 4).shift_out(), None);
    let x = infer(7);
    assert_eq!(x.shift_in(), x);
    assert_eq!(x.shift_out(), Some(x));
    let open = Variable::BoundVar(BoundVar { debruijn: None, var_index: VarIndex { index: 1 } });
    assert_eq!(open.shift_in(), open);
    assert_eq!(open.shift_out(), Some(open));
}

#[test]
fn free_variables() {
    assert!(infer(0).is_free());
    let p = Variable::PlaceholderVar(PlaceholderVar { universe: Universe { index: 1 }, index: 0 });
    assert!(p.is_free());
    assert!(!bound(0, 0).is_free());
    let open = Variable::BoundVar(BoundVar { debruijn: None, var_index: VarIndex { index: 0 } });
    assert!(open.is_free());
}

#[test]
fn as_variable_and_parameters() {
    let x = infer(3);
    let t = Ty::from_variable(x);
    assert_eq!(t.as_variable(), Some(x));
    assert_eq!(scalar(ScalarId::U32).as_variable(), None);
    let p = x.into_parameter(ParameterKind::Lt);
    assert_eq!(p.as_variable(), Some(x));
    assert!(matches!(p, Parameter::Lt(_)));
    let l = Lt::new(LtData::Static);
    assert_eq!(l.as_variable(), None);
    let q = Parameter::from(KindedVarIndex { kind: ParameterKind::Ty, var_index: VarIndex { index: 2 } });
    let open = Variable::BoundVar(BoundVar { debruijn: None, var_index: VarIndex { index: 2 } });
    assert_eq!(q.as_variable(), Some(open));
    assert!(matches!(q, Parameter::Ty(_)));
    let r = BoundVar { debruijn: None, var_index: VarIndex { index: 2 } }.into_parameter(ParameterKind::Ty);
    assert!(eq_parameter(&q, &r));
    let t2 = scalar(ScalarId::Bool).to_parameter();
    assert!(eq_parameter(&t2, &Parameter::Ty(scalar(ScalarId::Bool))));
}

#[test]
fn substitution_replaces_mapped_variables() {
    let x = infer(0);
    let t = adt(1, vec![Parameter::Ty(Ty::from_variable(x))]);
    let mut s = Substitution::new();
    s.insert(x, Parameter::Ty(scalar(ScalarId::U32)));
    let r = s.apply(&t);
    assert!(eq_ty(&r, &adt(1, vec![Parameter::Ty(scalar(ScalarId::U32))])));
    assert!(!eq_ty(&r, &t));
}

#[test]
fn substitution_on_term_without_its_variables_is_identity() {
    let x = infer(0);
    let y = infer(1);
    let t = adt(1, vec![Parameter::Ty(Ty::from_variable(y)), Parameter::Ty(scalar(ScalarId::Bool))]);
    let mut s = Substitution::new();
    s.insert(x, Parameter::Ty(scalar(ScalarId::U32)));
    assert!(eq_ty(&s.apply(&t), &t));
}

#[test]
fn substitution_skips_variables_bound_inside() {
    // forall<T> T: the bound variable is not the open one the map names.
    let open = Variable::BoundVar(BoundVar { debruijn: None, var_index: VarIndex { index: 0 } });
    let body = Ty::from_variable(bound(0, 0));
    let t = Ty::new(TyData::PredicateTy(PredicateTy::ForAllTy(Binder {
        kinds: vec![ParameterKind::Ty],
        term: body,
    })));
    let mut s = Substitution::new();
    s.insert(open, Parameter::Ty(scalar(ScalarId::U8)));
    s.insert(bound(0, 0), Parameter::Ty(scalar(ScalarId::U8)));
    assert!(eq_ty(&s.apply(&t), &t));
}

#[test]
fn identity_fold_copies_structurally() {
    let t = adt(3, vec![
        Parameter::Ty(scalar(ScalarId::I64)),
        Parameter::Lt(Lt::new(LtData::Static)),
        Parameter::Ty(Ty::from_variable(infer(9))),
    ]);
    let c = copy_ty(&t);
    assert!(eq_ty(&c, &t));
    assert_eq!(c, t);
}

#[test]
fn binder_round_trip() {
    let kinds = vec![ParameterKind::Ty];
    let b = Binder { kinds: kinds.clone(), term: adt(1, vec![Parameter::Ty(Ty::from_variable(bound(0, 0)))]) };
    let mut env = Env::new();
    let opened = env.instantiate_universally(&b);
    let p = Variable::PlaceholderVar(PlaceholderVar { universe: Universe { index: 1 }, index: 0 });
    assert!(eq_ty(&opened, &adt(1, vec![Parameter::Ty(Ty::from_variable(p))])));
    assert_eq!(env.universe, Universe { index: 1 });
    assert_eq!(env.next_index, 1);
    let closed = close_ty(&kinds, vec![p], &opened);
    assert_eq!(closed.kinds, b.kinds);
    assert!(eq_ty(&closed.term, &b.term));
}

#[test]
fn opening_twice_gives_unrelated_placeholders() {
    let b = Binder { kinds: vec![ParameterKind::Ty], term: Ty::from_variable(bound(0, 0)) };
    let mut env = Env::new();
    let first = env.instantiate_universally(&b);
    let second = env.instantiate_universally(&b);
    assert!(!eq_ty(&first, &second));
    assert_eq!(env.universe, Universe { index: 2 });
}

fn forall_ty(body: Ty) -> Ty {
    Ty::new(TyData::PredicateTy(PredicateTy::ForAllTy(Binder { kinds: vec![ParameterKind::Ty], term: body })))
}

#[test]
fn substitution_shifts_values_under_binders() {
    // forall<T> X with X := the variable bound at depth 0 outside the term:
    // inside the binder that variable is at depth 1, so T does not capture it.
    let x = Variable::PlaceholderVar(PlaceholderVar { universe: Universe { index: 1 }, index: 0 });
    let t = forall_ty(Ty::from_variable(x));
    let mut s = Substitution::new();
    s.insert(x, Parameter::Ty(Ty::from_variable(bound(0, 0))));
    let r = s.apply(&t);
    assert!(eq_ty(&r, &forall_ty(Ty::from_variable(bound(1, 0)))));
    assert!(!eq_ty(&r, &forall_ty(Ty::from_variable(bound(0, 0)))));
    // At the top level the value is not shifted.
    assert!(eq_ty(&s.apply(&Ty::from_variable(x)), &Ty::from_variable(bound(0, 0))));
}

#[test]
fn substitution_applied_twice_under_binder_is_stable() {
    let x = Variable::PlaceholderVar(PlaceholderVar { universe: Universe { index: 1 }, index: 0 });
    let mut s = Substitution::new();
    s.insert(x, Parameter::Ty(Ty::from_variable(bound(1, 0))));
    s.insert(bound(0, 0), Parameter::Ty(scalar(ScalarId::Bool)));
    let t = forall_ty(adt(1, vec![Parameter::Ty(Ty::from_variable(x)), Parameter::Ty(Ty::from_variable(bound(0, 0)))]));
    let once = s.apply(&t);
    let twice = s.apply(&once);
    assert!(eq_ty(&once, &twice));
    // The binder's own variable is untouched; X became depth 2.
    assert!(eq_ty(&once, &forall_ty(adt(1, vec![Parameter::Ty(Ty::from_variable(bound(2, 0))), Parameter::Ty(Ty::from_variable(bound(0, 0)))]))));
}

#[test]
fn substitution_from_pairs_later_pair_wins() {
    let x = infer(0);
    let y = infer(1);
    let s = Substitution::from_pairs(vec![
        (x, Parameter::Ty(scalar(ScalarId::U8))),
        (y, Parameter::Ty(scalar(ScalarId::Bool))),
        (x, Parameter::Ty(scalar(ScalarId::U16))),
    ]);
    assert!(eq_parameter(&s.lookup(&x).expect("x mapped"), &Parameter::Ty(scalar(ScalarId::U16))));
    assert!(eq_parameter(&s.lookup(&y).expect("y mapped"), &Parameter::Ty(scalar(ScalarId::Bool))));
    assert!(s.lookup(&infer(2)).is_none());
    let mut t = Substitution::new();
    t.extend(vec![(y, Parameter::Ty(scalar(ScalarId::I8)))]);
    assert!(eq_parameter(&t.lookup(&y).expect("y mapped"), &Parameter::Ty(scalar(ScalarId::I8))));
}

#[test]
fn innermost_index_is_zero() {
    assert_eq!(DebruijnIndex::innermost(), DebruijnIndex { index: 0 });
}
