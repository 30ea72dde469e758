use formality::coherence::{Check, CoherenceError, Crate};
use formality::solve::{Decls, NegTraitImpl, TraitImpl, TraitImplData};
use formality::ty::{
    AdtId, Binder, BoundVar, DebruijnIndex, Parameter, ParameterKind, Predicate, RigidName,
    RigidTy, ScalarId, TraitId, TraitRef, Ty, TyData, VarIndex, Variable,
};

const INTERFACE: TraitId = TraitId { id: 1 };
const BOUND: TraitId = TraitId { id: 2 };

fn adt(id: u64) -> Parameter {
    Parameter::Ty(Ty::new(TyData::RigidTy(RigidTy { name: RigidName::AdtId(AdtId { id }), parameters: vec![] })))
}

fn t0() -> Parameter {
    Parameter::Ty(Ty::from_variable(Variable::BoundVar(BoundVar {
        debruijn: Some(DebruijnIndex { index: 0 }),
        var_index: VarIndex { index: 0 },
    })))
}

fn data(trait_id: TraitId, self_ty: Parameter, where_clauses: Vec<Predicate>) -> TraitImplData {
    TraitImplData { trait_ref: TraitRef { trait_id, parameters: vec![self_ty] }, where_clauses }
}

fn concrete_impl(trait_id: TraitId, id: u64) -> TraitImpl {
    TraitImpl { binder: Binder { kinds: vec![], term: data(trait_id, adt(id), vec![]) } }
}

fn blanket_impl() -> TraitImpl {
    let wc = Predicate::IsImplemented(TraitRef { trait_id: BOUND, parameters: vec![t0()] });
    TraitImpl { binder: Binder { kinds: vec![ParameterKind::Ty], term: data(INTERFACE, t0(), vec![wc]) } }
}

fn not_bound_for(id: u64) -> NegTraitImpl {
    NegTraitImpl { binder: Binder { kinds: vec![], term: data(BOUND, adt(id), vec![]) } }
}

fn local_crate(impls: Vec<TraitImpl>, neg_impls: Vec<NegTraitImpl>) -> Crate {
    Crate { impls, neg_impls, traits: vec![INTERFACE, BOUND], adts: vec![AdtId { id: 10 }, AdtId { id: 11 }] }
}

#[test]
fn duplicates_rejected() {
    let check = Check { decls: Decls { impls: vec![concrete_impl(INTERFACE, 10), concrete_impl(INTERFACE, 10)], neg_impls: vec![] } };
    let c = local_crate(vec![concrete_impl(INTERFACE, 10), concrete_impl(INTERFACE, 10)], vec![]);
    assert_eq!(check.check_coherence(&c), Err(CoherenceError::DuplicateImpl { index: 0 }));
}

#[test]
fn disjoint_concrete_types_do_not_overlap() {
    let check = Check { decls: Decls { impls: vec![concrete_impl(INTERFACE, 10), concrete_impl(INTERFACE, 11)], neg_impls: vec![] } };
    let c = local_crate(vec![concrete_impl(INTERFACE, 10), concrete_impl(INTERFACE, 11)], vec![]);
    assert_eq!(check.check_coherence(&c), Ok(()));
    assert!(check.overlap_check(&c.impls[0], &c.impls[1]));
}

#[test]
fn exclusionary_bound_prevents_overlap() {
    let check = Check { decls: Decls { impls: vec![blanket_impl(), concrete_impl(INTERFACE, 10)], neg_impls: vec![not_bound_for(10)] } };
    let c = local_crate(vec![blanket_impl(), concrete_impl(INTERFACE, 10)], vec![not_bound_for(10)]);
    assert_eq!(check.check_coherence(&c), Ok(()));
}

#[test]
fn blanket_impl_without_exclusion_may_overlap() {
    let check = Check { decls: Decls { impls: vec![blanket_impl(), concrete_impl(INTERFACE, 10)], neg_impls: vec![] } };
    let c = local_crate(vec![blanket_impl(), concrete_impl(INTERFACE, 10)], vec![]);
    assert_eq!(check.check_coherence(&c), Err(CoherenceError::MayOverlap { current: 0, other: 1 }));
}

#[test]
fn overlap_with_other_crate_is_reported() {
    let check = Check { decls: Decls { impls: vec![concrete_impl(INTERFACE, 11), concrete_impl(INTERFACE, 12), blanket_impl()], neg_impls: vec![] } };
    let c = local_crate(vec![concrete_impl(INTERFACE, 11)], vec![]);
    assert_eq!(check.check_coherence(&c), Err(CoherenceError::MayOverlap { current: 0, other: 2 }));
}

#[test]
fn orphan_rule() {
    let foreign = TraitId { id: 5 };
    let scalar = Parameter::Ty(Ty::new(TyData::RigidTy(RigidTy::from_scalar(ScalarId::U32))));
    let orphan = TraitImpl { binder: Binder { kinds: vec![], term: data(foreign, scalar, vec![]) } };
    let check = Check { decls: Decls { impls: vec![], neg_impls: vec![] } };
    let c = local_crate(vec![orphan], vec![]);
    assert_eq!(check.check_coherence(&c), Err(CoherenceError::OrphanImpl { index: 0 }));
    assert!(!check.orphan_check(&c, &c.impls[0]));
    // A foreign interface for a local type is fine.
    let ok = TraitImpl { binder: Binder { kinds: vec![], term: data(foreign, adt(10), vec![]) } };
    assert!(check.orphan_check(&c, &ok));
    // A local type in a later parameter also makes the reference local.
    let second = TraitImpl {
        binder: Binder {
            kinds: vec![],
            term: TraitImplData { trait_ref: TraitRef { trait_id: foreign, parameters: vec![adt(99), adt(11)] }, where_clauses: vec![] },
        },
    };
    assert!(check.orphan_check(&c, &second));
    // A generic self type is not local.
    let generic = TraitImpl { binder: Binder { kinds: vec![ParameterKind::Ty], term: data(foreign, t0(), vec![]) } };
    assert!(!check.orphan_check(&c, &generic));
}

#[test]
fn orphan_negative_impl() {
    let foreign = TraitId { id: 5 };
    let neg = NegTraitImpl { binder: Binder { kinds: vec![], term: data(foreign, adt(99), vec![]) } };
    let check = Check { decls: Decls { impls: vec![], neg_impls: vec![] } };
    let c = local_crate(vec![], vec![neg]);
    assert_eq!(check.check_coherence(&c), Err(CoherenceError::OrphanNegImpl { index: 0 }));
}
