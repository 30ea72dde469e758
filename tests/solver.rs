use formality::env::Env;
use formality::eq::eq_parameter;
use formality::solve::{prove_goal, prove_not_goal, prove_wc_list, Decls, TraitImpl, TraitImplData};
use formality::ty::{
    AdtId, Binder, InferenceVar, Parameter, PlaceholderVar, Predicate, RigidName, RigidTy, ScalarId, Ty,
    TraitId, TraitRef, TyData, Universe, Variable,
};

fn scalar(s: ScalarId) -> Parameter {
    Parameter::Ty(Ty::new(TyData::RigidTy(RigidTy::from_scalar(s))))
}

fn x() -> Variable {
    Variable::InferenceVar(InferenceVar { index: 0 })
}

fn xp() -> Parameter {
    Parameter::Ty(Ty::from_variable(x()))
}

fn empty() -> Decls {
    Decls { impls: vec![], neg_impls: vec![] }
}

#[test]
fn solver_sequencing_keeps_binding() {
    let goals = vec![
        Predicate::Equals(xp(), scalar(ScalarId::I32)),
        Predicate::Equals(xp(), scalar(ScalarId::I32)),
    ];
    let r = prove_wc_list(&empty(), &Env::new(), &vec![], &goals, 8);
    assert_eq!(r.len(), 1);
    let bound = r[0].subst.lookup(&x()).expect("x is bound");
    assert!(eq_parameter(&bound, &scalar(ScalarId::I32)));
}

#[test]
fn solver_sequencing_conflict_is_empty() {
    let goals = vec![
        Predicate::Equals(xp(), scalar(ScalarId::I32)),
        Predicate::Equals(xp(), scalar(ScalarId::Bool)),
    ];
    let r = prove_wc_list(&empty(), &Env::new(), &vec![], &goals, 8);
    assert_eq!(r.len(), 0);
    assert!(prove_not_goal(&empty(), &Env::new(), &vec![], &goals, 8));
}

#[test]
fn empty_goal_list_succeeds_trivially() {
    let r = prove_wc_list(&empty(), &Env::new(), &vec![], &vec![], 8);
    assert_eq!(r.len(), 1);
    assert_eq!(r[0].subst.map.len(), 0);
    assert!(prove_goal(&empty(), &Env::new(), &vec![], &vec![], 0));
}

#[test]
fn assumption_proves_equality() {
    let a = scalar(ScalarId::U8);
    let b = scalar(ScalarId::U16);
    let hyps = vec![Predicate::Equals(scalar(ScalarId::U16), scalar(ScalarId::U8))];
    let goals = vec![Predicate::Equals(a, b)];
    assert!(prove_goal(&empty(), &Env::new(), &hyps, &goals, 4));
    assert!(prove_not_goal(&empty(), &Env::new(), &vec![], &goals, 4));
}

fn placeholder(index: usize) -> Parameter {
    Parameter::Ty(Ty::from_variable(Variable::PlaceholderVar(PlaceholderVar { universe: Universe { index: 1 }, index })))
}

#[test]
fn inference_variable_cannot_name_younger_placeholder() {
    // x (index 0) was made before the placeholder (index 1).
    let goals = vec![Predicate::Equals(xp(), placeholder(1))];
    assert_eq!(prove_wc_list(&empty(), &Env::new(), &vec![], &goals, 4).len(), 0);
    // An older placeholder is fine.
    let y = Variable::InferenceVar(InferenceVar { index: 5 });
    let goals = vec![Predicate::Equals(Parameter::Ty(Ty::from_variable(y)), placeholder(1))];
    let r = prove_wc_list(&empty(), &Env::new(), &vec![], &goals, 4);
    assert_eq!(r.len(), 1);
    assert!(eq_parameter(&r[0].subst.lookup(&y).expect("y is bound"), &placeholder(1)));
}

#[test]
fn occurs_check_rejects_cyclic_binding() {
    let wrapped = Parameter::Ty(Ty::new(TyData::RigidTy(RigidTy { name: RigidName::AdtId(AdtId { id: 1 }), parameters: vec![xp()] })));
    let goals = vec![Predicate::Equals(xp(), wrapped)];
    assert_eq!(prove_wc_list(&empty(), &Env::new(), &vec![], &goals, 4).len(), 0);
}

#[test]
fn rigid_types_unify_parameterwise() {
    let vec_of = |p: Parameter| Parameter::Ty(Ty::new(TyData::RigidTy(RigidTy { name: RigidName::AdtId(AdtId { id: 1 }), parameters: vec![p] })));
    let goals = vec![Predicate::Equals(vec_of(xp()), vec_of(scalar(ScalarId::U64)))];
    let r = prove_wc_list(&empty(), &Env::new(), &vec![], &goals, 4);
    assert_eq!(r.len(), 1);
    assert!(eq_parameter(&r[0].subst.lookup(&x()).expect("x is bound"), &scalar(ScalarId::U64)));
    // Without search depth the parameters are never compared.
    assert_eq!(prove_wc_list(&empty(), &Env::new(), &vec![], &goals, 0).len(), 0);
}

#[test]
fn duplicate_outcomes_collapse() {
    use_decls_with_two_equal_impls();
}

fn use_decls_with_two_equal_impls() {
    let bound = TraitId { id: 2 };
    let same = || TraitImpl {
        binder: Binder {
            kinds: vec![],
            term: TraitImplData {
                trait_ref: TraitRef { trait_id: bound, parameters: vec![scalar(ScalarId::U32)] },
                where_clauses: vec![],
            },
        },
    };
    let d = Decls { impls: vec![same(), same()], neg_impls: vec![] };
    let goals = vec![Predicate::IsImplemented(TraitRef { trait_id: bound, parameters: vec![scalar(ScalarId::U32)] })];
    let first = prove_wc_list(&d, &Env::new(), &vec![], &goals, 4);
    let second = prove_wc_list(&d, &Env::new(), &vec![], &goals, 4);
    assert_eq!(first.len(), 1);
    assert_eq!(second.len(), 1);
    // An equality that is both assumed and true is one outcome too.
    let hyps = vec![Predicate::Equals(scalar(ScalarId::I8), scalar(ScalarId::I8))];
    let eq = vec![Predicate::Equals(scalar(ScalarId::I8), scalar(ScalarId::I8))];
    assert_eq!(prove_wc_list(&empty(), &Env::new(), &hyps, &eq, 4).len(), 1);
}

#[test]
fn coherence_mode_never_refutes_by_giving_up() {
    let vec_of = |p: Parameter| Parameter::Ty(Ty::new(TyData::RigidTy(RigidTy { name: RigidName::AdtId(AdtId { id: 1 }), parameters: vec![p] })));
    let goals = vec![Predicate::Equals(vec_of(scalar(ScalarId::U8)), vec_of(scalar(ScalarId::U16)))];
    let coherence = Env::new().with_coherence_mode(true);
    assert!(!prove_not_goal(&empty(), &coherence, &vec![], &goals, 0));
    assert!(!prove_not_goal(&empty(), &coherence, &vec![], &goals, 1));
    assert!(prove_not_goal(&empty(), &coherence, &vec![], &goals, 2));
    // Outside coherence mode a stopped search proves nothing.
    assert!(prove_not_goal(&empty(), &Env::new(), &vec![], &goals, 0));
}
