//! Structural equality of terms, decided on their mathematical values.
use vstd::prelude::*;

use crate::ty::{
    param_v, params_v, pred_v, preds_v, LtData, Parameter, ParameterKind, PredicateTy, Predicate,
    Ty, TyData,
};

verus! {

pub proof fn lemma_params_v_index(s: Seq<Parameter>)
    ensures
        params_v(s).len() == s.len(),
        forall|i: int| 0 <= i < s.len() ==> #[trigger] params_v(s)[i] == param_v(s[i]),
    decreases s.len(),
{
    if s.len() > 0 {
        lemma_params_v_index(s.subrange(0, s.len() - 1));
    }
}

pub proof fn lemma_preds_v_index(s: Seq<Predicate>)
    ensures
        preds_v(s).len() == s.len(),
        forall|i: int| 0 <= i < s.len() ==> #[trigger] preds_v(s)[i] == pred_v(s[i]),
    decreases s.len(),
{
    if s.len() > 0 {
        lemma_preds_v_index(s.subrange(0, s.len() - 1));
    }
}

pub fn eq_kinds(a: &Vec<ParameterKind>, b: &Vec<ParameterKind>) -> (r: bool)
    ensures
        r == (a@ == b@),
{
    if a.len() != b.len() {
        return false;
    }
    let mut i: usize = 0;
    while i < a.len()
        invariant
            a@.len() == b@.len(),
            i <= a@.len(),
            forall|j: int| 0 <= j < i ==> a@[j] == b@[j],
        decreases a@.len() - i,
    {
        if a[i] != b[i] {
            return false;
        }
        i = i + 1;
    }
    assert(a@ =~= b@);
    true
}

/// Structural equality of types.
pub fn eq_ty(a: &Ty, b: &Ty) -> (r: bool)
    ensures
        r == (a@ == b@),
    decreases a,
{
    match (a.data(), b.data()) {
        (TyData::RigidTy(x), TyData::RigidTy(y)) => x.name == y.name && eq_params(
            &x.parameters,
            &y.parameters,
        ),
        (TyData::AliasTy(x), TyData::AliasTy(y)) => x.name == y.name && eq_params(
            &x.parameters,
            &y.parameters,
        ),
        (TyData::PredicateTy(x), TyData::PredicateTy(y)) => match (x, y) {
            (PredicateTy::ForAllTy(p), PredicateTy::ForAllTy(q)) => eq_kinds(&p.kinds, &q.kinds)
                && eq_ty(&p.term, &q.term),
            (PredicateTy::ExistsTy(p), PredicateTy::ExistsTy(q)) => eq_kinds(&p.kinds, &q.kinds)
                && eq_ty(&p.term, &q.term),
            (PredicateTy::ImplicationTy(p), PredicateTy::ImplicationTy(q)) => eq_predicates(
                &p.predicates,
                &q.predicates,
            ) && eq_ty(&p.ty, &q.ty),
            (PredicateTy::EnsuresTy(p), PredicateTy::EnsuresTy(q)) => eq_ty(&p.ty, &q.ty)
                && eq_predicates(&p.predicates, &q.predicates),
            _ => false,
        },
        (TyData::Variable(x), TyData::Variable(y)) => *x == *y,
        _ => false,
    }
}

/// Structural equality of parameters.
pub fn eq_parameter(a: &Parameter, b: &Parameter) -> (r: bool)
    ensures
        r == (a@ == b@),
    decreases a,
{
    match (a, b) {
        (Parameter::Ty(x), Parameter::Ty(y)) => eq_ty(x, y),
        (Parameter::Lt(x), Parameter::Lt(y)) => {
            let dx: LtData = *x.data();
            let dy: LtData = *y.data();
            dx == dy
        },
        _ => false,
    }
}

/// Structural equality of parameter lists.
pub fn eq_params(a: &Vec<Parameter>, b: &Vec<Parameter>) -> (r: bool)
    ensures
        r == (params_v(a@) == params_v(b@)),
    decreases a,
{
    proof {
        lemma_params_v_index(a@);
        lemma_params_v_index(b@);
    }
    if a.len() != b.len() {
        return false;
    }
    let mut i: usize = 0;
    while i < a.len()
        invariant
            a@.len() == b@.len(),
            params_v(a@).len() == a@.len(),
            params_v(b@).len() == b@.len(),
            forall|j: int| 0 <= j < a@.len() ==> #[trigger] params_v(a@)[j] == param_v(a@[j]),
            forall|j: int| 0 <= j < b@.len() ==> #[trigger] params_v(b@)[j] == param_v(b@[j]),
            i <= a@.len(),
            forall|j: int| 0 <= j < i ==> params_v(a@)[j] == params_v(b@)[j],
        decreases a@.len() - i,
    {
        if !eq_parameter(&a[i], &b[i]) {
            assert(params_v(a@)[i as int] != params_v(b@)[i as int]);
            return false;
        }
        i = i + 1;
    }
    assert(params_v(a@) =~= params_v(b@));
    true
}

/// Structural equality of predicates.
pub fn eq_predicate(a: &Predicate, b: &Predicate) -> (r: bool)
    ensures
        r == (a@ == b@),
    decreases a,
{
    match (a, b) {
        (Predicate::IsImplemented(x), Predicate::IsImplemented(y)) => x.trait_id == y.trait_id
            && eq_params(&x.parameters, &y.parameters),
        (Predicate::NotImplemented(x), Predicate::NotImplemented(y)) => x.trait_id == y.trait_id
            && eq_params(&x.parameters, &y.parameters),
        (Predicate::Equals(x1, x2), Predicate::Equals(y1, y2)) => eq_parameter(x1, y1)
            && eq_parameter(x2, y2),
        _ => false,
    }
}

/// Structural equality of predicate lists.
pub fn eq_predicates(a: &Vec<Predicate>, b: &Vec<Predicate>) -> (r: bool)
    ensures
        r == (preds_v(a@) == preds_v(b@)),
    decreases a,
{
    proof {
        lemma_preds_v_index(a@);
        lemma_preds_v_index(b@);
    }
    if a.len() != b.len() {
        return false;
    }
    let mut i: usize = 0;
    while i < a.len()
        invariant
            a@.len() == b@.len(),
            preds_v(a@).len() == a@.len(),
            preds_v(b@).len() == b@.len(),
            forall|j: int| 0 <= j < a@.len() ==> #[trigger] preds_v(a@)[j] == pred_v(a@[j]),
            forall|j: int| 0 <= j < b@.len() ==> #[trigger] preds_v(b@)[j] == pred_v(b@[j]),
            i <= a@.len(),
            forall|j: int| 0 <= j < i ==> preds_v(a@)[j] == preds_v(b@)[j],
        decreases a@.len() - i,
    {
        if !eq_predicate(&a[i], &b[i]) {
            assert(preds_v(a@)[i as int] != preds_v(b@)[i as int]);
            return false;
        }
        i = i + 1;
    }
    assert(preds_v(a@) =~= preds_v(b@));
    true
}

} // verus!
