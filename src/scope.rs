//! The scope check on bindings: which variables the value of an inference
//! variable may mention.
use vstd::prelude::*;

use crate::solve::{all_may_bind, binding_ok, may_bind};
use crate::subst::{
    free_vars_paramsv, free_vars_paramv, free_vars_predsv, free_vars_predv, free_vars_tyv,
    free_vars_var,
};
use crate::ty::{
    param_v, params_v, pred_v, preds_v, LtData, Parameter, Predicate, PredicateTy, Ty, TyData,
    Variable,
};
use crate::eq::{lemma_params_v_index, lemma_preds_v_index};

verus! {

proof fn lemma_union(x: Variable, a: Set<Variable>, b: Set<Variable>)
    ensures
        all_may_bind(x, a.union(b)) == (all_may_bind(x, a) && all_may_bind(x, b)),
{
    if all_may_bind(x, a) && all_may_bind(x, b) {
        assert forall|v: Variable| #[trigger] a.union(b).contains(v) implies may_bind(x, v) by {
            if a.contains(v) {
            } else {
                assert(b.contains(v));
            }
        }
    }
    if all_may_bind(x, a.union(b)) {
        assert forall|v: Variable| #[trigger] a.contains(v) implies may_bind(x, v) by {
            assert(a.union(b).contains(v));
        }
        assert forall|v: Variable| #[trigger] b.contains(v) implies may_bind(x, v) by {
            assert(a.union(b).contains(v));
        }
    }
}

fn var_ok(x: &Variable, v: &Variable, d: usize) -> (r: bool)
    ensures
        r == all_may_bind(*x, free_vars_var(*v, d as nat)),
{
    match crate::fold::shift_out_by(v, d) {
        None => {
            assert(free_vars_var(*v, d as nat) =~= Set::empty());
            true
        },
        Some(v1) => {
            assert(free_vars_var(*v, d as nat) =~= set![v1]);
            let ok = v1 != *x && match (v1, *x) {
                (Variable::PlaceholderVar(p), Variable::InferenceVar(i)) => p.index < i.index,
                _ => true,
            };
            if !ok {
                assert(free_vars_var(*v, d as nat).contains(v1));
            }
            ok
        },
    }
}

fn ty_ok(x: &Variable, t: &Ty, d: usize) -> (r: bool)
    ensures
        r == all_may_bind(*x, free_vars_tyv(t@, d as nat)),
    decreases t,
{
    match t.data() {
        TyData::RigidTy(rt) => params_ok(x, &rt.parameters, d),
        TyData::AliasTy(a) => params_ok(x, &a.parameters, d),
        TyData::PredicateTy(p) => match p {
            PredicateTy::ForAllTy(b) => ty_ok(x, &b.term, crate::fold::inner_depth(d)),
            PredicateTy::ExistsTy(b) => ty_ok(x, &b.term, crate::fold::inner_depth(d)),
            PredicateTy::ImplicationTy(i) => {
                proof {
                    lemma_union(*x, free_vars_predsv(preds_v(i.predicates@), d as nat), free_vars_tyv(i.ty@, d as nat));
                }
                preds_ok(x, &i.predicates, d) && ty_ok(x, &i.ty, d)
            },
            PredicateTy::EnsuresTy(e) => {
                proof {
                    lemma_union(*x, free_vars_tyv(e.ty@, d as nat), free_vars_predsv(preds_v(e.predicates@), d as nat));
                }
                ty_ok(x, &e.ty, d) && preds_ok(x, &e.predicates, d)
            },
        },
        TyData::Variable(v) => var_ok(x, v, d),
    }
}

fn param_ok(x: &Variable, p: &Parameter, d: usize) -> (r: bool)
    ensures
        r == all_may_bind(*x, free_vars_paramv(p@, d as nat)),
    decreases p,
{
    match p {
        Parameter::Ty(t) => ty_ok(x, t, d),
        Parameter::Lt(l) => match l.data() {
            LtData::Static => {
                assert(free_vars_paramv(p@, d as nat) =~= Set::empty());
                true
            },
            LtData::Variable(v) => var_ok(x, v, d),
        },
    }
}

fn params_ok(x: &Variable, ps: &Vec<Parameter>, d: usize) -> (r: bool)
    ensures
        r == all_may_bind(*x, free_vars_paramsv(params_v(ps@), d as nat)),
    decreases ps,
{
    proof {
        lemma_params_v_index(ps@);
    }
    let mut i: usize = 0;
    while i < ps.len()
        invariant
            i <= ps@.len(),
            params_v(ps@).len() == ps@.len(),
            forall|j: int| 0 <= j < ps@.len() ==> #[trigger] params_v(ps@)[j] == param_v(ps@[j]),
            all_may_bind(*x, free_vars_paramsv(params_v(ps@).subrange(0, i as int), d as nat)),
        decreases ps@.len() - i,
    {
        let ghost pre = params_v(ps@).subrange(0, i as int);
        let ghost next = params_v(ps@).subrange(0, i + 1);
        proof {
            assert(next.subrange(0, i as int) =~= pre);
            lemma_union(*x, free_vars_paramsv(pre, d as nat), free_vars_paramv(params_v(ps@)[i as int], d as nat));
        }
        if !param_ok(x, &ps[i], d) {
            proof {
                lemma_prefix_bad(*x, params_v(ps@), i as int + 1, d as nat);
            }
            return false;
        }
        i = i + 1;
    }
    assert(params_v(ps@).subrange(0, ps@.len() as int) =~= params_v(ps@));
    true
}

/// A bad prefix makes the whole list bad.
proof fn lemma_prefix_bad(x: Variable, s: Seq<crate::ty::ParamV>, k: int, d: nat)
    requires
        0 <= k <= s.len(),
        !all_may_bind(x, free_vars_paramsv(s.subrange(0, k), d)),
    ensures
        !all_may_bind(x, free_vars_paramsv(s, d)),
    decreases s.len() - k,
{
    if k < s.len() {
        let next = s.subrange(0, k + 1);
        assert(next.subrange(0, k) =~= s.subrange(0, k));
        lemma_union(x, free_vars_paramsv(s.subrange(0, k), d), free_vars_paramv(s[k], d));
        lemma_prefix_bad(x, s, k + 1, d);
    } else {
        assert(s.subrange(0, k) =~= s);
    }
}

proof fn lemma_prefix_bad_preds(x: Variable, s: Seq<crate::ty::PredV>, k: int, d: nat)
    requires
        0 <= k <= s.len(),
        !all_may_bind(x, free_vars_predsv(s.subrange(0, k), d)),
    ensures
        !all_may_bind(x, free_vars_predsv(s, d)),
    decreases s.len() - k,
{
    if k < s.len() {
        let next = s.subrange(0, k + 1);
        assert(next.subrange(0, k) =~= s.subrange(0, k));
        lemma_union(x, free_vars_predsv(s.subrange(0, k), d), free_vars_predv(s[k], d));
        lemma_prefix_bad_preds(x, s, k + 1, d);
    } else {
        assert(s.subrange(0, k) =~= s);
    }
}

fn pred_ok(x: &Variable, p: &Predicate, d: usize) -> (r: bool)
    ensures
        r == all_may_bind(*x, free_vars_predv(p@, d as nat)),
    decreases p,
{
    match p {
        Predicate::IsImplemented(tr) => params_ok(x, &tr.parameters, d),
        Predicate::NotImplemented(tr) => params_ok(x, &tr.parameters, d),
        Predicate::Equals(a, b) => {
            proof {
                lemma_union(*x, free_vars_paramv(a@, d as nat), free_vars_paramv(b@, d as nat));
            }
            param_ok(x, a, d) && param_ok(x, b, d)
        },
    }
}

fn preds_ok(x: &Variable, ps: &Vec<Predicate>, d: usize) -> (r: bool)
    ensures
        r == all_may_bind(*x, free_vars_predsv(preds_v(ps@), d as nat)),
    decreases ps,
{
    proof {
        lemma_preds_v_index(ps@);
    }
    let mut i: usize = 0;
    while i < ps.len()
        invariant
            i <= ps@.len(),
            preds_v(ps@).len() == ps@.len(),
            forall|j: int| 0 <= j < ps@.len() ==> #[trigger] preds_v(ps@)[j] == pred_v(ps@[j]),
            all_may_bind(*x, free_vars_predsv(preds_v(ps@).subrange(0, i as int), d as nat)),
        decreases ps@.len() - i,
    {
        let ghost pre = preds_v(ps@).subrange(0, i as int);
        let ghost next = preds_v(ps@).subrange(0, i + 1);
        proof {
            assert(next.subrange(0, i as int) =~= pre);
            lemma_union(*x, free_vars_predsv(pre, d as nat), free_vars_predv(preds_v(ps@)[i as int], d as nat));
        }
        if !pred_ok(x, &ps[i], d) {
            proof {
                lemma_prefix_bad_preds(*x, preds_v(ps@), i as int + 1, d as nat);
            }
            return false;
        }
        i = i + 1;
    }
    assert(preds_v(ps@).subrange(0, ps@.len() as int) =~= preds_v(ps@));
    true
}

/// Whether the inference variable `x` may be bound to `p`.
pub fn may_bind_param(x: &Variable, p: &Parameter) -> (r: bool)
    ensures
        r == binding_ok(*x, p@),
{
    param_ok(x, p, 0)
}

} // verus!
