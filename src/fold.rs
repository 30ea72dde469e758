//! Folding: rebuild a term, replacing free variable occurrences as a
//! replacer says, and shifting through binders.
use vstd::prelude::*;

use crate::ty::{
    param_v, params_v, pred_v, preds_v, AliasTy, Binder, EnsuresTy, ImplicationTy, Lt, LtData,
    ParamV, Parameter, ParameterKind, PredV, Predicate, PredicateTy, RigidTy, TraitRef, Ty, TyData,
    TyV, Variable,
};

verus! {

/// What a fold puts in place of a variable occurrence.
pub trait Replacer {
    /// The replacement for an occurrence of kind `kind`, where `v` is the
    /// variable already shifted out of the `depth` binders around it.
    spec fn replacement(&self, kind: ParameterKind, v: Variable, depth: nat) -> Option<ParamV>;

    /// What `replace` needs of the replacer.
    spec fn ready(&self) -> bool;

    fn replace(&self, kind: ParameterKind, v: &Variable, depth: usize) -> (r: Option<Parameter>)
        requires
            self.ready(),
        ensures
            opt_param_v(r) == self.replacement(kind, *v, depth as nat),
    ;
}

pub open spec fn opt_param_v(p: Option<Parameter>) -> Option<ParamV> {
    match p {
        Some(p) => Some(param_v(p)),
        None => None,
    }
}

/// The depth inside one more binder. Depths never reach `usize::MAX` for a
/// term that fits in memory; the cap keeps the arithmetic total.
pub open spec fn inner(depth: nat) -> nat {
    if depth < usize::MAX {
        depth + 1
    } else {
        depth
    }
}

/// What replaces the occurrence of `v` at `depth`, if anything.
pub open spec fn image<R: Replacer>(r: R, kind: ParameterKind, v: Variable, depth: nat) -> Option<
    ParamV,
> {
    match v.spec_shift_out_by(depth) {
        Some(v1) => r.replacement(kind, v1, depth),
        None => None,
    }
}

pub open spec fn fold_tyv<R: Replacer>(t: TyV, r: R, depth: nat) -> TyV
    decreases t,
{
    match t {
        TyV::Rigid(n, ps) => TyV::Rigid(n, fold_paramsv(ps, r, depth)),
        TyV::Alias(n, ps) => TyV::Alias(n, fold_paramsv(ps, r, depth)),
        TyV::ForAll(k, b) => TyV::ForAll(k, Box::new(fold_tyv(*b, r, inner(depth)))),
        TyV::Exists(k, b) => TyV::Exists(k, Box::new(fold_tyv(*b, r, inner(depth)))),
        TyV::Implication(ps, b) => TyV::Implication(
            fold_predsv(ps, r, depth),
            Box::new(fold_tyv(*b, r, depth)),
        ),
        TyV::Ensures(b, ps) => TyV::Ensures(
            Box::new(fold_tyv(*b, r, depth)),
            fold_predsv(ps, r, depth),
        ),
        TyV::Var(v) => match image(r, ParameterKind::Ty, v, depth) {
            Some(ParamV::Ty(t1)) => t1,
            _ => t,
        },
    }
}

pub open spec fn fold_ltv<R: Replacer>(l: LtData, r: R, depth: nat) -> LtData {
    match l {
        LtData::Static => l,
        LtData::Variable(v) => match image(r, ParameterKind::Lt, v, depth) {
            Some(ParamV::Lt(l1)) => l1,
            _ => l,
        },
    }
}

pub open spec fn fold_paramv<R: Replacer>(p: ParamV, r: R, depth: nat) -> ParamV
    decreases p,
{
    match p {
        ParamV::Ty(t) => ParamV::Ty(fold_tyv(t, r, depth)),
        ParamV::Lt(l) => ParamV::Lt(fold_ltv(l, r, depth)),
    }
}

pub open spec fn fold_paramsv<R: Replacer>(s: Seq<ParamV>, r: R, depth: nat) -> Seq<ParamV>
    decreases s,
{
    if s.len() == 0 {
        s
    } else {
        fold_paramsv(s.subrange(0, s.len() - 1), r, depth).push(
            fold_paramv(s[s.len() - 1], r, depth),
        )
    }
}

pub open spec fn fold_predv<R: Replacer>(p: PredV, r: R, depth: nat) -> PredV
    decreases p,
{
    match p {
        PredV::Implemented(id, ps) => PredV::Implemented(id, fold_paramsv(ps, r, depth)),
        PredV::NotImplemented(id, ps) => PredV::NotImplemented(id, fold_paramsv(ps, r, depth)),
        PredV::Equals(a, b) => PredV::Equals(fold_paramv(a, r, depth), fold_paramv(b, r, depth)),
    }
}

pub open spec fn fold_predsv<R: Replacer>(s: Seq<PredV>, r: R, depth: nat) -> Seq<PredV>
    decreases s,
{
    if s.len() == 0 {
        s
    } else {
        fold_predsv(s.subrange(0, s.len() - 1), r, depth).push(
            fold_predv(s[s.len() - 1], r, depth),
        )
    }
}

pub proof fn lemma_params_v_push(s: Seq<Parameter>, p: Parameter)
    ensures
        params_v(s.push(p)) == params_v(s).push(param_v(p)),
{
    assert(s.push(p).subrange(0, s.len() as int) =~= s);
}

pub proof fn lemma_preds_v_push(s: Seq<Predicate>, p: Predicate)
    ensures
        preds_v(s.push(p)) == preds_v(s).push(pred_v(p)),
{
    assert(s.push(p).subrange(0, s.len() as int) =~= s);
}

pub proof fn lemma_fold_paramsv_push<R: Replacer>(s: Seq<ParamV>, p: ParamV, r: R, depth: nat)
    ensures
        fold_paramsv(s.push(p), r, depth) == fold_paramsv(s, r, depth).push(fold_paramv(p, r, depth)),
{
    assert(s.push(p).subrange(0, s.len() as int) =~= s);
}

pub proof fn lemma_fold_predsv_push<R: Replacer>(s: Seq<PredV>, p: PredV, r: R, depth: nat)
    ensures
        fold_predsv(s.push(p), r, depth) == fold_predsv(s, r, depth).push(fold_predv(p, r, depth)),
{
    assert(s.push(p).subrange(0, s.len() as int) =~= s);
}

pub fn shift_out_by(v: &Variable, depth: usize) -> (r: Option<Variable>)
    ensures
        r == v.spec_shift_out_by(depth as nat),
{
    match v {
        Variable::BoundVar(b) => match b.debruijn {
            Some(db) => if db.index >= depth {
                Some(
                    Variable::BoundVar(
                        crate::ty::BoundVar {
                            debruijn: Some(crate::ty::DebruijnIndex { index: db.index - depth }),
                            var_index: b.var_index,
                        },
                    ),
                )
            } else {
                None
            },
            None => Some(*v),
        },
        _ => Some(*v),
    }
}

pub fn inner_depth(depth: usize) -> (r: usize)
    ensures
        r as nat == inner(depth as nat),
{
    if depth < usize::MAX {
        depth + 1
    } else {
        depth
    }
}

fn image_of<R: Replacer>(r: &R, kind: ParameterKind, v: &Variable, depth: usize) -> (out: Option<
    Parameter,
>)
    requires
        r.ready(),
    ensures
        opt_param_v(out) == image(*r, kind, *v, depth as nat),
{
    match shift_out_by(v, depth) {
        Some(v1) => r.replace(kind, &v1, depth),
        None => None,
    }
}

pub fn copy_kinds(k: &Vec<ParameterKind>) -> (r: Vec<ParameterKind>)
    ensures
        r@ == k@,
{
    let mut out: Vec<ParameterKind> = Vec::new();
    let mut i: usize = 0;
    while i < k.len()
        invariant
            i <= k@.len(),
            out@ == k@.subrange(0, i as int),
        decreases k@.len() - i,
    {
        out.push(k[i]);
        i = i + 1;
        assert(out@ =~= k@.subrange(0, i as int));
    }
    assert(k@.subrange(0, k@.len() as int) =~= k@);
    out
}

/// Rebuild `t`, replacing variable occurrences by `r`'s replacements.
pub fn fold_ty<R: Replacer>(t: &Ty, r: &R, depth: usize) -> (out: Ty)
    requires
        r.ready(),
    ensures
        out@ == fold_tyv(t@, *r, depth as nat),
    decreases t,
{
    let data = match t.data() {
        TyData::RigidTy(rt) => TyData::RigidTy(
            RigidTy { name: rt.name, parameters: fold_params(&rt.parameters, r, depth) },
        ),
        TyData::AliasTy(a) => TyData::AliasTy(
            AliasTy { name: a.name, parameters: fold_params(&a.parameters, r, depth) },
        ),
        TyData::PredicateTy(p) => TyData::PredicateTy(
            match p {
                PredicateTy::ForAllTy(b) => PredicateTy::ForAllTy(
                    Binder {
                        kinds: copy_kinds(&b.kinds),
                        term: fold_ty(&b.term, r, inner_depth(depth)),
                    },
                ),
                PredicateTy::ExistsTy(b) => PredicateTy::ExistsTy(
                    Binder {
                        kinds: copy_kinds(&b.kinds),
                        term: fold_ty(&b.term, r, inner_depth(depth)),
                    },
                ),
                PredicateTy::ImplicationTy(i) => PredicateTy::ImplicationTy(
                    ImplicationTy {
                        predicates: fold_predicates(&i.predicates, r, depth),
                        ty: fold_ty(&i.ty, r, depth),
                    },
                ),
                PredicateTy::EnsuresTy(e) => PredicateTy::EnsuresTy(
                    EnsuresTy {
                        ty: fold_ty(&e.ty, r, depth),
                        predicates: fold_predicates(&e.predicates, r, depth),
                    },
                ),
            },
        ),
        TyData::Variable(v) => {
            match image_of(r, ParameterKind::Ty, v, depth) {
                Some(Parameter::Ty(t1)) => {
                    return t1;
                },
                _ => TyData::Variable(*v),
            }
        },
    };
    Ty::new(data)
}

/// Rebuild a lifetime, replacing a variable as `r` says.
pub fn fold_lt<R: Replacer>(l: &Lt, r: &R, depth: usize) -> (out: Lt)
    requires
        r.ready(),
    ensures
        *out.data == fold_ltv(*l.data, *r, depth as nat),
{
    match l.data() {
        LtData::Static => Lt::new(LtData::Static),
        LtData::Variable(v) => match image_of(r, ParameterKind::Lt, v, depth) {
            Some(Parameter::Lt(l1)) => l1,
            _ => Lt::new(LtData::Variable(*v)),
        },
    }
}

pub fn fold_parameter<R: Replacer>(p: &Parameter, r: &R, depth: usize) -> (out: Parameter)
    requires
        r.ready(),
    ensures
        out@ == fold_paramv(p@, *r, depth as nat),
    decreases p,
{
    match p {
        Parameter::Ty(t) => Parameter::Ty(fold_ty(t, r, depth)),
        Parameter::Lt(l) => Parameter::Lt(fold_lt(l, r, depth)),
    }
}

pub fn fold_params<R: Replacer>(ps: &Vec<Parameter>, r: &R, depth: usize) -> (out: Vec<Parameter>)
    requires
        r.ready(),
    ensures
        params_v(out@) == fold_paramsv(params_v(ps@), *r, depth as nat),
    decreases ps,
{
    let mut out: Vec<Parameter> = Vec::new();
    let mut i: usize = 0;
    while i < ps.len()
        invariant
            r.ready(),
            i <= ps@.len(),
            params_v(out@) == fold_paramsv(params_v(ps@.subrange(0, i as int)), *r, depth as nat),
        decreases ps@.len() - i,
    {
        let p = fold_parameter(&ps[i], r, depth);
        proof {
            lemma_params_v_push(out@, p);
            lemma_params_v_push(ps@.subrange(0, i as int), ps@[i as int]);
            assert(ps@.subrange(0, i as int).push(ps@[i as int]) =~= ps@.subrange(0, i + 1));
            lemma_fold_paramsv_push(params_v(ps@.subrange(0, i as int)), param_v(ps@[i as int]), *r, depth as nat);
        }
        out.push(p);
        i = i + 1;
    }
    assert(ps@.subrange(0, ps@.len() as int) =~= ps@);
    out
}

pub fn fold_predicate<R: Replacer>(p: &Predicate, r: &R, depth: usize) -> (out: Predicate)
    requires
        r.ready(),
    ensures
        out@ == fold_predv(p@, *r, depth as nat),
    decreases p,
{
    match p {
        Predicate::IsImplemented(tr) => Predicate::IsImplemented(
            TraitRef { trait_id: tr.trait_id, parameters: fold_params(&tr.parameters, r, depth) },
        ),
        Predicate::NotImplemented(tr) => Predicate::NotImplemented(
            TraitRef { trait_id: tr.trait_id, parameters: fold_params(&tr.parameters, r, depth) },
        ),
        Predicate::Equals(a, b) => Predicate::Equals(
            fold_parameter(a, r, depth),
            fold_parameter(b, r, depth),
        ),
    }
}

pub fn fold_predicates<R: Replacer>(ps: &Vec<Predicate>, r: &R, depth: usize) -> (out: Vec<
    Predicate,
>)
    requires
        r.ready(),
    ensures
        preds_v(out@) == fold_predsv(preds_v(ps@), *r, depth as nat),
    decreases ps,
{
    let mut out: Vec<Predicate> = Vec::new();
    let mut i: usize = 0;
    while i < ps.len()
        invariant
            r.ready(),
            i <= ps@.len(),
            preds_v(out@) == fold_predsv(preds_v(ps@.subrange(0, i as int)), *r, depth as nat),
        decreases ps@.len() - i,
    {
        let p = fold_predicate(&ps[i], r, depth);
        proof {
            lemma_preds_v_push(out@, p);
            lemma_preds_v_push(ps@.subrange(0, i as int), ps@[i as int]);
            assert(ps@.subrange(0, i as int).push(ps@[i as int]) =~= ps@.subrange(0, i + 1));
            lemma_fold_predsv_push(preds_v(ps@.subrange(0, i as int)), pred_v(ps@[i as int]), *r, depth as nat);
        }
        out.push(p);
        i = i + 1;
    }
    assert(ps@.subrange(0, ps@.len() as int) =~= ps@);
    out
}

pub proof fn lemma_paramsv_len<R: Replacer>(s: Seq<ParamV>, r: R, depth: nat)
    ensures
        fold_paramsv(s, r, depth).len() == s.len(),
    decreases s.len(),
{
    if s.len() > 0 {
        lemma_paramsv_len(s.subrange(0, s.len() - 1), r, depth);
    }
}

} // verus!
