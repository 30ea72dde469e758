//! Coherence: the orphan rule, duplicate implementations, and overlap
//! between implementations of the same interface.
use vstd::prelude::*;

use itertools::Itertools;

use crate::env::Env;
use crate::eq::{eq_kinds, eq_params, eq_predicates, lemma_params_v_index, lemma_preds_v_index};
use crate::fold::{fold_params, fold_paramsv, fold_predicates, fold_predsv, lemma_preds_v_push};
use crate::solve::{
    lemma_preds_v_concat, prove_goal, prove_not_goal, solve_v, zip_eqs, zip_equals, ConstraintsV,
    Decls, NegTraitImpl, TraitImpl, TraitImplData,
};
use crate::subst::{lemma_agree_paramsv, lemma_agree_predsv, lemma_fold_spared_paramsv, Identity};
use crate::ty::{
    param_v, params_v, pred_v, preds_v, AdtId, Binder, ParamV, ParameterKind, PredV, Predicate,
    RigidName, TraitId, TraitRef, TyData, TyV, Universe, Variable,
};

verus! {

/// How many nested rule applications the coherence checks let the solver make.
pub const SOLVER_DEPTH: usize = 16;

/// The crate under check: its implementations and the names it defines.
#[derive(Debug)]
pub struct Crate {
    pub impls: Vec<TraitImpl>,
    pub neg_impls: Vec<NegTraitImpl>,
    pub traits: Vec<TraitId>,
    pub adts: Vec<AdtId>,
}

/// Coherence checking over the implementations of every crate of the program.
#[derive(Debug)]
pub struct Check {
    pub decls: Decls,
}

/// The first coherence violation found. Indices count implementations of
/// the crate under check (`current`, `index`) or of the whole program (`other`).
#[derive(Clone, Copy, Debug, PartialEq, Eq, Structural)]
pub enum CoherenceError {
    OrphanImpl { index: usize },
    OrphanNegImpl { index: usize },
    DuplicateImpl { index: usize },
    MayOverlap { current: usize, other: usize },
}

/// A parameter is local to `c` when it is a data type that `c` defines.
pub open spec fn local_param(c: Crate, p: ParamV) -> bool {
    match p {
        ParamV::Ty(TyV::Rigid(RigidName::AdtId(a), _)) => c.adts@.contains(a),
        _ => false,
    }
}

/// An interface reference with parameters `ps` is local to `c` when `c`
/// defines the interface or one of the parameters (the self type or another)
/// is a data type that `c` defines.
pub open spec fn local_ref(c: Crate, id: TraitId, ps: Seq<ParamV>) -> bool {
    c.traits@.contains(id) || exists|i: int| 0 <= i < ps.len() && #[trigger] local_param(c, ps[i])
}

/// The orphan rule for an implementation with binder `b`: opened
/// universally (fresh placeholders in a new universe), its interface
/// reference is local to `c`. Locality is a side condition on the reference
/// itself, so no assumption from the where-clauses bears on it.
pub open spec fn orphan_ok(c: Crate, b: Binder<TraitImplData>) -> bool {
    local_ref(
        c,
        b.term.trait_ref.trait_id,
        fold_paramsv(params_v(b.term.trait_ref.parameters@), root_env().spec_opener(b.kinds, true), 0),
    )
}

/// The mathematical value of an implementation's binder.
pub open spec fn impl_v(b: Binder<TraitImplData>) -> (Seq<ParameterKind>, TraitId, Seq<ParamV>, Seq<PredV>) {
    (
        b.kinds@,
        b.term.trait_ref.trait_id,
        params_v(b.term.trait_ref.parameters@),
        preds_v(b.term.where_clauses@),
    )
}

/// The logical negation of a where-clause, where it has one.
pub open spec fn invert_v(p: PredV) -> Option<PredV> {
    match p {
        PredV::Implemented(id, ps) => Some(PredV::NotImplemented(id, ps)),
        PredV::NotImplemented(id, ps) => Some(PredV::Implemented(id, ps)),
        PredV::Equals(_, _) => None,
    }
}

pub open spec fn root_env() -> Env {
    Env { universe: Universe { index: 0 }, next_index: 0, coherence_mode: false }
}

/// Both implementations opened universally, one after the other: the
/// environment after that, and each one's parameters and where-clauses.
pub open spec fn open_pair(a: Binder<TraitImplData>, b: Binder<TraitImplData>) -> (
    Env,
    Seq<ParamV>,
    Seq<PredV>,
    Seq<ParamV>,
    Seq<PredV>,
) {
    let e0 = root_env();
    let oa = e0.spec_opener(a.kinds, true);
    let e1 = e0.spec_after(a.kinds@.len(), true);
    let ob = e1.spec_opener(b.kinds, true);
    let e2 = e1.spec_after(b.kinds@.len(), true);
    (
        e2,
        fold_paramsv(params_v(a.term.trait_ref.parameters@), oa, 0),
        fold_predsv(preds_v(a.term.where_clauses@), oa, 0),
        fold_paramsv(params_v(b.term.trait_ref.parameters@), ob, 0),
        fold_predsv(preds_v(b.term.where_clauses@), ob, 0),
    )
}

/// The two implementations do not overlap: in coherence mode the solver
/// refutes "the parameters are equal and both where-clause lists hold", or,
/// assuming that, it proves the inversion of one of the where-clauses.
pub open spec fn overlap_free(d: Decls, a: Binder<TraitImplData>, b: Binder<TraitImplData>) -> bool {
    let (e2, pa, wa, pb, wb) = open_pair(a, b);
    let premise = zip_eqs(pa, pb) + wa + wb;
    let ws = wa + wb;
    if a.kinds@.len() + b.kinds@.len() > usize::MAX {
        false
    } else if pa.len() != pb.len() {
        true
    } else {
        solve_v(
            d,
            seq![],
            ConstraintsV { env: Env { coherence_mode: true, ..e2 }, subst: Map::empty() },
            premise,
            SOLVER_DEPTH as nat,
        ).len() == 0 || exists|i: int|
            0 <= i < ws.len() && invert_v(ws[i]) is Some && solve_v(
                d,
                premise,
                ConstraintsV { env: e2, subst: Map::empty() },
                seq![invert_v(ws[i])->0],
                SOLVER_DEPTH as nat,
            ).len() > 0
    }
}

/// Relies on itertools' `cartesian_product`: every pair of indices, the
/// second varying fastest.
#[verifier::external_body]
fn index_pairs(n: usize, m: usize) -> (r: Vec<(usize, usize)>)
    requires
        n * m <= usize::MAX,
    ensures
        r@.len() == n * m,
        forall|k: int| 0 <= k < n * m ==> #[trigger] r@[k] == ((k / m as int) as usize, (k % m as int) as usize),
{
    (0..n).cartesian_product(0..m).collect()
}

fn local_parameter(c: &Crate, p: &crate::ty::Parameter) -> (r: bool)
    ensures
        r == local_param(*c, param_v(*p)),
{
    let adt = match p {
        crate::ty::Parameter::Ty(t) => match t.data() {
            TyData::RigidTy(rt) => match rt.name {
                RigidName::AdtId(a) => {
                    assert(param_v(*p) == ParamV::Ty(TyV::Rigid(RigidName::AdtId(a), params_v(rt.parameters@))));
                    Some(a)
                },
                _ => None,
            },
            _ => None,
        },
        _ => None,
    };
    match adt {
        None => false,
        Some(a) => {
            let mut k: usize = 0;
            while k < c.adts.len()
                invariant
                    k <= c.adts@.len(),
                    local_param(*c, param_v(*p)) == c.adts@.contains(a),
                    forall|j: int| 0 <= j < k ==> c.adts@[j] != a,
                decreases c.adts@.len() - k,
            {
                if c.adts[k] == a {
                    assert(c.adts@.contains(a));
                    return true;
                }
                k = k + 1;
            }
            false
        },
    }
}

/// Whether an interface reference with parameters `ps` is local to `c`.
pub fn is_local(c: &Crate, id: TraitId, ps: &Vec<crate::ty::Parameter>) -> (r: bool)
    ensures
        r == local_ref(*c, id, params_v(ps@)),
{
    proof {
        lemma_params_v_index(ps@);
    }
    let mut i: usize = 0;
    while i < c.traits.len()
        invariant
            i <= c.traits@.len(),
            forall|j: int| 0 <= j < i ==> c.traits@[j] != id,
        decreases c.traits@.len() - i,
    {
        if c.traits[i] == id {
            assert(c.traits@.contains(id));
            return true;
        }
        i = i + 1;
    }
    let mut k: usize = 0;
    while k < ps.len()
        invariant
            !c.traits@.contains(id),
            k <= ps@.len(),
            params_v(ps@).len() == ps@.len(),
            forall|j: int| 0 <= j < ps@.len() ==> #[trigger] params_v(ps@)[j] == param_v(ps@[j]),
            forall|j: int| 0 <= j < k ==> !local_param(*c, #[trigger] params_v(ps@)[j]),
        decreases ps@.len() - k,
    {
        if local_parameter(c, &ps[k]) {
            assert(local_param(*c, params_v(ps@)[k as int]));
            return true;
        }
        k = k + 1;
    }
    false
}

/// Structural equality of implementations.
pub fn eq_impl(a: &Binder<TraitImplData>, b: &Binder<TraitImplData>) -> (r: bool)
    ensures
        r == (impl_v(*a) == impl_v(*b)),
{
    eq_kinds(&a.kinds, &b.kinds) && a.term.trait_ref.trait_id == b.term.trait_ref.trait_id
        && eq_params(&a.term.trait_ref.parameters, &b.term.trait_ref.parameters) && eq_predicates(
        &a.term.where_clauses,
        &b.term.where_clauses,
    )
}

fn copy_params(ps: &Vec<crate::ty::Parameter>) -> (r: Vec<crate::ty::Parameter>)
    ensures
        params_v(r@) == params_v(ps@),
{
    proof {
        lemma_fold_spared_paramsv(params_v(ps@), Identity, 0);
    }
    fold_params(ps, &Identity, 0)
}

fn copy_predicates(ps: &Vec<Predicate>) -> (r: Vec<Predicate>)
    ensures
        preds_v(r@) == preds_v(ps@),
{
    proof {
        crate::subst::lemma_fold_spared_predsv(preds_v(ps@), Identity, 0);
    }
    fold_predicates(ps, &Identity, 0)
}

/// The inversion of a where-clause, where it has one.
pub fn invert(p: &Predicate) -> (r: Option<Predicate>)
    ensures
        match r {
            Some(q) => invert_v(p@) == Some(q@),
            None => invert_v(p@).is_none(),
        },
{
    match p {
        Predicate::IsImplemented(tr) => Some(
            Predicate::NotImplemented(
                TraitRef { trait_id: tr.trait_id, parameters: copy_params(&tr.parameters) },
            ),
        ),
        Predicate::NotImplemented(tr) => Some(
            Predicate::IsImplemented(
                TraitRef { trait_id: tr.trait_id, parameters: copy_params(&tr.parameters) },
            ),
        ),
        Predicate::Equals(_, _) => None,
    }
}

fn open_impl(env: &mut Env, b: &Binder<TraitImplData>) -> (r: (Vec<crate::ty::Parameter>, Vec<Predicate>))
    requires
        old(env).has_room(b.kinds@.len()),
    ensures
        params_v(r.0@) == fold_paramsv(
            params_v(b.term.trait_ref.parameters@),
            old(env).spec_opener(b.kinds, true),
            0,
        ),
        preds_v(r.1@) == fold_predsv(
            preds_v(b.term.where_clauses@),
            old(env).spec_opener(b.kinds, true),
            0,
        ),
        *final(env) == old(env).spec_after(b.kinds@.len(), true),
{
    let ghost so = old(env).spec_opener(b.kinds, true);
    let o = env.opener(&b.kinds, true);
    proof {
        lemma_agree_paramsv(params_v(b.term.trait_ref.parameters@), o, so, 0);
        lemma_agree_predsv(preds_v(b.term.where_clauses@), o, so, 0);
    }
    (fold_params(&b.term.trait_ref.parameters, &o, 0), fold_predicates(&b.term.where_clauses, &o, 0))
}

impl Check {
    /// Whether two implementations of one interface cannot both apply to
    /// the same types.
    pub fn overlap_check(&self, impl_a: &TraitImpl, impl_b: &TraitImpl) -> (r: bool)
        requires
            impl_a.binder.term.trait_ref.trait_id == impl_b.binder.term.trait_ref.trait_id,
        ensures
            r == overlap_free(self.decls, impl_a.binder, impl_b.binder),
    {
        let a = &impl_a.binder;
        let b = &impl_b.binder;
        if a.kinds.len() > usize::MAX - b.kinds.len() {
            return false;
        }
        let mut env = crate::env::Env::new();
        let (pa, wa) = open_impl(&mut env, a);
        let (pb, wb) = open_impl(&mut env, b);
        let ghost (e2, spa, swa, spb, swb) = open_pair(*a, *b);
        assert(env == e2);
        proof {
            lemma_params_v_index(pa@);
            lemma_params_v_index(pb@);
        }
        if pa.len() != pb.len() {
            return true;
        }
        // The premise: equal parameters and both where-clause lists.
        let mut premise = zip_equals(&pa, &pb);
        let mut wa1 = copy_predicates(&wa);
        let mut wb1 = copy_predicates(&wb);
        proof {
            lemma_preds_v_concat(premise@, wa1@);
            lemma_preds_v_concat(premise@ + wa1@, wb1@);
        }
        premise.append(&mut wa1);
        premise.append(&mut wb1);
        let ghost sprem = zip_eqs(spa, spb) + swa + swb;
        assert(preds_v(premise@) == sprem);
        let none: Vec<Predicate> = Vec::new();
        assert(preds_v(none@) =~= Seq::<PredV>::empty());
        if prove_not_goal(&self.decls, &env.with_coherence_mode(true), &none, &premise, SOLVER_DEPTH) {
            return true;
        }
        // Otherwise look for a where-clause whose inversion follows from the premise.
        let mut ws = copy_predicates(&wa);
        let mut wb2 = copy_predicates(&wb);
        proof {
            lemma_preds_v_concat(ws@, wb2@);
        }
        ws.append(&mut wb2);
        let ghost sws = swa + swb;
        assert(preds_v(ws@) == sws);
        proof {
            lemma_preds_v_index(ws@);
        }
        let mut i: usize = 0;
        while i < ws.len()
            invariant
                i <= ws@.len(),
                preds_v(ws@) == sws,
                sws.len() == ws@.len(),
                forall|j: int| 0 <= j < ws@.len() ==> #[trigger] preds_v(ws@)[j] == pred_v(ws@[j]),
                preds_v(premise@) == sprem,
                env == e2,
                *a == impl_a.binder,
                *b == impl_b.binder,
                (e2, spa, swa, spb, swb) == open_pair(*a, *b),
                sprem == zip_eqs(spa, spb) + swa + swb,
                sws == swa + swb,
                spa.len() == spb.len(),
                a.kinds@.len() + b.kinds@.len() <= usize::MAX,
                forall|j: int|
                    0 <= j < i ==> !(invert_v(sws[j]) is Some && solve_v(
                        self.decls,
                        sprem,
                        ConstraintsV { env: e2, subst: Map::empty() },
                        seq![invert_v(sws[j])->0],
                        SOLVER_DEPTH as nat,
                    ).len() > 0),
            decreases ws@.len() - i,
        {
            if let Some(inv) = invert(&ws[i]) {
                let goal = vec![inv];
                proof {
                    lemma_preds_v_push(Seq::<Predicate>::empty(), goal@[0]);
                    assert(Seq::<Predicate>::empty().push(goal@[0]) =~= goal@);
                    assert(preds_v(Seq::<Predicate>::empty()) =~= Seq::<PredV>::empty());
                    assert(preds_v(goal@) =~= seq![invert_v(sws[i as int])->0]);
                }
                if prove_goal(&self.decls, &env, &premise, &goal, SOLVER_DEPTH) {
                    assert(invert_v(sws[i as int]) is Some && solve_v(
                        self.decls,
                        sprem,
                        ConstraintsV { env: e2, subst: Map::empty() },
                        seq![invert_v(sws[i as int])->0],
                        SOLVER_DEPTH as nat,
                    ).len() > 0);
                    assert(exists|j: int|
                        0 <= j < sws.len() && invert_v(sws[j]) is Some && solve_v(
                            self.decls,
                            sprem,
                            ConstraintsV { env: e2, subst: Map::empty() },
                            seq![invert_v(sws[j])->0],
                            SOLVER_DEPTH as nat,
                        ).len() > 0);
                    return true;
                }
            }
            i = i + 1;
        }
        false
    }
}

/// Every implementation of `c` (of the given polarity) up to `n` has a
/// local interface reference.
pub open spec fn impls_local(c: Crate, n: int) -> bool {
    forall|i: int| 0 <= i < n ==> orphan_ok(c, #[trigger] c.impls@[i].binder)
}

pub open spec fn neg_impls_local(c: Crate, n: int) -> bool {
    forall|i: int| 0 <= i < n ==> orphan_ok(c, #[trigger] c.neg_impls@[i].binder)
}

/// The `i`th implementation of `c` has a structurally equal one after it.
pub open spec fn duplicated(c: Crate, i: int) -> bool {
    exists|j: int| i < j < c.impls@.len() && impl_v(c.impls@[i].binder) == impl_v(#[trigger] c.impls@[j].binder)
}

pub open spec fn no_duplicates_before(c: Crate, n: int) -> bool {
    forall|i: int| 0 <= i < n ==> !#[trigger] duplicated(c, i)
}

/// The `i`th implementation of `c` and the `j`th of the program are
/// distinct implementations of one interface.
pub open spec fn compared(d: Decls, c: Crate, i: int, j: int) -> bool {
    let a = c.impls@[i].binder;
    let b = d.impls@[j].binder;
    impl_v(a) != impl_v(b) && a.term.trait_ref.trait_id == b.term.trait_ref.trait_id
}

/// The pair does not need to be compared, or does not overlap.
pub open spec fn pair_ok(d: Decls, c: Crate, i: int, j: int) -> bool {
    compared(d, c, i, j) ==> overlap_free(d, c.impls@[i].binder, d.impls@[j].binder)
}

/// The pairs numbered below `k`, in the order of the check (`i` major,
/// `j` minor, `m` implementations in the program), are fine.
pub open spec fn pairs_ok_before(d: Decls, c: Crate, m: int, k: int) -> bool {
    forall|l: int| 0 <= l < k ==> #[trigger] pair_ok(d, c, l / m, l % m)
}

/// What checking crate `c` against the program's implementations `d`
/// returns: `Ok` when every check passes, else the first violation in the
/// order orphan rule, negative orphan rule, duplicates, overlap.
pub open spec fn coherence_outcome(d: Decls, c: Crate, r: Result<(), CoherenceError>) -> bool {
    let n = c.impls@.len() as int;
    let m = d.impls@.len() as int;
    match r {
        Ok(()) => impls_local(c, n) && neg_impls_local(c, c.neg_impls@.len() as int)
            && no_duplicates_before(c, n) && forall|i: int, j: int|
            0 <= i < n && 0 <= j < m ==> #[trigger] pair_ok(d, c, i, j),
        Err(CoherenceError::OrphanImpl { index }) => index < n && impls_local(
            c,
            index as int,
        ) && !orphan_ok(c, c.impls@[index as int].binder),
        Err(CoherenceError::OrphanNegImpl { index }) => impls_local(c, n) && index
            < c.neg_impls@.len() && neg_impls_local(c, index as int) && !orphan_ok(c, c.neg_impls@[index as int].binder),
        Err(CoherenceError::DuplicateImpl { index }) => impls_local(c, n)
            && neg_impls_local(c, c.neg_impls@.len() as int) && index < n
            && no_duplicates_before(c, index as int) && duplicated(c, index as int),
        Err(CoherenceError::MayOverlap { current: i, other: j }) => impls_local(c, n)
            && neg_impls_local(c, c.neg_impls@.len() as int) && no_duplicates_before(
            c,
            n,
        ) && i < n && j < m && pairs_ok_before(d, c, m, i * m + j) && !pair_ok(
            d,
            c,
            i as int,
            j as int,
        ),
    }
}

impl Check {
    /// The orphan rule for an implementation: opened universally, its
    /// interface reference must be local to the crate.
    pub fn orphan_check(&self, current: &Crate, impl_a: &TraitImpl) -> (r: bool)
        ensures
            r == orphan_ok(*current, impl_a.binder),
    {
        let mut env = Env::new();
        // A vector's length fits in `usize`, so there is room for its variables.
        let declared: usize = impl_a.binder.kinds.len();
        assert(env.has_room(declared as nat));
        let (ps, _where_clauses) = open_impl(&mut env, &impl_a.binder);
        is_local(current, impl_a.binder.term.trait_ref.trait_id, &ps)
    }

    /// The orphan rule for a negative implementation.
    pub fn orphan_check_neg(&self, current: &Crate, impl_a: &NegTraitImpl) -> (r: bool)
        ensures
            r == orphan_ok(*current, impl_a.binder),
    {
        let mut env = Env::new();
        // A vector's length fits in `usize`, so there is room for its variables.
        let declared: usize = impl_a.binder.kinds.len();
        assert(env.has_room(declared as nat));
        let (ps, _where_clauses) = open_impl(&mut env, &impl_a.binder);
        is_local(current, impl_a.binder.term.trait_ref.trait_id, &ps)
    }

    /// Check the crate `current` against the implementations of the whole
    /// program: orphan rule, then duplicates, then overlap; the first
    /// violation is returned.
    pub fn check_coherence(&self, current: &Crate) -> (r: Result<(), CoherenceError>)
        requires
            current.impls@.len() * self.decls.impls@.len() <= usize::MAX,
        ensures
            coherence_outcome(self.decls, *current, r),
    {
        let n = current.impls.len();
        let m = self.decls.impls.len();
        let mut i: usize = 0;
        while i < n
            invariant
                n == current.impls@.len(),
                i <= n,
                impls_local(*current, i as int),
            decreases n - i,
        {
            if !self.orphan_check(current, &current.impls[i]) {
                return Err(CoherenceError::OrphanImpl { index: i });
            }
            i = i + 1;
        }
        let mut i: usize = 0;
        while i < current.neg_impls.len()
            invariant
                n == current.impls@.len(),
                impls_local(*current, n as int),
                i <= current.neg_impls@.len(),
                neg_impls_local(*current, i as int),
            decreases current.neg_impls@.len() - i,
        {
            if !self.orphan_check_neg(current, &current.neg_impls[i]) {
                return Err(CoherenceError::OrphanNegImpl { index: i });
            }
            i = i + 1;
        }
        let mut i: usize = 0;
        while i < n
            invariant
                n == current.impls@.len(),
                impls_local(*current, n as int),
                neg_impls_local(*current, current.neg_impls@.len() as int),
                i <= n,
                no_duplicates_before(*current, i as int),
            decreases n - i,
        {
            let mut j: usize = i + 1;
            while j < n
                invariant
                    n == current.impls@.len(),
                    impls_local(*current, n as int),
                    neg_impls_local(*current, current.neg_impls@.len() as int),
                    no_duplicates_before(*current, i as int),
                    i < n,
                    i < j <= n,
                    forall|k: int| i < k < j ==> impl_v(current.impls@[i as int].binder) != impl_v(#[trigger] current.impls@[k].binder),
                decreases n - j,
            {
                if eq_impl(&current.impls[i].binder, &current.impls[j].binder) {
                    assert(duplicated(*current, i as int));
                    return Err(CoherenceError::DuplicateImpl { index: i });
                }
                j = j + 1;
            }
            assert(!duplicated(*current, i as int));
            i = i + 1;
        }
        let pairs = index_pairs(n, m);
        let mut k: usize = 0;
        while k < pairs.len()
            invariant
                n == current.impls@.len(),
                m == self.decls.impls@.len(),
                n * m <= usize::MAX,
                impls_local(*current, n as int),
                neg_impls_local(*current, current.neg_impls@.len() as int),
                no_duplicates_before(*current, n as int),
                pairs@.len() == n * m,
                forall|l: int| 0 <= l < n * m ==> #[trigger] pairs@[l] == ((l / m as int) as usize, (l % m as int) as usize),
                k <= pairs@.len(),
                pairs_ok_before(self.decls, *current, m as int, k as int),
            decreases pairs@.len() - k,
        {
            let (a, b) = pairs[k];
            proof {
                lemma_pair_in_range(k as int, n as int, m as int);
            }
            let impl_a = &current.impls[a];
            let impl_b = &self.decls.impls[b];
            if !eq_impl(&impl_a.binder, &impl_b.binder)
                && impl_a.binder.term.trait_ref.trait_id == impl_b.binder.term.trait_ref.trait_id {
                if !self.overlap_check(impl_a, impl_b) {
                    proof {
                        vstd::arithmetic::div_mod::lemma_fundamental_div_mod(k as int, m as int);
                    }
                    assert(k as int == a as int * m + b as int) by (nonlinear_arith)
                        requires
                            k as int == m * (k as int / m as int) + k as int % m as int,
                            a as int == k as int / m as int,
                            b as int == k as int % m as int,
                    ;
                    return Err(CoherenceError::MayOverlap { current: a, other: b });
                }
            }
            assert(pair_ok(self.decls, *current, k as int / m as int, k as int % m as int));
            k = k + 1;
        }
        proof {
            assert forall|i: int, j: int| 0 <= i < n && 0 <= j < m implies #[trigger] pair_ok(
                self.decls,
                *current,
                i,
                j,
            ) by {
                let l = i * m + j;
                assert(0 <= l < n * m) by (nonlinear_arith)
                    requires
                        0 <= i < n,
                        0 <= j < m,
                        l == i * m + j,
                ;
                vstd::arithmetic::div_mod::lemma_fundamental_div_mod_converse(l, m as int, i, j);
                assert(pair_ok(self.decls, *current, l / m as int, l % m as int));
            }
        }
        Ok(())
    }
}

proof fn lemma_pair_in_range(k: int, n: int, m: int)
    requires
        0 <= k < n * m,
        n >= 0,
        m >= 0,
    ensures
        m > 0,
        0 <= k / m < n,
        0 <= k % m < m,
{
    if m == 0 {
        assert(n * m == 0) by (nonlinear_arith)
            requires
                m == 0,
        ;
    }
    vstd::arithmetic::div_mod::lemma_fundamental_div_mod(k, m);
    assert(0 <= k / m < n) by (nonlinear_arith)
        requires
            0 <= k < n * m,
            m > 0,
            k == m * (k / m) + k % m,
            0 <= k % m < m,
    ;
}

/// Two structurally identical implementations in the crate under check
/// make the check fail with a duplicate diagnostic, once the orphan rule
/// holds (it is checked first).
pub proof fn lemma_duplicates_rejected(d: Decls, c: Crate, r: Result<(), CoherenceError>, i: int, j: int)
    requires
        coherence_outcome(d, c, r),
        impls_local(c, c.impls@.len() as int),
        neg_impls_local(c, c.neg_impls@.len() as int),
        0 <= i < j < c.impls@.len(),
        impl_v(c.impls@[i].binder) == impl_v(c.impls@[j].binder),
    ensures
        r matches Err(CoherenceError::DuplicateImpl { .. }),
{
    assert(duplicated(c, i));
}

/// An implementation whose interface reference is not local to the crate
/// makes the check fail under the orphan rule, whatever its where-clauses.
pub proof fn lemma_orphan_rejected(d: Decls, c: Crate, r: Result<(), CoherenceError>, i: int)
    requires
        coherence_outcome(d, c, r),
        0 <= i < c.impls@.len(),
        !orphan_ok(c, c.impls@[i].binder),
    ensures
        r matches Err(CoherenceError::OrphanImpl { index }) && index <= i,
{
    if let Err(CoherenceError::OrphanImpl { index }) = r {
        if index > i {
            assert(orphan_ok(c, c.impls@[i].binder));
        }
    }
}

/// Implementations without generic parameters or where-clauses for rigid
/// types with different names do not overlap: equating the types fails.
pub proof fn lemma_disjoint_types_no_overlap(
    d: Decls,
    a: Binder<TraitImplData>,
    b: Binder<TraitImplData>,
    n1: RigidName,
    ps1: Seq<ParamV>,
    n2: RigidName,
    ps2: Seq<ParamV>,
)
    requires
        a.kinds@.len() == 0,
        b.kinds@.len() == 0,
        params_v(a.term.trait_ref.parameters@) == seq![ParamV::Ty(TyV::Rigid(n1, ps1))],
        params_v(b.term.trait_ref.parameters@) == seq![ParamV::Ty(TyV::Rigid(n2, ps2))],
        a.term.where_clauses@.len() == 0,
        b.term.where_clauses@.len() == 0,
        n1 != n2,
    ensures
        overlap_free(d, a, b),
{
    let (e2, pa, wa, pb, wb) = open_pair(a, b);
    let oa = root_env().spec_opener(a.kinds, true);
    let ob = root_env().spec_after(0, true).spec_opener(b.kinds, true);
    let sa = seq![ParamV::Ty(TyV::Rigid(n1, ps1))];
    let sb = seq![ParamV::Ty(TyV::Rigid(n2, ps2))];
    assert(sa.subrange(0, 0) =~= Seq::<ParamV>::empty());
    assert(sb.subrange(0, 0) =~= Seq::<ParamV>::empty());
    assert(preds_v(a.term.where_clauses@) =~= Seq::<PredV>::empty());
    assert(preds_v(b.term.where_clauses@) =~= Seq::<PredV>::empty());
    let qa = crate::fold::fold_paramv(sa[0], oa, 0);
    let qb = crate::fold::fold_paramv(sb[0], ob, 0);
    assert(crate::fold::fold_paramsv(sa.subrange(0, 0), oa, 0) == Seq::<ParamV>::empty());
    assert(crate::fold::fold_paramsv(sb.subrange(0, 0), ob, 0) == Seq::<ParamV>::empty());
    assert(pa =~= seq![qa]);
    assert(pb =~= seq![qb]);
    let premise = zip_eqs(pa, pb) + wa + wb;
    assert(premise =~= seq![PredV::Equals(qa, qb)]);
    let c0 = ConstraintsV { env: Env { coherence_mode: true, ..e2 }, subst: Map::empty() };
    let a1 = crate::solve::apply_pv(c0.subst, qa);
    let b1 = crate::solve::apply_pv(c0.subst, qb);
    assert(a1 is Ty && a1->Ty_0 is Rigid && a1->Ty_0->Rigid_0 == n1);
    assert(b1 is Ty && b1->Ty_0 is Rigid && b1->Ty_0->Rigid_0 == n2);
    assert(!crate::solve::assumed_eq(seq![], c0.subst, a1, b1));
    assert(crate::solve::prove_eq_v(d, seq![], c0, qa, qb, SOLVER_DEPTH as nat) =~= Seq::<ConstraintsV>::empty());
    assert(crate::solve::prove_wc_v(d, seq![], c0, premise[0], SOLVER_DEPTH as nat) =~= Seq::<ConstraintsV>::empty());
    assert(solve_v(d, seq![], c0, premise, SOLVER_DEPTH as nat) =~= Seq::<ConstraintsV>::empty());
}

proof fn lemma_via_impls_nonempty(
    d: Decls,
    hyps: Seq<PredV>,
    c: ConstraintsV,
    id: TraitId,
    ps: Seq<ParamV>,
    binders: Seq<Binder<TraitImplData>>,
    n: nat,
    k: nat,
    fuel: nat,
)
    requires
        k < n <= binders.len(),
        crate::solve::via_impls_v(d, hyps, c, id, ps, binders, (k + 1) as nat, fuel).len() > crate::solve::via_impls_v(d, hyps, c, id, ps, binders, k, fuel).len(),
    ensures
        crate::solve::via_impls_v(d, hyps, c, id, ps, binders, n, fuel).len() > 0,
    decreases n - k,
{
    if n > k + 1 {
        lemma_via_impls_nonempty(d, hyps, c, id, ps, binders, (n - 1) as nat, k, fuel);
    }
}

/// The blanket shape `impl<T> _ for T where T: bound`.
pub open spec fn blanket_over(a: Binder<TraitImplData>, bound: TraitId) -> bool {
    &&& a.kinds@ == seq![ParameterKind::Ty]
    &&& params_v(a.term.trait_ref.parameters@) == seq![ParamV::Ty(TyV::Var(bound_var_zero()))]
    &&& preds_v(a.term.where_clauses@) == seq![
        PredV::Implemented(bound, seq![ParamV::Ty(TyV::Var(bound_var_zero()))]),
    ]
}

/// The concrete shape `impl _ for n` (no generics, no where-clauses).
pub open spec fn concrete_for(b: Binder<TraitImplData>, n: RigidName) -> bool {
    &&& b.kinds@.len() == 0
    &&& params_v(b.term.trait_ref.parameters@) == seq![ParamV::Ty(TyV::Rigid(n, seq![]))]
    &&& b.term.where_clauses@.len() == 0
}

pub open spec fn first_placeholder() -> ParamV {
    ParamV::Ty(TyV::Var(crate::env::fresh_var(0, 0, Universe { index: 1 }, true)))
}

proof fn lemma_fold_single<R: crate::fold::Replacer>(p: ParamV, r: R)
    ensures
        crate::fold::fold_paramsv(seq![p], r, 0) == seq![crate::fold::fold_paramv(p, r, 0)],
{
    crate::fold::lemma_fold_paramsv_push(Seq::<ParamV>::empty(), p, r, 0);
    assert(Seq::<ParamV>::empty().push(p) =~= seq![p]);
    assert(Seq::<ParamV>::empty().push(crate::fold::fold_paramv(p, r, 0)) =~= seq![crate::fold::fold_paramv(p, r, 0)]);
}

proof fn lemma_fold_single_pred<R: crate::fold::Replacer>(p: PredV, r: R)
    ensures
        crate::fold::fold_predsv(seq![p], r, 0) == seq![crate::fold::fold_predv(p, r, 0)],
{
    crate::fold::lemma_fold_predsv_push(Seq::<PredV>::empty(), p, r, 0);
    assert(Seq::<PredV>::empty().push(p) =~= seq![p]);
    assert(Seq::<PredV>::empty().push(crate::fold::fold_predv(p, r, 0)) =~= seq![crate::fold::fold_predv(p, r, 0)]);
}

#[verifier::rlimit(50)]
proof fn lemma_open_blanket_concrete(a: Binder<TraitImplData>, b: Binder<TraitImplData>, bound: TraitId, n: RigidName)
    requires
        blanket_over(a, bound),
        concrete_for(b, n),
    ensures
        ({
            let (e2, pa, wa, pb, wb) = open_pair(a, b);
            &&& pa == seq![first_placeholder()]
            &&& wa == seq![PredV::Implemented(bound, seq![first_placeholder()])]
            &&& pb == seq![ParamV::Ty(TyV::Rigid(n, seq![]))]
            &&& wb == Seq::<PredV>::empty()
        }),
{
    let (e2, pa, wa, pb, wb) = open_pair(a, b);
    let oa = root_env().spec_opener(a.kinds, true);
    let ob = root_env().spec_after(1, true).spec_opener(b.kinds, true);
    let ta = ParamV::Ty(TyV::Var(bound_var_zero()));
    let concrete = ParamV::Ty(TyV::Rigid(n, seq![]));
    let pp = first_placeholder();
    lemma_fold_single(ta, oa);
    assert(crate::fold::fold_paramv(ta, oa, 0) == pp);
    lemma_fold_single(concrete, ob);
    assert(crate::fold::fold_paramsv(Seq::<ParamV>::empty(), ob, 0) == Seq::<ParamV>::empty());
    assert(crate::fold::fold_paramv(concrete, ob, 0) == concrete);
    let wclause = PredV::Implemented(bound, seq![ta]);
    lemma_fold_single_pred(wclause, oa);
    assert(crate::fold::fold_predv(wclause, oa, 0) == PredV::Implemented(bound, seq![pp]));
    assert(preds_v(b.term.where_clauses@) =~= Seq::<PredV>::empty());
}

#[verifier::rlimit(50)]
proof fn lemma_inverted_bound_provable(d: Decls, env: Env, bound: TraitId, n: RigidName, k: int)
    requires
        0 <= k < d.neg_impls@.len(),
        concrete_for(d.neg_impls@[k].binder, n),
        d.neg_impls@[k].binder.term.trait_ref.trait_id == bound,
        env.has_room(0),
    ensures
        solve_v(
            d,
            seq![
                PredV::Equals(first_placeholder(), ParamV::Ty(TyV::Rigid(n, seq![]))),
                PredV::Implemented(bound, seq![first_placeholder()]),
            ],
            ConstraintsV { env, subst: Map::empty() },
            seq![PredV::NotImplemented(bound, seq![first_placeholder()])],
            SOLVER_DEPTH as nat,
        ).len() > 0,
{
    let pp = first_placeholder();
    let concrete = ParamV::Ty(TyV::Rigid(n, seq![]));
    let premise = seq![PredV::Equals(pp, concrete), PredV::Implemented(bound, seq![pp])];
    let inv = PredV::NotImplemented(bound, seq![pp]);
    let c2 = ConstraintsV { env, subst: Map::empty() };
    let binders = crate::solve::neg_impl_binders(d);
    let nb = binders[k];
    assert(nb == d.neg_impls@[k].binder);
    let o = env.spec_opener(nb.kinds, false);
    let c3 = ConstraintsV { env: env.spec_after(0, false), ..c2 };
    lemma_fold_single(concrete, o);
    assert(crate::fold::fold_paramsv(Seq::<ParamV>::empty(), o, 0) == Seq::<ParamV>::empty());
    assert(crate::fold::fold_paramv(concrete, o, 0) == concrete);
    assert(preds_v(nb.term.where_clauses@) =~= Seq::<PredV>::empty());
    let goals = crate::solve::impl_goals(nb.term, o, seq![pp]);
    assert(goals =~= seq![PredV::Equals(pp, concrete)]);
    let sv = crate::subst::SubstV { map: Map::<Variable, ParamV>::empty() };
    assert(crate::fold::fold_paramv(pp, sv, 0) == pp);
    assert(crate::fold::fold_paramv(concrete, sv, 0) == concrete);
    assert(crate::fold::fold_predv(premise[0], sv, 0) == PredV::Equals(pp, concrete));
    assert(crate::solve::assumed_eq(premise, c3.subst, pp, concrete));
    let eqs = crate::solve::prove_eq_v(d, premise, c3, pp, concrete, (SOLVER_DEPTH - 1) as nat);
    assert(eqs.len() > 0);
    assert(goals.drop_first() =~= Seq::<PredV>::empty());
    let f1 = (SOLVER_DEPTH - 1) as nat;
    let pw = crate::solve::prove_wc_v(d, premise, c3, goals[0], f1);
    assert(pw == eqs);
    assert(solve_v(d, premise, pw.last(), Seq::<PredV>::empty(), f1) == seq![pw.last()]);
    assert(crate::solve::solve_each_v(d, premise, pw, Seq::<PredV>::empty(), f1).len() > 0);
    let inner_v = solve_v(d, premise, c3, goals, f1);
    assert(inner_v.len() > 0);
    let kn = k as nat;
    lemma_params_v_index(nb.term.trait_ref.parameters@);
    assert(nb.term.trait_ref.parameters@.len() == 1);
    assert(binders.len() == d.neg_impls@.len());
    assert(crate::solve::via_impls_v(d, premise, c2, bound, seq![pp], binders, kn + 1, SOLVER_DEPTH as nat)
        == crate::solve::via_impls_v(d, premise, c2, bound, seq![pp], binders, kn, SOLVER_DEPTH as nat) + inner_v);
    lemma_via_impls_nonempty(d, premise, c2, bound, seq![pp], binders, d.neg_impls@.len(), k as nat, SOLVER_DEPTH as nat);
    let found = crate::solve::prove_wc_v(d, premise, c2, inv, SOLVER_DEPTH as nat);
    assert(found.len() > 0);
    assert(seq![inv].drop_first() =~= Seq::<PredV>::empty());
    assert(seq![inv][0] == inv);
    assert(solve_v(d, premise, found.last(), Seq::<PredV>::empty(), SOLVER_DEPTH as nat) == seq![found.last()]);
    assert(crate::solve::solve_each_v(d, premise, found, Seq::<PredV>::empty(), SOLVER_DEPTH as nat).len() > 0);
}

/// A blanket implementation `impl<T> I for T where T: B` and an
/// implementation `impl I for C` do not overlap when the program declares
/// `impl !B for C`: assuming `T = C` and `T: B`, the solver proves `T: !B`,
/// the inversion of the blanket implementation's where-clause.
pub proof fn lemma_exclusionary_bound_no_overlap(
    d: Decls,
    a: Binder<TraitImplData>,
    b: Binder<TraitImplData>,
    bound: TraitId,
    n: RigidName,
    k: int,
)
    requires
        blanket_over(a, bound),
        concrete_for(b, n),
        0 <= k < d.neg_impls@.len(),
        concrete_for(d.neg_impls@[k].binder, n),
        d.neg_impls@[k].binder.term.trait_ref.trait_id == bound,
    ensures
        overlap_free(d, a, b),
{
    lemma_open_blanket_concrete(a, b, bound, n);
    let (e2, pa, wa, pb, wb) = open_pair(a, b);
    let pp = first_placeholder();
    let concrete = ParamV::Ty(TyV::Rigid(n, seq![]));
    let premise = zip_eqs(pa, pb) + wa + wb;
    assert(premise =~= seq![PredV::Equals(pp, concrete), PredV::Implemented(bound, seq![pp])]);
    let ws = wa + wb;
    assert(ws =~= seq![PredV::Implemented(bound, seq![pp])]);
    assert(invert_v(ws[0]) == Some(PredV::NotImplemented(bound, seq![pp])));
    lemma_inverted_bound_provable(d, e2, bound, n, k);
}

/// The variable bound by the innermost binder at position 0.
pub open spec fn bound_var_zero() -> Variable {
    Variable::BoundVar(
        crate::ty::BoundVar {
            debruijn: Some(crate::ty::DebruijnIndex { index: 0 }),
            var_index: crate::ty::VarIndex { index: 0 },
        },
    )
}

} // verus!
