//! The where-clause solver: a depth-first search over a fixed rule set that
//! collects every set of constraints under which a list of goals holds.
use vstd::prelude::*;

use crate::env::Env;
use crate::eq::{eq_parameter, eq_predicate, lemma_params_v_index, lemma_preds_v_index};
use crate::fold::{
    fold_params, fold_paramsv, fold_paramv, fold_predicates, fold_predsv, fold_predv,
    lemma_preds_v_push,
};
use crate::subst::{
    free_vars_paramv, copy_parameter, lemma_agree_paramv, lemma_agree_predv, SubstV, Substitution,
};
use crate::ty::{
    param_v, params_v, pred_v, preds_v, Binder, LtData, ParamV, Parameter, PredV, Predicate,
    TraitId, TraitRef, TyV, Variable,
};

verus! {

/// The body of an implementation: the interface reference it implements
/// and its where-clauses.
#[derive(Debug)]
pub struct TraitImplData {
    pub trait_ref: TraitRef,
    pub where_clauses: Vec<Predicate>,
}

/// `impl<..> Trait<..> for T where ..`
#[derive(Debug)]
pub struct TraitImpl {
    pub binder: Binder<TraitImplData>,
}

/// `impl<..> !Trait<..> for T where ..`
#[derive(Debug)]
pub struct NegTraitImpl {
    pub binder: Binder<TraitImplData>,
}

/// The implementations the solver may use.
#[derive(Debug)]
pub struct Decls {
    pub impls: Vec<TraitImpl>,
    pub neg_impls: Vec<NegTraitImpl>,
}

/// The result of a successful proof: the environment after it and what it
/// learned about inference variables.
#[derive(Debug)]
pub struct Constraints {
    pub env: Env,
    pub subst: Substitution,
}

pub ghost struct ConstraintsV {
    pub env: Env,
    pub subst: Map<Variable, ParamV>,
}

impl View for Constraints {
    type V = ConstraintsV;

    open spec fn view(&self) -> ConstraintsV {
        ConstraintsV { env: self.env, subst: self.subst@ }
    }
}

pub open spec fn cs_v(s: Seq<Constraints>) -> Seq<ConstraintsV> {
    s.map_values(|c: Constraints| c@)
}

pub open spec fn cs_wf(s: Seq<Constraints>) -> bool {
    forall|i: int| 0 <= i < s.len() ==> (#[trigger] s[i]).subst.wf()
}

pub open spec fn apply_pv(m: Map<Variable, ParamV>, p: ParamV) -> ParamV {
    fold_paramv(p, SubstV { map: m }, 0)
}

pub open spec fn apply_predv(m: Map<Variable, ParamV>, p: PredV) -> PredV {
    fold_predv(p, SubstV { map: m }, 0)
}

/// The inference variable that `p` is, if it is one.
pub open spec fn inference_of(p: ParamV) -> Option<Variable> {
    match p {
        ParamV::Ty(TyV::Var(v)) => if v is InferenceVar { Some(v) } else { None },
        ParamV::Lt(LtData::Variable(v)) => if v is InferenceVar { Some(v) } else { None },
        _ => None,
    }
}

pub open spec fn is_placeholder(p: ParamV) -> bool {
    match p {
        ParamV::Ty(TyV::Var(v)) => v is PlaceholderVar,
        ParamV::Lt(LtData::Variable(v)) => v is PlaceholderVar,
        _ => false,
    }
}

pub open spec fn same_kind(a: ParamV, b: ParamV) -> bool {
    (a is Ty) == (b is Ty)
}

/// `v` may occur in the value of the inference variable `x`: it is not `x`
/// itself, and a placeholder must be older than `x`. One counter numbers
/// every variable an environment makes, so a placeholder from a universe
/// opened after `x` was made has a larger index than `x`.
pub open spec fn may_bind(x: Variable, v: Variable) -> bool {
    v != x && match (v, x) {
        (Variable::PlaceholderVar(p), Variable::InferenceVar(i)) => p.index < i.index,
        _ => true,
    }
}

/// Binding `x` to `p` is allowed: every free variable of `p` may occur in it.
pub open spec fn binding_ok(x: Variable, p: ParamV) -> bool {
    forall|v: Variable| #[trigger] free_vars_paramv(p, 0).contains(v) ==> may_bind(x, v)
}

pub open spec fn all_may_bind(x: Variable, s: Set<Variable>) -> bool {
    forall|v: Variable| #[trigger] s.contains(v) ==> may_bind(x, v)
}

/// The goals `a[i] = b[i]`, in order.
pub open spec fn zip_eqs(a: Seq<ParamV>, b: Seq<ParamV>) -> Seq<PredV> {
    Seq::new(a.len(), |i: int| PredV::Equals(a[i], b[i]))
}

/// Some assumption, under `m`, is the goal `g` under `m`.
pub open spec fn assumed(hyps: Seq<PredV>, m: Map<Variable, ParamV>, g: PredV) -> bool {
    exists|i: int| 0 <= i < hyps.len() && apply_predv(m, hyps[i]) == apply_predv(m, g)
}

/// Some assumption, under `m`, equates `a` and `b`, in either order.
pub open spec fn assumed_eq(hyps: Seq<PredV>, m: Map<Variable, ParamV>, a: ParamV, b: ParamV) -> bool {
    exists|i: int|
        0 <= i < hyps.len() && (apply_predv(m, hyps[i]) == PredV::Equals(a, b) || apply_predv(
            m,
            hyps[i],
        ) == PredV::Equals(b, a))
}

/// Every way to prove all of `goals`, left to right, starting from `c`.
pub open spec fn solve_v(d: Decls, hyps: Seq<PredV>, c: ConstraintsV, goals: Seq<PredV>, fuel: nat) -> Seq<
    ConstraintsV,
>
    decreases fuel, goals.len(), 0int,
{
    if goals.len() == 0 {
        seq![c]
    } else {
        solve_each_v(d, hyps, prove_wc_v(d, hyps, c, goals[0], fuel), goals.drop_first(), fuel)
    }
}

/// For each of `cs` in turn, every way to prove `goals` from it.
pub open spec fn solve_each_v(
    d: Decls,
    hyps: Seq<PredV>,
    cs: Seq<ConstraintsV>,
    goals: Seq<PredV>,
    fuel: nat,
) -> Seq<ConstraintsV>
    decreases fuel, goals.len(), cs.len(),
{
    if cs.len() == 0 {
        seq![]
    } else {
        solve_each_v(d, hyps, cs.drop_last(), goals, fuel) + solve_v(d, hyps, cs.last(), goals, fuel)
    }
}

/// Every way to prove `a = b` from `c`.
pub open spec fn prove_eq_v(d: Decls, hyps: Seq<PredV>, c: ConstraintsV, a: ParamV, b: ParamV, fuel: nat) -> Seq<
    ConstraintsV,
>
    decreases fuel, 0int, 0int,
{
    let a1 = apply_pv(c.subst, a);
    let b1 = apply_pv(c.subst, b);
    let by_assumption: Seq<ConstraintsV> = if assumed_eq(hyps, c.subst, a1, b1) {
        seq![c]
    } else {
        seq![]
    };
    by_assumption + if a1 == b1 {
        seq![c]
    } else if !same_kind(a1, b1) {
        seq![]
    } else if inference_of(a1) is Some {
        if binding_ok(inference_of(a1)->0, b1) {
            seq![ConstraintsV { subst: c.subst.insert(inference_of(a1)->0, b1), ..c }]
        } else {
            seq![]
        }
    } else if inference_of(b1) is Some {
        if binding_ok(inference_of(b1)->0, a1) {
            seq![ConstraintsV { subst: c.subst.insert(inference_of(b1)->0, a1), ..c }]
        } else {
            seq![]
        }
    } else if (match (a1, b1) {
        (ParamV::Ty(TyV::Rigid(n1, ps)), ParamV::Ty(TyV::Rigid(n2, qs))) => n1 == n2 && ps.len()
            == qs.len(),
        _ => false,
    }) {
        if fuel > 0 {
            match (a1, b1) {
                (ParamV::Ty(TyV::Rigid(_, ps)), ParamV::Ty(TyV::Rigid(_, qs))) => solve_v(
                    d,
                    hyps,
                    c,
                    zip_eqs(ps, qs),
                    (fuel - 1) as nat,
                ),
                _ => seq![],
            }
        } else {
            seq![]
        }
    } else if c.env.coherence_mode && (is_placeholder(a1) || is_placeholder(b1)) {
        seq![c]
    } else {
        seq![]
    }
}

/// The goals that using an implementation with `data`, opened by `o`, for
/// the parameters `ps` brings.
pub open spec fn impl_goals(data: TraitImplData, o: crate::env::Opener, ps: Seq<ParamV>) -> Seq<PredV> {
    zip_eqs(ps, fold_paramsv(params_v(data.trait_ref.parameters@), o, 0)) + fold_predsv(
        preds_v(data.where_clauses@),
        o,
        0,
    )
}

/// Every way to prove, from `c`, that `id<ps>` holds by one of the first
/// `n` of `binders` (the implementations of one polarity).
pub open spec fn via_impls_v(
    d: Decls,
    hyps: Seq<PredV>,
    c: ConstraintsV,
    id: TraitId,
    ps: Seq<ParamV>,
    binders: Seq<Binder<TraitImplData>>,
    n: nat,
    fuel: nat,
) -> Seq<ConstraintsV>
    decreases fuel, 0int, n,
{
    if n == 0 || n > binders.len() {
        seq![]
    } else {
        let b = binders[n - 1];
        let data = b.term;
        via_impls_v(d, hyps, c, id, ps, binders, (n - 1) as nat, fuel) + if data.trait_ref.trait_id
            == id && data.trait_ref.parameters@.len() == ps.len() && c.env.has_room(b.kinds@.len())
            && fuel > 0 {
            let o = c.env.spec_opener(b.kinds, false);
            solve_v(
                d,
                hyps,
                ConstraintsV { env: c.env.spec_after(b.kinds@.len(), false), ..c },
                impl_goals(data, o, ps),
                (fuel - 1) as nat,
            )
        } else {
            seq![]
        }
    }
}

pub open spec fn impl_binders(d: Decls) -> Seq<Binder<TraitImplData>> {
    d.impls@.map_values(|i: TraitImpl| i.binder)
}

pub open spec fn neg_impl_binders(d: Decls) -> Seq<Binder<TraitImplData>> {
    d.neg_impls@.map_values(|i: NegTraitImpl| i.binder)
}

/// Every way to prove the goal `g` from `c`. In coherence mode a goal that
/// the depth limit stops is taken to hold, so that negation as failure never
/// rests on a search that gave up.
pub open spec fn prove_wc_v(d: Decls, hyps: Seq<PredV>, c: ConstraintsV, g: PredV, fuel: nat) -> Seq<
    ConstraintsV,
>
    decreases fuel, 0int, d.impls@.len() + d.neg_impls@.len() + 1,
{
    if fuel == 0 && c.env.coherence_mode {
        // Giving up refutes nothing: in coherence mode the goal may hold.
        seq![c]
    } else {
        match g {
            PredV::Equals(a, b) => prove_eq_v(d, hyps, c, a, b, fuel),
            PredV::Implemented(id, ps) => {
                let found = (if assumed(hyps, c.subst, g) {
                    seq![c]
                } else {
                    seq![]
                }) + via_impls_v(d, hyps, c, id, ps, impl_binders(d), d.impls@.len(), fuel);
                if found.len() == 0 && c.env.coherence_mode {
                    seq![c]
                } else {
                    found
                }
            },
            PredV::NotImplemented(id, ps) => (if assumed(hyps, c.subst, g) {
                seq![c]
            } else {
                seq![]
            }) + via_impls_v(d, hyps, c, id, ps, neg_impl_binders(d), d.neg_impls@.len(), fuel),
        }
    }
}

pub proof fn lemma_preds_v_concat(a: Seq<Predicate>, b: Seq<Predicate>)
    ensures
        preds_v(a + b) == preds_v(a) + preds_v(b),
    decreases b.len(),
{
    if b.len() == 0 {
        assert(a + b =~= a);
        assert(preds_v(a) + preds_v(b) =~= preds_v(a));
    } else {
        let b0 = b.subrange(0, b.len() - 1);
        lemma_preds_v_concat(a, b0);
        assert((a + b).subrange(0, (a + b).len() - 1) =~= a + b0);
        assert((a + b)[(a + b).len() - 1] == b[b.len() - 1]);
        assert(preds_v(a) + preds_v(b) =~= (preds_v(a) + preds_v(b0)).push(pred_v(b[b.len() - 1])));
    }
}

/// A copy of a substitution with the same mapping.
pub fn copy_subst(s: &Substitution) -> (r: Substitution)
    requires
        s.wf(),
    ensures
        r.wf(),
        r@ == s@,
{
    let mut map: Vec<(Variable, Parameter)> = Vec::new();
    let mut i: usize = 0;
    while i < s.map.len()
        invariant
            s.wf(),
            i <= s.map@.len(),
            map@.len() == i,
            forall|j: int| 0 <= j < i ==> (#[trigger] map@[j]).0 == s.map@[j].0 && param_v(map@[j].1) == param_v(s.map@[j].1),
        decreases s.map@.len() - i,
    {
        let p = copy_parameter(&s.map[i].1);
        map.push((s.map[i].0, p));
        i = i + 1;
    }
    let r = Substitution { map };
    proof {
        assert forall|v: Variable| r.has(v) == s.has(v) by {
            if r.has(v) {
                let k = choose|k: int| 0 <= k < r.map@.len() && r.map@[k].0 == v;
                assert(s.map@[k].0 == v);
            }
            if s.has(v) {
                let k = choose|k: int| 0 <= k < s.map@.len() && s.map@[k].0 == v;
                assert(r.map@[k].0 == v);
            }
        }
        assert forall|v: Variable| r.has(v) implies r.get(v) == s.get(v) by {
            let k = choose|k: int| 0 <= k < r.map@.len() && r.map@[k].0 == v;
            let k2 = choose|k: int| 0 <= k < s.map@.len() && s.map@[k].0 == v;
            assert(s.map@[k].0 == v);
            assert(k == k2);
        }
        assert(r@ =~= s@);
    }
    r
}

fn copy_constraints(c: &Constraints) -> (r: Constraints)
    requires
        c.subst.wf(),
    ensures
        r@ == c@,
        r.subst.wf(),
{
    Constraints { env: c.env, subst: copy_subst(&c.subst) }
}

fn apply_p(s: &Substitution, p: &Parameter) -> (r: Parameter)
    requires
        s.wf(),
    ensures
        r@ == apply_pv(s@, p@),
{
    proof {
        lemma_agree_paramv(p@, *s, SubstV { map: s@ }, 0);
    }
    s.apply_parameter(p)
}

fn apply_pred(s: &Substitution, p: &Predicate) -> (r: Predicate)
    requires
        s.wf(),
    ensures
        r@ == apply_predv(s@, p@),
{
    proof {
        lemma_agree_predv(p@, *s, SubstV { map: s@ }, 0);
    }
    s.apply_predicate(p)
}

fn inference_var(p: &Parameter) -> (r: Option<Variable>)
    ensures
        r == inference_of(p@),
{
    match p.as_variable() {
        Some(v) => match v {
            Variable::InferenceVar(_) => Some(v),
            _ => None,
        },
        None => None,
    }
}

fn placeholder(p: &Parameter) -> (r: bool)
    ensures
        r == is_placeholder(p@),
{
    match p.as_variable() {
        Some(v) => match v {
            Variable::PlaceholderVar(_) => true,
            _ => false,
        },
        None => false,
    }
}

fn kinds_match(a: &Parameter, b: &Parameter) -> (r: bool)
    ensures
        r == same_kind(a@, b@),
{
    match (a, b) {
        (Parameter::Ty(_), Parameter::Ty(_)) => true,
        (Parameter::Lt(_), Parameter::Lt(_)) => true,
        _ => false,
    }
}

fn is_assumed(hyps: &Vec<Predicate>, s: &Substitution, g: &Predicate) -> (r: bool)
    requires
        s.wf(),
    ensures
        r == assumed(preds_v(hyps@), s@, g@),
{
    proof {
        lemma_preds_v_index(hyps@);
    }
    let g1 = apply_pred(s, g);
    let mut i: usize = 0;
    while i < hyps.len()
        invariant
            s.wf(),
            g1@ == apply_predv(s@, g@),
            i <= hyps@.len(),
            preds_v(hyps@).len() == hyps@.len(),
            forall|j: int| 0 <= j < hyps@.len() ==> #[trigger] preds_v(hyps@)[j] == pred_v(hyps@[j]),
            forall|j: int| 0 <= j < i ==> apply_predv(s@, preds_v(hyps@)[j]) != apply_predv(s@, g@),
        decreases hyps@.len() - i,
    {
        let h = apply_pred(s, &hyps[i]);
        if eq_predicate(&h, &g1) {
            assert(apply_predv(s@, preds_v(hyps@)[i as int]) == apply_predv(s@, g@));
            return true;
        }
        i = i + 1;
    }
    false
}

fn is_assumed_eq(hyps: &Vec<Predicate>, s: &Substitution, a: &Parameter, b: &Parameter) -> (r: bool)
    requires
        s.wf(),
    ensures
        r == assumed_eq(preds_v(hyps@), s@, a@, b@),
{
    proof {
        lemma_preds_v_index(hyps@);
    }
    let mut i: usize = 0;
    while i < hyps.len()
        invariant
            s.wf(),
            i <= hyps@.len(),
            preds_v(hyps@).len() == hyps@.len(),
            forall|j: int| 0 <= j < hyps@.len() ==> #[trigger] preds_v(hyps@)[j] == pred_v(hyps@[j]),
            forall|j: int|
                0 <= j < i ==> apply_predv(s@, preds_v(hyps@)[j]) != PredV::Equals(a@, b@)
                    && apply_predv(s@, preds_v(hyps@)[j]) != PredV::Equals(b@, a@),
        decreases hyps@.len() - i,
    {
        let h = apply_pred(s, &hyps[i]);
        if let Predicate::Equals(x, y) = &h {
            if (eq_parameter(x, a) && eq_parameter(y, b)) || (eq_parameter(x, b) && eq_parameter(
                y,
                a,
            )) {
                assert(apply_predv(s@, preds_v(hyps@)[i as int]) == PredV::Equals(a@, b@)
                    || apply_predv(s@, preds_v(hyps@)[i as int]) == PredV::Equals(b@, a@));
                return true;
            }
        }
        i = i + 1;
    }
    false
}

pub fn zip_equals(a: &Vec<Parameter>, b: &Vec<Parameter>) -> (r: Vec<Predicate>)
    requires
        a@.len() == b@.len(),
    ensures
        preds_v(r@) == zip_eqs(params_v(a@), params_v(b@)),
{
    proof {
        lemma_params_v_index(a@);
        lemma_params_v_index(b@);
    }
    let mut r: Vec<Predicate> = Vec::new();
    let mut i: usize = 0;
    while i < a.len()
        invariant
            a@.len() == b@.len(),
            i <= a@.len(),
            params_v(a@).len() == a@.len(),
            params_v(b@).len() == b@.len(),
            forall|j: int| 0 <= j < a@.len() ==> #[trigger] params_v(a@)[j] == param_v(a@[j]),
            forall|j: int| 0 <= j < b@.len() ==> #[trigger] params_v(b@)[j] == param_v(b@[j]),
            preds_v(r@) == zip_eqs(params_v(a@).subrange(0, i as int), params_v(b@).subrange(0, i as int)),
        decreases a@.len() - i,
    {
        let p = Predicate::Equals(copy_parameter(&a[i]), copy_parameter(&b[i]));
        proof {
            lemma_preds_v_push(r@, p);
            assert(zip_eqs(params_v(a@).subrange(0, i + 1), params_v(b@).subrange(0, i + 1))
                =~= zip_eqs(params_v(a@).subrange(0, i as int), params_v(b@).subrange(0, i as int)).push(pred_v(p)));
        }
        r.push(p);
        i = i + 1;
    }
    assert(params_v(a@).subrange(0, a@.len() as int) =~= params_v(a@));
    assert(params_v(b@).subrange(0, b@.len() as int) =~= params_v(b@));
    r
}

proof fn lemma_cs_v_push(s: Seq<Constraints>, c: Constraints)
    ensures
        cs_v(s.push(c)) == cs_v(s).push(c@),
{
    assert(cs_v(s.push(c)) =~= cs_v(s).push(c@));
}

proof fn lemma_cs_v_concat(a: Seq<Constraints>, b: Seq<Constraints>)
    ensures
        cs_v(a + b) == cs_v(a) + cs_v(b),
{
    assert(cs_v(a + b) =~= cs_v(a) + cs_v(b));
}

fn append_results(out: &mut Vec<Constraints>, more: Vec<Constraints>)
    requires
        cs_wf(old(out)@),
        cs_wf(more@),
    ensures
        cs_wf(final(out)@),
        cs_v(final(out)@) == cs_v(old(out)@) + cs_v(more@),
{
    let mut more = more;
    proof {
        lemma_cs_v_concat(out@, more@);
    }
    out.append(&mut more);
}

/// Every way to prove `goals[k..]` from `c`.
fn solve(d: &Decls, hyps: &Vec<Predicate>, c: &Constraints, goals: &Vec<Predicate>, k: usize, fuel: usize) -> (r: Vec<
    Constraints,
>)
    requires
        c.subst.wf(),
        k <= goals@.len(),
    ensures
        cs_wf(r@),
        cs_v(r@) == solve_v(
            *d,
            preds_v(hyps@),
            c@,
            preds_v(goals@).subrange(k as int, goals@.len() as int),
            fuel as nat,
        ),
    decreases fuel, goals@.len() - k, 0int,
{
    proof {
        lemma_preds_v_index(goals@);
    }
    let ghost rest = preds_v(goals@).subrange(k as int, goals@.len() as int);
    if k == goals.len() {
        let c1 = copy_constraints(c);
        proof {
            lemma_cs_v_push(Seq::empty(), c1);
            assert(Seq::<Constraints>::empty().push(c1) =~= seq![c1]);
        }
        return vec![c1];
    }
    let cs = prove_wc(d, hyps, c, &goals[k], fuel);
    proof {
        assert(rest[0] == pred_v(goals@[k as int]));
        assert(rest.drop_first() =~= preds_v(goals@).subrange(k + 1, goals@.len() as int));
    }
    solve_each(d, hyps, &cs, goals, k + 1, fuel)
}

/// For each of `cs` in turn, every way to prove `goals[k..]` from it.
fn solve_each(d: &Decls, hyps: &Vec<Predicate>, cs: &Vec<Constraints>, goals: &Vec<Predicate>, k: usize, fuel: usize) -> (r: Vec<
    Constraints,
>)
    requires
        cs_wf(cs@),
        k <= goals@.len(),
    ensures
        cs_wf(r@),
        cs_v(r@) == solve_each_v(
            *d,
            preds_v(hyps@),
            cs_v(cs@),
            preds_v(goals@).subrange(k as int, goals@.len() as int),
            fuel as nat,
        ),
    decreases fuel, goals@.len() - k, 1int,
{
    let ghost rest = preds_v(goals@).subrange(k as int, goals@.len() as int);
    let mut out: Vec<Constraints> = Vec::new();
    let mut i: usize = 0;
    proof {
        assert(cs_v(cs@).subrange(0, 0) =~= Seq::<ConstraintsV>::empty());
        assert(cs_v(out@) =~= Seq::<ConstraintsV>::empty());
    }
    while i < cs.len()
        invariant
            cs_wf(cs@),
            cs_wf(out@),
            k <= goals@.len(),
            i <= cs@.len(),
            rest == preds_v(goals@).subrange(k as int, goals@.len() as int),
            cs_v(out@) == solve_each_v(*d, preds_v(hyps@), cs_v(cs@).subrange(0, i as int), rest, fuel as nat),
        decreases cs@.len() - i,
    {
        let more = solve(d, hyps, &cs[i], goals, k, fuel);
        proof {
            let pre = cs_v(cs@).subrange(0, i + 1);
            assert(pre.drop_last() =~= cs_v(cs@).subrange(0, i as int));
            assert(pre.last() == cs@[i as int]@);
        }
        append_results(&mut out, more);
        i = i + 1;
    }
    proof {
        assert(cs_v(cs@).subrange(0, cs@.len() as int) =~= cs_v(cs@));
    }
    out
}

fn one_result(c: &Constraints) -> (r: Vec<Constraints>)
    requires
        c.subst.wf(),
    ensures
        cs_wf(r@),
        cs_v(r@) == seq![c@],
{
    let c1 = copy_constraints(c);
    let r = vec![c1];
    proof {
        assert(cs_v(r@) =~= seq![c@]);
    }
    r
}

fn no_results() -> (r: Vec<Constraints>)
    ensures
        cs_wf(r@),
        cs_v(r@) == Seq::<ConstraintsV>::empty(),
{
    let r: Vec<Constraints> = Vec::new();
    proof {
        assert(cs_v(r@) =~= Seq::<ConstraintsV>::empty());
    }
    r
}

fn bind(c: &Constraints, x: Variable, p: Parameter) -> (r: Vec<Constraints>)
    requires
        c.subst.wf(),
    ensures
        cs_wf(r@),
        cs_v(r@) == seq![ConstraintsV { subst: c@.subst.insert(x, p@), ..c@ }],
{
    let mut s = copy_subst(&c.subst);
    s.insert(x, p);
    let r = vec![Constraints { env: c.env, subst: s }];
    proof {
        assert(cs_v(r@) =~= seq![ConstraintsV { subst: c@.subst.insert(x, p@), ..c@ }]);
    }
    r
}

/// Every way to prove `a = b` from `c`.
fn prove_eq(d: &Decls, hyps: &Vec<Predicate>, c: &Constraints, a: &Parameter, b: &Parameter, fuel: usize) -> (r: Vec<
    Constraints,
>)
    requires
        c.subst.wf(),
    ensures
        cs_wf(r@),
        cs_v(r@) == prove_eq_v(*d, preds_v(hyps@), c@, a@, b@, fuel as nat),
    decreases fuel, 0int, 0int,
{
    let a1 = apply_p(&c.subst, a);
    let b1 = apply_p(&c.subst, b);
    let mut out = if is_assumed_eq(hyps, &c.subst, &a1, &b1) {
        one_result(c)
    } else {
        no_results()
    };
    let more = if eq_parameter(&a1, &b1) {
        one_result(c)
    } else if !kinds_match(&a1, &b1) {
        no_results()
    } else if let Some(x) = inference_var(&a1) {
        if crate::scope::may_bind_param(&x, &b1) {
            bind(c, x, b1)
        } else {
            no_results()
        }
    } else if let Some(y) = inference_var(&b1) {
        if crate::scope::may_bind_param(&y, &a1) {
            bind(c, y, a1)
        } else {
            no_results()
        }
    } else {
        let rigid = match (&a1, &b1) {
            (Parameter::Ty(t1), Parameter::Ty(t2)) => match (t1.data(), t2.data()) {
                (crate::ty::TyData::RigidTy(r1), crate::ty::TyData::RigidTy(r2)) => {
                    proof {
                        lemma_params_v_index(r1.parameters@);
                        lemma_params_v_index(r2.parameters@);
                    }
                    if r1.name == r2.name && r1.parameters.len() == r2.parameters.len() {
                        if fuel > 0 {
                            let goals = zip_equals(&r1.parameters, &r2.parameters);
                            proof {
                                lemma_preds_v_index(goals@);
                                assert(preds_v(goals@).subrange(0, goals@.len() as int) =~= preds_v(goals@));
                            }
                            Some(solve(d, hyps, c, &goals, 0, fuel - 1))
                        } else {
                            Some(no_results())
                        }
                    } else {
                        None
                    }
                },
                _ => None,
            },
            _ => None,
        };
        match rigid {
            Some(rs) => rs,
            None => if c.env.coherence_mode && (placeholder(&a1) || placeholder(&b1)) {
                one_result(c)
            } else {
                no_results()
            },
        }
    };
    append_results(&mut out, more);
    out
}

/// Every way to prove `id<ps>` from `c` by one of the implementations of
/// the given polarity.
fn via_impls(d: &Decls, hyps: &Vec<Predicate>, c: &Constraints, id: TraitId, ps: &Vec<Parameter>, positive: bool, fuel: usize) -> (r: Vec<
    Constraints,
>)
    requires
        c.subst.wf(),
    ensures
        cs_wf(r@),
        cs_v(r@) == via_impls_v(
            *d,
            preds_v(hyps@),
            c@,
            id,
            params_v(ps@),
            if positive { impl_binders(*d) } else { neg_impl_binders(*d) },
            if positive { d.impls@.len() } else { d.neg_impls@.len() },
            fuel as nat,
        ),
    decreases fuel, 0int, 1int,
{
    let ghost binders = if positive { impl_binders(*d) } else { neg_impl_binders(*d) };
    let len = if positive { d.impls.len() } else { d.neg_impls.len() };
    let mut out = no_results();
    let mut n: usize = 0;
    proof {
        lemma_params_v_index(ps@);
    }
    while n < len
        invariant
            c.subst.wf(),
            cs_wf(out@),
            binders == (if positive { impl_binders(*d) } else { neg_impl_binders(*d) }),
            len == binders.len(),
            n <= len,
            params_v(ps@).len() == ps@.len(),
            cs_v(out@) == via_impls_v(*d, preds_v(hyps@), c@, id, params_v(ps@), binders, n as nat, fuel as nat),
        decreases len - n,
    {
        let b: &Binder<TraitImplData> = if positive { &d.impls[n].binder } else { &d.neg_impls[n].binder };
        assert(*b == binders[n as int]);
        let data = &b.term;
        let more = if data.trait_ref.trait_id == id && data.trait_ref.parameters.len() == ps.len()
            && c.env.next_index <= usize::MAX - b.kinds.len() && c.env.universe.index < usize::MAX
            && fuel > 0 {
            let mut env = c.env;
            let o = env.opener(&b.kinds, false);
            let ghost so = c.env.spec_opener(b.kinds, false);
            let opened = fold_params(&data.trait_ref.parameters, &o, 0);
            let wcs = fold_predicates(&data.where_clauses, &o, 0);
            proof {
                crate::subst::lemma_agree_paramsv(params_v(data.trait_ref.parameters@), o, so, 0);
                crate::subst::lemma_agree_predsv(preds_v(data.where_clauses@), o, so, 0);
                lemma_params_v_index(data.trait_ref.parameters@);
                lemma_params_v_index(opened@);
                crate::fold::lemma_paramsv_len(params_v(data.trait_ref.parameters@), o, 0);
            }
            let mut goals = zip_equals(ps, &opened);
            let mut wcs = wcs;
            proof {
                lemma_preds_v_concat(goals@, wcs@);
            }
            goals.append(&mut wcs);
            proof {
                lemma_preds_v_index(goals@);
                assert(preds_v(goals@).subrange(0, goals@.len() as int) =~= preds_v(goals@));
            }
            let c2 = Constraints { env, subst: copy_subst(&c.subst) };
            solve(d, hyps, &c2, &goals, 0, fuel - 1)
        } else {
            no_results()
        };
        append_results(&mut out, more);
        n = n + 1;
    }
    out
}

/// Every way to prove the goal `g` from `c`.
fn prove_wc(d: &Decls, hyps: &Vec<Predicate>, c: &Constraints, g: &Predicate, fuel: usize) -> (r: Vec<
    Constraints,
>)
    requires
        c.subst.wf(),
    ensures
        cs_wf(r@),
        cs_v(r@) == prove_wc_v(*d, preds_v(hyps@), c@, g@, fuel as nat),
    decreases fuel, 0int, 2int,
{
    if fuel == 0 && c.env.coherence_mode {
        return one_result(c);
    }
    match g {
        Predicate::Equals(a, b) => prove_eq(d, hyps, c, a, b, fuel),
        Predicate::IsImplemented(tr) => {
            let mut found = if is_assumed(hyps, &c.subst, g) {
                one_result(c)
            } else {
                no_results()
            };
            let more = via_impls(d, hyps, c, tr.trait_id, &tr.parameters, true, fuel);
            append_results(&mut found, more);
            if found.len() == 0 && c.env.coherence_mode {
                one_result(c)
            } else {
                found
            }
        },
        Predicate::NotImplemented(tr) => {
            let mut found = if is_assumed(hyps, &c.subst, g) {
                one_result(c)
            } else {
                no_results()
            };
            let more = via_impls(d, hyps, c, tr.trait_id, &tr.parameters, false, fuel);
            append_results(&mut found, more);
            found
        },
    }
}

/// The trivial success in `env`: nothing learned.
pub fn constraints_none(env: Env) -> (r: Constraints)
    ensures
        r.env == env,
        r.subst.wf(),
        r@.subst == Map::<Variable, ParamV>::empty(),
{
    let r = Constraints { env, subst: Substitution::new() };
    proof {
        assert(r.subst@ =~= Map::<Variable, ParamV>::empty());
    }
    r
}

/// Whether two substitutions map the same variables to the same values.
pub fn eq_subst(a: &Substitution, b: &Substitution) -> (r: bool)
    requires
        a.wf(),
        b.wf(),
    ensures
        r == (a@ == b@),
{
    let mut i: usize = 0;
    while i < a.map.len()
        invariant
            a.wf(),
            b.wf(),
            i <= a.map@.len(),
            forall|j: int| 0 <= j < i ==> b.get(#[trigger] a.map@[j].0) == Some(param_v(a.map@[j].1)),
        decreases a.map@.len() - i,
    {
        proof {
            assert(a.has(a.map@[i as int].0));
            let k = choose|k: int| 0 <= k < a.map@.len() && a.map@[k].0 == a.map@[i as int].0;
            assert(a.map@[k].0 == a.map@[i as int].0);
            if k != i as int {
                if k < i { assert(a.map@[k].0 != a.map@[i as int].0); } else { assert(a.map@[i as int].0 != a.map@[k].0); }
            }
        }
        match b.lookup(&a.map[i].0) {
            Some(p) => {
                if !eq_parameter(&p, &a.map[i].1) {
                    assert(a@[a.map@[i as int].0] != b@[a.map@[i as int].0]);
                    return false;
                }
            },
            None => {
                assert(!b@.contains_key(a.map@[i as int].0));
                assert(a@.contains_key(a.map@[i as int].0));
                return false;
            },
        }
        i = i + 1;
    }
    let mut i: usize = 0;
    while i < b.map.len()
        invariant
            a.wf(),
            b.wf(),
            i <= b.map@.len(),
            forall|j: int| 0 <= j < a.map@.len() ==> b.get(#[trigger] a.map@[j].0) == Some(param_v(a.map@[j].1)),
            forall|j: int| 0 <= j < i ==> a.has(#[trigger] b.map@[j].0),
        decreases b.map@.len() - i,
    {
        if a.lookup(&b.map[i].0).is_none() {
            assert(b.has(b.map@[i as int].0));
            assert(!a@.contains_key(b.map@[i as int].0));
            return false;
        }
        i = i + 1;
    }
    proof {
        assert forall|v: Variable| a.has(v) implies b.has(v) && b.get(v) == a.get(v) by {
            let k = choose|k: int| 0 <= k < a.map@.len() && a.map@[k].0 == v;
            assert(b.get(a.map@[k].0) == Some(param_v(a.map@[k].1)));
        }
        assert forall|v: Variable| b.has(v) implies a.has(v) by {
            let k = choose|k: int| 0 <= k < b.map@.len() && b.map@[k].0 == v;
            assert(a.has(b.map@[k].0));
        }
        assert(a@ =~= b@);
    }
    true
}

/// The same constraints, each kept once.
fn dedup(cs: &Vec<Constraints>) -> (r: Vec<Constraints>)
    requires
        cs_wf(cs@),
    ensures
        cs_wf(r@),
        cs_v(r@).no_duplicates(),
        forall|x: ConstraintsV| cs_v(r@).contains(x) <==> cs_v(cs@).contains(x),
{
    let mut out: Vec<Constraints> = Vec::new();
    let mut i: usize = 0;
    while i < cs.len()
        invariant
            cs_wf(cs@),
            cs_wf(out@),
            i <= cs@.len(),
            cs_v(out@).no_duplicates(),
            forall|x: ConstraintsV| cs_v(out@).contains(x) <==> cs_v(cs@).subrange(0, i as int).contains(x),
        decreases cs@.len() - i,
    {
        let mut seen = false;
        let mut j: usize = 0;
        while j < out.len()
            invariant
                cs_wf(cs@),
                cs_wf(out@),
                i < cs@.len(),
                j <= out@.len(),
                !seen ==> forall|k: int| 0 <= k < j ==> out@[k]@ != cs@[i as int]@,
                seen ==> cs_v(out@).contains(cs@[i as int]@),
            decreases out@.len() - j,
        {
            if !seen && out[j].env == cs[i].env && eq_subst(&out[j].subst, &cs[i].subst) {
                assert(cs_v(out@)[j as int] == cs@[i as int]@);
                seen = true;
            }
            j = j + 1;
        }
        let ghost before = out@;
        if !seen {
            assert(!cs_v(out@).contains(cs@[i as int]@));
            let c = copy_constraints(&cs[i]);
            out.push(c);
            proof {
                lemma_cs_v_push(before, c);
            }
        }
        proof {
            let pre = cs_v(cs@).subrange(0, i as int);
            let next = cs_v(cs@).subrange(0, i + 1);
            assert(next =~= pre.push(cs@[i as int]@));
            assert forall|x: ConstraintsV| cs_v(out@).contains(x) <==> next.contains(x) by {
                if cs_v(out@).contains(x) && x != cs@[i as int]@ {
                    let k = choose|k: int| 0 <= k < cs_v(out@).len() && cs_v(out@)[k] == x;
                    if !seen {
                        assert(cs_v(before)[k] == x);
                    }
                    assert(cs_v(before).contains(x));
                    let q = choose|q: int| 0 <= q < pre.len() && pre[q] == x;
                    assert(next[q] == x);
                }
                if next.contains(x) && x != cs@[i as int]@ {
                    let q = choose|q: int| 0 <= q < next.len() && next[q] == x;
                    assert(pre[q] == x);
                    assert(cs_v(before).contains(x));
                    let k = choose|k: int| 0 <= k < cs_v(before).len() && cs_v(before)[k] == x;
                    if !seen {
                        assert(cs_v(out@)[k] == x);
                    }
                }
                if x == cs@[i as int]@ {
                    assert(next[i as int] == x);
                    if !seen {
                        assert(cs_v(out@)[before.len() as int] == x);
                    }
                }
            }
            if !seen {
                assert forall|a: int, b: int| 0 <= a < b < cs_v(out@).len() implies cs_v(out@)[a] != cs_v(out@)[b] by {
                    if b == before.len() {
                        assert(cs_v(before)[a] == cs_v(out@)[a]);
                    } else {
                        assert(cs_v(before)[a] == cs_v(out@)[a]);
                        assert(cs_v(before)[b] == cs_v(out@)[b]);
                    }
                }
            }
        }
        i = i + 1;
    }
    proof {
        assert(cs_v(cs@).subrange(0, cs@.len() as int) =~= cs_v(cs@));
    }
    out
}

/// Every set of constraints under which all `goals` hold, given the
/// assumptions `hyps`, searching at most `depth` nested rule applications.
/// The result is a set: each outcome of the search appears once, in no
/// promised order.
pub fn prove_wc_list(d: &Decls, env: &Env, hyps: &Vec<Predicate>, goals: &Vec<Predicate>, depth: usize) -> (r: Vec<
    Constraints,
>)
    ensures
        cs_wf(r@),
        cs_v(r@).no_duplicates(),
        forall|x: ConstraintsV|
            cs_v(r@).contains(x) <==> solve_v(
                *d,
                preds_v(hyps@),
                ConstraintsV { env: *env, subst: Map::empty() },
                preds_v(goals@),
                depth as nat,
            ).contains(x),
{
    let c = constraints_none(*env);
    proof {
        lemma_preds_v_index(goals@);
        assert(preds_v(goals@).subrange(0, goals@.len() as int) =~= preds_v(goals@));
    }
    let all = solve(d, hyps, &c, goals, 0, depth);
    dedup(&all)
}

/// Whether the goals can be proved.
pub fn prove_goal(d: &Decls, env: &Env, hyps: &Vec<Predicate>, goals: &Vec<Predicate>, depth: usize) -> (r: bool)
    ensures
        r == (solve_v(
            *d,
            preds_v(hyps@),
            ConstraintsV { env: *env, subst: Map::empty() },
            preds_v(goals@),
            depth as nat,
        ).len() > 0),
{
    let cs = prove_wc_list(d, env, hyps, goals, depth);
    let ghost all = solve_v(
        *d,
        preds_v(hyps@),
        ConstraintsV { env: *env, subst: Map::empty() },
        preds_v(goals@),
        depth as nat,
    );
    proof {
        if all.len() > 0 {
            assert(all.contains(all[0]));
            assert(cs_v(cs@).contains(all[0]));
        }
        if cs@.len() > 0 {
            assert(cs_v(cs@).contains(cs_v(cs@)[0]));
        }
    }
    cs.len() > 0
}

/// Negation as failure: holds exactly when the goals have no proof.
pub fn prove_not_goal(d: &Decls, env: &Env, hyps: &Vec<Predicate>, goals: &Vec<Predicate>, depth: usize) -> (r: bool)
    ensures
        r == (solve_v(
            *d,
            preds_v(hyps@),
            ConstraintsV { env: *env, subst: Map::empty() },
            preds_v(goals@),
            depth as nat,
        ).len() == 0),
{
    !prove_goal(d, env, hyps, goals, depth)
}

/// Goals are solved left to right: the later goals are attempted from each
/// result of the first, so what the first learned is in force for them.
pub proof fn lemma_solve_sequencing(
    d: Decls,
    hyps: Seq<PredV>,
    c: ConstraintsV,
    goals: Seq<PredV>,
    fuel: nat,
)
    requires
        goals.len() > 0,
    ensures
        solve_v(d, hyps, c, goals, fuel) == solve_each_v(
            d,
            hyps,
            prove_wc_v(d, hyps, c, goals[0], fuel),
            goals.drop_first(),
            fuel,
        ),
{
}

/// An empty goal list holds with nothing learned.
pub proof fn lemma_solve_empty(d: Decls, hyps: Seq<PredV>, c: ConstraintsV, fuel: nat)
    ensures
        solve_v(d, hyps, c, Seq::empty(), fuel) == seq![c],
{
}

} // verus!
