//! Substitutions from free variables to parameters, and the laws of folding.
use vstd::prelude::*;

use crate::fold::{
    fold_paramsv, fold_paramv, fold_parameter, fold_predicate, fold_predsv, fold_predv, fold_ty,
    fold_tyv, inner, opt_param_v, Replacer,
};
use crate::ty::{
    param_v, BoundVar, DebruijnIndex, LtData, ParamV, Parameter, ParameterKind, PredV, Predicate, Ty, TyV, Variable,
};

verus! {

/// The free variables of a type seen from `depth` binders inside it, each
/// shifted out to the outermost level.
pub open spec fn free_vars_tyv(t: TyV, depth: nat) -> Set<Variable>
    decreases t,
{
    match t {
        TyV::Rigid(_, ps) => free_vars_paramsv(ps, depth),
        TyV::Alias(_, ps) => free_vars_paramsv(ps, depth),
        TyV::ForAll(_, b) => free_vars_tyv(*b, inner(depth)),
        TyV::Exists(_, b) => free_vars_tyv(*b, inner(depth)),
        TyV::Implication(ps, b) => free_vars_predsv(ps, depth).union(free_vars_tyv(*b, depth)),
        TyV::Ensures(b, ps) => free_vars_tyv(*b, depth).union(free_vars_predsv(ps, depth)),
        TyV::Var(v) => free_vars_var(v, depth),
    }
}

pub open spec fn free_vars_var(v: Variable, depth: nat) -> Set<Variable> {
    match v.spec_shift_out_by(depth) {
        Some(v1) => set![v1],
        None => Set::empty(),
    }
}

pub open spec fn free_vars_paramv(p: ParamV, depth: nat) -> Set<Variable>
    decreases p,
{
    match p {
        ParamV::Ty(t) => free_vars_tyv(t, depth),
        ParamV::Lt(LtData::Variable(v)) => free_vars_var(v, depth),
        ParamV::Lt(LtData::Static) => Set::empty(),
    }
}

pub open spec fn free_vars_paramsv(s: Seq<ParamV>, depth: nat) -> Set<Variable>
    decreases s,
{
    if s.len() == 0 {
        Set::empty()
    } else {
        free_vars_paramsv(s.subrange(0, s.len() - 1), depth).union(
            free_vars_paramv(s[s.len() - 1], depth),
        )
    }
}

pub open spec fn free_vars_predv(p: PredV, depth: nat) -> Set<Variable>
    decreases p,
{
    match p {
        PredV::Implemented(_, ps) => free_vars_paramsv(ps, depth),
        PredV::NotImplemented(_, ps) => free_vars_paramsv(ps, depth),
        PredV::Equals(a, b) => free_vars_paramv(a, depth).union(free_vars_paramv(b, depth)),
    }
}

pub open spec fn free_vars_predsv(s: Seq<PredV>, depth: nat) -> Set<Variable>
    decreases s,
{
    if s.len() == 0 {
        Set::empty()
    } else {
        free_vars_predsv(s.subrange(0, s.len() - 1), depth).union(
            free_vars_predv(s[s.len() - 1], depth),
        )
    }
}

/// `r` replaces none of the variables in `vs`, at any depth.
pub open spec fn spares<R: Replacer>(r: R, vs: Set<Variable>) -> bool {
    forall|k: ParameterKind, v: Variable, d: nat| vs.contains(v) ==> r.replacement(k, v, d).is_none()
}

pub proof fn lemma_fold_spared_tyv<R: Replacer>(t: TyV, r: R, depth: nat)
    requires
        spares(r, free_vars_tyv(t, depth)),
    ensures
        fold_tyv(t, r, depth) == t,
    decreases t,
{
    match t {
        TyV::Rigid(_, ps) => lemma_fold_spared_paramsv(ps, r, depth),
        TyV::Alias(_, ps) => lemma_fold_spared_paramsv(ps, r, depth),
        TyV::ForAll(_, b) => lemma_fold_spared_tyv(*b, r, inner(depth)),
        TyV::Exists(_, b) => lemma_fold_spared_tyv(*b, r, inner(depth)),
        TyV::Implication(ps, b) => {
            lemma_fold_spared_predsv(ps, r, depth);
            lemma_fold_spared_tyv(*b, r, depth);
        },
        TyV::Ensures(b, ps) => {
            lemma_fold_spared_predsv(ps, r, depth);
            lemma_fold_spared_tyv(*b, r, depth);
        },
        TyV::Var(v) => {
            if let Some(v1) = v.spec_shift_out_by(depth) {
                assert(free_vars_tyv(t, depth).contains(v1));
            }
        },
    }
}

pub proof fn lemma_fold_spared_paramv<R: Replacer>(p: ParamV, r: R, depth: nat)
    requires
        spares(r, free_vars_paramv(p, depth)),
    ensures
        fold_paramv(p, r, depth) == p,
    decreases p,
{
    match p {
        ParamV::Ty(t) => lemma_fold_spared_tyv(t, r, depth),
        ParamV::Lt(l) => {
            if let LtData::Variable(v) = l {
                if let Some(v1) = v.spec_shift_out_by(depth) {
                    assert(free_vars_paramv(p, depth).contains(v1));
                }
            }
        },
    }
}

pub proof fn lemma_fold_spared_paramsv<R: Replacer>(s: Seq<ParamV>, r: R, depth: nat)
    requires
        spares(r, free_vars_paramsv(s, depth)),
    ensures
        fold_paramsv(s, r, depth) == s,
    decreases s,
{
    if s.len() > 0 {
        let init = s.subrange(0, s.len() - 1);
        lemma_fold_spared_paramsv(init, r, depth);
        lemma_fold_spared_paramv(s[s.len() - 1], r, depth);
        assert(init.push(s[s.len() - 1]) =~= s);
    }
}

pub proof fn lemma_fold_spared_predv<R: Replacer>(p: PredV, r: R, depth: nat)
    requires
        spares(r, free_vars_predv(p, depth)),
    ensures
        fold_predv(p, r, depth) == p,
    decreases p,
{
    match p {
        PredV::Implemented(_, ps) => lemma_fold_spared_paramsv(ps, r, depth),
        PredV::NotImplemented(_, ps) => lemma_fold_spared_paramsv(ps, r, depth),
        PredV::Equals(a, b) => {
            lemma_fold_spared_paramv(a, r, depth);
            lemma_fold_spared_paramv(b, r, depth);
        },
    }
}

pub proof fn lemma_fold_spared_predsv<R: Replacer>(s: Seq<PredV>, r: R, depth: nat)
    requires
        spares(r, free_vars_predsv(s, depth)),
    ensures
        fold_predsv(s, r, depth) == s,
    decreases s,
{
    if s.len() > 0 {
        let init = s.subrange(0, s.len() - 1);
        lemma_fold_spared_predsv(init, r, depth);
        lemma_fold_spared_predv(s[s.len() - 1], r, depth);
        assert(init.push(s[s.len() - 1]) =~= s);
    }
}

/// The replacer that replaces nothing.
pub struct Identity;

impl Replacer for Identity {
    open spec fn replacement(&self, kind: ParameterKind, v: Variable, depth: nat) -> Option<ParamV> {
        None
    }

    fn replace(&self, kind: ParameterKind, v: &Variable, depth: usize) -> (r: Option<Parameter>) {
        None
    }

    open spec fn ready(&self) -> bool {
        true
    }
}

/// Folding with the identity replacement gives back a structurally equal type.
pub proof fn lemma_fold_identity(t: TyV, depth: nat)
    ensures
        fold_tyv(t, Identity, depth) == t,
{
    lemma_fold_spared_tyv(t, Identity, depth);
}

/// A structurally equal copy of a type.
pub fn copy_ty(t: &Ty) -> (r: Ty)
    ensures
        r@ == t@,
{
    proof {
        lemma_fold_spared_tyv(t@, Identity, 0);
    }
    fold_ty(t, &Identity, 0)
}

/// A structurally equal copy of a parameter.
pub fn copy_parameter(p: &Parameter) -> (r: Parameter)
    ensures
        r@ == p@,
{
    proof {
        lemma_fold_spared_paramv(p@, Identity, 0);
    }
    fold_parameter(p, &Identity, 0)
}

/// A structurally equal copy of a predicate.
pub fn copy_predicate(p: &Predicate) -> (r: Predicate)
    ensures
        r@ == p@,
{
    proof {
        lemma_fold_spared_predv(p@, Identity, 0);
    }
    fold_predicate(p, &Identity, 0)
}

/// A finite map from variables to parameters; the keys are unique and the
/// order of the entries carries no meaning.
#[derive(Debug)]
pub struct Substitution {
    pub map: Vec<(Variable, Parameter)>,
}

impl Substitution {
    /// The keys are pairwise distinct.
    pub open spec fn wf(&self) -> bool {
        forall|i: int, j: int|
            0 <= i < j < self.map@.len() ==> self.map@[i].0 != self.map@[j].0
    }

    pub open spec fn has(&self, v: Variable) -> bool {
        exists|i: int| 0 <= i < self.map@.len() && self.map@[i].0 == v
    }

    /// The value that `v` is mapped to.
    pub open spec fn get(&self, v: Variable) -> Option<ParamV> {
        if self.has(v) {
            let i = choose|i: int| 0 <= i < self.map@.len() && self.map@[i].0 == v;
            Some(param_v(self.map@[i].1))
        } else {
            None
        }
    }

    pub fn new() -> (r: Substitution)
        ensures
            r.wf(),
            r.map@.len() == 0,
            forall|v: Variable| r.get(v).is_none(),
    {
        Substitution { map: Vec::new() }
    }

    /// The value that `v` is mapped to, copied out.
    pub fn lookup(&self, v: &Variable) -> (r: Option<Parameter>)
        requires
            self.wf(),
        ensures
            opt_param_v(r) == self.get(*v),
    {
        let mut i: usize = 0;
        while i < self.map.len()
            invariant
                self.wf(),
                i <= self.map@.len(),
                forall|j: int| 0 <= j < i ==> self.map@[j].0 != *v,
            decreases self.map@.len() - i,
        {
            if self.map[i].0 == *v {
                let ghost gi = i as int;
                proof {
                    let c = choose|k: int| 0 <= k < self.map@.len() && self.map@[k].0 == *v;
                    assert(c == gi);
                }
                return Some(copy_parameter(&self.map[i].1));
            }
            i = i + 1;
        }
        None
    }

    /// Map `v` to `p`, replacing what `v` was mapped to before.
    pub fn insert(&mut self, v: Variable, p: Parameter)
        requires
            old(self).wf(),
        ensures
            final(self).wf(),
            final(self).get(v) == Some(param_v(p)),
            forall|w: Variable| w != v ==> final(self).get(w) == old(self).get(w),
            final(self)@ == old(self)@.insert(v, param_v(p)),
    {
        let mut i: usize = 0;
        while i < self.map.len()
            invariant
                self.wf(),
                self.map@ == old(self).map@,
                i <= self.map@.len(),
                forall|j: int| 0 <= j < i ==> self.map@[j].0 != v,
            decreases self.map@.len() - i,
        {
            if self.map[i].0 == v {
                let ghost pre = self.map@;
                self.map.set(i, (v, p));
                proof {
                    assert(self.map@[i as int].0 == v);
                    assert(self.has(v));
                    let c = choose|k: int| 0 <= k < self.map@.len() && self.map@[k].0 == v;
                    assert(c == i);
                    assert forall|w: Variable| w != v implies self.get(w) == old(self).get(w) by {
                        if self.has(w) {
                            let k = choose|k: int| 0 <= k < self.map@.len() && self.map@[k].0 == w;
                            assert(pre[k].0 == w);
                        }
                        if old(self).has(w) {
                            let k = choose|k: int| 0 <= k < old(self).map@.len() && old(self).map@[k].0 == w;
                            assert(self.map@[k].0 == w);
                        }
                    }
                    lemma_view_insert(*old(self), *self, v, p);
                }
                return;
            }
            i = i + 1;
        }
        let ghost pre = self.map@;
        self.map.push((v, p));
        proof {
            let n = pre.len() as int;
            assert(self.map@[n].0 == v);
            let c = choose|k: int| 0 <= k < self.map@.len() && self.map@[k].0 == v;
            assert(c == n);
            assert forall|w: Variable| w != v implies self.get(w) == old(self).get(w) by {
                if self.has(w) {
                    let k = choose|k: int| 0 <= k < self.map@.len() && self.map@[k].0 == w;
                    assert(pre[k].0 == w);
                }
                if old(self).has(w) {
                    let k = choose|k: int| 0 <= k < old(self).map@.len() && old(self).map@[k].0 == w;
                    assert(self.map@[k].0 == w);
                }
            }
            lemma_view_insert(*old(self), *self, v, p);
        }
    }

    /// Map each variable of `pairs` to its value, in order, so that a later
    /// pair for the same variable wins.
    pub fn extend(&mut self, pairs: Vec<(Variable, Parameter)>)
        requires
            old(self).wf(),
        ensures
            final(self).wf(),
            final(self)@ == extended(old(self)@, pairs_v(pairs@)),
    {
        let mut i: usize = 0;
        while i < pairs.len()
            invariant
                self.wf(),
                i <= pairs@.len(),
                self@ == extended(old(self)@, pairs_v(pairs@).subrange(0, i as int)),
            decreases pairs@.len() - i,
        {
            let p = copy_parameter(&pairs[i].1);
            proof {
                let next = pairs_v(pairs@).subrange(0, i + 1);
                assert(next.subrange(0, i as int) =~= pairs_v(pairs@).subrange(0, i as int));
                assert(next[i as int] == (pairs@[i as int].0, param_v(p)));
            }
            self.insert(pairs[i].0, p);
            i = i + 1;
        }
        assert(pairs_v(pairs@).subrange(0, pairs@.len() as int) =~= pairs_v(pairs@));
    }

    /// The substitution built from `pairs`, a later pair for a variable
    /// winning over an earlier one.
    pub fn from_pairs(pairs: Vec<(Variable, Parameter)>) -> (r: Substitution)
        ensures
            r.wf(),
            r@ == extended(Map::empty(), pairs_v(pairs@)),
    {
        let mut r = Substitution::new();
        proof {
            assert(r@ =~= Map::<Variable, ParamV>::empty());
        }
        r.extend(pairs);
        r
    }

    /// Replace every free occurrence of a mapped variable in `t`; an
    /// occurrence under `k` binders becomes the mapped value shifted in by `k`
    /// (see the `Replacer` impl below), so no binder of `t` captures it.
    pub fn apply(&self, t: &Ty) -> (r: Ty)
        requires
            self.wf(),
        ensures
            r@ == fold_tyv(t@, *self, 0),
    {
        fold_ty(t, self, 0)
    }

    pub fn apply_parameter(&self, p: &Parameter) -> (r: Parameter)
        requires
            self.wf(),
        ensures
            r@ == fold_paramv(p@, *self, 0),
    {
        fold_parameter(p, self, 0)
    }

    pub fn apply_predicate(&self, p: &Predicate) -> (r: Predicate)
        requires
            self.wf(),
        ensures
            r@ == fold_predv(p@, *self, 0),
    {
        fold_predicate(p, self, 0)
    }
}

/// An occurrence under `depth` binders is replaced by the mapped value
/// shifted in through those binders, so that none of them captures it.
impl Replacer for Substitution {
    open spec fn replacement(&self, kind: ParameterKind, v: Variable, depth: nat) -> Option<ParamV> {
        match self.get(v) {
            Some(p) => Some(shift_pv(p, depth)),
            None => None,
        }
    }

    open spec fn ready(&self) -> bool {
        self.wf()
    }

    fn replace(&self, kind: ParameterKind, v: &Variable, depth: usize) -> (r: Option<Parameter>) {
        match self.lookup(v) {
            Some(p) => Some(shift_parameter(&p, depth)),
            None => None,
        }
    }
}

/// Shifts every variable bound outside a value inward through `amount`
/// more binders. An index that would pass `usize::MAX` is left as it is;
/// no term that fits in memory has that many binders.
pub struct Shifter {
    pub amount: usize,
}

pub open spec fn shifted_index(db: usize, amount: usize, depth: nat) -> nat {
    (db + amount + depth) as nat
}

impl Replacer for Shifter {
    open spec fn replacement(&self, kind: ParameterKind, v: Variable, depth: nat) -> Option<ParamV> {
        match v {
            Variable::BoundVar(BoundVar { debruijn: Some(db), var_index }) => if shifted_index(
                db.index,
                self.amount,
                depth,
            ) <= usize::MAX {
                Some(
                    param_v(
                        Parameter::of_variable(
                            Variable::BoundVar(
                                BoundVar {
                                    debruijn: Some(
                                        DebruijnIndex {
                                            index: shifted_index(db.index, self.amount, depth) as usize,
                                        },
                                    ),
                                    var_index,
                                },
                            ),
                            kind,
                        ),
                    ),
                )
            } else {
                None
            },
            _ => None,
        }
    }

    open spec fn ready(&self) -> bool {
        true
    }

    fn replace(&self, kind: ParameterKind, v: &Variable, depth: usize) -> (r: Option<Parameter>) {
        match v {
            Variable::BoundVar(BoundVar { debruijn: Some(db), var_index }) => {
                if db.index <= usize::MAX - self.amount && db.index + self.amount <= usize::MAX - depth {
                    let b = BoundVar {
                        debruijn: Some(DebruijnIndex { index: db.index + self.amount + depth }),
                        var_index: *var_index,
                    };
                    Some(b.into_parameter(kind))
                } else {
                    None
                }
            },
            _ => None,
        }
    }
}

/// `p` shifted in through `k` binders (unchanged for `k == 0`).
pub open spec fn shift_pv(p: ParamV, k: nat) -> ParamV {
    if k == 0 {
        p
    } else {
        fold_paramv(p, Shifter { amount: k as usize }, 0)
    }
}

/// A parameter moved inward under `k` more binders.
pub fn shift_parameter(p: &Parameter, k: usize) -> (r: Parameter)
    ensures
        r@ == shift_pv(p@, k as nat),
{
    if k == 0 {
        copy_parameter(p)
    } else {
        fold_parameter(p, &Shifter { amount: k }, 0)
    }
}

/// Applying a substitution to a type that holds none of its mapped variables
/// free leaves the type as it is.
pub proof fn lemma_apply_untouched(s: Substitution, t: TyV)
    requires
        s.wf(),
        forall|v: Variable| free_vars_tyv(t, 0).contains(v) ==> !s.has(v),
    ensures
        fold_tyv(t, s, 0) == t,
{
    lemma_fold_spared_tyv(t, s, 0);
}

/// Two replacers that agree everywhere fold every term alike.
pub open spec fn agree<R1: Replacer, R2: Replacer>(r1: R1, r2: R2) -> bool {
    forall|k: ParameterKind, v: Variable, d: nat| r1.replacement(k, v, d) == r2.replacement(k, v, d)
}

pub proof fn lemma_agree_tyv<R1: Replacer, R2: Replacer>(t: TyV, r1: R1, r2: R2, depth: nat)
    requires
        agree(r1, r2),
    ensures
        fold_tyv(t, r1, depth) == fold_tyv(t, r2, depth),
    decreases t,
{
    match t {
        TyV::Rigid(_, ps) => lemma_agree_paramsv(ps, r1, r2, depth),
        TyV::Alias(_, ps) => lemma_agree_paramsv(ps, r1, r2, depth),
        TyV::ForAll(_, b) => lemma_agree_tyv(*b, r1, r2, inner(depth)),
        TyV::Exists(_, b) => lemma_agree_tyv(*b, r1, r2, inner(depth)),
        TyV::Implication(ps, b) => {
            lemma_agree_predsv(ps, r1, r2, depth);
            lemma_agree_tyv(*b, r1, r2, depth);
        },
        TyV::Ensures(b, ps) => {
            lemma_agree_predsv(ps, r1, r2, depth);
            lemma_agree_tyv(*b, r1, r2, depth);
        },
        TyV::Var(v) => {},
    }
}

pub proof fn lemma_agree_paramv<R1: Replacer, R2: Replacer>(p: ParamV, r1: R1, r2: R2, depth: nat)
    requires
        agree(r1, r2),
    ensures
        fold_paramv(p, r1, depth) == fold_paramv(p, r2, depth),
    decreases p,
{
    if let ParamV::Ty(t) = p {
        lemma_agree_tyv(t, r1, r2, depth);
    }
}

pub proof fn lemma_agree_paramsv<R1: Replacer, R2: Replacer>(
    s: Seq<ParamV>,
    r1: R1,
    r2: R2,
    depth: nat,
)
    requires
        agree(r1, r2),
    ensures
        fold_paramsv(s, r1, depth) == fold_paramsv(s, r2, depth),
    decreases s,
{
    if s.len() > 0 {
        lemma_agree_paramsv(s.subrange(0, s.len() - 1), r1, r2, depth);
        lemma_agree_paramv(s[s.len() - 1], r1, r2, depth);
    }
}

pub proof fn lemma_agree_predv<R1: Replacer, R2: Replacer>(p: PredV, r1: R1, r2: R2, depth: nat)
    requires
        agree(r1, r2),
    ensures
        fold_predv(p, r1, depth) == fold_predv(p, r2, depth),
    decreases p,
{
    match p {
        PredV::Implemented(_, ps) => lemma_agree_paramsv(ps, r1, r2, depth),
        PredV::NotImplemented(_, ps) => lemma_agree_paramsv(ps, r1, r2, depth),
        PredV::Equals(a, b) => {
            lemma_agree_paramv(a, r1, r2, depth);
            lemma_agree_paramv(b, r1, r2, depth);
        },
    }
}

pub proof fn lemma_agree_predsv<R1: Replacer, R2: Replacer>(
    s: Seq<PredV>,
    r1: R1,
    r2: R2,
    depth: nat,
)
    requires
        agree(r1, r2),
    ensures
        fold_predsv(s, r1, depth) == fold_predsv(s, r2, depth),
    decreases s,
{
    if s.len() > 0 {
        lemma_agree_predsv(s.subrange(0, s.len() - 1), r1, r2, depth);
        lemma_agree_predv(s[s.len() - 1], r1, r2, depth);
    }
}

/// A substitution as a mathematical map, for stating what the solver does.
pub ghost struct SubstV {
    pub map: Map<Variable, ParamV>,
}

impl Replacer for SubstV {
    open spec fn replacement(&self, kind: ParameterKind, v: Variable, depth: nat) -> Option<ParamV> {
        if self.map.contains_key(v) {
            Some(shift_pv(self.map[v], depth))
        } else {
            None
        }
    }

    /// Only exists in specifications: never ready to run.
    open spec fn ready(&self) -> bool {
        false
    }

    fn replace(&self, kind: ParameterKind, v: &Variable, depth: usize) -> (r: Option<Parameter>) {
        None
    }
}

impl View for Substitution {
    type V = Map<Variable, ParamV>;

    open spec fn view(&self) -> Map<Variable, ParamV> {
        Map::new(|v: Variable| self.has(v), |v: Variable| self.get(v).unwrap())
    }
}

pub proof fn lemma_view_insert(s0: Substitution, s1: Substitution, v: Variable, p: Parameter)
    requires
        s1.get(v) == Some(param_v(p)),
        forall|w: Variable| w != v ==> s1.get(w) == s0.get(w),
    ensures
        s1@ == s0@.insert(v, param_v(p)),
{
    assert forall|w: Variable| s1.has(w) <==> (s0.has(w) || w == v) by {
        if w != v {
            assert(s1.get(w) == s0.get(w));
        }
    }
    assert(s1@ =~= s0@.insert(v, param_v(p)));
}

pub open spec fn pairs_v(s: Seq<(Variable, Parameter)>) -> Seq<(Variable, ParamV)> {
    s.map_values(|e: (Variable, Parameter)| (e.0, param_v(e.1)))
}

/// `m` with each pair of `s` inserted in order.
pub open spec fn extended(m: Map<Variable, ParamV>, s: Seq<(Variable, ParamV)>) -> Map<Variable, ParamV>
    decreases s.len(),
{
    if s.len() == 0 {
        m
    } else {
        extended(m, s.subrange(0, s.len() - 1)).insert(s[s.len() - 1].0, s[s.len() - 1].1)
    }
}

} // verus!
