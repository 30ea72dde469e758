//! The environment of a proof: it allocates universes and fresh variables,
//! and opens and closes binders.
use vstd::prelude::*;

use crate::fold::{
    copy_kinds, fold_paramsv, fold_paramv, fold_predsv, fold_predv, fold_ty, fold_tyv, inner,
    Replacer,
};
use crate::subst::{
    free_vars_paramsv, free_vars_paramv, free_vars_predsv, free_vars_predv, free_vars_tyv,
};
use crate::ty::{
    param_v, Binder, BoundVar, DebruijnIndex, InferenceVar, LtData, ParamV, Parameter,
    ParameterKind, PlaceholderVar, PredV, Ty, TyV, Universe, VarIndex, Variable,
};

verus! {

/// The logical context of a proof in progress.
#[derive(Clone, Copy, Debug, PartialEq, Eq, Structural)]
pub struct Env {
    /// The highest universe in use.
    pub universe: Universe,
    /// The index that the next fresh variable gets.
    pub next_index: usize,
    /// Whether only what other crates cannot change may be assumed.
    pub coherence_mode: bool,
}

impl Env {
    pub fn new() -> (r: Env)
        ensures
            r.universe.index == 0,
            r.next_index == 0,
            !r.coherence_mode,
    {
        Env { universe: Universe { index: 0 }, next_index: 0, coherence_mode: false }
    }

    /// This environment, with coherence mode set to `on`.
    pub fn with_coherence_mode(&self, on: bool) -> (r: Env)
        ensures
            r == (Env { coherence_mode: on, ..*self }),
    {
        Env { coherence_mode: on, ..*self }
    }

    /// Whether `n` fresh variables can be allocated.
    pub open spec fn has_room(self, n: nat) -> bool {
        self.next_index + n <= usize::MAX && self.universe.index < usize::MAX
    }

    /// The opener for a binder with `kinds`, as a universal (placeholders in
    /// a new universe) or an existential (inference variables) instantiation.
    pub open spec fn spec_opener(self, kinds: Vec<ParameterKind>, universal: bool) -> Opener {
        Opener {
            kinds,
            first: self.next_index,
            universe: Universe { index: (self.universe.index + 1) as usize },
            universal,
        }
    }

    /// This environment after `n` fresh variables were allocated.
    pub open spec fn spec_after(self, n: nat, universal: bool) -> Env {
        Env {
            universe: if universal {
                Universe { index: (self.universe.index + 1) as usize }
            } else {
                self.universe
            },
            next_index: (self.next_index + n) as usize,
            coherence_mode: self.coherence_mode,
        }
    }

    /// The opener for `kinds`; `self` is moved past the variables it uses.
    pub fn opener(&mut self, kinds: &Vec<ParameterKind>, universal: bool) -> (r: Opener)
        requires
            old(self).has_room(kinds@.len()),
        ensures
            r.kinds@ == kinds@,
            r == old(self).spec_opener(r.kinds, universal),
            r.ready(),
            *final(self) == old(self).spec_after(kinds@.len(), universal),
    {
        let r = Opener {
            kinds: copy_kinds(kinds),
            first: self.next_index,
            universe: Universe { index: self.universe.index + 1 },
            universal,
        };
        self.next_index = self.next_index + kinds.len();
        if universal {
            self.universe = Universe { index: self.universe.index + 1 };
        }
        r
    }

    /// Open a binder over a type with fresh placeholders in a new universe.
    pub fn instantiate_universally(&mut self, b: &Binder<Ty>) -> (r: Ty)
        requires
            old(self).has_room(b.kinds@.len()),
        ensures
            r@ == crate::fold::fold_tyv(
                b.term@,
                old(self).spec_opener(b.kinds, true),
                0,
            ),
            *final(self) == old(self).spec_after(b.kinds@.len(), true),
    {
        let o = self.opener(&b.kinds, true);
        proof {
            crate::subst::lemma_agree_tyv(b.term@, o, old(self).spec_opener(b.kinds, true), 0);
        }
        fold_ty(&b.term, &o, 0)
    }
}

/// The variable that an opener puts for the `i`th declaration.
pub open spec fn fresh_var(first: usize, i: int, universe: Universe, universal: bool) -> Variable {
    if universal {
        Variable::PlaceholderVar(PlaceholderVar { universe, index: (first + i) as usize })
    } else {
        Variable::InferenceVar(InferenceVar { index: (first + i) as usize })
    }
}

/// Replaces the variables of the innermost binder with fresh variables.
pub struct Opener {
    pub kinds: Vec<ParameterKind>,
    pub first: usize,
    pub universe: Universe,
    pub universal: bool,
}

impl Replacer for Opener {
    open spec fn replacement(&self, kind: ParameterKind, v: Variable, depth: nat) -> Option<ParamV> {
        match v {
            Variable::BoundVar(BoundVar { debruijn: Some(db), var_index }) => if db.index == 0
                && var_index.index < self.kinds@.len() {
                Some(
                    param_v(
                        Parameter::of_variable(
                            fresh_var(self.first, var_index.index as int, self.universe, self.universal),
                            self.kinds@[var_index.index as int],
                        ),
                    ),
                )
            } else {
                None
            },
            _ => None,
        }
    }

    open spec fn ready(&self) -> bool {
        self.first + self.kinds@.len() <= usize::MAX
    }

    fn replace(&self, kind: ParameterKind, v: &Variable, depth: usize) -> (r: Option<Parameter>) {
        match v {
            Variable::BoundVar(BoundVar { debruijn: Some(db), var_index }) => {
                if db.index == 0 && (var_index.index as u128) < (self.kinds.len() as u128) {
                    let i = var_index.index as usize;
                    let x = if self.universal {
                        Variable::PlaceholderVar(
                            PlaceholderVar { universe: self.universe, index: self.first + i },
                        )
                    } else {
                        Variable::InferenceVar(InferenceVar { index: self.first + i })
                    };
                    Some(x.into_parameter(self.kinds[i]))
                } else {
                    None
                }
            },
            _ => None,
        }
    }
}

/// Replaces the listed free variables with variables bound by a new
/// innermost binder, the `i`th listed variable becoming the `i`th declaration.
pub struct Closer {
    pub vars: Vec<Variable>,
}

impl Replacer for Closer {
    open spec fn replacement(&self, kind: ParameterKind, v: Variable, depth: nat) -> Option<ParamV> {
        if exists|i: int| 0 <= i < self.vars@.len() && self.vars@[i] == v {
            let i = choose|i: int| 0 <= i < self.vars@.len() && self.vars@[i] == v;
            Some(
                param_v(
                    Parameter::of_variable(
                        Variable::BoundVar(
                            BoundVar {
                                debruijn: Some(DebruijnIndex { index: depth as usize }),
                                var_index: VarIndex { index: i as u64 },
                            },
                        ),
                        kind,
                    ),
                ),
            )
        } else {
            None
        }
    }

    open spec fn ready(&self) -> bool {
        &&& self.vars@.len() <= u64::MAX
        &&& forall|i: int, j: int|
            0 <= i < j < self.vars@.len() ==> self.vars@[i] != self.vars@[j]
    }

    fn replace(&self, kind: ParameterKind, v: &Variable, depth: usize) -> (r: Option<Parameter>) {
        let mut i: usize = 0;
        while i < self.vars.len()
            invariant
                self.ready(),
                i <= self.vars@.len(),
                forall|j: int| 0 <= j < i ==> self.vars@[j] != *v,
            decreases self.vars@.len() - i,
        {
            if self.vars[i] == *v {
                let ghost gi = i as int;
                proof {
                    let c = choose|k: int| 0 <= k < self.vars@.len() && self.vars@[k] == *v;
                    assert(c == gi);
                }
                let b = BoundVar {
                    debruijn: Some(DebruijnIndex { index: depth }),
                    var_index: VarIndex { index: i as u64 },
                };
                return Some(b.into_parameter(kind));
            }
            i = i + 1;
        }
        None
    }
}

/// Close `t` over `vars`: a binder whose `i`th declaration, of kind
/// `kinds[i]`, stands where `vars[i]` stood free in `t`.
pub fn close_ty(kinds: &Vec<ParameterKind>, vars: Vec<Variable>, t: &Ty) -> (r: Binder<Ty>)
    requires
        vars@.len() <= u64::MAX,
        forall|i: int, j: int| 0 <= i < j < vars@.len() ==> vars@[i] != vars@[j],
    ensures
        r.kinds@ == kinds@,
        r.term@ == crate::fold::fold_tyv(t@, Closer { vars }, 0),
{
    let c = Closer { vars };
    let term = fold_ty(t, &c, 0);
    Binder { kinds: copy_kinds(kinds), term }
}

} // verus!

verus! {

/// The conditions under which closing over `c`'s variables undoes opening
/// with `o` on terms whose free variables avoid them.
pub open spec fn inverse_pair(o: Opener, c: Closer) -> bool {
    &&& o.ready()
    &&& c.ready()
    &&& c.vars@.len() == o.kinds@.len()
    &&& forall|i: int|
        0 <= i < c.vars@.len() ==> #[trigger] c.vars@[i] == fresh_var(o.first, i, o.universe, o.universal)
}

pub open spec fn avoids(vs: Set<Variable>, c: Closer) -> bool {
    forall|v: Variable| vs.contains(v) ==> !c.vars@.contains(v)
}

proof fn lemma_avoids_union(a: Set<Variable>, b: Set<Variable>, c: Closer)
    requires
        avoids(a.union(b), c),
    ensures
        avoids(a, c),
        avoids(b, c),
{
    assert forall|v: Variable| a.contains(v) implies !c.vars@.contains(v) by {
        assert(a.union(b).contains(v));
    }
    assert forall|v: Variable| b.contains(v) implies !c.vars@.contains(v) by {
        assert(a.union(b).contains(v));
    }
}

proof fn lemma_fresh_distinct(o: Opener, c: Closer, i: int, w: Variable)
    requires
        inverse_pair(o, c),
        0 <= i < c.vars@.len(),
        w == fresh_var(o.first, i, o.universe, o.universal),
    ensures
        c.vars@.contains(w),
        w.spec_shift_out_by(0) == Some(w),
        forall|d: nat| w.spec_shift_out_by(d) == Some(w),
        (choose|j: int| 0 <= j < c.vars@.len() && c.vars@[j] == w) == i,
{
    assert(c.vars@[i] == w);
    let j = choose|j: int| 0 <= j < c.vars@.len() && c.vars@[j] == w;
    assert(c.vars@[j] == w);
    if j != i {
        if i < j {
            assert(c.vars@[i] != c.vars@[j]);
        } else {
            assert(c.vars@[j] != c.vars@[i]);
        }
    }
}

/// Closing over the fresh variables undoes opening, at any depth.
pub proof fn lemma_open_close_tyv(t: TyV, o: Opener, c: Closer, d: nat)
    requires
        inverse_pair(o, c),
        d <= usize::MAX,
        avoids(free_vars_tyv(t, d), c),
    ensures
        fold_tyv(fold_tyv(t, o, d), c, d) == t,
    decreases t,
{
    match t {
        TyV::Rigid(_, ps) => lemma_open_close_paramsv(ps, o, c, d),
        TyV::Alias(_, ps) => lemma_open_close_paramsv(ps, o, c, d),
        TyV::ForAll(_, b) => lemma_open_close_tyv(*b, o, c, inner(d)),
        TyV::Exists(_, b) => lemma_open_close_tyv(*b, o, c, inner(d)),
        TyV::Implication(ps, b) => {
            lemma_avoids_union(free_vars_predsv(ps, d), free_vars_tyv(*b, d), c);
            lemma_open_close_predsv(ps, o, c, d);
            lemma_open_close_tyv(*b, o, c, d);
        },
        TyV::Ensures(b, ps) => {
            lemma_avoids_union(free_vars_tyv(*b, d), free_vars_predsv(ps, d), c);
            lemma_open_close_predsv(ps, o, c, d);
            lemma_open_close_tyv(*b, o, c, d);
        },
        TyV::Var(v) => {
            if let Some(v1) = v.spec_shift_out_by(d) {
                if let Some(p) = o.replacement(ParameterKind::Ty, v1, d) {
                    let i = v1->BoundVar_0.var_index.index as int;
                    let w = fresh_var(o.first, i, o.universe, o.universal);
                    lemma_fresh_distinct(o, c, i, w);
                } else {
                    assert(free_vars_tyv(t, d).contains(v1));
                }
            }
        },
    }
}

pub proof fn lemma_open_close_paramv(p: ParamV, o: Opener, c: Closer, d: nat)
    requires
        inverse_pair(o, c),
        d <= usize::MAX,
        avoids(free_vars_paramv(p, d), c),
    ensures
        fold_paramv(fold_paramv(p, o, d), c, d) == p,
    decreases p,
{
    match p {
        ParamV::Ty(t) => lemma_open_close_tyv(t, o, c, d),
        ParamV::Lt(l) => {
            if let LtData::Variable(v) = l {
                if let Some(v1) = v.spec_shift_out_by(d) {
                    if let Some(q) = o.replacement(ParameterKind::Lt, v1, d) {
                        let i = v1->BoundVar_0.var_index.index as int;
                        let w = fresh_var(o.first, i, o.universe, o.universal);
                        lemma_fresh_distinct(o, c, i, w);
                    } else {
                        assert(free_vars_paramv(p, d).contains(v1));
                    }
                }
            }
        },
    }
}

pub proof fn lemma_open_close_paramsv(s: Seq<ParamV>, o: Opener, c: Closer, d: nat)
    requires
        inverse_pair(o, c),
        d <= usize::MAX,
        avoids(free_vars_paramsv(s, d), c),
    ensures
        fold_paramsv(fold_paramsv(s, o, d), c, d) == s,
    decreases s,
{
    if s.len() > 0 {
        let init = s.subrange(0, s.len() - 1);
        let last = s[s.len() - 1];
        lemma_avoids_union(free_vars_paramsv(init, d), free_vars_paramv(last, d), c);
        lemma_open_close_paramsv(init, o, c, d);
        lemma_open_close_paramv(last, o, c, d);
        let once = fold_paramsv(s, o, d);
        crate::fold::lemma_paramsv_len(init, o, d);
        assert(once == fold_paramsv(init, o, d).push(fold_paramv(last, o, d)));
        crate::fold::lemma_fold_paramsv_push(fold_paramsv(init, o, d), fold_paramv(last, o, d), c, d);
        assert(init.push(last) =~= s);
    }
}

pub proof fn lemma_open_close_predv(p: PredV, o: Opener, c: Closer, d: nat)
    requires
        inverse_pair(o, c),
        d <= usize::MAX,
        avoids(free_vars_predv(p, d), c),
    ensures
        fold_predv(fold_predv(p, o, d), c, d) == p,
    decreases p,
{
    match p {
        PredV::Implemented(_, ps) => lemma_open_close_paramsv(ps, o, c, d),
        PredV::NotImplemented(_, ps) => lemma_open_close_paramsv(ps, o, c, d),
        PredV::Equals(a, b) => {
            lemma_avoids_union(free_vars_paramv(a, d), free_vars_paramv(b, d), c);
            lemma_open_close_paramv(a, o, c, d);
            lemma_open_close_paramv(b, o, c, d);
        },
    }
}

pub proof fn lemma_open_close_predsv(s: Seq<PredV>, o: Opener, c: Closer, d: nat)
    requires
        inverse_pair(o, c),
        d <= usize::MAX,
        avoids(free_vars_predsv(s, d), c),
    ensures
        fold_predsv(fold_predsv(s, o, d), c, d) == s,
    decreases s,
{
    if s.len() > 0 {
        let init = s.subrange(0, s.len() - 1);
        let last = s[s.len() - 1];
        lemma_avoids_union(free_vars_predsv(init, d), free_vars_predv(last, d), c);
        lemma_open_close_predsv(init, o, c, d);
        lemma_open_close_predv(last, o, c, d);
        crate::fold::lemma_fold_predsv_push(fold_predsv(init, o, d), fold_predv(last, o, d), c, d);
        assert(init.push(last) =~= s);
    }
}

/// Opening a binder universally and closing the body again over the fresh
/// placeholders, in order, gives back the binder's body, provided the body
/// did not already hold those placeholders free.
pub proof fn lemma_binder_round_trip(b: Binder<Ty>, env: Env, c: Closer)
    requires
        env.has_room(b.kinds@.len()),
        c.vars@.len() == b.kinds@.len(),
        forall|i: int|
            0 <= i < c.vars@.len() ==> #[trigger] c.vars@[i] == fresh_var(
                env.next_index,
                i,
                Universe { index: (env.universe.index + 1) as usize },
                true,
            ),
        avoids(free_vars_tyv(b.term@, 0), c),
    ensures
        fold_tyv(fold_tyv(b.term@, env.spec_opener(b.kinds, true), 0), c, 0) == b.term@,
{
    let o = env.spec_opener(b.kinds, true);
    assert forall|i: int, j: int| 0 <= i < j < c.vars@.len() implies c.vars@[i] != c.vars@[j] by {
        assert(c.vars@[i] == fresh_var(o.first, i, o.universe, true));
        assert(c.vars@[j] == fresh_var(o.first, j, o.universe, true));
    }
    lemma_open_close_tyv(b.term@, o, c, 0);
}

} // verus!
