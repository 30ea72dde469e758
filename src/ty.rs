//! The term grammar: types, lifetimes, parameters and variables.
use vstd::prelude::*;

verus! {

/// A universe: placeholders introduced later live in higher universes.
#[derive(Clone, Copy, Debug, PartialEq, Eq, Structural, PartialOrd, Ord, Hash)]
pub struct Universe {
    pub index: usize,
}

impl Universe {
    /// The root universe, which holds no placeholders.
    pub fn root() -> (r: Universe)
        ensures
            r.index == 0,
    {
        Universe { index: 0 }
    }
}

/// An inference variable: an unknown to be solved for.
#[derive(Clone, Copy, Debug, PartialEq, Eq, Structural, PartialOrd, Ord, Hash)]
pub struct InferenceVar {
    pub index: usize,
}

/// A placeholder: an arbitrary value known only by its universe.
#[derive(Clone, Copy, Debug, PartialEq, Eq, Structural, PartialOrd, Ord, Hash)]
pub struct PlaceholderVar {
    pub universe: Universe,
    pub index: usize,
}

#[derive(Clone, Copy, Debug, PartialEq, Eq, Structural, PartialOrd, Ord, Hash)]
pub struct VarIndex {
    pub index: u64,
}

#[derive(Clone, Copy, Debug, PartialEq, Eq, Structural, PartialOrd, Ord, Hash)]
pub struct DebruijnIndex {
    pub index: usize,
}

impl DebruijnIndex {
    /// The index of the innermost binder.
    pub fn innermost() -> (r: DebruijnIndex)
        ensures
            r.index == 0,
    {
        DebruijnIndex { index: 0 }
    }

    /// Adjust this index inward through one binder level.
    pub fn shift_in(&self) -> (r: Self)
        requires
            self.index < usize::MAX,
        ensures
            r.index == self.index + 1,
    {
        DebruijnIndex { index: self.index + 1 }
    }

    /// Adjust this index outward through one binder level, if possible.
    pub fn shift_out(&self) -> (r: Option<Self>)
        ensures
            self.index > 0 ==> r == Some(DebruijnIndex { index: (self.index - 1) as usize }),
            self.index == 0 ==> r.is_none(),
    {
        if self.index > 0 {
            Some(DebruijnIndex { index: self.index - 1 })
        } else {
            None
        }
    }
}

/// Identifies a bound variable: the binder (counting outward, `None` while
/// the binder is open) and the position within that binder.
#[derive(Clone, Copy, Debug, PartialEq, Eq, Structural, PartialOrd, Ord, Hash)]
pub struct BoundVar {
    pub debruijn: Option<DebruijnIndex>,
    pub var_index: VarIndex,
}

#[derive(Clone, Copy, Debug, PartialEq, Eq, Structural, PartialOrd, Ord, Hash)]
pub enum Variable {
    PlaceholderVar(PlaceholderVar),
    InferenceVar(InferenceVar),
    BoundVar(BoundVar),
}


impl Variable {
    /// Wrap this variable as a parameter of the given kind.
    pub fn into_parameter(self, kind: ParameterKind) -> (r: Parameter)
        ensures
            r == Parameter::of_variable(self, kind),
    {
        match kind {
            ParameterKind::Lt => Parameter::Lt(Lt::from_variable(self)),
            ParameterKind::Ty => Parameter::Ty(Ty::from_variable(self)),
        }
    }

    /// Shift a variable inward through one binding level; only bound
    /// variables with a depth are affected.
    pub fn shift_in(&self) -> (r: Self)
        requires
            self.spec_depth_below(usize::MAX as nat),
        ensures
            r == self.spec_shift_in(),
    {
        if let Variable::BoundVar(BoundVar { debruijn: Some(db), var_index }) = self {
            Variable::BoundVar(BoundVar { debruijn: Some(db.shift_in()), var_index: *var_index })
        } else {
            *self
        }
    }

    /// Shift a variable outward through one binding level. `None` when the
    /// variable is bound by that level.
    pub fn shift_out(&self) -> (r: Option<Self>)
        ensures
            r == self.spec_shift_out(),
    {
        if let Variable::BoundVar(BoundVar { debruijn: Some(db), var_index }) = self {
            match db.shift_out() {
                Some(db1) => Some(
                    Variable::BoundVar(BoundVar { debruijn: Some(db1), var_index: *var_index }),
                ),
                None => None,
            }
        } else {
            Some(*self)
        }
    }

    /// A variable is free unless an enclosing binder binds it: placeholders,
    /// inference variables and open bound variables (depth `None`, as after
    /// opening a binder and before closing it again) are free.
    pub fn is_free(&self) -> (r: bool)
        ensures
            r == !(self matches Variable::BoundVar(BoundVar { debruijn: Some(_), .. })),
    {
        match self {
            Variable::PlaceholderVar(_) | Variable::InferenceVar(_) => true,
            Variable::BoundVar(b) => b.debruijn.is_none(),
        }
    }

    /// Holds unless this is a bound variable whose depth is `n` or more.
    pub open spec fn spec_depth_below(self, n: nat) -> bool {
        match self {
            Variable::BoundVar(BoundVar { debruijn: Some(db), .. }) => db.index < n,
            _ => true,
        }
    }

    pub open spec fn spec_shift_in(self) -> Variable {
        match self {
            Variable::BoundVar(BoundVar { debruijn: Some(db), var_index }) => Variable::BoundVar(
                BoundVar { debruijn: Some(DebruijnIndex { index: (db.index + 1) as usize }), var_index },
            ),
            _ => self,
        }
    }

    pub open spec fn spec_shift_out(self) -> Option<Variable> {
        match self {
            Variable::BoundVar(BoundVar { debruijn: Some(db), var_index }) => if db.index > 0 {
                Some(
                    Variable::BoundVar(
                        BoundVar {
                            debruijn: Some(DebruijnIndex { index: (db.index - 1) as usize }),
                            var_index,
                        },
                    ),
                )
            } else {
                None
            },
            _ => Some(self),
        }
    }

    /// Shift outward through `n` binding levels: `None` when one of them binds it.
    pub open spec fn spec_shift_out_by(self, n: nat) -> Option<Variable> {
        match self {
            Variable::BoundVar(BoundVar { debruijn: Some(db), var_index }) => if db.index >= n {
                Some(
                    Variable::BoundVar(
                        BoundVar {
                            debruijn: Some(DebruijnIndex { index: (db.index - n) as usize }),
                            var_index,
                        },
                    ),
                )
            } else {
                None
            },
            _ => Some(self),
        }
    }
}

impl BoundVar {
    pub fn into_parameter(self, kind: ParameterKind) -> (r: Parameter)
        ensures
            r == Parameter::of_variable(Variable::BoundVar(self), kind),
    {
        Variable::BoundVar(self).into_parameter(kind)
    }
}

#[derive(Clone, Copy, Debug, PartialEq, Eq, Structural, PartialOrd, Ord, Hash)]
pub enum ParameterKind {
    Ty,
    Lt,
}

#[derive(Clone, Copy, Debug, PartialEq, Eq, Structural, PartialOrd, Ord, Hash)]
pub struct KindedVarIndex {
    pub kind: ParameterKind,
    pub var_index: VarIndex,
}

#[derive(Clone, Copy, Debug, PartialEq, Eq, Structural, PartialOrd, Ord, Hash)]
pub enum QuantifierKind {
    ForAll,
    Exists,
}

/// The name of a user-defined algebraic data type.
#[derive(Clone, Copy, Debug, PartialEq, Eq, Structural, PartialOrd, Ord, Hash)]
pub struct AdtId {
    pub id: u64,
}

/// The name of a function.
#[derive(Clone, Copy, Debug, PartialEq, Eq, Structural, PartialOrd, Ord, Hash)]
pub struct FnId {
    pub id: u64,
}

/// The name of an interface.
#[derive(Clone, Copy, Debug, PartialEq, Eq, Structural, PartialOrd, Ord, Hash)]
pub struct TraitId {
    pub id: u64,
}

/// The name of an item inside an interface.
#[derive(Clone, Copy, Debug, PartialEq, Eq, Structural, PartialOrd, Ord, Hash)]
pub struct AssociatedItemId {
    pub id: u64,
}

#[derive(Clone, Copy, Debug, PartialEq, Eq, Structural, PartialOrd, Ord, Hash)]
pub enum RefKind {
    Shared,
    Mut,
}

#[derive(Clone, Copy, Debug, PartialEq, Eq, Structural, PartialOrd, Ord, Hash)]
pub enum ScalarId {
    U8,
    U16,
    U32,
    U64,
    I8,
    I16,
    I32,
    I64,
    Bool,
    USize,
    ISize,
}

#[derive(Clone, Copy, Debug, PartialEq, Eq, Structural, PartialOrd, Ord, Hash)]
pub enum RigidName {
    AdtId(AdtId),
    ScalarId(ScalarId),
    Ref(RefKind),
    Tuple(usize),
    FnPtr(usize),
    FnDef(FnId),
}

#[derive(Debug, PartialEq, Eq, PartialOrd, Ord, Hash)]
pub struct RigidTy {
    pub name: RigidName,
    pub parameters: Vec<Parameter>,
}

impl RigidTy {
    /// A scalar type, which has no parameters.
    pub fn from_scalar(s: ScalarId) -> (r: RigidTy)
        ensures
            r.name == RigidName::ScalarId(s),
            r.parameters@.len() == 0,
    {
        RigidTy { name: RigidName::ScalarId(s), parameters: Vec::new() }
    }
}

#[derive(Clone, Copy, Debug, PartialEq, Eq, Structural, PartialOrd, Ord, Hash)]
pub struct AssociatedTyId {
    pub trait_id: TraitId,
    pub item_id: AssociatedItemId,
}

#[derive(Clone, Copy, Debug, PartialEq, Eq, Structural, PartialOrd, Ord, Hash)]
pub enum AliasName {
    AssociatedTyId(AssociatedTyId),
}

#[derive(Debug, PartialEq, Eq, PartialOrd, Ord, Hash)]
pub struct AliasTy {
    pub name: AliasName,
    pub parameters: Vec<Parameter>,
}

/// A term under binders: `kinds` declares the variables it closes over;
/// bound variables of depth 0 in `term` refer to them.
#[derive(Debug, PartialEq, Eq, PartialOrd, Ord, Hash)]
pub struct Binder<T> {
    pub kinds: Vec<ParameterKind>,
    pub term: T,
}

#[derive(Debug, PartialEq, Eq, PartialOrd, Ord, Hash)]
pub enum PredicateTy {
    ForAllTy(Binder<Ty>),
    ExistsTy(Binder<Ty>),
    ImplicationTy(ImplicationTy),
    EnsuresTy(EnsuresTy),
}

#[derive(Debug, PartialEq, Eq, PartialOrd, Ord, Hash)]
pub struct ImplicationTy {
    pub predicates: Vec<Predicate>,
    pub ty: Ty,
}

#[derive(Debug, PartialEq, Eq, PartialOrd, Ord, Hash)]
pub struct EnsuresTy {
    pub ty: Ty,
    pub predicates: Vec<Predicate>,
}

/// A reference to an interface applied to parameters (the first is the self type).
#[derive(Debug, PartialEq, Eq, PartialOrd, Ord, Hash)]
pub struct TraitRef {
    pub trait_id: TraitId,
    pub parameters: Vec<Parameter>,
}

/// A where-clause, goal or assumption.
#[derive(Debug, PartialEq, Eq, PartialOrd, Ord, Hash)]
pub enum Predicate {
    IsImplemented(TraitRef),
    NotImplemented(TraitRef),
    Equals(Parameter, Parameter),
}

#[derive(Debug, PartialEq, Eq, PartialOrd, Ord, Hash)]
pub enum TyData {
    RigidTy(RigidTy),
    AliasTy(AliasTy),
    PredicateTy(PredicateTy),
    Variable(Variable),
}

/// A type. Terms are immutable: every operation rebuilds rather than
/// mutates. The data sits in a `Box`, whose clone and construction Verus
/// specifies; `Arc`'s clone has no specification in vstd, and the copies here
/// are made by a verified fold instead.
#[derive(Debug, PartialEq, Eq, PartialOrd, Ord, Hash)]
pub struct Ty {
    pub data: Box<TyData>,
}

impl Ty {
    pub fn new(data: TyData) -> (r: Ty)
        ensures
            *r.data == data,
    {
        Ty { data: Box::new(data) }
    }

    pub fn from_variable(v: Variable) -> (r: Ty)
        ensures
            *r.data == TyData::Variable(v),
    {
        Ty { data: Box::new(TyData::Variable(v)) }
    }

    pub fn data(&self) -> (r: &TyData)
        ensures
            *r == *self.data,
    {
        &self.data
    }

    pub fn as_variable(&self) -> (r: Option<Variable>)
        ensures
            r == self.spec_as_variable(),
    {
        match self.data() {
            TyData::Variable(v) => Some(*v),
            _ => None,
        }
    }

    pub open spec fn spec_as_variable(self) -> Option<Variable> {
        match *self.data {
            TyData::Variable(v) => Some(v),
            _ => None,
        }
    }
}

#[derive(Clone, Copy, Debug, PartialEq, Eq, Structural, PartialOrd, Ord, Hash)]
pub enum LtData {
    Static,
    Variable(Variable),
}

#[derive(Clone, Debug, PartialEq, Eq, PartialOrd, Ord, Hash)]
pub struct Lt {
    pub data: Box<LtData>,
}

impl Lt {
    pub fn new(data: LtData) -> (r: Lt)
        ensures
            *r.data == data,
    {
        Lt { data: Box::new(data) }
    }

    pub fn from_variable(v: Variable) -> (r: Lt)
        ensures
            *r.data == LtData::Variable(v),
    {
        Lt { data: Box::new(LtData::Variable(v)) }
    }

    pub fn data(&self) -> (r: &LtData)
        ensures
            *r == *self.data,
    {
        &self.data
    }

    pub fn as_variable(&self) -> (r: Option<Variable>)
        ensures
            r == self.spec_as_variable(),
    {
        match self.data() {
            LtData::Variable(v) => Some(*v),
            _ => None,
        }
    }

    pub open spec fn spec_as_variable(self) -> Option<Variable> {
        match *self.data {
            LtData::Variable(v) => Some(v),
            _ => None,
        }
    }
}

#[derive(Debug, PartialEq, Eq, PartialOrd, Ord, Hash)]
pub enum Parameter {
    Ty(Ty),
    Lt(Lt),
}

impl Parameter {
    pub fn as_variable(&self) -> (r: Option<Variable>)
        ensures
            r == self.spec_as_variable(),
    {
        match self {
            Parameter::Ty(v) => v.as_variable(),
            Parameter::Lt(v) => v.as_variable(),
        }
    }

    pub open spec fn spec_as_variable(self) -> Option<Variable> {
        match self {
            Parameter::Ty(t) => t.spec_as_variable(),
            Parameter::Lt(l) => l.spec_as_variable(),
        }
    }

    /// The parameter of the given kind that is just the variable `v`.
    pub open spec fn of_variable(v: Variable, kind: ParameterKind) -> Parameter {
        match kind {
            ParameterKind::Ty => Parameter::Ty(Ty { data: Box::new(TyData::Variable(v)) }),
            ParameterKind::Lt => Parameter::Lt(Lt { data: Box::new(LtData::Variable(v)) }),
        }
    }

    /// The kind of this parameter.
    pub open spec fn kind(self) -> ParameterKind {
        match self {
            Parameter::Ty(_) => ParameterKind::Ty,
            Parameter::Lt(_) => ParameterKind::Lt,
        }
    }
}

impl Ty {
    /// This type as a parameter (a structurally equal copy).
    pub fn to_parameter(&self) -> (r: Parameter)
        ensures
            r@ == ParamV::Ty(self@),
    {
        Parameter::Ty(crate::subst::copy_ty(self))
    }
}

impl From<KindedVarIndex> for Parameter {
    /// The open bound variable (depth `None`) at the given index and kind.
    fn from(kvi: KindedVarIndex) -> (r: Parameter) {
        BoundVar { debruijn: None, var_index: kvi.var_index }.into_parameter(kvi.kind)
    }
}

impl vstd::std_specs::convert::FromSpecImpl<KindedVarIndex> for Parameter {
    open spec fn obeys_from_spec() -> bool {
        true
    }

    open spec fn from_spec(kvi: KindedVarIndex) -> Parameter {
        Parameter::of_variable(
            Variable::BoundVar(BoundVar { debruijn: None, var_index: kvi.var_index }),
            kvi.kind,
        )
    }
}

/// The mathematical value of a type: what structural equality compares.
pub enum TyV {
    Rigid(RigidName, Seq<ParamV>),
    Alias(AliasName, Seq<ParamV>),
    ForAll(Seq<ParameterKind>, Box<TyV>),
    Exists(Seq<ParameterKind>, Box<TyV>),
    Implication(Seq<PredV>, Box<TyV>),
    Ensures(Box<TyV>, Seq<PredV>),
    Var(Variable),
}

/// The mathematical value of a parameter.
pub enum ParamV {
    Ty(TyV),
    Lt(LtData),
}

/// The mathematical value of a predicate.
pub enum PredV {
    Implemented(TraitId, Seq<ParamV>),
    NotImplemented(TraitId, Seq<ParamV>),
    Equals(ParamV, ParamV),
}

pub open spec fn ty_v(t: Ty) -> TyV
    decreases t,
{
    match *t.data {
        TyData::RigidTy(rt) => TyV::Rigid(rt.name, params_v(rt.parameters@)),
        TyData::AliasTy(a) => TyV::Alias(a.name, params_v(a.parameters@)),
        TyData::PredicateTy(p) => match p {
            PredicateTy::ForAllTy(b) => TyV::ForAll(b.kinds@, Box::new(ty_v(b.term))),
            PredicateTy::ExistsTy(b) => TyV::Exists(b.kinds@, Box::new(ty_v(b.term))),
            PredicateTy::ImplicationTy(i) => TyV::Implication(
                preds_v(i.predicates@),
                Box::new(ty_v(i.ty)),
            ),
            PredicateTy::EnsuresTy(e) => TyV::Ensures(Box::new(ty_v(e.ty)), preds_v(e.predicates@)),
        },
        TyData::Variable(v) => TyV::Var(v),
    }
}

pub open spec fn param_v(p: Parameter) -> ParamV
    decreases p,
{
    match p {
        Parameter::Ty(t) => ParamV::Ty(ty_v(t)),
        Parameter::Lt(l) => ParamV::Lt(*l.data),
    }
}

pub open spec fn params_v(s: Seq<Parameter>) -> Seq<ParamV>
    decreases s,
{
    if s.len() == 0 {
        Seq::empty()
    } else {
        params_v(s.subrange(0, s.len() - 1)).push(param_v(s[s.len() - 1]))
    }
}

pub open spec fn pred_v(p: Predicate) -> PredV
    decreases p,
{
    match p {
        Predicate::IsImplemented(tr) => PredV::Implemented(tr.trait_id, params_v(tr.parameters@)),
        Predicate::NotImplemented(tr) => PredV::NotImplemented(
            tr.trait_id,
            params_v(tr.parameters@),
        ),
        Predicate::Equals(a, b) => PredV::Equals(param_v(a), param_v(b)),
    }
}

pub open spec fn preds_v(s: Seq<Predicate>) -> Seq<PredV>
    decreases s,
{
    if s.len() == 0 {
        Seq::empty()
    } else {
        preds_v(s.subrange(0, s.len() - 1)).push(pred_v(s[s.len() - 1]))
    }
}

impl View for Ty {
    type V = TyV;

    open spec fn view(&self) -> TyV {
        ty_v(*self)
    }
}

impl View for Parameter {
    type V = ParamV;

    open spec fn view(&self) -> ParamV {
        param_v(*self)
    }
}

impl View for Predicate {
    type V = PredV;

    open spec fn view(&self) -> PredV {
        pred_v(*self)
    }
}

} // verus!
