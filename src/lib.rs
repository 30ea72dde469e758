//! Terms with de Bruijn binders, substitution, a small resolution engine and
//! coherence checking for a language with interfaces and implementations.
use vstd::prelude::*;

pub mod ty;
pub mod fold;
pub mod subst;
pub mod eq;
pub mod env;
pub mod solve;
pub mod coherence;
pub mod judgment;
pub mod scope;

verus! {

} // verus!
