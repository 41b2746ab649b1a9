//! The effect-handler interface's shape: an effect family names the result
//! type of performing its effects.
use vstd::prelude::*;

verus! {

/// An effect family: the effects of one kind and the type of their result.
pub trait EffectFamily {
    /// The value performing an effect of this family yields.
    type Result;
}

} // verus!
