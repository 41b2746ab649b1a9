//! Interned names.
use vstd::prelude::*;

verus! {

/// The handle of an interned name (an index into a symbol table).
#[derive(Debug, Clone, Copy, PartialEq, Eq, Structural, Hash, PartialOrd, Ord)]
pub struct Symbol(pub u32);

} // verus!
