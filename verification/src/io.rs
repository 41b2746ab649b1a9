//! The runtime's minimal error shape.
use vstd::prelude::*;

verus! {

/// A runtime error (allocation and I/O share this minimal shape).
#[derive(Debug, Clone)]
pub struct RuntimeError {
    pub message: String,
}

impl RuntimeError {
    /// An error carrying `message`.
    pub fn new(message: &str) -> (e: RuntimeError)
        ensures
            e.message@ == message@,
    {
        RuntimeError { message: crate::text::string_of(message) }
    }
}

} // verus!
