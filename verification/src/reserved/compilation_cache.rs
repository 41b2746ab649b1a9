//! The compilation cache's key: a content hash of the source and a
//! fingerprint of the compilation configuration.
//!
//! 1. a hit returns an equivalent product (content addressed: same source
//!    and same configuration give the same product);
//! 2. storing is idempotent (the same key is overwritten);
//! 3. invalidation drops an entry explicitly.
use vstd::prelude::*;

verus! {

/// The key of a cached compilation.
#[derive(Debug, Clone, Copy, PartialEq, Eq, Structural, Hash)]
pub struct CacheKey {
    /// The content hash of the source text.
    pub source_hash: u64,
    /// The fingerprint of the configuration (stage version and options).
    pub config_fingerprint: u64,
}

} // verus!
