//! Reserved interfaces: frozen contracts whose implementations evolve
//! elsewhere in the crate (capability I/O, the compilation cache, FFI
//! types, effect families, toolchain services).
pub mod capability_io;
pub mod compilation_cache;
pub mod effect_handlers;
pub mod ffi;
pub mod toolchain;

pub use capability_io::{CapabilityIO, IOError, ReadCapability, WriteCapability};
pub(crate) use capability_io::{mint_read_token, mint_write_token};
pub use compilation_cache::CacheKey;
pub use effect_handlers::EffectFamily;
pub use ffi::{CIntSize, ExternalType, PointeeType};
pub use toolchain::{
    Address, AstNodeId, CodeAction, CompileJobId, CompileRequest, CompileStatus, CompileTarget,
    CompletionItem, DebugInfoRequest, DependencyGraph, DeserializeError, DwarfSections, EditError,
    FetchError, FunctionSignature, Location, LockFile, ModuleSource, OptLevel, PackageArtifact,
    PackageManager, PackageManifest, Position, Query, QueryDescriptor, QueryResult, QuerySystem,
    Refactoring, RenameError, ResolveError, SemanticSummary, Serializable, SourceMapBlob, TextEdit,
    TypeCheckResult, TypeError, TypeInfo, VarId, WorkspaceEdit,
};
