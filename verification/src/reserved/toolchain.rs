//! Toolchain services' shapes: language-service positions and edits, debug
//! information, incremental queries, the compiler as a service, packages,
//! and assistant answers.
use vstd::prelude::*;

use crate::span::{FileId, Span};

verus! {

/// A position in a file (lines and columns from 1).
#[derive(Debug, Clone, Copy, PartialEq, Eq, Structural)]
pub struct Position {
    pub line: u32,
    pub column: u32,
}

/// A location: a file and a span in it.
#[derive(Debug, Clone, Copy, PartialEq, Eq, Structural)]
pub struct Location {
    pub file: FileId,
    pub span: Span,
}

/// An edit: replace `span` of `file` by `new_text`.
#[derive(Debug, Clone, PartialEq, Eq)]
pub struct TextEdit {
    pub file: FileId,
    pub span: Span,
    pub new_text: String,
}

/// A completion proposal.
#[derive(Debug, Clone, PartialEq, Eq)]
pub struct CompletionItem {
    pub label: String,
    pub insert_text: String,
}

/// A description of a type.
#[derive(Debug, Clone, PartialEq, Eq)]
pub struct TypeInfo {
    pub description: String,
}

/// A quick fix.
#[derive(Debug, Clone, PartialEq, Eq)]
pub struct CodeAction {
    pub title: String,
    pub edit: TextEdit,
}

/// Edits across a workspace.
#[derive(Debug, Clone, PartialEq, Eq)]
pub struct WorkspaceEdit {
    pub edits: Vec<TextEdit>,
}

/// Why a rename was refused.
#[derive(Debug, Clone, PartialEq, Eq)]
pub struct RenameError {
    pub reason: String,
}

/// Why an edit was refused.
#[derive(Debug, Clone, PartialEq, Eq)]
pub struct EditError {
    pub reason: String,
}

/// A variable of the debug information.
#[derive(Debug, Clone, Copy, PartialEq, Eq, Structural, Hash)]
pub struct VarId(pub u32);

/// A syntax node of the debug information.
#[derive(Debug, Clone, Copy, PartialEq, Eq, Structural, Hash)]
pub struct AstNodeId(pub u32);

/// A code address.
#[derive(Debug, Clone, Copy, PartialEq, Eq, Structural, Hash)]
pub struct Address(pub u32);

/// DWARF sections, as bytes.
#[derive(Debug, Clone, PartialEq, Eq)]
pub struct DwarfSections {
    pub bytes: Vec<u8>,
}

/// A source map, as bytes.
#[derive(Debug, Clone, PartialEq, Eq)]
pub struct SourceMapBlob {
    pub bytes: Vec<u8>,
}

/// A query of the incremental engine: its name and the fingerprint of its
/// input (equal descriptors are the same node of the dependency graph).
#[derive(Debug, Clone, PartialEq, Eq, Hash)]
pub struct QueryDescriptor {
    pub name: &'static str,
    pub input_fingerprint: u64,
}

/// The answer of a query.
#[derive(Debug, Clone, Copy, PartialEq, Eq, Structural)]
pub struct QueryResult {
    pub output_fingerprint: u64,
    pub cached: bool,
}

/// An incremental query engine.
pub trait QuerySystem {
    type Input;

    /// Runs (or reuses) a query.
    fn query(&self, descriptor: &QueryDescriptor) -> QueryResult;

    /// Invalidates what depends on `input`.
    fn invalidate(&mut self, input: Self::Input);

    /// The queries `descriptor` depends on.
    fn dependencies_of(&self, descriptor: &QueryDescriptor) -> Vec<QueryDescriptor>;
}

/// A query: what it depends on.
pub trait Query {
    type Input;
    type Output;

    /// The queries this one depends on.
    fn dependencies(&self) -> Vec<QueryDescriptor>;
}

/// A job of the compiler service.
#[derive(Debug, Clone, Copy, PartialEq, Eq, Structural, Hash)]
pub struct CompileJobId(pub u64);

/// The life cycle of a compile job.
#[derive(Debug, Clone, Copy, PartialEq, Eq, Structural)]
pub enum CompileStatus {
    Queued,
    Running,
    Completed,
    Failed,
    Cancelled,
}

/// What a compile job produces.
#[derive(Debug, Clone, Copy, PartialEq, Eq, Structural)]
pub enum CompileTarget {
    Bytecode,
    Native,
    Wasm,
}

/// How hard a compile job optimizes.
#[derive(Debug, Clone, Copy, PartialEq, Eq, Structural)]
pub enum OptLevel {
    /// No optimization.
    Off,
    Default,
    Aggressive,
}

/// How much debug information a compile job keeps.
#[derive(Debug, Clone, Copy, PartialEq, Eq, Structural)]
pub enum DebugInfoRequest {
    /// No debug information.
    Off,
    Spans,
    Full,
}

/// A request to the compiler service.
#[derive(Debug, Clone, PartialEq, Eq)]
pub struct CompileRequest {
    pub source: String,
    pub target: CompileTarget,
    pub opt_level: OptLevel,
    pub debug_info: DebugInfoRequest,
}

/// A value that travels as bytes.
pub trait Serializable {
    /// The bytes of the value.
    fn serialize(&self) -> Vec<u8>;

    /// The value of some bytes, or why they are not one.
    fn deserialize(data: &[u8]) -> Result<Self, DeserializeError> where Self: Sized;
}

/// Why bytes are not a value.
#[derive(Debug, Clone, PartialEq, Eq)]
pub struct DeserializeError {
    pub reason: String,
}

/// A package manifest.
#[derive(Debug, Clone, PartialEq, Eq)]
pub struct PackageManifest {
    pub name: String,
    pub version: String,
    pub dependencies: Vec<String>,
}

/// The resolved packages.
#[derive(Debug, Clone, PartialEq, Eq)]
pub struct DependencyGraph {
    pub packages: Vec<String>,
}

/// A fetched package.
#[derive(Debug, Clone, PartialEq, Eq)]
pub struct PackageArtifact {
    pub name: String,
    pub version: String,
    pub precompiled: bool,
}

/// A lock file's content.
#[derive(Debug, Clone, PartialEq, Eq)]
pub struct LockFile {
    pub content: String,
}

/// Why dependencies could not be resolved.
#[derive(Debug, Clone, PartialEq, Eq)]
pub struct ResolveError {
    pub reason: String,
}

/// Why a package could not be fetched.
#[derive(Debug, Clone, PartialEq, Eq)]
pub struct FetchError {
    pub reason: String,
}

/// Where a module's source comes from.
#[derive(Debug, Clone, PartialEq, Eq)]
pub struct ModuleSource {
    pub package: String,
    pub path: String,
}

/// A package manager.
pub trait PackageManager {
    /// Resolves the dependencies of a manifest.
    fn resolve_dependencies(&self, manifest: &PackageManifest) -> Result<DependencyGraph, ResolveError>;

    /// Fetches a package.
    fn get_package(&self, name: &str, version: &str) -> Result<PackageArtifact, FetchError>;

    /// Locks a dependency graph.
    fn lock(&self, graph: &DependencyGraph) -> LockFile;
}

/// A summary of a file's meaning.
#[derive(Debug, Clone, PartialEq, Eq)]
pub struct SemanticSummary {
    pub summary: String,
}

/// A function's signature, as text.
#[derive(Debug, Clone, PartialEq, Eq)]
pub struct FunctionSignature {
    pub signature: String,
}

/// The outcome of a quick type check.
#[derive(Debug, Clone, PartialEq, Eq)]
pub struct TypeCheckResult {
    pub passed: bool,
    pub notes: Vec<String>,
}

/// A type error, as text.
#[derive(Debug, Clone, PartialEq, Eq)]
pub struct TypeError {
    pub reason: String,
}

/// A proposed refactoring.
#[derive(Debug, Clone, PartialEq, Eq)]
pub struct Refactoring {
    pub description: String,
}

} // verus!
