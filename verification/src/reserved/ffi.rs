//! The FFI boundary's type shapes: a subset of the C ABI types that an
//! external call can name.
use vstd::prelude::*;

verus! {

/// C integer sizes.
#[derive(Debug, Clone, Copy, PartialEq, Eq, Structural, Hash)]
pub enum CIntSize {
    I8,
    U8,
    I16,
    U16,
    I32,
    U32,
    I64,
    U64,
    Isize,
    Usize,
}

/// What a C pointer points to.
#[derive(Debug, Clone, Copy, PartialEq, Eq, Structural, Hash)]
pub enum PointeeType {
    /// `void*`: opaque.
    Void,
    /// `uint8_t*`: a byte buffer.
    U8,
    /// `char*`: a NUL-terminated string.
    Char,
}

/// The type of an external call's value (a recursive subset of C types).
#[derive(Debug, PartialEq, Eq, Hash)]
pub enum ExternalType {
    CInt(CIntSize),
    CPointer(PointeeType),
    /// A C struct (fields in memory order).
    CStruct(Vec<ExternalType>),
    /// A C function type.
    CFunction { param: Box<ExternalType>, result: Box<ExternalType> },
    /// An opaque external type, declared by a header and never built.
    Opaque(String),
}

} // verus!
