//! The part of the external types that the runtime consumes: integers,
//! pointers and opaque types; structs and function types are refused when
//! an external function is registered.
use vstd::prelude::*;

use crate::reserved::ffi::ExternalType;
use crate::text::{dec, push_dec, push_str, string_of};

verus! {

/// The external types the runtime accepts: anything but a struct or a
/// function type.
pub open spec fn spec_external_kind_supported(t: ExternalType) -> bool {
    !(t is CStruct || t is CFunction)
}

/// Whether the runtime accepts the external type `t` (checked before an
/// external function is registered).
pub fn external_kind_supported(t: &ExternalType) -> (b: bool)
    ensures
        b == spec_external_kind_supported(*t),
{
    match t {
        ExternalType::CStruct(_) => false,
        ExternalType::CFunction { .. } => false,
        _ => true,
    }
}


/// An argument of an external call, as the call's program is built from
/// it: a literal of a kind that can be marshalled, a literal of another
/// kind, or an expression that is not a literal.
#[derive(Debug)]
pub enum FfiArg {
    Int(i64),
    Str(String),
    Bool(bool),
    Nil,
    OtherLiteral,
    NotLiteral,
}

/// A constant handed to the external function.
#[derive(Debug)]
pub enum FfiConst {
    Int(i64),
    Str(String),
    Bool(bool),
    Nil,
}

/// Whether an argument can be marshalled.
pub open spec fn marshallable(a: FfiArg) -> bool {
    !(a is OtherLiteral || a is NotLiteral)
}

/// `c` is the constant that marshals argument `a`.
pub open spec fn marshals(a: FfiArg, c: FfiConst) -> bool {
    match (a, c) {
        (FfiArg::Int(x), FfiConst::Int(y)) => x == y,
        (FfiArg::Str(x), FfiConst::Str(y)) => x@ == y@,
        (FfiArg::Bool(x), FfiConst::Bool(y)) => x == y,
        (FfiArg::Nil, FfiConst::Nil) => true,
        _ => false,
    }
}

/// The first argument from `i` on that cannot be marshalled.
pub open spec fn first_unmarshallable(args: Seq<FfiArg>, i: int) -> Option<int>
    decreases args.len() - i,
{
    if i < 0 || i >= args.len() {
        None
    } else if !marshallable(args[i]) {
        Some(i)
    } else {
        first_unmarshallable(args, i + 1)
    }
}

/// Why argument number `i` (from 0) cannot be marshalled.
pub open spec fn ffi_arg_message(a: FfiArg, i: nat) -> Seq<char> {
    if a is NotLiteral {
        "FFI 实参仅支持字面量（第 "@ + dec(i + 1) + " 实参——语言面形式 Stage 3，当前编译面收窄；非字面量表达式不可求值入窗口）"@
    } else {
        "FFI 实参字面量类型不支持编组（第 "@ + dec(i + 1) + " 实参——CInt/char*/bool/nil 子集）"@
    }
}

/// The constants of an external call's arguments, in order, or why the
/// first argument that cannot be marshalled cannot be.
pub fn ffi_call_consts(args: &Vec<FfiArg>) -> (r: Result<Vec<FfiConst>, String>)
    ensures
        match first_unmarshallable(args@, 0) {
            Some(i) => r matches Err(m) && m@ == ffi_arg_message(args@[i], i as nat),
            None => r matches Ok(v) && v@.len() == args@.len() && forall|k: int|
                0 <= k < args@.len() ==> marshals(#[trigger] args@[k], v@[k]),
        },
{
    let mut v: Vec<FfiConst> = Vec::new();
    let mut i: usize = 0;
    while i < args.len()
        invariant
            i <= args@.len(),
            v@.len() == i,
            forall|k: int| 0 <= k < i ==> marshals(#[trigger] args@[k], v@[k]),
            first_unmarshallable(args@, 0) == first_unmarshallable(args@, i as int),
        decreases args@.len() - i,
    {
        let c = match &args[i] {
            FfiArg::Int(x) => FfiConst::Int(*x),
            FfiArg::Str(s) => FfiConst::Str(s.clone()),
            FfiArg::Bool(b) => FfiConst::Bool(*b),
            FfiArg::Nil => FfiConst::Nil,
            FfiArg::OtherLiteral => {
                let mut m = string_of("FFI 实参字面量类型不支持编组（第 ");
                push_dec(&mut m, i as u64 + 1);
                push_str(&mut m, " 实参——CInt/char*/bool/nil 子集）");
                return Err(m);
            },
            FfiArg::NotLiteral => {
                let mut m = string_of("FFI 实参仅支持字面量（第 ");
                push_dec(&mut m, i as u64 + 1);
                push_str(&mut m, " 实参——语言面形式 Stage 3，当前编译面收窄；非字面量表达式不可求值入窗口）");
                return Err(m);
            },
        };
        v.push(c);
        i = i + 1;
    }
    Ok(v)
}

/// Why a buffer size cannot be allocated.
#[derive(Debug, Clone, Copy, PartialEq, Eq, Structural)]
pub enum AllocSizeError {
    /// A zero-size buffer.
    Zero,
    /// More than fits in an instruction operand.
    TooLarge,
}

/// The instruction operand for an external buffer of `size` bytes.
pub fn ffi_alloc_size(size: usize) -> (r: Result<u32, AllocSizeError>)
    ensures
        size == 0 ==> r == Err::<u32, AllocSizeError>(AllocSizeError::Zero),
        size > u32::MAX ==> r == Err::<u32, AllocSizeError>(AllocSizeError::TooLarge),
        0 < size <= u32::MAX ==> r == Ok::<u32, AllocSizeError>(size as u32),
{
    if size == 0 {
        Err(AllocSizeError::Zero)
    } else if size > u32::MAX as usize {
        Err(AllocSizeError::TooLarge)
    } else {
        Ok(size as u32)
    }
}

} // verus!
