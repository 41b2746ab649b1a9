//! The instruction set of the bytecode, and the reading of an instruction
//! from its opcode number and integer operands (as the self-hosted
//! compiler hands them over).
use vstd::prelude::*;

use crate::text::{dec, dec_int, push_dec, push_dec_i64, push_str, string_of};

verus! {

/// A bytecode instruction.
#[derive(Debug, Clone, Copy, PartialEq, Eq, Structural)]
pub enum Op {
    PushConst(u32),
    PushNil,
    PushTrue,
    PushFalse,
    Pop,
    Dup,
    Swap,
    LoadLocal(u32),
    StoreLocal(u32),
    LoadGlobal(u32),
    StoreGlobal(u32),
    DefineGlobal(u32),
    LoadCaptured(u32),
    StoreCaptured(u32),
    Jump(u32),
    JumpIfFalse(u32),
    Closure { proto: u32, n_captures: u32 },
    Call(u32),
    TailCall(u32),
    Ret,
    Add,
    Sub,
    Mul,
    Div,
    Mod,
    NumLt,
    NumGt,
    NumLe,
    NumGe,
    NumEq,
    Eq,
    Not,
    MakePair,
    Car,
    Cdr,
    IsNull,
    IsPair,
    IsInt,
    IsBool,
    IsProcedure,
    Halt,
}

/// The highest opcode number.
pub const MAX_OPCODE: i64 = 40;

/// How many operands the instruction with opcode `code` takes.
pub open spec fn op_arity(code: i64) -> int {
    if code == 16 {
        2
    } else if code == 0 || code == 7 || code == 8 || code == 9 || code == 10 || code == 11 || code == 12 || code == 13 || code == 14 || code == 15 || code == 17 || code == 18 {
        1
    } else {
        0
    }
}

/// The instruction with opcode `code` (0 to `MAX_OPCODE`) and operands
/// `ops`; each operand is truncated to 32 bits.
pub open spec fn op_of(code: i64, ops: Seq<i64>) -> Op {
    match code {
        0 => Op::PushConst(ops[0] as u32),
        1 => Op::PushNil,
        2 => Op::PushTrue,
        3 => Op::PushFalse,
        4 => Op::Pop,
        5 => Op::Dup,
        6 => Op::Swap,
        7 => Op::LoadLocal(ops[0] as u32),
        8 => Op::StoreLocal(ops[0] as u32),
        9 => Op::LoadGlobal(ops[0] as u32),
        10 => Op::StoreGlobal(ops[0] as u32),
        11 => Op::DefineGlobal(ops[0] as u32),
        12 => Op::LoadCaptured(ops[0] as u32),
        13 => Op::StoreCaptured(ops[0] as u32),
        14 => Op::Jump(ops[0] as u32),
        15 => Op::JumpIfFalse(ops[0] as u32),
        16 => Op::Closure { proto: ops[0] as u32, n_captures: ops[1] as u32 },
        17 => Op::Call(ops[0] as u32),
        18 => Op::TailCall(ops[0] as u32),
        19 => Op::Ret,
        20 => Op::Add,
        21 => Op::Sub,
        22 => Op::Mul,
        23 => Op::Div,
        24 => Op::Mod,
        25 => Op::NumLt,
        26 => Op::NumGt,
        27 => Op::NumLe,
        28 => Op::NumGe,
        29 => Op::NumEq,
        30 => Op::Eq,
        31 => Op::Not,
        32 => Op::MakePair,
        33 => Op::Car,
        34 => Op::Cdr,
        35 => Op::IsNull,
        36 => Op::IsPair,
        37 => Op::IsInt,
        38 => Op::IsBool,
        39 => Op::IsProcedure,
        40 => Op::Halt,
        _ => Op::Halt,
    }
}

/// The instruction an opcode number and its operands stand for, or why
/// they stand for none: an unknown opcode, or the wrong number of
/// operands.
pub open spec fn spec_op(code: i64, ops: Seq<i64>) -> Result<Op, Seq<char>> {
    if code < 0 || code > MAX_OPCODE {
        Err("未知操作码 "@ + dec_int(code as int))
    } else if ops.len() != op_arity(code) {
        Err(
            "操作码 "@ + dec(code as nat) + " 操作数数异常（"@ + dec(ops.len()) + " ≠ "@ + dec(
                op_arity(code) as nat,
            ) + "）"@,
        )
    } else {
        Ok(op_of(code, ops))
    }
}

fn arity(code: i64) -> (n: usize)
    ensures
        n == op_arity(code),
{
    if code == 16 {
        2
    } else if code == 0 || code == 7 || code == 8 || code == 9 || code == 10 || code == 11 || code == 12 || code == 13 || code == 14 || code == 15 || code == 17 || code == 18 {
        1
    } else {
        0
    }
}

/// Reads an instruction from its opcode number and operands.
pub fn op_from_fields(code: i64, operands: &Vec<i64>) -> (r: Result<Op, String>)
    ensures
        match spec_op(code, operands@) {
            Ok(op) => r == Ok::<Op, String>(op),
            Err(m) => r matches Err(e) && e@ == m,
        },
{
    if code < 0 || code > MAX_OPCODE {
        let mut m = string_of("未知操作码 ");
        push_dec_i64(&mut m, code);
        return Err(m);
    }
    let need = arity(code);
    if operands.len() != need {
        let mut m = string_of("操作码 ");
        push_dec(&mut m, code as u64);
        push_str(&mut m, " 操作数数异常（");
        push_dec(&mut m, operands.len() as u64);
        push_str(&mut m, " ≠ ");
        push_dec(&mut m, need as u64);
        push_str(&mut m, "）");
        return Err(m);
    }
    let op = match code {
        0 => Op::PushConst(operands[0] as u32),
        1 => Op::PushNil,
        2 => Op::PushTrue,
        3 => Op::PushFalse,
        4 => Op::Pop,
        5 => Op::Dup,
        6 => Op::Swap,
        7 => Op::LoadLocal(operands[0] as u32),
        8 => Op::StoreLocal(operands[0] as u32),
        9 => Op::LoadGlobal(operands[0] as u32),
        10 => Op::StoreGlobal(operands[0] as u32),
        11 => Op::DefineGlobal(operands[0] as u32),
        12 => Op::LoadCaptured(operands[0] as u32),
        13 => Op::StoreCaptured(operands[0] as u32),
        14 => Op::Jump(operands[0] as u32),
        15 => Op::JumpIfFalse(operands[0] as u32),
        16 => Op::Closure { proto: operands[0] as u32, n_captures: operands[1] as u32 },
        17 => Op::Call(operands[0] as u32),
        18 => Op::TailCall(operands[0] as u32),
        19 => Op::Ret,
        20 => Op::Add,
        21 => Op::Sub,
        22 => Op::Mul,
        23 => Op::Div,
        24 => Op::Mod,
        25 => Op::NumLt,
        26 => Op::NumGt,
        27 => Op::NumLe,
        28 => Op::NumGe,
        29 => Op::NumEq,
        30 => Op::Eq,
        31 => Op::Not,
        32 => Op::MakePair,
        33 => Op::Car,
        34 => Op::Cdr,
        35 => Op::IsNull,
        36 => Op::IsPair,
        37 => Op::IsInt,
        38 => Op::IsBool,
        39 => Op::IsProcedure,
        40 => Op::Halt,
        _ => Op::Halt,
    };
    Ok(op)
}


/// How the compiler writes an instruction: its opcode number and operands.
/// Opcodes count up from `PushConst` (0) through the stack, variable,
/// jump and call instructions, arithmetic (`Add` 20 to `Mod` 24),
/// comparisons (`NumLt` 25, `NumGt` 26, `NumLe` 27, `NumGe` 28, `NumEq`
/// 29), `Eq`, `Not`, the pair instructions and type tests, to `Halt` (40).
pub open spec fn op_encoding(op: Op) -> (i64, Seq<i64>) {
    match op {
        Op::PushConst(x) => (0, seq![x as i64]),
        Op::PushNil => (1, Seq::<i64>::empty()),
        Op::PushTrue => (2, Seq::<i64>::empty()),
        Op::PushFalse => (3, Seq::<i64>::empty()),
        Op::Pop => (4, Seq::<i64>::empty()),
        Op::Dup => (5, Seq::<i64>::empty()),
        Op::Swap => (6, Seq::<i64>::empty()),
        Op::LoadLocal(x) => (7, seq![x as i64]),
        Op::StoreLocal(x) => (8, seq![x as i64]),
        Op::LoadGlobal(x) => (9, seq![x as i64]),
        Op::StoreGlobal(x) => (10, seq![x as i64]),
        Op::DefineGlobal(x) => (11, seq![x as i64]),
        Op::LoadCaptured(x) => (12, seq![x as i64]),
        Op::StoreCaptured(x) => (13, seq![x as i64]),
        Op::Jump(x) => (14, seq![x as i64]),
        Op::JumpIfFalse(x) => (15, seq![x as i64]),
        Op::Closure { proto, n_captures } => (16, seq![proto as i64, n_captures as i64]),
        Op::Call(x) => (17, seq![x as i64]),
        Op::TailCall(x) => (18, seq![x as i64]),
        Op::Ret => (19, Seq::<i64>::empty()),
        Op::Add => (20, Seq::<i64>::empty()),
        Op::Sub => (21, Seq::<i64>::empty()),
        Op::Mul => (22, Seq::<i64>::empty()),
        Op::Div => (23, Seq::<i64>::empty()),
        Op::Mod => (24, Seq::<i64>::empty()),
        Op::NumLt => (25, Seq::<i64>::empty()),
        Op::NumGt => (26, Seq::<i64>::empty()),
        Op::NumLe => (27, Seq::<i64>::empty()),
        Op::NumGe => (28, Seq::<i64>::empty()),
        Op::NumEq => (29, Seq::<i64>::empty()),
        Op::Eq => (30, Seq::<i64>::empty()),
        Op::Not => (31, Seq::<i64>::empty()),
        Op::MakePair => (32, Seq::<i64>::empty()),
        Op::Car => (33, Seq::<i64>::empty()),
        Op::Cdr => (34, Seq::<i64>::empty()),
        Op::IsNull => (35, Seq::<i64>::empty()),
        Op::IsPair => (36, Seq::<i64>::empty()),
        Op::IsInt => (37, Seq::<i64>::empty()),
        Op::IsBool => (38, Seq::<i64>::empty()),
        Op::IsProcedure => (39, Seq::<i64>::empty()),
        Op::Halt => (40, Seq::<i64>::empty()),
    }
}

/// Reading back what the compiler wrote gives the instruction it wrote:
/// every instruction decodes from its own opcode and operands.
pub proof fn lemma_decode_encoded(op: Op)
    ensures
        spec_op(op_encoding(op).0, op_encoding(op).1) == Ok::<Op, Seq<char>>(op),
{
    let (c, ops) = op_encoding(op);
    match op {
        Op::Closure { proto, n_captures } => {
            assert(ops[0] as u32 == proto);
            assert(ops[1] as u32 == n_captures);
        },
        _ => {},
    }
}

/// Different instructions are written differently, so decoding tells them
/// apart.
pub proof fn lemma_encoding_distinct(a: Op, b: Op)
    requires
        op_encoding(a) == op_encoding(b),
    ensures
        a == b,
{
    lemma_decode_encoded(a);
    lemma_decode_encoded(b);
}

} // verus!
