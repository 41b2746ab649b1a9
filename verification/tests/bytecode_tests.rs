use kerf::bytecode::{op_from_fields, Op};

#[test]
fn push_const_takes_its_operand() {
    assert_eq!(op_from_fields(0, &vec![5]), Ok(Op::PushConst(5)));
}

#[test]
fn closure_takes_two_operands() {
    assert_eq!(op_from_fields(16, &vec![1, 2]), Ok(Op::Closure { proto: 1, n_captures: 2 }));
}

#[test]
fn operand_free_opcodes() {
    assert_eq!(op_from_fields(20, &vec![]), Ok(Op::Add));
    assert_eq!(op_from_fields(40, &vec![]), Ok(Op::Halt));
    assert_eq!(op_from_fields(19, &vec![]), Ok(Op::Ret));
}

#[test]
fn unknown_opcodes_are_refused() {
    assert_eq!(op_from_fields(41, &vec![]), Err("未知操作码 41".to_string()));
    assert_eq!(op_from_fields(-1, &vec![]), Err("未知操作码 -1".to_string()));
}

#[test]
fn wrong_operand_count_is_refused() {
    assert_eq!(
        op_from_fields(0, &vec![]),
        Err("操作码 0 操作数数异常（0 ≠ 1）".to_string())
    );
    assert_eq!(
        op_from_fields(20, &vec![3]),
        Err("操作码 20 操作数数异常（1 ≠ 0）".to_string())
    );
}
