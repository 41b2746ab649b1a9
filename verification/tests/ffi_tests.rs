use kerf::ffi::{ffi_alloc_size, ffi_call_consts, AllocSizeError, FfiArg, FfiConst};

#[test]
fn literal_arguments_are_marshalled_in_order() {
    let v = ffi_call_consts(&vec![FfiArg::Int(3), FfiArg::Str("hi".to_string()), FfiArg::Bool(true), FfiArg::Nil]).unwrap();
    assert_eq!(v.len(), 4);
    assert!(matches!(v[0], FfiConst::Int(3)));
    assert!(matches!(&v[1], FfiConst::Str(s) if s == "hi"));
    assert!(matches!(v[2], FfiConst::Bool(true)));
    assert!(matches!(v[3], FfiConst::Nil));
}

#[test]
fn first_unmarshallable_argument_is_reported() {
    let e = ffi_call_consts(&vec![FfiArg::Int(1), FfiArg::NotLiteral, FfiArg::OtherLiteral]).unwrap_err();
    assert_eq!(e, "FFI 实参仅支持字面量（第 2 实参——语言面形式 Stage 3，当前编译面收窄；非字面量表达式不可求值入窗口）");
    let e = ffi_call_consts(&vec![FfiArg::OtherLiteral]).unwrap_err();
    assert_eq!(e, "FFI 实参字面量类型不支持编组（第 1 实参——CInt/char*/bool/nil 子集）");
}

#[test]
fn alloc_sizes() {
    assert_eq!(ffi_alloc_size(0), Err(AllocSizeError::Zero));
    assert_eq!(ffi_alloc_size(16), Ok(16));
    assert_eq!(ffi_alloc_size(u32::MAX as usize), Ok(u32::MAX));
    assert_eq!(ffi_alloc_size(u32::MAX as usize + 1), Err(AllocSizeError::TooLarge));
}
