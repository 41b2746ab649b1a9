use kerf::expander::{enter_expansion, macro_choice, MacroChoice, MAX_EXPANSION_DEPTH};
use kerf::span::Span;

#[test]
fn macro_uses_resolve_head_then_base_then_builtin() {
    assert_eq!(macro_choice(true, Some(true), true), MacroChoice::Head);
    assert_eq!(macro_choice(false, Some(true), true), MacroChoice::Base);
    assert_eq!(macro_choice(false, Some(false), true), MacroChoice::Builtin);
    assert_eq!(macro_choice(false, None, true), MacroChoice::Builtin);
    assert_eq!(macro_choice(false, None, false), MacroChoice::NotMacro);
}

#[test]
fn expansion_depth_is_bounded() {
    assert_eq!(enter_expansion(0, Span::dummy()).unwrap(), 1);
    assert_eq!(enter_expansion(MAX_EXPANSION_DEPTH - 1, Span::dummy()).unwrap(), MAX_EXPANSION_DEPTH);
    let e = enter_expansion(MAX_EXPANSION_DEPTH, Span::dummy()).unwrap_err();
    assert_eq!(e.message, "宏展开深度超过上限 10000（疑似无限递归展开）");
}
