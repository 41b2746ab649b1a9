//! Errors of the expander.
use vstd::prelude::*;

use crate::span::Span;
use crate::text::{dec, push_dec, push_str, string_of};

verus! {

/// An expansion error: a message and the span it is about.
#[derive(Debug, Clone, PartialEq)]
pub struct ExpandError {
    pub message: String,
    pub span: Span,
}

impl ExpandError {
    /// An error with the given message at `span`.
    pub fn new(message: &str, span: Span) -> (e: ExpandError)
        ensures
            e.message@ == message@,
            e.span == span,
    {
        let mut m = String::new();
        push_str(&mut m, message);
        ExpandError { message: m, span }
    }
}


/// The deepest nesting of macro expansions.
pub const MAX_EXPANSION_DEPTH: u32 = 10000;

/// The transformer a macro use goes to.
#[derive(Debug, Clone, Copy, PartialEq, Eq, Structural)]
pub enum MacroChoice {
    /// The transformer bound to the head symbol itself.
    Head,
    /// The transformer bound to the head's hygienic base name.
    Base,
    /// The built-in transformer of a sugar form, registered on first use.
    Builtin,
    /// The form is not a macro use.
    NotMacro,
}

/// The order in which a macro use is resolved: the head's own transformer,
/// then that of its hygienic base (when it has one), then a built-in sugar
/// transformer.
pub open spec fn spec_macro_choice(head_bound: bool, base_bound: Option<bool>, builtin_sugar: bool) -> MacroChoice {
    if head_bound {
        MacroChoice::Head
    } else if base_bound == Some(true) {
        MacroChoice::Base
    } else if builtin_sugar {
        MacroChoice::Builtin
    } else {
        MacroChoice::NotMacro
    }
}

/// Resolves a macro use: `head_bound` whether the head has a transformer,
/// `base_bound` whether its hygienic base has one (`None` when the head is
/// no hygienic name), `builtin_sugar` whether it is a sugar form with a
/// built-in transformer.
pub fn macro_choice(head_bound: bool, base_bound: Option<bool>, builtin_sugar: bool) -> (c: MacroChoice)
    ensures
        c == spec_macro_choice(head_bound, base_bound, builtin_sugar),
{
    if head_bound {
        MacroChoice::Head
    } else if base_bound == Some(true) {
        MacroChoice::Base
    } else if builtin_sugar {
        MacroChoice::Builtin
    } else {
        MacroChoice::NotMacro
    }
}

/// The message for an expansion nested deeper than the limit.
pub open spec fn depth_exceeded_message() -> Seq<char> {
    "宏展开深度超过上限 "@ + dec(MAX_EXPANSION_DEPTH as nat) + "（疑似无限递归展开）"@
}

/// Entering one more macro expansion at nesting `depth`: the new depth, or
/// the error when it would pass the limit.
pub fn enter_expansion(depth: u32, span: Span) -> (r: Result<u32, ExpandError>)
    ensures
        depth < MAX_EXPANSION_DEPTH ==> r == Ok::<u32, ExpandError>((depth + 1) as u32),
        depth >= MAX_EXPANSION_DEPTH ==> (r matches Err(e) && e.message@ == depth_exceeded_message() && e.span == span),
{
    if depth < MAX_EXPANSION_DEPTH {
        Ok(depth + 1)
    } else {
        let mut m = string_of("宏展开深度超过上限 ");
        push_dec(&mut m, MAX_EXPANSION_DEPTH as u64);
        push_str(&mut m, "（疑似无限递归展开）");
        Err(ExpandError { message: m, span })
    }
}

} // verus!
