//! kerf: the verified core of the kerf language toolchain.
pub mod arith;
pub mod bindings;
pub mod bytecode;
pub mod cache;
pub mod capability;
pub mod core_expr;
pub mod diagnostic;
pub mod driver;
pub mod expander;
pub mod ffi;
pub mod forms;
pub mod front;
pub mod gc;
pub mod heap;
pub mod imports;
pub mod io;
pub mod lexer;
pub mod module_rules;
pub mod modules;
pub mod parser;
pub mod phase;
pub mod qualified;
pub mod recover;
pub mod report;
pub mod reserved;
pub mod source_map;
pub mod strings;
pub mod sugar;
pub mod span;
pub mod symbol;
pub mod syntax_rules;
pub mod text;
pub mod token;
pub mod wire;
