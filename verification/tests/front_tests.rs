use kerf::core_expr::{Capability, CoreExpr};
use kerf::diagnostic::DiagnosticCode;
use kerf::driver::Stage;
use kerf::front::{front_checks, register_modules, ModuleForm};
use kerf::imports::ImportFace;
use kerf::source_map::SourceMap;
use kerf::span::Span;
use kerf::symbol::Symbol;

fn var(name: &str) -> CoreExpr {
    CoreExpr::VarRef { name: name.to_string(), span: Span::dummy() }
}

fn define(name: &str, value: CoreExpr) -> CoreExpr {
    CoreExpr::Define { name: name.to_string(), value: Box::new(value), span: Span::dummy() }
}

fn module(name: &str, body: Vec<CoreExpr>) -> CoreExpr {
    CoreExpr::Module { name: name.to_string(), imports: vec![], exports: vec![], body, span: Span::dummy() }
}

fn kw() -> Vec<String> {
    vec!["if".to_string(), "define".to_string()]
}

#[test]
fn checks_pass_and_aliases_are_rewritten() {
    let face = ImportFace { unqualified: vec![], aliases: vec![("s".to_string(), "string".to_string())], injected_names: vec![] };
    let sm = SourceMap::new();
    let core = vec![module("m", vec![define("x", var("s/append"))])];
    let out = front_checks(core, &face, &vec![("kerf-string".to_string(), Span::dummy())], &kw(), &sm).unwrap();
    match &out[0] {
        CoreExpr::Module { body, .. } => match &body[0] {
            CoreExpr::Define { value, .. } => match value.as_ref() {
                CoreExpr::VarRef { name, .. } => assert_eq!(name, "string/append"),
                _ => panic!("reference expected"),
            },
            _ => panic!("define expected"),
        },
        _ => panic!("module expected"),
    }
}

#[test]
fn first_failing_check_wins() {
    let sm = SourceMap::new();
    let face = ImportFace::default();
    let dup_and_unexported = vec![module("m", vec![define("a", var("string/nope")), define("a", CoreExpr::Literal { span: Span::dummy() })])];
    let err = front_checks(dup_and_unexported, &face, &vec![], &kw(), &sm).unwrap_err();
    assert_eq!(err.diagnostic.code, Some(DiagnosticCode(16)));
    let keyword_and_io = vec![define("if", var("print"))];
    let err = front_checks(keyword_and_io, &face, &vec![], &kw(), &sm).unwrap_err();
    assert_eq!(err.diagnostic.code, Some(DiagnosticCode(20)));
    let io_only = vec![var("print")];
    let err = front_checks(io_only, &face, &vec![], &kw(), &sm).unwrap_err();
    assert_eq!(err.diagnostic.code, Some(DiagnosticCode(6)));
    assert_eq!(err.stage, Stage::Compile);
    let declared = vec![CoreExpr::Require { caps: vec![Capability::IoWrite], span: Span::dummy() }, var("print")];
    assert!(front_checks(declared, &face, &vec![], &kw(), &sm).is_ok());
}

fn form(n: u32, imports: Vec<u32>) -> ModuleForm {
    ModuleForm { name: Symbol(n), imports: imports.into_iter().map(Symbol).collect(), exports: vec![], span: Span::new(0, n, n + 1) }
}

#[test]
fn module_bookkeeping() {
    let sm = SourceMap::new();
    let stdlib = vec![Symbol(100), Symbol(101)];
    let reg = register_modules(&vec![form(1, vec![100]), form(2, vec![1, 101])], &stdlib, Symbol(9), &sm).unwrap();
    assert_eq!(reg.entries().len(), 4);
    assert!(reg.entries().iter().all(|e| e.visited));
    let err = register_modules(&vec![form(1, vec![]), form(1, vec![])], &stdlib, Symbol(9), &sm).unwrap_err();
    assert_eq!(err.stage, Stage::Expand);
    assert_eq!(err.diagnostic.code, Some(DiagnosticCode(2)));
    assert_eq!(err.diagnostic.message, "模块重复声明（Symbol 1）");
    let err = register_modules(&vec![form(3, vec![7])], &stdlib, Symbol(9), &sm).unwrap_err();
    assert_eq!(err.diagnostic.message, "未声明的模块（Symbol 7）");
    assert_eq!(err.diagnostic.primary_span, Span::new(0, 3, 4));
    let reg = register_modules(&vec![], &stdlib, Symbol(9), &sm).unwrap();
    assert_eq!(reg.entries().len(), 3);
    assert!(register_modules(&vec![], &stdlib, Symbol(100), &sm).is_err());
}

#[test]
fn module_cycle_is_reported_at_the_last_form() {
    let sm = SourceMap::new();
    let stdlib = vec![Symbol(100), Symbol(101)];
    let err = register_modules(&vec![form(1, vec![2]), form(2, vec![1])], &stdlib, Symbol(9), &sm).unwrap_err();
    assert!(err.diagnostic.message.starts_with("模块循环依赖："));
    assert!(err.diagnostic.message.contains("Symbol(1)"));
    assert!(err.diagnostic.message.contains("Symbol(2)"));
    let reg = register_modules(
        &vec![form(1, vec![]), form(2, vec![1]), form(3, vec![1]), form(4, vec![2, 3])],
        &stdlib,
        Symbol(9),
        &sm,
    )
    .unwrap();
    assert!(reg.entries().iter().all(|e| e.visited));
}
