use kerf::bindings::{reserved_core_diag, verify_reserved_bindings_core};
use kerf::core_expr::{Capability, CoreExpr};
use kerf::diagnostic::{DiagnosticCode, Severity};
use kerf::imports::ImportFace;
use kerf::module_rules::{
    collect_macro_names, collect_warnings, module_dup_diag, require_pos_diag, verify_module_define_duplicates,
    verify_require_positions,
};
use kerf::modules::is_builtin_name;
use kerf::parser::read_source;
use kerf::source_map::SourceMap;
use kerf::span::Span;

fn sp(a: u32) -> Span {
    Span::new(0, a, a + 1)
}

fn lit() -> CoreExpr {
    CoreExpr::Literal { span: Span::dummy() }
}

fn define(name: &str, at: u32) -> CoreExpr {
    CoreExpr::Define { name: name.to_string(), value: Box::new(lit()), span: sp(at) }
}

fn module(name: &str, body: Vec<CoreExpr>) -> CoreExpr {
    CoreExpr::Module { name: name.to_string(), imports: vec![], exports: vec![], body, span: sp(0) }
}

fn require() -> CoreExpr {
    CoreExpr::Require { caps: vec![Capability::IoRead], span: sp(7) }
}

fn kw() -> Vec<String> {
    ["if", "define", "lambda"].iter().map(|s| s.to_string()).collect()
}

#[test]
fn keyword_bound_in_expansion_is_e0020() {
    let d = reserved_core_diag(&define("if", 3), &kw()).unwrap();
    assert_eq!(d.code, Some(DiagnosticCode(20)));
    assert!(d.message.contains("「if」是 N4 关键字（绑定名（展开产物））"));
    let lam = CoreExpr::Lambda { params: vec!["x".to_string(), "lambda".to_string()], body: Box::new(lit()), span: sp(5) };
    let d = reserved_core_diag(&lam, &kw()).unwrap();
    assert!(d.message.contains("「lambda」是 N4 关键字（lambda 参数（展开产物））"));
    assert_eq!(d.primary_span, sp(5));
    let h = CoreExpr::Handle {
        payload_var: "v".to_string(),
        resume_var: "define".to_string(),
        handler_body: Box::new(lit()),
        body: Box::new(lit()),
        span: sp(9),
    };
    assert!(reserved_core_diag(&h, &kw()).unwrap().message.contains("handle 恢复绑定"));
    assert!(reserved_core_diag(&define("x", 1), &kw()).is_none());
    let sm = SourceMap::new();
    let err = verify_reserved_bindings_core(&vec![module("if", vec![])], &kw(), &sm).unwrap_err();
    assert!(err.diagnostic.message.contains("模块名（展开产物）"));
}

#[test]
fn duplicate_define_in_module_is_e0016() {
    let m = module("m", vec![define("a", 1), define("b", 2), define("a", 3)]);
    let d = module_dup_diag(&m).unwrap();
    assert_eq!(d.code, Some(DiagnosticCode(16)));
    assert_eq!(d.message, "重复定义：模块「m」内 define「a」重复（09 v6.2 既有裁定——显式报重复定义非静默遮蔽）");
    assert_eq!(d.primary_span, sp(3));
    let nested = module("outer", vec![define("a", 1), module("inner", vec![define("a", 2)])]);
    assert!(module_dup_diag(&nested).is_none());
    let sm = SourceMap::new();
    assert!(verify_module_define_duplicates(&vec![define("a", 1), define("a", 2)], &sm).is_ok());
    let in_begin = CoreExpr::Begin { body: vec![module("n", vec![define("z", 1), define("z", 4)])], span: sp(0) };
    assert!(verify_module_define_duplicates(&vec![in_begin], &sm).is_err());
}

#[test]
fn require_inside_expression_is_e0018() {
    assert!(require_pos_diag(&require(), true).is_none());
    let lam = CoreExpr::Lambda { params: vec![], body: Box::new(require()), span: sp(1) };
    let d = require_pos_diag(&lam, true).unwrap();
    assert_eq!(d.code, Some(DiagnosticCode(18)));
    assert_eq!(d.primary_span, sp(7));
    let sm = SourceMap::new();
    let top = vec![require(), module("m", vec![require(), CoreExpr::Begin { body: vec![require()], span: sp(2) }])];
    assert!(verify_require_positions(&top, &sm).is_ok());
    let app = CoreExpr::App { fn_expr: Box::new(lit()), args: vec![CoreExpr::Begin { body: vec![require()], span: sp(2) }], span: sp(0) };
    assert!(verify_require_positions(&vec![app], &sm).is_err());
}

#[test]
fn macro_names_found_at_any_depth() {
    let forms = read_source("(define-syntax swap x) (begin (define-syntax print y)) (define-syntax)", 0).unwrap();
    let defs = collect_macro_names(&forms);
    let names: Vec<&str> = defs.iter().map(|d| d.0.as_str()).collect();
    assert_eq!(names, vec!["swap", "print"]);
    assert_eq!(defs[0].1.start, 0);
    assert_eq!(defs[1].1.start, 30);
}

#[test]
fn builtin_names_registered() {
    assert!(is_builtin_name("read-line"));
    assert!(is_builtin_name("+"));
    assert!(is_builtin_name("string/append"));
    assert!(is_builtin_name("char-alphabetic?"));
    assert!(!is_builtin_name("swap"));
    assert!(!is_builtin_name("car"));
}

#[test]
fn shadow_and_macro_warnings() {
    let face = ImportFace {
        unqualified: vec!["pair".to_string()],
        aliases: vec![],
        injected_names: vec!["cons".to_string(), "head".to_string(), "tail".to_string()],
    };
    let core = vec![
        module("m", vec![define("head$hyg$1", 4), define("head", 5), define("x", 6)]),
        CoreExpr::Lambda { params: vec!["tail".to_string(), "head".to_string()], body: Box::new(lit()), span: sp(8) },
        module("kerf-prelude", vec![define("cons", 9)]),
    ];
    let defs = vec![("print".to_string(), sp(1)), ("print".to_string(), sp(2)), ("mine".to_string(), sp(3))];
    let ws = collect_warnings(&core, &face, &defs);
    assert_eq!(ws.len(), 3);
    assert!(ws.iter().all(|w| w.severity == Severity::Warning));
    assert_eq!(ws[0].code, Some(DiagnosticCode(1003)));
    assert_eq!(ws[0].message, "宏名「print」遮蔽了内置名（W1003——宏胜出是本质能力，此处仅知会；若非故意请改名）");
    assert_eq!(ws[0].primary_span, sp(1));
    assert_eq!(ws[1].message, "模块「m」define「head」遮蔽了 import 注入名（R-N2：合法但多半是命名事故——改名或改用限定名可消除歧义）");
    assert_eq!(ws[1].primary_span, sp(4));
    assert_eq!(ws[2].message, "lambda 参数「tail」遮蔽了 import 注入名（R-N2：合法但多半是命名事故）");
    assert_eq!(ws[2].primary_span, sp(8));
}
