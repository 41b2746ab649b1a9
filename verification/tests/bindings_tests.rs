use kerf::bindings::{reserved_stx_diag, verify_reserved_bindings_stx};
use kerf::diagnostic::DiagnosticCode;
use kerf::driver::Stage;
use kerf::parser::read_source;
use kerf::source_map::SourceMap;

fn keywords() -> Vec<String> {
    ["define", "lambda", "if", "set!", "let", "letrec", "let*", "quote", "module", "import", "begin", "when"]
        .iter()
        .map(|s| s.to_string())
        .collect()
}

fn first(src: &str) -> Option<(String, u32, String)> {
    let forms = read_source(src, 0).unwrap();
    let kw = keywords();
    for f in &forms {
        if let Some((n, sp, kind)) = reserved_stx_diag(f, &kw) {
            return Some((n, sp.start, kind));
        }
    }
    None
}

#[test]
fn define_of_keyword_is_refused() {
    assert_eq!(first("(define if 5)"), Some(("if".to_string(), 8, "绑定名".to_string())));
    assert_eq!(first("(set! when 1)"), Some(("when".to_string(), 6, "赋值目标".to_string())));
    assert_eq!(first("(module let)"), Some(("let".to_string(), 8, "模块名".to_string())));
    assert_eq!(first("(define x 5)"), None);
}

#[test]
fn lambda_let_and_alias_binders() {
    assert_eq!(first("(lambda (x if) x)"), Some(("if".to_string(), 11, "lambda 参数".to_string())));
    assert_eq!(first("(let ((a 1) (quote 2)) a)"), Some(("quote".to_string(), 13, "let 绑定名".to_string())));
    assert_eq!(first("(import kerf-string as begin)"), Some(("begin".to_string(), 23, "import 别名".to_string())));
    assert_eq!(first("(import kerf-string as str)"), None);
}

#[test]
fn macro_templates_are_data_but_nesting_is_checked() {
    assert_eq!(first("(define-syntax m (syntax-rules () ((m) (define if 1))))"), None);
    assert_eq!(first("(define-syntax if 1)"), Some(("if".to_string(), 15, "宏名".to_string())));
    assert_eq!(first("(begin (f 1) (lambda () (define lambda 2)))"), Some(("lambda".to_string(), 32, "绑定名".to_string())));
}

#[test]
fn verify_reports_e0020_at_compile_stage() {
    let src = "(define ok 1)\n(define if 5)";
    let mut sm = SourceMap::new();
    let fid = sm.add_file("r.krf", src);
    let forms = read_source(src, fid).unwrap();
    let err = verify_reserved_bindings_stx(&forms, &keywords(), &sm).unwrap_err();
    assert_eq!(err.stage, Stage::Compile);
    assert_eq!(err.diagnostic.code, Some(DiagnosticCode(20)));
    assert!(err.diagnostic.message.starts_with("保留字不可绑定：「if」是 N4 关键字（绑定名）"));
    assert!(err.rendered.contains("error[E0020]"));
    assert!(err.rendered.contains("r.krf:2:9"));
    let good = read_source("(define x 1)", fid).unwrap();
    assert!(verify_reserved_bindings_stx(&good, &keywords(), &sm).is_ok());
}
