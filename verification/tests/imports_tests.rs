use kerf::imports::program_imports_prelude;
use kerf::diagnostic::DiagnosticCode;
use kerf::driver::Stage;
use kerf::imports::{
    collect_import_face, collect_import_targets, import_target_ns, imports_prelude, verify_import_face,
    ImportFace,
};
use kerf::modules::{is_allowed_module, is_exported, removed_builtin_modern, removed_builtin_names, stdlib_modules};
use kerf::parser::read_source;
use kerf::source_map::SourceMap;
use kerf::span::Span;

#[test]
fn module_table_counts() {
    let rows = stdlib_modules();
    assert_eq!(rows.len(), 47);
    for (ns, n) in [("core", 14), ("pair", 3), ("list", 9), ("string", 11), ("symbol", 2), ("io", 6), ("char", 2)] {
        assert_eq!(rows.iter().filter(|r| r.0 == ns).count(), n);
    }
    assert_eq!(removed_builtin_names().len(), 27);
}

#[test]
fn exports_and_retired_names() {
    assert!(is_exported("string", "append"));
    assert!(is_exported("char", "is-alphabetic"));
    assert!(!is_exported("string", "nope"));
    assert!(!is_exported("strings", "append"));
    assert_eq!(removed_builtin_modern("car"), Some("head"));
    assert_eq!(removed_builtin_modern("assert-eq?"), Some("assert-eq"));
    assert_eq!(removed_builtin_modern("head"), None);
    assert!(is_allowed_module("kerf-prelude"));
    assert!(is_allowed_module("kerf-char"));
    assert!(!is_allowed_module("kerf-net"));
}

#[test]
fn target_namespace_strips_prefix() {
    assert_eq!(import_target_ns("kerf-string"), "string");
    assert_eq!(import_target_ns("kerf-"), "");
    assert_eq!(import_target_ns("mine"), "mine");
    assert_eq!(import_target_ns("kerf"), "kerf");
}

#[test]
fn face_collects_unqualified_aliases_and_injected() {
    let forms = read_source("(module m (import kerf-pair kerf-string as str) (export f) (import kerf-char) (define f 1))", 0).unwrap();
    let face = collect_import_face(&forms);
    assert_eq!(face.unqualified, vec!["pair".to_string(), "char".to_string()]);
    assert_eq!(face.aliases, vec![("str".to_string(), "string".to_string())]);
    assert_eq!(
        face.injected_names,
        vec!["cons", "head", "tail", "is-whitespace", "is-alphabetic"].iter().map(|s| s.to_string()).collect::<Vec<_>>()
    );
    let targets = collect_import_targets(&forms);
    let names: Vec<&str> = targets.iter().map(|t| t.0.as_str()).collect();
    assert_eq!(names, vec!["kerf-pair", "kerf-string", "kerf-char"]);
    assert_eq!(targets[0].1.start, 18);
}

#[test]
fn header_stops_at_first_body_form() {
    let forms = read_source("(module m (define x 1) (import kerf-pair))", 0).unwrap();
    let face = collect_import_face(&forms);
    assert!(face.unqualified.is_empty() && face.aliases.is_empty());
    assert!(collect_import_targets(&forms).is_empty());
    let not_module = read_source("(begin (import kerf-pair))", 0).unwrap();
    assert!(collect_import_face(&not_module).unqualified.is_empty());
}

#[test]
fn prelude_import_detected() {
    let forms = read_source("(module m (import kerf-prelude)) (module n (import kerf-pair))", 0).unwrap();
    assert!(imports_prelude(&forms[0]));
    assert!(!imports_prelude(&forms[1]));
    let body = read_source("(module m (define a 1) (import kerf-prelude))", 0).unwrap();
    assert!(!imports_prelude(&body[0]));
}

fn check(src: &str) -> Result<(), kerf::driver::DriverError> {
    let mut sm = SourceMap::new();
    let fid = sm.add_file("m.krf", src);
    let forms = read_source(src, fid).unwrap();
    let face = collect_import_face(&forms);
    let targets = collect_import_targets(&forms);
    verify_import_face(&face, &sm, &targets)
}

#[test]
fn unknown_module_is_e0019() {
    let err = check("(module m (import kerf-net))").unwrap_err();
    assert_eq!(err.stage, Stage::Compile);
    assert_eq!(err.diagnostic.code, Some(DiagnosticCode(19)));
    assert_eq!(
        err.diagnostic.message,
        "未知导入模块「kerf-net」（在册名单：kerf-prelude / kerf-core / kerf-pair / kerf-list / kerf-string / kerf-symbol / kerf-io / kerf-char——import 仅接标准库模块，用户模块间导入属 Stage 3 编译单元窗口）"
    );
    assert_eq!(err.diagnostic.primary_span.start, 18);
}

#[test]
fn clashing_unqualified_imports_are_e0013() {
    let err = check("(module m (import kerf-list kerf-string))").unwrap_err();
    assert_eq!(err.diagnostic.code, Some(DiagnosticCode(13)));
    assert_eq!(
        err.diagnostic.message,
        "import 冲突：「length」来自 kerf-list 与 kerf-string（两模块同名导出——显式错误非静默遮蔽；逃生阀 = 限定导入 (import kerf-list as 别名)）"
    );
    assert!(check("(module m (import kerf-list kerf-string as s))").is_ok());
    assert!(check("(module m (import kerf-list kerf-list kerf-prelude))").is_ok());
}

#[test]
fn duplicate_alias_is_e0017() {
    let err = check("(module m (import kerf-list as x kerf-string as x))").unwrap_err();
    assert_eq!(err.diagnostic.code, Some(DiagnosticCode(17)));
    assert!(err.diagnostic.message.starts_with("别名重复：「x」被多次绑定"));
}

#[test]
fn empty_face_passes() {
    let sm = SourceMap::new();
    assert!(verify_import_face(&ImportFace::default(), &sm, &vec![]).is_ok());
    let face = ImportFace {
        unqualified: vec!["list".to_string(), "string".to_string()],
        aliases: vec![],
        injected_names: vec![],
    };
    let err = verify_import_face(&face, &sm, &vec![]).unwrap_err();
    assert_eq!(err.diagnostic.primary_span, Span::dummy());
}

#[test]
fn program_prelude_detection() {
    let with = read_source("(define x 1) (module m (import kerf-prelude))", 0).unwrap();
    assert!(program_imports_prelude(&with));
    let without = read_source("(module m (import kerf-pair)) (import kerf-prelude)", 0).unwrap();
    assert!(!program_imports_prelude(&without));
}
