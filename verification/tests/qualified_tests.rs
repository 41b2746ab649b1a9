use kerf::core_expr::CoreExpr;
use kerf::diagnostic::DiagnosticCode;
use kerf::imports::ImportFace;
use kerf::qualified::{qualified_ref_diag, rewrite_alias_expr, rewrite_alias_refs, verify_qualified_refs};
use kerf::source_map::SourceMap;
use kerf::span::Span;

fn var(name: &str) -> CoreExpr {
    CoreExpr::VarRef { name: name.to_string(), span: Span::new(0, 3, 4) }
}

fn face_with_alias(alias: &str, ns: &str) -> ImportFace {
    ImportFace { unqualified: vec![], aliases: vec![(alias.to_string(), ns.to_string())], injected_names: vec![] }
}

fn diag_of(e: &CoreExpr, face: &ImportFace) -> Option<(u32, String)> {
    qualified_ref_diag(e, &vec![], &vec![], face).map(|d| (d.code.unwrap().0, d.message))
}

#[test]
fn exported_qualified_name_passes() {
    let face = ImportFace::default();
    assert_eq!(diag_of(&var("string/append"), &face), None);
    assert_eq!(diag_of(&var("x"), &face), None);
    assert_eq!(diag_of(&var("/"), &face), None);
}

#[test]
fn unexported_qualified_name_is_e0014() {
    let face = ImportFace::default();
    assert_eq!(
        diag_of(&var("string/nope"), &face),
        Some((14, "「string」不导出「nope」（限定名无回落——R-N3：仅查模块 export 面，不查全局/局部/其他模块）".to_string()))
    );
    let aliased = face_with_alias("str", "string");
    assert_eq!(diag_of(&var("str/append"), &aliased), None);
    assert_eq!(
        diag_of(&var("str/nope"), &aliased),
        Some((14, "「string」不导出「nope」（限定名无回落——R-N3：仅查模块 export 面，不查全局/局部/其他模块（别名 str → kerf-string））".to_string()))
    );
}

#[test]
fn retired_name_is_e0021() {
    let face = ImportFace::default();
    assert_eq!(
        diag_of(&var("car$hyg$2"), &face),
        Some((21, "「car」已于 v0.9 移除——现代名「head」（20 §7 移除轮；限定名形 kerf 域亦可用）".to_string()))
    );
}

#[test]
fn reserved_module_name_is_e0015() {
    let face = ImportFace::default();
    let m = CoreExpr::Module { name: "kerf-mine".to_string(), imports: vec![], exports: vec![], body: vec![], span: Span::new(0, 1, 2) };
    let (code, msg) = diag_of(&m, &face).unwrap();
    assert_eq!(code, 15);
    assert_eq!(msg, "保留域违例：模块名「kerf-mine」占用 kerf- 前缀（标准库保留域——22 §7；用户模块名请去前缀）");
    let ok = CoreExpr::Module { name: "kerf-string".to_string(), imports: vec![], exports: vec![], body: vec![], span: Span::new(0, 1, 2) };
    assert_eq!(diag_of(&ok, &face), None);
}

#[test]
fn lambda_parameter_shadows_and_takeover_exempts() {
    let face = ImportFace::default();
    let lam = CoreExpr::Lambda { params: vec!["foo/bar".to_string()], body: Box::new(var("foo/bar")), span: Span::dummy() };
    assert_eq!(diag_of(&lam, &face), None);
    let mut sm = SourceMap::new();
    sm.add_file("t.krf", "(define foo/bar 1) foo/bar car");
    let core = vec![
        CoreExpr::Define { name: "foo/bar".to_string(), value: Box::new(CoreExpr::Literal { span: Span::dummy() }), span: Span::dummy() },
        var("foo/bar"),
    ];
    assert!(verify_qualified_refs(&core, &face, &sm).is_ok());
    let core2 = vec![var("foo/bar")];
    let err = verify_qualified_refs(&core2, &face, &sm).unwrap_err();
    assert_eq!(err.diagnostic.code, Some(DiagnosticCode(14)));
}

#[test]
fn alias_rewrite_renames_references() {
    let face = face_with_alias("str", "string");
    let e = CoreExpr::App {
        fn_expr: Box::new(var("str/append$hyg$4")),
        args: vec![var("str"), var("other/x")],
        span: Span::dummy(),
    };
    match rewrite_alias_expr(&e, &face) {
        CoreExpr::App { fn_expr, args, .. } => {
            match *fn_expr {
                CoreExpr::VarRef { name, .. } => assert_eq!(name, "string/append"),
                _ => panic!("reference expected"),
            }
            match (&args[0], &args[1]) {
                (CoreExpr::VarRef { name: a, .. }, CoreExpr::VarRef { name: b, .. }) => {
                    assert_eq!(a, "str");
                    assert_eq!(b, "other/x");
                }
                _ => panic!("references expected"),
            }
        }
        _ => panic!("application expected"),
    }
}

#[test]
fn no_aliases_keeps_program() {
    let core = vec![var("str/append")];
    let out = rewrite_alias_refs(core, &ImportFace::default());
    match &out[0] {
        CoreExpr::VarRef { name, .. } => assert_eq!(name, "str/append"),
        _ => panic!("reference expected"),
    }
}
