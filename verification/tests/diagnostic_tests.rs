use kerf::diagnostic::{render_diagnostic, Diagnostic, DiagnosticCode, Severity};
use kerf::source_map::SourceMap;
use kerf::span::Span;

#[test]
fn diagnostic_render_full_shape() {
    let mut sm = SourceMap::new();
    let id = sm.add_file("t.krf", "(+ # 1)");
    let diag = Diagnostic::error(Some(DiagnosticCode(1)), "非法字符 '#'", Span::new(id, 3, 4))
        .with_child(Severity::Note, "此处需要操作数", Span::new(id, 0, 7))
        .with_suggestion("是否想输入 1", Span::new(id, 3, 4), "1");
    let text = render_diagnostic(&diag, &sm);
    assert!(text.contains("error[E0001]: 非法字符 '#'"));
    assert!(text.contains("--> t.krf:1:4"));
    assert!(text.contains("note: 此处需要操作数"));
    assert!(text.contains("help: 是否想输入 1"));
}

#[test]
fn severity_labels() {
    assert_eq!(Severity::Error.label(), "error");
    assert_eq!(Severity::Warning.label(), "warning");
}

#[test]
fn code_render() {
    assert_eq!(DiagnosticCode(1).render(), "E0001");
    assert_eq!(DiagnosticCode(331).render(), "E0331");
}

#[test]
fn code_render_wide_numbers_are_not_cut() {
    assert_eq!(DiagnosticCode(1002).render(), "E1002");
    assert_eq!(DiagnosticCode(123456).render(), "E123456");
}

#[test]
fn render_exact_text() {
    let mut sm = SourceMap::new();
    let id = sm.add_file("t.krf", "(+ # 1)");
    let diag = Diagnostic::warning(None, "注意", Span::new(id, 3, 4))
        .with_child(Severity::Help, "看这里", Span::new(5, 0, 1))
        .with_suggestion("改为", Span::new(id, 3, 4), "1");
    let text = render_diagnostic(&diag, &sm);
    assert_eq!(
        text,
        "warning: 注意\n  --> t.krf:1:4\n   |\n   1 | (+ # 1)\n     |    ^\n  help: 看这里 (<unknown file 5>)\n  help: 改为 → 「1」\n"
    );
    assert!(!diag.is_error());
}

#[test]
fn render_unknown_primary_file_has_no_excerpt() {
    let sm = SourceMap::new();
    let diag = Diagnostic::error(Some(DiagnosticCode(4)), "boom", Span::new(3, 1, 2));
    assert_eq!(render_diagnostic(&diag, &sm), "error[E0004]: boom\n  --> <unknown file 3>\n");
    assert!(diag.is_error());
}
