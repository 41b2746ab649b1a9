use kerf::diagnostic::{Diagnostic, DiagnosticCode};
use kerf::expander::ExpandError;
use kerf::recover::DiagCollector;
use kerf::report::{merge_check_diagnostics, sort_by_position};
use kerf::source_map::SourceMap;
use kerf::span::Span;

fn d(msg: &str, file: u32, start: u32, end: u32) -> Diagnostic {
    Diagnostic::error(Some(DiagnosticCode(5)), msg, Span::new(file, start, end))
}

#[test]
fn sort_is_stable_by_position() {
    let v = vec![d("c", 0, 5, 6), d("a", 0, 1, 2), d("b", 0, 1, 2), d("z", 1, 0, 1), d("e", 0, 1, 1)];
    let out = sort_by_position(v);
    let msgs: Vec<&str> = out.iter().map(|x| x.message.as_str()).collect();
    assert_eq!(msgs, vec!["e", "a", "b", "c", "z"]);
}

#[test]
fn recovering_check_merges_and_renders() {
    let mut sm = SourceMap::new();
    sm.add_file("t.krf", "(a)\n(b)\n(c)");
    let mut c = DiagCollector::new();
    c.push(ExpandError::new("late", Span::new(0, 8, 11)));
    c.push(ExpandError::new("early", Span::new(0, 0, 3)));
    let types = vec![d("middle", 0, 4, 7)];
    let warnings = vec![Diagnostic::warning(Some(DiagnosticCode(1002)), "w", Span::new(0, 0, 1))];
    let r = merge_check_diagnostics(c, types, &warnings, &sm);
    let msgs: Vec<&str> = r.diagnostics.iter().map(|x| x.message.as_str()).collect();
    assert_eq!(msgs, vec!["early", "middle", "late"]);
    assert_eq!(r.diagnostics[0].code, Some(DiagnosticCode(2)));
    assert_eq!(r.rendered.len(), 4);
    assert!(r.rendered[0].starts_with("error[E0002]: early"));
    assert!(r.rendered[3].starts_with("warning[W1002]: w") || r.rendered[3].starts_with("warning"));
}

#[test]
fn full_collector_adds_note() {
    let sm = SourceMap::new();
    let mut c = DiagCollector::new();
    for _ in 0..200 {
        if c.is_full() {
            c.mark_truncated();
        } else {
            c.push(ExpandError::new("x", Span::dummy()));
        }
    }
    let r = merge_check_diagnostics(c, vec![], &vec![], &sm);
    assert_eq!(r.diagnostics.len(), 128);
    assert_eq!(r.rendered.last().unwrap(), "note: 展开诊断达到上限 128（截断——诊断风暴防护）");
}
