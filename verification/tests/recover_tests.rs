use kerf::expander::ExpandError;
use kerf::recover::{DiagCollector, MAX_DIAGNOSTICS};
use kerf::span::Span;

#[test]
fn collector_cap_at_128_with_truncation_flag() {
    let mut c = DiagCollector::default();
    for i in 0..MAX_DIAGNOSTICS + 10 {
        c.push(ExpandError {
            message: format!("err-{}", i),
            span: Span::dummy(),
        });
    }
    assert_eq!(c.len(), MAX_DIAGNOSTICS);
    assert!(c.truncated());
    assert!(c.is_full());
}

#[test]
fn collector_sorted_by_span_position() {
    let mut c = DiagCollector::default();
    let mk = |start: u32| Span {
        file_id: 0,
        start,
        end: start + 1,
        expansion_id: 0,
    };
    c.push(ExpandError {
        message: "late".into(),
        span: mk(90),
    });
    c.push(ExpandError {
        message: "early".into(),
        span: mk(10),
    });
    c.push(ExpandError {
        message: "mid".into(),
        span: mk(50),
    });
    let sorted = c.into_sorted();
    let starts: Vec<u32> = sorted.iter().map(|e| e.span.start).collect();
    assert_eq!(starts, vec![10, 50, 90]);
}

#[test]
fn collector_empty_and_not_full_defaults() {
    let c = DiagCollector::default();
    assert!(c.is_empty());
    assert!(!c.is_full());
    assert!(!c.truncated());
    assert_eq!(c.len(), 0);
}

#[test]
fn sort_is_stable_and_orders_by_file_then_end() {
    let mut c = DiagCollector::new();
    let sp = |file_id: u32, start: u32, end: u32| Span { file_id, start, end, expansion_id: 0 };
    c.push(ExpandError::new("b1", sp(1, 5, 6)));
    c.push(ExpandError::new("a1", sp(0, 7, 9)));
    c.push(ExpandError::new("a2", sp(0, 7, 8)));
    c.push(ExpandError::new("b2", sp(1, 5, 6)));
    c.push(ExpandError::new("a3", sp(0, 7, 8)));
    let names: Vec<String> = c.into_sorted().into_iter().map(|e| e.message).collect();
    assert_eq!(names, vec!["a2", "a3", "a1", "b1", "b2"]);
}

#[test]
fn mark_truncated_keeps_errors() {
    let mut c = DiagCollector::new();
    c.push(ExpandError::new("x", Span::dummy()));
    c.mark_truncated();
    assert!(c.truncated());
    assert_eq!(c.len(), 1);
    assert!(!c.is_empty());
}
