use kerf::driver::internal_failure_text;
use kerf::driver::{case_outcome, compile_failure_detail, false_assertion_detail, split_test_program};
use kerf::core_expr::CoreExpr;
use kerf::driver::{first_line, truncate_form_name, DriverError, Stage, TestCaseOutcome, TestReport};
use kerf::expander::ExpandError;
use kerf::source_map::SourceMap;
use kerf::span::Span;
use kerf::token::ReadError;

#[test]
fn stage_labels() {
    assert_eq!(Stage::Read.label(), "read");
    assert_eq!(Stage::Expand.label(), "expand");
    assert_eq!(Stage::Compile.label(), "compile");
    assert_eq!(Stage::Run.label(), "run");
}

#[test]
fn read_error_is_rendered() {
    let mut sm = SourceMap::new();
    let fid = sm.add_file("t.krf", "(+ 1");
    let e = ReadError::new("括号未闭合：缺少 ')'", Span::new(fid, 0, 1));
    let d = DriverError::from_read(&e, &sm);
    assert_eq!(d.stage, Stage::Read);
    assert!(d.rendered.starts_with("error[E0001]: 括号未闭合"));
    assert!(d.to_text().starts_with("[read] error[E0001]"));
}

#[test]
fn expand_error_is_rendered() {
    let mut sm = SourceMap::new();
    let fid = sm.add_file("t.krf", "(if)");
    let e = ExpandError::new("if 需要条件", Span::new(fid, 0, 4));
    let d = DriverError::from_expand(&e, &sm);
    assert_eq!(d.stage, Stage::Expand);
    assert!(d.rendered.starts_with("error[E0002]: if 需要条件"));
}

#[test]
fn form_names_are_truncated_at_64_chars() {
    let short = "(define x 1)";
    assert_eq!(truncate_form_name(short), short);
    let long: String = std::iter::repeat('字').take(70).collect();
    let t = truncate_form_name(&long);
    assert_eq!(t.chars().count(), 65);
    assert!(t.ends_with('…'));
    let exact: String = std::iter::repeat('a').take(64).collect();
    assert_eq!(truncate_form_name(&exact), exact);
}

#[test]
fn first_line_of_messages() {
    assert_eq!(first_line("one\ntwo"), "one");
    assert_eq!(first_line("one\r\ntwo"), "one");
    assert_eq!(first_line(""), "");
    assert_eq!(first_line("\nx"), "");
    assert_eq!(first_line("single"), "single");
}

#[test]
fn report_all_passed() {
    let ok = TestReport { cases: vec![], passed: 2, failed: 0 };
    assert!(ok.all_passed());
    let bad = TestReport {
        cases: vec![TestCaseOutcome { index: 1, name: "x".into(), pass: false, detail: "d".into() }],
        passed: 0,
        failed: 1,
    };
    assert!(!bad.all_passed());
}

#[test]
fn report_counts_cases() {
    let cases = vec![
        case_outcome(1, "(= 1 1)", None),
        case_outcome(2, "(= 1 2)", Some("断言返回 #f".to_string())),
        case_outcome(3, "(f)", None),
    ];
    assert!(cases[0].pass && !cases[1].pass);
    assert_eq!(cases[1].detail, "断言返回 #f");
    assert_eq!(cases[0].detail, "");
    let r = TestReport::from_cases(cases);
    assert_eq!((r.passed, r.failed), (2, 1));
    assert!(!r.all_passed());
    assert_eq!(r.cases[2].index, 3);
}

#[test]
fn failure_details() {
    assert_eq!(compile_failure_detail("error[E0003]: bad\n  --> x"), "用例编译失败：error[E0003]: bad");
    assert_eq!(false_assertion_detail("#f"), "断言返回 #f（期望非 #f 值）——求值结果 #f");
}

#[test]
fn test_program_split_keeps_order() {
    let lit = |n: u32| CoreExpr::Literal { span: Span::new(0, n, n) };
    let core = vec![
        CoreExpr::Define { name: "a".to_string(), value: Box::new(lit(0)), span: Span::new(0, 1, 1) },
        lit(2),
        CoreExpr::Require { caps: vec![], span: Span::new(0, 3, 3) },
        lit(4),
        CoreExpr::SetBang { name: "a".to_string(), value: Box::new(lit(0)), span: Span::new(0, 5, 5) },
    ];
    let (prelude, cases) = split_test_program(core);
    let starts = |v: &Vec<CoreExpr>| -> Vec<u32> {
        v.iter()
            .map(|e| match e {
                CoreExpr::Define { span, .. } | CoreExpr::Require { span, .. } | CoreExpr::SetBang { span, .. } => span.start,
                CoreExpr::Literal { span } => span.start,
                _ => 99,
            })
            .collect()
    };
    assert_eq!(starts(&prelude), vec![1, 3, 5]);
    assert_eq!(starts(&cases), vec![2, 4]);
}

#[test]
fn run_and_compile_errors() {
    let mut sm = SourceMap::new();
    let f = sm.add_file("r.krf", "(car 1)\n(f)");
    let e = DriverError::from_vm(None, "类型错误", Span::new(f, 0, 7), &vec![Span::new(f, 8, 11)], &sm);
    assert_eq!(e.stage, Stage::Run);
    assert_eq!(e.diagnostic.code, Some(kerf::diagnostic::DiagnosticCode(4)));
    assert_eq!(e.diagnostic.children.len(), 1);
    assert_eq!(e.diagnostic.children[0].message, "调用点");
    let e7 = DriverError::from_vm(Some(7), "效应", Span::new(f, 0, 7), &vec![], &sm);
    assert_eq!(e7.diagnostic.code, Some(kerf::diagnostic::DiagnosticCode(7)));
    let c = DriverError::from_compile("坏", Span::new(f, 0, 1), &sm);
    assert_eq!(c.stage, Stage::Compile);
    assert!(c.rendered.starts_with("error[E0003]: 坏"));
    let t = internal_failure_text("Reader", 1, "boom", Span::new(f, 0, 1), &vec![], &sm);
    assert!(t.starts_with("error[E0001]: 自举 Reader 内部错误：boom"));
}

#[test]
fn report_counts_every_case_once() {
    let cases = vec![
        case_outcome(1, "(= 1 1)", None),
        case_outcome(2, "(= 1 2)", Some("断言为假".to_string())),
        case_outcome(3, "(= 2 2)", None),
    ];
    let r = TestReport::from_cases(cases);
    assert_eq!((r.passed, r.failed), (2, 1));
    assert_eq!(r.passed + r.failed, r.cases.len());
    assert!(!r.all_passed());
    let all = TestReport::from_cases(vec![case_outcome(1, "(= 1 1)", None)]);
    assert!(all.all_passed());
    let none = TestReport::from_cases(vec![]);
    assert!(none.all_passed());
}

#[test]
fn runs_are_numbered_from_one() {
    let r = TestReport::from_runs(vec![
        kerf::driver::CaseRun { rendered: "(= 1 1)".to_string(), failure: None },
        kerf::driver::CaseRun { rendered: "(= 1 2)".to_string(), failure: Some("断言为假".to_string()) },
    ]);
    assert_eq!(r.cases[0].index, 1);
    assert_eq!(r.cases[1].index, 2);
    assert_eq!(r.cases[1].name, "(= 1 2)");
    assert!(r.cases[0].pass && !r.cases[1].pass);
    assert_eq!((r.passed, r.failed), (1, 1));
    assert!(!r.all_passed());
}
