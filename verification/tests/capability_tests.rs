use kerf::capability::{bare_builtin_registered, qualified_builtin_registered, registered_qualified_names};
use kerf::capability::{
    hygienic_base, required_capability, verify_io_capabilities, IoGrant, IoRequirements,
    StdCapabilityIO,
};
use kerf::core_expr::{Capability, CoreExpr};
use kerf::diagnostic::DiagnosticCode;
use kerf::driver::Stage;
use kerf::reserved::CapabilityIO;
use kerf::source_map::SourceMap;
use kerf::span::Span;

fn var(name: &str, span: Span) -> CoreExpr {
    CoreExpr::VarRef { name: name.to_string(), span }
}

fn require(caps: Vec<Capability>) -> CoreExpr {
    CoreExpr::Require { caps, span: Span::dummy() }
}

fn lit() -> CoreExpr {
    CoreExpr::Literal { span: Span::dummy() }
}

#[test]
fn requirements_extracted_from_require_forms() {
    let core = vec![require(vec![Capability::IoRead])];
    let req = IoRequirements::from_core(&core);
    assert!(req.read && !req.write);
}

#[test]
fn requirements_nested_in_module() {
    let core = vec![CoreExpr::Module {
        name: "m".to_string(),
        imports: vec![],
        exports: vec![],
        body: vec![require(vec![Capability::IoRead, Capability::IoWrite])],
        span: Span::dummy(),
    }];
    let req = IoRequirements::from_core(&core);
    assert!(req.read && req.write);
}

#[test]
fn undeclared_print_reference_is_e0006() {
    let src = "(print 42)";
    let mut sm = SourceMap::new();
    let fid = sm.add_file("t.krf", src);
    let core = vec![var("print", Span::new(fid, 1, 6))];
    let err = verify_io_capabilities(&core, &sm).unwrap_err();
    assert_eq!(err.stage, Stage::Compile);
    assert_eq!(err.diagnostic.code, Some(DiagnosticCode(6)));
    assert!(err.rendered.contains("print"));
    assert!(err.rendered.contains("(require io write)"));
    assert!(err.rendered.contains("error[E0006]"));
}

#[test]
fn declared_print_reference_passes() {
    let core = vec![require(vec![Capability::IoWrite]), var("print", Span::dummy())];
    let sm = SourceMap::new();
    assert!(verify_io_capabilities(&core, &sm).is_ok());
}

#[test]
fn read_builtin_needs_read_not_write() {
    let core = vec![require(vec![Capability::IoWrite]), var("read-line", Span::dummy())];
    let sm = SourceMap::new();
    let err = verify_io_capabilities(&core, &sm).unwrap_err();
    assert!(err.rendered.contains("(require io read)"));
}

#[test]
fn user_takeover_exempts_shadowed_builtin() {
    let core = vec![
        CoreExpr::Define { name: "print".to_string(), value: Box::new(lit()), span: Span::dummy() },
        var("print", Span::dummy()),
    ];
    let sm = SourceMap::new();
    assert!(verify_io_capabilities(&core, &sm).is_ok());
}

#[test]
fn alias_of_builtin_still_gated() {
    let core = vec![CoreExpr::Define {
        name: "my-print".to_string(),
        value: Box::new(var("print", Span::dummy())),
        span: Span::dummy(),
    }];
    let sm = SourceMap::new();
    let err = verify_io_capabilities(&core, &sm).unwrap_err();
    assert!(err.rendered.contains("print"));
}

#[test]
fn hygienic_base_resolves_gated_reference() {
    let core = vec![var("print$hyg$3", Span::dummy())];
    let sm = SourceMap::new();
    let err = verify_io_capabilities(&core, &sm).unwrap_err();
    assert!(err.rendered.contains("print"));
    let core2 = vec![var("print$hyg$x", Span::dummy())];
    let sm2 = SourceMap::new();
    assert!(verify_io_capabilities(&core2, &sm2).is_ok());
}

#[test]
fn hygienic_base_rule() {
    assert_eq!(hygienic_base("plain"), "plain");
    assert_eq!(hygienic_base("print$hyg$3"), "print");
    assert_eq!(hygienic_base("print$hyg$x"), "print$hyg$x");
    assert_eq!(hygienic_base("print$hyg$"), "print$hyg$");
}

#[test]
fn requirements_render() {
    assert_eq!(IoRequirements { read: true, write: false }.render(), "io:read");
    assert_eq!(IoRequirements::default().render(), "（未声明）");
    assert_eq!(IoRequirements { read: true, write: true }.render(), "io:read io:write");
    assert_eq!(IoRequirements { read: false, write: true }.render(), "io:write");
    assert!(IoRequirements::default().is_empty());
}

#[test]
fn grant_mints_only_declared() {
    let mut g = IoGrant::from_requirements(IoRequirements { read: true, write: false });
    assert!(g.read_handle().is_some());
    assert!(g.write_handle().is_none());
    assert_eq!(g.requirements().render(), "io:read");
    let mut none = IoGrant::none();
    assert!(none.read_handle().is_none() && none.write_handle().is_none());
}

#[test]
fn std_io_write_line_roundtrip() {
    let mut g = IoGrant::from_requirements(IoRequirements { read: false, write: true });
    let cap = g.write_handle().unwrap();
    assert!(<StdCapabilityIO as CapabilityIO>::write_line(cap, "").is_ok());
}

#[test]
fn gated_tables_are_disjoint() {
    for r in ["read-line", "read-int", "read-num"] {
        assert_eq!(required_capability(r), Some(Capability::IoRead));
    }
    for w in ["print", "newline", "write-string"] {
        assert_eq!(required_capability(w), Some(Capability::IoWrite));
    }
    assert_eq!(required_capability("cons"), None);
}

#[test]
fn permission_message_exact_and_first_in_order() {
    let mut sm = SourceMap::new();
    let fid = sm.add_file("m.krf", "(read-line)\n(print 1)");
    let core = vec![
        CoreExpr::App {
            fn_expr: Box::new(var("read-line", Span::new(fid, 1, 10))),
            args: vec![],
            span: Span::dummy(),
        },
        CoreExpr::App {
            fn_expr: Box::new(var("print", Span::new(fid, 13, 18))),
            args: vec![lit()],
            span: Span::dummy(),
        },
    ];
    let err = verify_io_capabilities(&core, &sm).unwrap_err();
    assert_eq!(
        err.diagnostic.message,
        "能力权限不足：「read-line」需要 read 能力——程序未声明 (require io read)（无令牌的 I/O 调用为编译期错误）"
    );
    assert_eq!(err.diagnostic.primary_span, Span::new(fid, 1, 10));
}

#[test]
fn setbang_takeover_and_nested_reference() {
    let core = vec![
        CoreExpr::Begin {
            body: vec![CoreExpr::SetBang {
                name: "newline".to_string(),
                value: Box::new(lit()),
                span: Span::dummy(),
            }],
            span: Span::dummy(),
        },
        CoreExpr::If {
            cond: Box::new(lit()),
            then_branch: Box::new(var("newline$hyg$12", Span::dummy())),
            else_branch: Box::new(CoreExpr::Lambda {
                params: vec!["x".to_string()],
                body: Box::new(var("write-string", Span::dummy())),
                span: Span::dummy(),
            }),
            span: Span::dummy(),
        },
    ];
    let sm = SourceMap::new();
    let err = verify_io_capabilities(&core, &sm).unwrap_err();
    assert!(err.diagnostic.message.contains("「write-string」"));
}

#[test]
fn effect_forms_are_traversed() {
    let core = vec![CoreExpr::Handle {
        payload_var: "v".to_string(),
        resume_var: "k".to_string(),
        handler_body: Box::new(require(vec![Capability::IoRead])),
        body: Box::new(CoreExpr::Perform { effect: Box::new(var("read-int", Span::dummy())), span: Span::dummy() }),
        span: Span::dummy(),
    }];
    let req = IoRequirements::from_core(&core);
    assert!(req.read && !req.write);
    let sm = SourceMap::new();
    assert!(verify_io_capabilities(&core, &sm).is_ok());
    let core2 = vec![CoreExpr::Perform { effect: Box::new(var("print", Span::dummy())), span: Span::dummy() }];
    assert!(verify_io_capabilities(&core2, &sm).is_err());
}

#[test]
fn quoted_symbols_lose_their_hygiene_suffix() {
    assert_eq!(kerf::capability::strip_hygiene_suffix("sym$hyg$3"), "sym");
    assert_eq!(kerf::capability::strip_hygiene_suffix("sym$hyg$x"), "sym$hyg$x");
    assert_eq!(kerf::capability::strip_hygiene_suffix("sym$hyg$"), "sym$hyg$");
    assert_eq!(kerf::capability::strip_hygiene_suffix("a$hyg$1$hyg$2"), "a$hyg$1");
    assert_eq!(kerf::capability::strip_hygiene_suffix("plain"), "plain");
}

#[test]
fn io_answers_carry_the_stream_in_their_errors() {
    use_answers();
}

fn use_answers() {
    let ok = kerf::capability::answer_read(Ok((6, "line\n\n".to_string()))).unwrap();
    assert_eq!(ok, "line");
    let eof = kerf::capability::answer_read(Ok((0, String::new()))).unwrap_err();
    assert_eq!(eof.message, "EOF");
    let bad = kerf::capability::answer_read(Err("broken pipe".to_string())).unwrap_err();
    assert_eq!(bad.message, "stdin 读取失败：broken pipe");
    assert!(kerf::capability::answer_write(Ok(())).is_ok());
    let werr = kerf::capability::answer_write(Err("closed".to_string())).unwrap_err();
    assert_eq!(werr.message, "stdout 写入失败：closed");
}

#[test]
fn gated_builtins_follow_the_grant() {
    let none = IoRequirements { read: false, write: false };
    let write = IoRequirements { read: false, write: true };
    let read = IoRequirements { read: true, write: false };
    assert!(!bare_builtin_registered("print", none));
    assert!(bare_builtin_registered("print", write));
    assert!(!bare_builtin_registered("read-int", write));
    assert!(bare_builtin_registered("read-int", read));
    assert!(bare_builtin_registered("cons", none));
    assert!(!qualified_builtin_registered("io", "newline", read));
    assert!(qualified_builtin_registered("io", "newline", write));
    assert!(qualified_builtin_registered("list", "length", none));
}

#[test]
fn qualified_names_follow_the_grant() {
    let none = registered_qualified_names(IoRequirements { read: false, write: false });
    let all = registered_qualified_names(IoRequirements { read: true, write: true });
    let write = registered_qualified_names(IoRequirements { read: false, write: true });
    assert_eq!(all.len(), none.len() + 6);
    assert_eq!(write.len(), none.len() + 3);
    assert!(all.contains(&"io/read-line".to_string()));
    assert!(write.contains(&"io/print".to_string()));
    assert!(!write.contains(&"io/read-num".to_string()));
    assert!(!none.iter().any(|n| n.starts_with("io/")));
    assert!(none.contains(&"string/index-of".to_string()));
}

#[test]
fn hygienic_names_strip_back_to_their_base() {
    let n = kerf::capability::hygienic_name("print", 12);
    assert_eq!(n, "print$hyg$12");
    assert_eq!(hygienic_base(&n), "print");
    let nested = kerf::capability::hygienic_name("x$hyg$3", 4);
    assert_eq!(hygienic_base(&nested), "x$hyg$3");
}
