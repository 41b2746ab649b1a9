use kerf::core_expr::Capability;
use kerf::forms::{module_header, require_capabilities};
use kerf::span::Span;
use kerf::sugar::{ScopedDatum, ScopedLiteral, ScopedStx};
use kerf::symbol::Symbol;

fn at(start: u32) -> Span {
    Span::new(0, start, start + 1)
}

fn names(items: &[Option<&str>]) -> (Vec<Option<String>>, Vec<Span>) {
    let n = items.iter().map(|i| i.map(|s| s.to_string())).collect();
    let spans = (0..items.len() as u32).map(at).collect();
    (n, spans)
}

fn sym(n: u32, start: u32) -> ScopedStx {
    ScopedStx { datum: ScopedDatum::Symbol(Symbol(n)), span: at(start), scopes: vec![] }
}

fn num(i: i64, start: u32) -> ScopedStx {
    ScopedStx { datum: ScopedDatum::Literal(ScopedLiteral::Int(i)), span: at(start), scopes: vec![] }
}

fn list(items: Vec<ScopedStx>) -> ScopedStx {
    ScopedStx { datum: ScopedDatum::List(items), span: at(0), scopes: vec![] }
}

const MODULE: u32 = 0;
const IMPORT: u32 = 1;
const EXPORT: u32 = 2;

#[test]
fn require_keeps_each_capability_once() {
    let (n, s) = names(&[Some("require"), Some("io"), Some("write"), Some("read"), Some("write")]);
    let caps = require_capabilities(&n, &s, at(0)).unwrap();
    assert_eq!(caps, vec![Capability::IoWrite, Capability::IoRead]);
}

#[test]
fn require_errors() {
    let (n, s) = names(&[Some("require"), Some("io")]);
    let e = require_capabilities(&n, &s, at(9)).unwrap_err();
    assert_eq!(e.message, "require 形式：(require io read|write)——主体与能力项不可缺省");
    assert_eq!(e.span, at(9));
    let (n, s) = names(&[Some("require"), None, Some("read")]);
    assert_eq!(require_capabilities(&n, &s, at(0)).unwrap_err().message, "require 主体必须是符号（当前仅 io）");
    let (n, s) = names(&[Some("require"), Some("net"), Some("read")]);
    let e = require_capabilities(&n, &s, at(0)).unwrap_err();
    assert_eq!(e.message, "未知能力主体「net」（当前仅支持 io；net/process 属 Stage 2）");
    assert_eq!(e.span, at(1));
    let (n, s) = names(&[Some("require"), Some("io"), Some("read"), None]);
    let e = require_capabilities(&n, &s, at(0)).unwrap_err();
    assert_eq!(e.message, "require 能力项必须是符号（read/write）");
    assert_eq!(e.span, at(3));
    let (n, s) = names(&[Some("require"), Some("io"), Some("exec")]);
    assert_eq!(require_capabilities(&n, &s, at(0)).unwrap_err().message, "未知能力项「exec」（当前仅 read/write）");
}

#[test]
fn module_header_reads_imports_and_exports() {
    let items = vec![
        sym(MODULE, 0),
        sym(10, 1),
        list(vec![sym(IMPORT, 2), sym(11, 3), sym(12, 4)]),
        list(vec![sym(EXPORT, 5), sym(13, 6)]),
        list(vec![sym(IMPORT, 7), sym(14, 8)]),
        num(1, 9),
    ];
    let h = module_header(&items, at(0), Symbol(IMPORT), Symbol(EXPORT)).unwrap();
    assert_eq!(h.name, Symbol(10));
    assert_eq!(h.imports, vec![Symbol(11), Symbol(12), Symbol(14)]);
    assert_eq!(h.exports, vec![Symbol(13)]);
    assert_eq!(h.body_start, 5);
}

#[test]
fn module_header_errors() {
    let e = module_header(&vec![sym(MODULE, 0)], at(4), Symbol(IMPORT), Symbol(EXPORT)).unwrap_err();
    assert_eq!(e.message, "module 形式：(module 名 [(import ...)] [(export ...)] 体...)");
    assert_eq!(e.span, at(4));
    let e = module_header(&vec![sym(MODULE, 0), num(1, 3)], at(0), Symbol(IMPORT), Symbol(EXPORT)).unwrap_err();
    assert_eq!(e.message, "module 名必须是符号");
    assert_eq!(e.span, at(3));
    let bad_export = vec![sym(MODULE, 0), sym(10, 1), list(vec![sym(EXPORT, 2), num(5, 6)])];
    let e = module_header(&bad_export, at(0), Symbol(IMPORT), Symbol(EXPORT)).unwrap_err();
    assert_eq!(e.message, "export 项必须是符号");
    assert_eq!(e.span, at(6));
    let body_only = vec![sym(MODULE, 0), sym(10, 1), list(vec![sym(20, 2)])];
    assert_eq!(module_header(&body_only, at(0), Symbol(IMPORT), Symbol(EXPORT)).unwrap().body_start, 2);
}

use kerf::forms::{body_rewrite, define_shape, define_syntax, lambda_params, setbang_target, DefineShape};

const LAMBDA: u32 = 3;
const DEFINE: u32 = 4;
const SET: u32 = 5;
const RULES: u32 = 6;

fn show(s: &ScopedStx) -> String {
    match &s.datum {
        ScopedDatum::Symbol(n) => format!("s{}", n.0),
        ScopedDatum::Literal(ScopedLiteral::Int(i)) => i.to_string(),
        ScopedDatum::Literal(ScopedLiteral::Nil) => "nil".to_string(),
        ScopedDatum::Literal(other) => format!("{:?}", other),
        ScopedDatum::List(items) | ScopedDatum::Vector(items) => {
            format!("({})", items.iter().map(show).collect::<Vec<_>>().join(" "))
        }
    }
}

#[test]
fn lambda_parameters_are_distinct_symbols() {
    let ok = vec![sym(LAMBDA, 0), list(vec![sym(10, 1), sym(11, 2)]), num(1, 3)];
    assert_eq!(lambda_params(&ok, at(0)).unwrap(), vec![Symbol(10), Symbol(11)]);
    let dup = vec![sym(LAMBDA, 0), list(vec![sym(10, 1), sym(10, 2)]), num(1, 3)];
    let e = lambda_params(&dup, at(0)).unwrap_err();
    assert_eq!(e.message, "lambda 参数重名（同名形参只允许出现一次）");
    assert_eq!(e.span, at(2));
    let nested = vec![sym(LAMBDA, 0), list(vec![list(vec![])]), num(1, 3)];
    assert_eq!(lambda_params(&nested, at(0)).unwrap_err().message, "lambda 参数必须是符号（不支持解构参数）");
    let not_list = vec![sym(LAMBDA, 0), sym(10, 1), num(1, 3)];
    assert_eq!(lambda_params(&not_list, at(0)).unwrap_err().message, "lambda 参数必须是符号列表");
    let short = vec![sym(LAMBDA, 0), list(vec![])];
    assert_eq!(lambda_params(&short, at(7)).unwrap_err().span, at(7));
}

#[test]
fn set_target_must_be_a_symbol() {
    assert_eq!(setbang_target(&vec![sym(SET, 0), sym(10, 1), num(1, 2)], at(0)).unwrap(), Symbol(10));
    assert_eq!(setbang_target(&vec![sym(SET, 0), num(3, 1), num(1, 2)], at(0)).unwrap_err().message, "set! 目标必须是符号");
    assert_eq!(setbang_target(&vec![sym(SET, 0), sym(10, 1)], at(0)).unwrap_err().message, "set! 形式：(set! 名 值)");
}

#[test]
fn define_function_sugar_becomes_lambda() {
    let items = vec![sym(DEFINE, 0), list(vec![sym(10, 1), sym(11, 2)]), list(vec![sym(12, 3), sym(11, 4)])];
    match define_shape(&items, at(0), Symbol(LAMBDA), Symbol(DEFINE)).unwrap() {
        DefineShape::Function(f) => assert_eq!(show(&f), "(s4 s10 (s3 (s11) (s12 s11)))"),
        DefineShape::Value(_) => panic!("function sugar expected"),
    }
    let value = vec![sym(DEFINE, 0), sym(10, 1), num(2, 2)];
    assert!(matches!(define_shape(&value, at(0), Symbol(LAMBDA), Symbol(DEFINE)).unwrap(), DefineShape::Value(Symbol(10))));
    let two = vec![sym(DEFINE, 0), sym(10, 1), num(2, 2), num(3, 3)];
    assert_eq!(
        define_shape(&two, at(0), Symbol(LAMBDA), Symbol(DEFINE)).unwrap_err().message,
        "define 值形式必须是单个表达式（函数糖请用 (define (名 参数...) 体...)）"
    );
    let bad_head = vec![sym(DEFINE, 0), list(vec![num(1, 1)]), num(2, 2)];
    assert_eq!(define_shape(&bad_head, at(0), Symbol(LAMBDA), Symbol(DEFINE)).unwrap_err().message, "define 函数糖首元素必须是符号");
}

#[test]
fn inner_defines_are_hoisted() {
    let body = vec![list(vec![sym(DEFINE, 0), sym(11, 1), num(2, 2)]), list(vec![sym(12, 3), sym(10, 4), sym(11, 5)])];
    let out = body_rewrite(&body, Symbol(DEFINE), Symbol(LAMBDA), Symbol(SET)).unwrap().unwrap();
    assert_eq!(show(&out), "((s3 (s11) (s5 s11 2) (s12 s10 s11)) nil)");
    let plain = vec![list(vec![sym(12, 3), sym(10, 4)])];
    assert!(body_rewrite(&plain, Symbol(DEFINE), Symbol(LAMBDA), Symbol(SET)).unwrap().is_none());
}

#[test]
fn define_after_an_expression_is_an_error() {
    let body = vec![list(vec![sym(12, 0), sym(10, 1)]), list(vec![sym(DEFINE, 2), sym(11, 3), num(2, 4)])];
    let e = body_rewrite(&body, Symbol(DEFINE), Symbol(LAMBDA), Symbol(SET)).unwrap_err();
    assert_eq!(e.message, "define 必须位于函数体头部（后续 define 不合法）");
    assert_eq!(e.span, at(0));
}

#[test]
fn define_syntax_reads_the_rule_set() {
    let rules_form = list(vec![sym(RULES, 5), list(vec![]), list(vec![list(vec![sym(2, 6)]), num(1, 7)])]);
    let items = vec![sym(7, 0), sym(10, 1), rules_form];
    let (name, rules) = define_syntax(&items, at(0), Symbol(RULES)).unwrap();
    assert_eq!(name, Symbol(10));
    assert_eq!(rules.clause_count(), 1);
    let not_rules = vec![sym(7, 0), sym(10, 1), list(vec![sym(11, 2)])];
    assert_eq!(define_syntax(&not_rules, at(0), Symbol(RULES)).unwrap_err().message, "define-syntax 第二参数必须是 (syntax-rules ...) 形式");
    let no_clause = vec![sym(7, 0), sym(10, 1), list(vec![sym(RULES, 2), list(vec![])])];
    assert_eq!(
        define_syntax(&no_clause, at(0), Symbol(RULES)).unwrap_err().message,
        "syntax-rules 解析失败：syntax-rules 至少需要一个子句"
    );
}
