use kerf::span::Span;
use kerf::sugar::{
    desugar_and, desugar_cond, desugar_let, desugar_let_star, desugar_letrec, desugar_or,
    desugar_unless, desugar_when, desugar_while, ScopedDatum, ScopedLiteral, ScopedStx, SugarWords,
};
use kerf::symbol::Symbol;

const NAMES: [&str; 16] = [
    "fn", "begin", "if", "assign", "let", "letrec", "let*", "else", "x", "y", "+", "f", "a", "b",
    "c", "loop$hyg$1",
];

fn id(name: &str) -> Symbol {
    Symbol(NAMES.iter().position(|n| *n == name).unwrap() as u32)
}

fn words() -> SugarWords {
    SugarWords {
        lambda: id("fn"),
        begin: id("begin"),
        if_: id("if"),
        set_bang: id("assign"),
        let_: id("let"),
        letrec: id("letrec"),
        let_star: id("let*"),
        else_: id("else"),
    }
}

fn at(start: u32) -> Span {
    Span::new(0, start, start + 1)
}

fn sym(name: &str) -> ScopedStx {
    ScopedStx { datum: ScopedDatum::Symbol(id(name)), span: at(0), scopes: vec![] }
}

fn num(i: i64) -> ScopedStx {
    ScopedStx { datum: ScopedDatum::Literal(ScopedLiteral::Int(i)), span: at(0), scopes: vec![] }
}

fn list(items: Vec<ScopedStx>) -> ScopedStx {
    ScopedStx { datum: ScopedDatum::List(items), span: at(0), scopes: vec![] }
}

fn render(s: &ScopedStx) -> String {
    match &s.datum {
        ScopedDatum::Symbol(n) => NAMES[n.0 as usize].to_string(),
        ScopedDatum::Literal(ScopedLiteral::Int(i)) => i.to_string(),
        ScopedDatum::Literal(ScopedLiteral::Bool(b)) => b.to_string(),
        ScopedDatum::Literal(ScopedLiteral::Nil) => "nil".to_string(),
        ScopedDatum::Literal(other) => format!("{:?}", other),
        ScopedDatum::List(items) | ScopedDatum::Vector(items) => {
            format!("({})", items.iter().map(render).collect::<Vec<_>>().join(" "))
        }
    }
}

#[test]
fn let_becomes_lambda_application() {
    let args = vec![
        list(vec![list(vec![sym("x"), num(1)]), list(vec![sym("y"), num(2)])]),
        list(vec![sym("+"), sym("x"), sym("y")]),
    ];
    let out = desugar_let(&args, &words()).unwrap();
    assert_eq!(render(&out), "((fn (x y) (+ x y)) 1 2)");
    assert!(out.scopes.is_empty());
}

#[test]
fn let_errors_name_the_bad_part() {
    let w = words();
    assert_eq!(desugar_let(&vec![list(vec![])], &w).unwrap_err(), "let 形式：(let ((名 值)...) 体...)");
    assert_eq!(desugar_let(&vec![num(1), num(2)], &w).unwrap_err(), "let 绑定组必须是列表");
    let not_pair = vec![list(vec![list(vec![sym("x")])]), num(1)];
    assert_eq!(desugar_let(&not_pair, &w).unwrap_err(), "let 绑定必须是 (名 值) 二元列表");
    let not_sym = vec![list(vec![list(vec![num(3), num(1)])]), num(1)];
    assert_eq!(desugar_let(&not_sym, &w).unwrap_err(), "let 绑定名必须是符号");
}

#[test]
fn letrec_assigns_before_the_body() {
    let args = vec![
        list(vec![list(vec![sym("f"), list(vec![sym("fn"), list(vec![]), num(1)])])]),
        list(vec![sym("f")]),
    ];
    let out = desugar_letrec(&args, &words()).unwrap();
    assert_eq!(render(&out), "((fn (f) (begin (assign f (fn () 1)) (f))) nil)");
    assert_eq!(desugar_letrec(&vec![num(1)], &words()).unwrap_err(), "letrec 形式：(letrec ((名 值)...) 体...)");
}

#[test]
fn let_star_nests_one_binding_at_a_time() {
    let args = vec![
        list(vec![list(vec![sym("x"), num(1)]), list(vec![sym("y"), sym("x")])]),
        sym("y"),
    ];
    let out = desugar_let_star(&args, &words()).unwrap();
    assert_eq!(render(&out), "(let ((x 1)) (let* ((y x)) y))");
    let empty = vec![list(vec![]), num(7)];
    assert_eq!(render(&desugar_let_star(&empty, &words()).unwrap()), "((fn () 7))");
}

#[test]
fn cond_builds_an_if_chain() {
    let args = vec![
        list(vec![sym("a"), num(1)]),
        list(vec![sym("b"), num(2)]),
        list(vec![sym("else"), num(3)]),
    ];
    let out = desugar_cond(&args, &words()).unwrap();
    assert_eq!(render(&out), "(if a 1 (if b 2 3))");
    let no_else = vec![list(vec![sym("a")])];
    assert_eq!(render(&desugar_cond(&no_else, &words()).unwrap()), "(if a a nil)");
    let many = vec![list(vec![sym("a"), num(1), num(2)])];
    assert_eq!(render(&desugar_cond(&many, &words()).unwrap()), "(if a (begin 1 2) nil)");
}

#[test]
fn cond_errors() {
    assert_eq!(desugar_cond(&vec![], &words()).unwrap_err(), "cond 需要至少一个子句");
    let bad = vec![list(vec![sym("a"), num(1)]), list(vec![])];
    assert_eq!(desugar_cond(&bad, &words()).unwrap_err(), "cond 子句必须是非空列表");
}

#[test]
fn and_or_chains() {
    let w = words();
    let abc = vec![sym("a"), sym("b"), sym("c")];
    assert_eq!(render(&desugar_and(&abc, &w).unwrap()), "(if a (if b c false) false)");
    let ab = vec![sym("a"), sym("b")];
    assert_eq!(render(&desugar_or(&ab, &w).unwrap()), "(if a true b)");
    assert_eq!(render(&desugar_and(&vec![], &w).unwrap()), "true");
    assert_eq!(render(&desugar_or(&vec![], &w).unwrap()), "false");
    assert_eq!(render(&desugar_and(&vec![sym("a")], &w).unwrap()), "a");
}

#[test]
fn when_and_unless() {
    let w = words();
    let args = vec![sym("a"), num(1), num(2)];
    assert_eq!(render(&desugar_when(&args, &w).unwrap()), "(if a (begin 1 2) nil)");
    assert_eq!(render(&desugar_unless(&args, &w).unwrap()), "(if a nil (begin 1 2))");
    assert_eq!(desugar_when(&vec![], &w).unwrap_err(), "when 形式：(when 条件 体...)");
    assert_eq!(desugar_unless(&vec![], &w).unwrap_err(), "unless 形式：(unless 条件 体...)");
}

#[test]
fn while_loops_through_the_fresh_symbol() {
    let args = vec![sym("a"), num(1)];
    let out = desugar_while(&args, &words(), id("loop$hyg$1")).unwrap();
    assert_eq!(
        render(&out),
        "(letrec ((loop$hyg$1 (fn () (if a (begin 1 (loop$hyg$1)) nil)))) (loop$hyg$1))"
    );
    assert_eq!(desugar_while(&vec![], &words(), id("loop$hyg$1")).unwrap_err(), "while 形式：(while 条件 体...)");
}

#[test]
fn sugar_keeps_spans_and_scopes() {
    let mut first = sym("a");
    first.span = at(5);
    first.scopes = vec![3, 4];
    let out = desugar_when(&vec![first, num(1)], &words()).unwrap();
    assert_eq!(out.span, at(5));
    assert_eq!(out.scopes, vec![3, 4]);
}
