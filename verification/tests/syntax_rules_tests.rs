use kerf::span::Span;
use kerf::sugar::{ScopedDatum, ScopedLiteral, ScopedStx};
use kerf::symbol::Symbol;
use kerf::syntax_rules::{
    instantiate_template, introduced_symbols, match_datum, match_sequence, symbols_of, Bound, MacroMarkers,
    SyntaxRules,
};

const NAMES: [&str; 16] = [
    "syntax-rules", "...", "_", "my-add", "a", "b", "+", "tmp", "tmp$hyg$1", "x", "else", "list",
    "y", "if", "z", "w",
];

fn id(name: &str) -> Symbol {
    Symbol(NAMES.iter().position(|n| *n == name).unwrap() as u32)
}

fn marks() -> MacroMarkers {
    MacroMarkers { ellipsis: id("..."), wildcard: id("_") }
}

fn sym(name: &str) -> ScopedStx {
    ScopedStx { datum: ScopedDatum::Symbol(id(name)), span: Span::new(0, 0, 1), scopes: vec![] }
}

fn num(i: i64) -> ScopedStx {
    ScopedStx { datum: ScopedDatum::Literal(ScopedLiteral::Int(i)), span: Span::new(0, 0, 1), scopes: vec![] }
}

fn list(items: Vec<ScopedStx>) -> ScopedStx {
    ScopedStx { datum: ScopedDatum::List(items), span: Span::new(0, 0, 1), scopes: vec![] }
}

fn render(s: &ScopedStx) -> String {
    match &s.datum {
        ScopedDatum::Symbol(n) => NAMES[n.0 as usize].to_string(),
        ScopedDatum::Literal(ScopedLiteral::Int(i)) => i.to_string(),
        ScopedDatum::Literal(other) => format!("{:?}", other),
        ScopedDatum::List(items) | ScopedDatum::Vector(items) => {
            format!("({})", items.iter().map(render).collect::<Vec<_>>().join(" "))
        }
    }
}

fn rules(literals: Vec<ScopedStx>, clauses: Vec<ScopedStx>) -> ScopedStx {
    let mut items = vec![sym("syntax-rules"), list(literals)];
    items.extend(clauses);
    list(items)
}

fn expand(r: &SyntaxRules, args: Vec<ScopedStx>, keep: Vec<Symbol>) -> Option<String> {
    let mk = marks();
    let (k, bindings) = r.match_call(&args, &mk)?;
    let t = r.template(k);
    let renames: Vec<(Symbol, Symbol)> = introduced_symbols(t, &bindings, &keep, &mk)
        .into_iter()
        .map(|s| (s, id("tmp$hyg$1")))
        .collect();
    Some(render(&instantiate_template(t, &bindings, &keep, &renames, &mk)))
}

#[test]
fn simple_pattern_binds_and_substitutes() {
    let form = rules(
        vec![],
        vec![list(vec![
            list(vec![sym("_"), sym("a"), sym("b")]),
            list(vec![sym("+"), sym("a"), sym("b")]),
        ])],
    );
    let r = SyntaxRules::parse(&form).unwrap();
    assert_eq!(r.clause_count(), 1);
    let out = expand(&r, vec![num(1), num(2)], vec![id("+")]);
    assert_eq!(out.as_deref(), Some("(+ 1 2)"));
    assert_eq!(expand(&r, vec![num(1)], vec![id("+")]), None);
}

#[test]
fn introduced_symbols_are_renamed() {
    let form = rules(
        vec![],
        vec![list(vec![
            list(vec![sym("_"), sym("x")]),
            list(vec![sym("list"), sym("tmp"), sym("x"), sym("tmp")]),
        ])],
    );
    let r = SyntaxRules::parse(&form).unwrap();
    let mk = marks();
    let (k, bindings) = r.match_call(&vec![num(5)], &mk).unwrap();
    let keep = vec![id("list")];
    assert_eq!(introduced_symbols(r.template(k), &bindings, &keep, &mk), vec![id("tmp"), id("tmp")]);
    assert_eq!(expand(&r, vec![num(5)], keep).as_deref(), Some("(list tmp$hyg$1 5 tmp$hyg$1)"));
    assert_eq!(symbols_of(r.template(k)), vec![id("list"), id("tmp"), id("x"), id("tmp")]);
}

#[test]
fn ellipsis_matches_zero_or_more_and_splices() {
    let form = rules(
        vec![],
        vec![list(vec![
            list(vec![sym("_"), sym("x"), sym("...")]),
            list(vec![sym("list"), sym("x"), sym("...")]),
        ])],
    );
    let r = SyntaxRules::parse(&form).unwrap();
    let keep = vec![id("list")];
    assert_eq!(expand(&r, vec![], keep.clone()).as_deref(), Some("(list)"));
    assert_eq!(expand(&r, vec![num(1), num(2), num(3)], keep).as_deref(), Some("(list 1 2 3)"));
}

#[test]
fn literals_must_match_themselves_and_clauses_are_tried_in_order() {
    let form = rules(
        vec![sym("else")],
        vec![
            list(vec![list(vec![sym("_"), sym("else"), sym("y")]), sym("y")]),
            list(vec![list(vec![sym("_"), sym("z"), sym("y")]), list(vec![sym("if"), sym("z"), sym("y")])]),
        ],
    );
    let r = SyntaxRules::parse(&form).unwrap();
    let keep = vec![id("if")];
    assert_eq!(expand(&r, vec![sym("else"), num(4)], keep.clone()).as_deref(), Some("4"));
    assert_eq!(expand(&r, vec![num(0), num(4)], keep).as_deref(), Some("(if 0 4)"));
}

#[test]
fn nested_patterns_and_wildcards() {
    let mk = marks();
    let pattern = list(vec![sym("_"), list(vec![sym("a"), sym("b")])]);
    let form = list(vec![num(1), list(vec![num(2), num(3)])]);
    let bound = match_datum(&pattern, &form, &vec![], &mk, vec![]).unwrap();
    assert_eq!(bound.len(), 2);
    assert!(matches!(&bound[0].1, Bound::Single(s) if render(s) == "2"));
    assert!(match_datum(&pattern, &list(vec![num(1), num(2)]), &vec![], &mk, vec![]).is_none());
    let seq = match_sequence(&vec![sym("w"), sym("...")], &vec![num(1), num(2)], &vec![], &mk, vec![]).unwrap();
    assert!(matches!(&seq[0].1, Bound::Sequence(v) if v.len() == 2));
}

#[test]
fn parse_errors() {
    let bad = |f: ScopedStx| SyntaxRules::parse(&f).unwrap_err();
    assert_eq!(bad(num(1)), "syntax-rules 必须是列表");
    assert_eq!(bad(list(vec![sym("syntax-rules")])), "syntax-rules 缺少参数（至少需要字面量集合与一个子句）");
    assert_eq!(bad(list(vec![num(1), list(vec![])])), "syntax-rules 首元素必须是符号");
    assert_eq!(bad(list(vec![sym("syntax-rules"), num(1)])), "syntax-rules 第二元素必须是字面量列表");
    assert_eq!(bad(rules(vec![num(1)], vec![])), "syntax-rules 字面量必须是符号");
    assert_eq!(bad(rules(vec![], vec![list(vec![num(1)])])), "syntax-rules 子句必须是 (pattern template) 二元列表");
    assert_eq!(bad(rules(vec![], vec![])), "syntax-rules 至少需要一个子句");
}
