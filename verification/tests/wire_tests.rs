use kerf::core_expr::Capability;
use kerf::span::Span;
use kerf::wire::{core_from_node, core_to_node, literal_node, Lit, Node, NodeDatum, WireCore};

fn node(datum: NodeDatum, kind: &str) -> Node {
    Node { datum, kind: kind.to_string() }
}

fn sym(s: &str) -> Node {
    node(NodeDatum::Sym(s.to_string()), "symbol")
}

fn num(i: i64) -> Node {
    node(NodeDatum::Int(i), "int")
}

fn text(s: &str) -> Node {
    node(NodeDatum::Str(s.to_string()), "str")
}

fn list(items: Vec<Node>) -> Node {
    let mut acc = node(NodeDatum::Nil, "nil");
    for n in items.into_iter().rev() {
        acc = node(NodeDatum::Pair(Box::new(n), Box::new(acc)), "pair");
    }
    acc
}

fn span(file_id: u32, start: u32, end: u32) -> Span {
    Span { file_id, start, end, expansion_id: 0 }
}

const X: &str = "[bootstrap-exp] 自举 Expander 内部错误：";
const R: &str = "[bootstrap] 自举 Reader 内部错误：";

#[test]
fn var_node_is_read_with_its_scopes() {
    let n = list(vec![sym("var"), num(1), num(5), num(0), text("x"), list(vec![num(3), num(4)])]);
    let e = core_from_node(&n, 7).unwrap();
    match e {
        WireCore::VarRef { name, scopes, span: sp } => {
            assert_eq!(name, "x");
            assert_eq!(scopes, vec![3, 4]);
            assert_eq!((sp.file_id, sp.start, sp.end, sp.expansion_id), (7, 1, 5, 0));
        }
        other => panic!("unexpected {:?}", other),
    }
}

#[test]
fn short_node_is_refused() {
    let n = list(vec![sym("var"), num(1), num(5)]);
    assert_eq!(core_from_node(&n, 0).unwrap_err(), format!("{}core 节点字段数异常", X));
}

#[test]
fn tag_must_be_a_symbol() {
    let n = list(vec![num(9), num(1), num(5), num(0)]);
    assert_eq!(core_from_node(&n, 0).unwrap_err(), format!("{}期望 symbol 字段，实际 int", R));
}

#[test]
fn unknown_tag_is_refused() {
    let n = list(vec![sym("foo"), num(1), num(5), num(0)]);
    assert_eq!(core_from_node(&n, 0).unwrap_err(), format!("{}未知 core 节点种类 'foo'", X));
}

#[test]
fn unknown_capability_is_refused() {
    let n = list(vec![sym("require"), num(0), num(1), num(0), text("read"), text("net")]);
    assert_eq!(core_from_node(&n, 0).unwrap_err(), format!("{}未知能力项「net」", X));
}

#[test]
fn if_needs_three_fields() {
    let n = list(vec![sym("if"), num(0), num(1), num(0), num(1), num(2)]);
    assert_eq!(core_from_node(&n, 0).unwrap_err(), format!("{}if 节点字段数异常", X));
}

#[test]
fn var_without_scopes_misses_a_field() {
    let n = list(vec![sym("var"), num(0), num(1), num(0), text("x")]);
    assert_eq!(core_from_node(&n, 0).unwrap_err(), format!("{}core 节点字段缺失", X));
}

#[test]
fn unsupported_literal_names_its_type() {
    let n = list(vec![sym("lit"), num(0), num(1), num(0), node(NodeDatum::Other, "closure")]);
    assert_eq!(core_from_node(&n, 0).unwrap_err(), format!("{}不支持的字面量值 closure", X));
}

#[test]
fn literal_is_read_as_it_stands() {
    let n = list(vec![sym("lit"), num(2), num(4), num(0), num(42)]);
    match core_from_node(&n, 1).unwrap() {
        WireCore::Literal { value: Lit::Int(42), span: sp } => assert_eq!((sp.start, sp.end), (2, 4)),
        other => panic!("unexpected {:?}", other),
    }
}

#[test]
fn literal_is_written_tagged() {
    let n = literal_node(&Lit::Bool(true));
    match n.datum {
        NodeDatum::Pair(a, b) => {
            assert!(matches!(a.datum, NodeDatum::Sym(ref s) if s == "true"));
            assert!(matches!(b.datum, NodeDatum::Nil));
        }
        other => panic!("unexpected {:?}", other),
    }
}

#[test]
fn written_program_reads_back() {
    let e = WireCore::Module {
        name: "m".to_string(),
        imports: vec!["io".to_string()],
        exports: vec!["f".to_string()],
        body: vec![
            WireCore::Define {
                name: "f".to_string(),
                value: Box::new(WireCore::Lambda {
                    params: vec!["a".to_string()],
                    param_scopes: vec![vec![1, 2]],
                    body: Box::new(WireCore::App {
                        fn_expr: Box::new(WireCore::VarRef { name: "g".to_string(), scopes: vec![], span: span(3, 1, 2) }),
                        args: vec![WireCore::VarRef { name: "a".to_string(), scopes: vec![2], span: span(3, 3, 4) }],
                        span: span(3, 0, 5),
                    }),
                    span: span(3, 0, 6),
                }),
                span: span(3, 0, 7),
            },
            WireCore::Require { caps: vec![Capability::IoWrite], span: span(3, 8, 9) },
            WireCore::If {
                cond: Box::new(WireCore::VarRef { name: "c".to_string(), scopes: vec![5], span: span(3, 10, 11) }),
                then_branch: Box::new(WireCore::Begin { body: vec![], span: span(3, 12, 13) }),
                else_branch: Box::new(WireCore::SetBang {
                    name: "c".to_string(),
                    scopes: vec![5],
                    value: Box::new(WireCore::VarRef { name: "d".to_string(), scopes: vec![], span: span(3, 14, 15) }),
                    span: span(3, 14, 16),
                }),
                span: span(3, 10, 17),
            },
        ],
        span: span(3, 0, 20),
    };
    let back = core_from_node(&core_to_node(&e), 3).unwrap();
    assert_eq!(format!("{:?}", back), format!("{:?}", e));
}

#[test]
fn written_literal_does_not_read_back_as_itself() {
    let e = WireCore::Literal { value: Lit::Int(1), span: span(0, 0, 1) };
    let back = core_from_node(&core_to_node(&e), 0).unwrap();
    assert_ne!(format!("{:?}", back), format!("{:?}", e));
}
