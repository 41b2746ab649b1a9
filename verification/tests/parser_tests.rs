use kerf::lexer::lex_source;
use kerf::parser::{parse_tokens, read_program, read_source, Parser, Stx, StxDatum, StxLiteral, MAX_NESTING_DEPTH};
use kerf::token::ReadError;

fn read(src: &str) -> Result<Vec<Stx>, ReadError> {
    read_source(src, 0)
}

fn render(s: &Stx) -> String {
    match &s.datum {
        StxDatum::Literal(StxLiteral::Int(v)) => v.to_string(),
        StxDatum::Literal(StxLiteral::Float(t)) => t.clone(),
        StxDatum::Literal(StxLiteral::Str(t)) => format!("{:?}", t),
        StxDatum::Literal(StxLiteral::Bool(b)) => b.to_string(),
        StxDatum::Literal(StxLiteral::Nil) => "nil".to_string(),
        StxDatum::Symbol(n) => n.clone(),
        StxDatum::List(items) => {
            format!("({})", items.iter().map(render).collect::<Vec<_>>().join(" "))
        }
        StxDatum::Vector(items) => {
            format!("[{}]", items.iter().map(render).collect::<Vec<_>>().join(" "))
        }
    }
}

#[test]
fn parse_nested_list() {
    let forms = read("(+ 1 (* 2 3))").unwrap();
    let rendered: Vec<String> = forms.iter().map(render).collect();
    assert_eq!(rendered, vec!["(+ 1 (* 2 3))"]);
}

#[test]
fn parse_multiple_toplevel_forms() {
    let forms = read("(define x 1)\n(+ x 2)\n42").unwrap();
    assert_eq!(forms.len(), 3);
}

#[test]
fn quote_shorthand_expands() {
    let forms = read("'(1 2 3)").unwrap();
    assert!(matches!(forms[0].datum, StxDatum::List(_)));
    assert_eq!(render(&forms[0]), "(quote (1 2 3))");
}

#[test]
fn unclosed_paren_error_has_span() {
    let err = read("(define x 1").unwrap_err();
    assert!(err.message.contains("未闭合"));
    assert_eq!(err.span.start, 0);
}

#[test]
fn mismatched_brackets_error() {
    let err = read("(+ 1 2]").unwrap_err();
    assert!(err.message.contains("括号不匹配"));
}

#[test]
fn stray_close_error() {
    let err = read(")").unwrap_err();
    assert!(err.message.contains("多余的关闭括号"));
}

#[test]
fn vector_datum() {
    let forms = read("[1 2 3]").unwrap();
    assert!(matches!(forms[0].datum, StxDatum::Vector(ref v) if v.len() == 3));
}

#[test]
fn spans_merge_over_list() {
    let src = "(do 1)";
    let forms = read(src).unwrap();
    let stx = &forms[0];
    assert_eq!(stx.span.start, 0);
    assert_eq!(stx.span.end, src.len() as u32);
}

#[test]
fn keyword_as_symbol_datum() {
    let forms = read("fn").unwrap();
    assert!(matches!(forms[0].datum, StxDatum::Symbol(_)));
}

#[test]
fn parser_error_messages_exact() {
    assert_eq!(read("(+ 1 2]").unwrap_err().message, "括号不匹配：'(' 应以 ')' 关闭，实际 ']'");
    assert_eq!(read("[1").unwrap_err().message, "括号未闭合：缺少 ']'");
    assert_eq!(read("]").unwrap_err().message, "多余的关闭括号：']'");
    let e = read("'").unwrap_err();
    assert_eq!(e.message, "意外的文件结束（期望表达式）");
    assert_eq!((e.span.start, e.span.end), (1, 1));
}

#[test]
fn nesting_limit() {
    let ok: String = "(".repeat(MAX_NESTING_DEPTH) + &")".repeat(MAX_NESTING_DEPTH);
    assert!(read(&ok).is_ok());
    let deep: String = "(".repeat(MAX_NESTING_DEPTH + 1) + &")".repeat(MAX_NESTING_DEPTH + 1);
    let e = read(&deep).unwrap_err();
    assert_eq!(e.message, "嵌套深度超过上限 256");
    assert_eq!(e.span.start, MAX_NESTING_DEPTH as u32);
}

#[test]
fn parser_steps_and_entry_points_agree() {
    let toks = lex_source("a 'b", 0).unwrap();
    let mut p = Parser::new(&toks);
    let a = p.parse_datum().unwrap();
    assert_eq!(render(&a), "a");
    let b = p.parse_datum().unwrap();
    assert_eq!(render(&b), "(quote b)");
    assert_eq!(b.span.start, 2);
    assert_eq!(b.span.end, 4);
    assert_eq!(parse_tokens(&toks).unwrap().len(), 2);
    assert_eq!(read_program("a 'b", 0).unwrap().len(), 2);
    let mut p2 = Parser::new(&toks);
    assert_eq!(p2.parse_program().unwrap().len(), 2);
}

#[test]
fn keywords_read_as_their_symbols() {
    let forms = read("(lambda (x) x)").unwrap();
    match &forms[0].datum {
        StxDatum::List(items) => assert!(matches!(&items[0].datum, StxDatum::Symbol(s) if s == "lambda")),
        other => panic!("unexpected {:?}", other),
    }
}
