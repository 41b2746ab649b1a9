use kerf::lexer::{lex_source, operator_of, Lexer};
use kerf::token::{Delimiter, Keyword, Operator, ReadError, Token, TokenKind};

fn lex(src: &str) -> Result<Vec<Token>, ReadError> {
    lex_source(src, 0)
}

fn float_of(kind: &TokenKind) -> Option<f64> {
    match kind {
        TokenKind::FloatLiteral(t) => t.parse::<f64>().ok(),
        _ => None,
    }
}

#[test]
fn tokens_cover_input_losslessly() {
    let src = "(define x 1)";
    let toks = lex(src).unwrap();
    let mut prev_end = 0u32;
    for t in &toks {
        if t.is_eof() {
            continue;
        }
        assert!(t.span.start >= prev_end, "Token 区间重叠");
        prev_end = t.span.end;
    }
    assert!(prev_end <= src.len() as u32);
    assert_eq!(toks.iter().filter(|t| !t.is_eof()).count(), 5);
    assert!(toks.last().unwrap().is_eof());
}

#[test]
fn spans_are_exact() {
    let toks = lex("(+ 12 ab)").unwrap();
    assert_eq!(toks[1].span.start, 1);
    assert_eq!(toks[1].span.end, 2);
    assert_eq!(toks[2].span.start, 3);
    assert_eq!(toks[2].span.end, 5);
    assert_eq!(toks[3].span.start, 6);
    assert_eq!(toks[3].span.end, 8);
}

#[test]
fn string_escapes_and_newline() {
    let toks = lex("\"a\\nb\nc\"").unwrap();
    match &toks[0].kind {
        TokenKind::StringLiteral(s) => assert_eq!(s.as_str(), "a\nb\nc"),
        other => panic!("期望字符串，实际 {:?}", other),
    }
}

#[test]
fn float_int_and_scientific() {
    let toks = lex("3 3.5 1e3 -5 -5.5 +7").unwrap();
    assert!(matches!(toks[0].kind, TokenKind::IntLiteral(3)));
    assert!(matches!(float_of(&toks[1].kind), Some(f) if (f - 3.5).abs() < f64::EPSILON));
    assert!(matches!(float_of(&toks[2].kind), Some(f) if (f - 1000.0).abs() < 1.0));
    assert!(matches!(toks[3].kind, TokenKind::IntLiteral(-5)));
    assert!(matches!(float_of(&toks[4].kind), Some(f) if (f + 5.5).abs() < f64::EPSILON));
    assert!(matches!(toks[5].kind, TokenKind::IntLiteral(7)));
}

#[test]
fn operators_lexed_from_symbols() {
    let toks = lex("+ - * / <= >= = mod < >").unwrap();
    assert!(matches!(toks[0].kind, TokenKind::Operator(Operator::Add, _)));
    assert!(matches!(toks[1].kind, TokenKind::Operator(Operator::Sub, _)));
    assert!(matches!(toks[4].kind, TokenKind::Operator(Operator::Le, _)));
    assert!(matches!(toks[5].kind, TokenKind::Operator(Operator::Ge, _)));
    assert!(matches!(toks[7].kind, TokenKind::Operator(Operator::Mod, _)));
}

#[test]
fn greedy_number_rejected() {
    let err = lex("123abc").unwrap_err();
    assert!(err.message.contains("紧跟标识符字符"));
}

#[test]
fn illegal_char_has_span() {
    let err = lex("(+ ~ 1)").unwrap_err();
    assert!(err.message.contains("非法字符"));
    assert_eq!(err.span.start, 3);
    assert_eq!(err.span.end, 4);
}

#[test]
fn comments_skipped() {
    let toks = lex("; 行注释\n(+ 1 2) ; 尾注\n#| 块\n注释 |# 3").unwrap();
    let non_eof: Vec<&Token> = toks.iter().filter(|t| !t.is_eof()).collect();
    assert_eq!(non_eof.len(), 6);
}

#[test]
fn unclosed_string_is_error() {
    let err = lex("\"abc").unwrap_err();
    assert!(err.message.contains("未闭合"));
}

#[test]
fn unclosed_block_comment_is_error() {
    let err = lex("#| abc").unwrap_err();
    assert!(err.message.contains("块注释"));
}

#[test]
fn quote_shorthand_token() {
    let toks = lex("'x").unwrap();
    assert!(matches!(toks[0].kind, TokenKind::QuoteShorthand));
}

#[test]
fn booleans_and_nil() {
    let toks = lex("true false nil").unwrap();
    assert!(matches!(toks[0].kind, TokenKind::BoolLiteral(true)));
    assert!(matches!(toks[1].kind, TokenKind::BoolLiteral(false)));
    assert!(matches!(toks[2].kind, TokenKind::NilLiteral));
}

#[test]
fn block_comment_nesting() {
    let toks = lex("#| 外层 #| 内层 |# 仍在外层 |# 42").unwrap();
    let non_eof: Vec<&Token> = toks.iter().filter(|t| !t.is_eof()).collect();
    assert_eq!(non_eof.len(), 1);
    assert!(matches!(non_eof[0].kind, TokenKind::IntLiteral(42)));
}

#[test]
fn keyword_vs_identifier() {
    let toks = lex("lambda lambdax if iff").unwrap();
    assert!(matches!(toks[0].kind, TokenKind::Keyword(Keyword::Lambda)));
    assert!(matches!(toks[1].kind, TokenKind::Identifier(_)));
    assert!(matches!(toks[2].kind, TokenKind::Keyword(Keyword::If)));
    assert!(matches!(toks[3].kind, TokenKind::Identifier(_)));
}

#[test]
fn keywords_have_their_spellings() {
    let toks = lex("set! let* define-syntax syntax-rules fn assign do").unwrap();
    assert!(toks[0].is_keyword(Keyword::SetBang));
    assert!(toks[1].is_keyword(Keyword::LetStar));
    assert!(toks[2].is_keyword(Keyword::DefineSyntax));
    assert!(toks[3].is_keyword(Keyword::SyntaxRules));
    assert!(toks[4].is_keyword(Keyword::Fn));
    assert!(toks[5].is_keyword(Keyword::Assign));
    assert!(toks[6].is_keyword(Keyword::Do));
    assert!(!toks[6].is_keyword(Keyword::Fn));
    assert_eq!(Keyword::from_name("letrec"), Some(Keyword::LetRec));
    assert_eq!(Keyword::from_name("letrecx"), None);
    assert_eq!(Keyword::Unless.as_str(), "unless");
}

#[test]
fn spans_are_utf8_byte_offsets() {
    let toks = lex("(λ \"é\" x)").unwrap();
    assert_eq!((toks[1].span.start, toks[1].span.end), (1, 3));
    assert_eq!((toks[2].span.start, toks[2].span.end), (4, 8));
    assert_eq!((toks[3].span.start, toks[3].span.end), (9, 10));
    let eof = toks.last().unwrap();
    assert!(eof.is_eof());
    assert_eq!((eof.span.start, eof.span.end), (11, 11));
}

#[test]
fn lexer_error_messages_exact() {
    assert_eq!(lex("(+ ~ 1)").unwrap_err().message, "非法字符 '~'");
    assert_eq!(lex("12x").unwrap_err().message, "数字 '12' 后紧跟标识符字符 'x'（应为独立 Token）");
    let e = lex("1e+").unwrap_err();
    assert_eq!(e.message, "非法数字字面量 '1e+'（指数缺少数字）");
    assert_eq!((e.span.start, e.span.end), (0, 3));
    let e = lex("\"a\\q\"").unwrap_err();
    assert_eq!(e.message, "非法转义字符 '\\q'");
    assert_eq!((e.span.start, e.span.end), (2, 4));
    assert_eq!(lex("\"abc").unwrap_err().message, "字符串未闭合（文件意外结束）");
    assert_eq!(lex("#| abc").unwrap_err().message, "块注释 #|...|# 未闭合");
}

#[test]
fn integer_range_is_checked() {
    let toks = lex("9223372036854775807 -9223372036854775808").unwrap();
    assert!(matches!(toks[0].kind, TokenKind::IntLiteral(i64::MAX)));
    assert!(matches!(toks[1].kind, TokenKind::IntLiteral(i64::MIN)));
    let e = lex("9223372036854775808").unwrap_err();
    assert_eq!(e.message, "整数超出范围 '9223372036854775808'");
    assert_eq!((e.span.start, e.span.end), (0, 19));
}

#[test]
fn dots_and_ellipsis() {
    let toks = lex("... .. ...x").unwrap();
    assert!(matches!(&toks[0].kind, TokenKind::Identifier(s) if s == "..."));
    assert!(matches!(&toks[1].kind, TokenKind::Identifier(s) if s == ".."));
    assert!(matches!(&toks[2].kind, TokenKind::Identifier(s) if s == "...x"));
    assert!(lex(".").is_err());
}

#[test]
fn float_text_is_normalised() {
    let toks = lex("2.5E-3 -1e10").unwrap();
    assert!(matches!(&toks[0].kind, TokenKind::FloatLiteral(t) if t == "2.5e-3"));
    assert!(matches!(&toks[1].kind, TokenKind::FloatLiteral(t) if t == "-1e10"));
}

#[test]
fn delimiters_and_operator_table() {
    let toks = lex("([ ])").unwrap();
    assert!(matches!(toks[0].kind, TokenKind::Delimiter(Delimiter::OpenParen)));
    assert!(matches!(toks[1].kind, TokenKind::Delimiter(Delimiter::OpenBracket)));
    assert!(matches!(toks[2].kind, TokenKind::Delimiter(Delimiter::CloseBracket)));
    assert!(matches!(toks[3].kind, TokenKind::Delimiter(Delimiter::CloseParen)));
    assert_eq!(operator_of("mod"), Some(Operator::Mod));
    assert_eq!(operator_of(">="), Some(Operator::Ge));
    assert_eq!(operator_of("=="), None);
    assert_eq!(operator_of("x"), None);
}

#[test]
fn lexer_run_matches_lex_source() {
    let mut lx = Lexer::new("(a 1)", 3);
    let toks = lx.run().unwrap();
    assert_eq!(toks, lex_source("(a 1)", 3).unwrap());
    assert_eq!(toks[0].span.file_id, 3);
}

#[test]
fn unicode_white_space_separates_tokens() {
    for sep in ["\u{3000}", "\u{a0}", "\u{2009}", "\u{85}", "\u{2028}"] {
        let src = format!("ab{}cd", sep);
        let toks = lex(&src).unwrap();
        assert_eq!(toks.iter().filter(|t| !t.is_eof()).count(), 2, "separator {:?}", sep);
        assert!(sep.chars().all(|c| c.is_whitespace()));
    }
}

#[test]
fn zero_width_space_is_not_white_space() {
    assert!(!'\u{200b}'.is_whitespace());
    let r = lex("ab\u{200b}cd");
    match r {
        Ok(toks) => assert_ne!(toks.iter().filter(|t| !t.is_eof()).count(), 2),
        Err(_) => {}
    }
}

#[test]
fn every_keyword_lexes_as_itself() {
    let all = Keyword::all();
    assert_eq!(all.len(), 25);
    for k in all {
        let toks = lex(k.as_str()).unwrap();
        assert!(toks[0].is_keyword(k), "{}", k.as_str());
        assert_eq!(Keyword::from_name(k.as_str()), Some(k));
    }
}
