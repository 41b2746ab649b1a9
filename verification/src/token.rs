//! Typed tokens of the reader.
//!
//! Each token carries its exact span; lexical and syntactic errors are
//! structured values `{ message, span }`.
use vstd::prelude::*;

use crate::span::Span;
use crate::text::{chars_of, push_char, push_str};

verus! {

/// Operators (infix symbols of the surface syntax, read as identifiers that
/// keep their classification).
#[derive(Debug, Clone, Copy, PartialEq, Eq, Structural, Hash)]
pub enum Operator {
    Add,
    Sub,
    Mul,
    Div,
    Mod,
    Lt,
    Gt,
    Le,
    Ge,
    Eq,
}

/// Delimiters: `(`, `)`, `[`, `]`.
#[derive(Debug, Clone, Copy, PartialEq, Eq, Structural, Hash)]
pub enum Delimiter {
    OpenParen,
    CloseParen,
    OpenBracket,
    CloseBracket,
}

/// The character of a delimiter.
pub open spec fn delimiter_char(d: Delimiter) -> char {
    match d {
        Delimiter::OpenParen => '(',
        Delimiter::CloseParen => ')',
        Delimiter::OpenBracket => '[',
        Delimiter::CloseBracket => ']',
    }
}

/// The delimiter that closes `open` (a closing delimiter maps to `)`).
pub open spec fn closing_delimiter(open: Delimiter) -> Delimiter {
    match open {
        Delimiter::OpenBracket => Delimiter::CloseBracket,
        _ => Delimiter::CloseParen,
    }
}

impl Delimiter {
    /// The delimiter's character.
    pub fn as_char(self) -> (c: char)
        ensures
            c == delimiter_char(self),
    {
        match self {
            Delimiter::OpenParen => '(',
            Delimiter::CloseParen => ')',
            Delimiter::OpenBracket => '[',
            Delimiter::CloseBracket => ']',
        }
    }

    /// The closing side that matches `open` (for bracket balancing).
    pub fn closing_of(open: Delimiter) -> (d: Delimiter)
        ensures
            d == closing_delimiter(open),
    {
        match open {
            Delimiter::OpenParen => Delimiter::CloseParen,
            Delimiter::OpenBracket => Delimiter::CloseBracket,
            _ => Delimiter::CloseParen,
        }
    }
}

/// The reserved words of the language, which the lexer reads as keyword
/// tokens.
#[derive(Debug, Clone, Copy, PartialEq, Eq, Structural, Hash)]
pub enum Keyword {
    Lambda,
    Define,
    If,
    SetBang,
    Begin,
    Let,
    LetRec,
    LetStar,
    Quote,
    Import,
    Export,
    Module,
    Require,
    Else,
    Cond,
    And,
    Or,
    When,
    Unless,
    While,
    Do,
    Fn,
    Assign,
    DefineSyntax,
    SyntaxRules,
}

/// The spelling of a keyword.
pub open spec fn keyword_text(k: Keyword) -> Seq<char> {
    match k {
        Keyword::Lambda => seq!['l', 'a', 'm', 'b', 'd', 'a'],
        Keyword::Define => seq!['d', 'e', 'f', 'i', 'n', 'e'],
        Keyword::If => seq!['i', 'f'],
        Keyword::SetBang => seq!['s', 'e', 't', '!'],
        Keyword::Begin => seq!['b', 'e', 'g', 'i', 'n'],
        Keyword::Let => seq!['l', 'e', 't'],
        Keyword::LetRec => seq!['l', 'e', 't', 'r', 'e', 'c'],
        Keyword::LetStar => seq!['l', 'e', 't', '*'],
        Keyword::Quote => seq!['q', 'u', 'o', 't', 'e'],
        Keyword::Import => seq!['i', 'm', 'p', 'o', 'r', 't'],
        Keyword::Export => seq!['e', 'x', 'p', 'o', 'r', 't'],
        Keyword::Module => seq!['m', 'o', 'd', 'u', 'l', 'e'],
        Keyword::Require => seq!['r', 'e', 'q', 'u', 'i', 'r', 'e'],
        Keyword::Else => seq!['e', 'l', 's', 'e'],
        Keyword::Cond => seq!['c', 'o', 'n', 'd'],
        Keyword::And => seq!['a', 'n', 'd'],
        Keyword::Or => seq!['o', 'r'],
        Keyword::When => seq!['w', 'h', 'e', 'n'],
        Keyword::Unless => seq!['u', 'n', 'l', 'e', 's', 's'],
        Keyword::While => seq!['w', 'h', 'i', 'l', 'e'],
        Keyword::Do => seq!['d', 'o'],
        Keyword::Fn => seq!['f', 'n'],
        Keyword::Assign => seq!['a', 's', 's', 'i', 'g', 'n'],
        Keyword::DefineSyntax => seq!['d', 'e', 'f', 'i', 'n', 'e', '-', 's', 'y', 'n', 't', 'a', 'x'],
        Keyword::SyntaxRules => seq!['s', 'y', 'n', 't', 'a', 'x', '-', 'r', 'u', 'l', 'e', 's'],
    }
}

/// The keyword a word spells, if any.
pub open spec fn spec_keyword_of(t: Seq<char>) -> Option<Keyword> {
    if t == keyword_text(Keyword::Lambda) {
        Some(Keyword::Lambda)
    } else if t == keyword_text(Keyword::Define) {
        Some(Keyword::Define)
    } else if t == keyword_text(Keyword::If) {
        Some(Keyword::If)
    } else if t == keyword_text(Keyword::SetBang) {
        Some(Keyword::SetBang)
    } else if t == keyword_text(Keyword::Begin) {
        Some(Keyword::Begin)
    } else if t == keyword_text(Keyword::Let) {
        Some(Keyword::Let)
    } else if t == keyword_text(Keyword::LetRec) {
        Some(Keyword::LetRec)
    } else if t == keyword_text(Keyword::LetStar) {
        Some(Keyword::LetStar)
    } else if t == keyword_text(Keyword::Quote) {
        Some(Keyword::Quote)
    } else if t == keyword_text(Keyword::Import) {
        Some(Keyword::Import)
    } else if t == keyword_text(Keyword::Export) {
        Some(Keyword::Export)
    } else if t == keyword_text(Keyword::Module) {
        Some(Keyword::Module)
    } else if t == keyword_text(Keyword::Require) {
        Some(Keyword::Require)
    } else if t == keyword_text(Keyword::Else) {
        Some(Keyword::Else)
    } else if t == keyword_text(Keyword::Cond) {
        Some(Keyword::Cond)
    } else if t == keyword_text(Keyword::And) {
        Some(Keyword::And)
    } else if t == keyword_text(Keyword::Or) {
        Some(Keyword::Or)
    } else if t == keyword_text(Keyword::When) {
        Some(Keyword::When)
    } else if t == keyword_text(Keyword::Unless) {
        Some(Keyword::Unless)
    } else if t == keyword_text(Keyword::While) {
        Some(Keyword::While)
    } else if t == keyword_text(Keyword::Do) {
        Some(Keyword::Do)
    } else if t == keyword_text(Keyword::Fn) {
        Some(Keyword::Fn)
    } else if t == keyword_text(Keyword::Assign) {
        Some(Keyword::Assign)
    } else if t == keyword_text(Keyword::DefineSyntax) {
        Some(Keyword::DefineSyntax)
    } else if t == keyword_text(Keyword::SyntaxRules) {
        Some(Keyword::SyntaxRules)
    } else {
        None
    }
}

fn chars_equal(a: &Vec<char>, b: &Vec<char>) -> (r: bool)
    ensures
        r == (a@ == b@),
{
    if a.len() != b.len() {
        return false;
    }
    let mut i: usize = 0;
    while i < a.len()
        invariant
            i <= a@.len(),
            a@.len() == b@.len(),
            forall|j: int| 0 <= j < i ==> a@[j] == b@[j],
        decreases a@.len() - i,
    {
        if a[i] != b[i] {
            return false;
        }
        i = i + 1;
    }
    proof {
        assert(a@ =~= b@);
    }
    true
}

/// The keyword the characters `t` spell, if any.
pub fn keyword_of_chars(t: &Vec<char>) -> (r: Option<Keyword>)
    ensures
        r == spec_keyword_of(t@),
{
    if chars_equal(t, &vec!['l', 'a', 'm', 'b', 'd', 'a']) {
        return Some(Keyword::Lambda);
    }
    if chars_equal(t, &vec!['d', 'e', 'f', 'i', 'n', 'e']) {
        return Some(Keyword::Define);
    }
    if chars_equal(t, &vec!['i', 'f']) {
        return Some(Keyword::If);
    }
    if chars_equal(t, &vec!['s', 'e', 't', '!']) {
        return Some(Keyword::SetBang);
    }
    if chars_equal(t, &vec!['b', 'e', 'g', 'i', 'n']) {
        return Some(Keyword::Begin);
    }
    if chars_equal(t, &vec!['l', 'e', 't']) {
        return Some(Keyword::Let);
    }
    if chars_equal(t, &vec!['l', 'e', 't', 'r', 'e', 'c']) {
        return Some(Keyword::LetRec);
    }
    if chars_equal(t, &vec!['l', 'e', 't', '*']) {
        return Some(Keyword::LetStar);
    }
    if chars_equal(t, &vec!['q', 'u', 'o', 't', 'e']) {
        return Some(Keyword::Quote);
    }
    if chars_equal(t, &vec!['i', 'm', 'p', 'o', 'r', 't']) {
        return Some(Keyword::Import);
    }
    if chars_equal(t, &vec!['e', 'x', 'p', 'o', 'r', 't']) {
        return Some(Keyword::Export);
    }
    if chars_equal(t, &vec!['m', 'o', 'd', 'u', 'l', 'e']) {
        return Some(Keyword::Module);
    }
    if chars_equal(t, &vec!['r', 'e', 'q', 'u', 'i', 'r', 'e']) {
        return Some(Keyword::Require);
    }
    if chars_equal(t, &vec!['e', 'l', 's', 'e']) {
        return Some(Keyword::Else);
    }
    if chars_equal(t, &vec!['c', 'o', 'n', 'd']) {
        return Some(Keyword::Cond);
    }
    if chars_equal(t, &vec!['a', 'n', 'd']) {
        return Some(Keyword::And);
    }
    if chars_equal(t, &vec!['o', 'r']) {
        return Some(Keyword::Or);
    }
    if chars_equal(t, &vec!['w', 'h', 'e', 'n']) {
        return Some(Keyword::When);
    }
    if chars_equal(t, &vec!['u', 'n', 'l', 'e', 's', 's']) {
        return Some(Keyword::Unless);
    }
    if chars_equal(t, &vec!['w', 'h', 'i', 'l', 'e']) {
        return Some(Keyword::While);
    }
    if chars_equal(t, &vec!['d', 'o']) {
        return Some(Keyword::Do);
    }
    if chars_equal(t, &vec!['f', 'n']) {
        return Some(Keyword::Fn);
    }
    if chars_equal(t, &vec!['a', 's', 's', 'i', 'g', 'n']) {
        return Some(Keyword::Assign);
    }
    if chars_equal(t, &vec!['d', 'e', 'f', 'i', 'n', 'e', '-', 's', 'y', 'n', 't', 'a', 'x']) {
        return Some(Keyword::DefineSyntax);
    }
    if chars_equal(t, &vec!['s', 'y', 'n', 't', 'a', 'x', '-', 'r', 'u', 'l', 'e', 's']) {
        return Some(Keyword::SyntaxRules);
    }
    None
}

/// All the keywords, in declaration order.
pub open spec fn all_keywords() -> Seq<Keyword> {
    seq![
        Keyword::Lambda,
        Keyword::Define,
        Keyword::If,
        Keyword::SetBang,
        Keyword::Begin,
        Keyword::Let,
        Keyword::LetRec,
        Keyword::LetStar,
        Keyword::Quote,
        Keyword::Import,
        Keyword::Export,
        Keyword::Module,
        Keyword::Require,
        Keyword::Else,
        Keyword::Cond,
        Keyword::And,
        Keyword::Or,
        Keyword::When,
        Keyword::Unless,
        Keyword::While,
        Keyword::Do,
        Keyword::Fn,
        Keyword::Assign,
        Keyword::DefineSyntax,
        Keyword::SyntaxRules,
    ]
}

impl Keyword {
    /// All the keywords, in declaration order.
    pub fn all() -> (v: Vec<Keyword>)
        ensures
            v@ == all_keywords(),
    {
        let v = vec![
            Keyword::Lambda,
            Keyword::Define,
            Keyword::If,
            Keyword::SetBang,
            Keyword::Begin,
            Keyword::Let,
            Keyword::LetRec,
            Keyword::LetStar,
            Keyword::Quote,
            Keyword::Import,
            Keyword::Export,
            Keyword::Module,
            Keyword::Require,
            Keyword::Else,
            Keyword::Cond,
            Keyword::And,
            Keyword::Or,
            Keyword::When,
            Keyword::Unless,
            Keyword::While,
            Keyword::Do,
            Keyword::Fn,
            Keyword::Assign,
            Keyword::DefineSyntax,
            Keyword::SyntaxRules,
        ];
        proof {
            assert(v@ =~= all_keywords());
        }
        v
    }

    /// The keyword spelled `name`, if any.
    pub fn from_name(name: &str) -> (r: Option<Keyword>)
        ensures
            r == spec_keyword_of(name@),
    {
        keyword_of_chars(&chars_of(name))
    }

    /// The spelling of the keyword.
    pub fn as_str(self) -> (s: &'static str)
        ensures
            s@ == keyword_text(self),
    {
        match self {
            Keyword::Lambda => {
                proof {
                    reveal_strlit("lambda");
                }
                "lambda"
            },
            Keyword::Define => {
                proof {
                    reveal_strlit("define");
                }
                "define"
            },
            Keyword::If => {
                proof {
                    reveal_strlit("if");
                }
                "if"
            },
            Keyword::SetBang => {
                proof {
                    reveal_strlit("set!");
                }
                "set!"
            },
            Keyword::Begin => {
                proof {
                    reveal_strlit("begin");
                }
                "begin"
            },
            Keyword::Let => {
                proof {
                    reveal_strlit("let");
                }
                "let"
            },
            Keyword::LetRec => {
                proof {
                    reveal_strlit("letrec");
                }
                "letrec"
            },
            Keyword::LetStar => {
                proof {
                    reveal_strlit("let*");
                }
                "let*"
            },
            Keyword::Quote => {
                proof {
                    reveal_strlit("quote");
                }
                "quote"
            },
            Keyword::Import => {
                proof {
                    reveal_strlit("import");
                }
                "import"
            },
            Keyword::Export => {
                proof {
                    reveal_strlit("export");
                }
                "export"
            },
            Keyword::Module => {
                proof {
                    reveal_strlit("module");
                }
                "module"
            },
            Keyword::Require => {
                proof {
                    reveal_strlit("require");
                }
                "require"
            },
            Keyword::Else => {
                proof {
                    reveal_strlit("else");
                }
                "else"
            },
            Keyword::Cond => {
                proof {
                    reveal_strlit("cond");
                }
                "cond"
            },
            Keyword::And => {
                proof {
                    reveal_strlit("and");
                }
                "and"
            },
            Keyword::Or => {
                proof {
                    reveal_strlit("or");
                }
                "or"
            },
            Keyword::When => {
                proof {
                    reveal_strlit("when");
                }
                "when"
            },
            Keyword::Unless => {
                proof {
                    reveal_strlit("unless");
                }
                "unless"
            },
            Keyword::While => {
                proof {
                    reveal_strlit("while");
                }
                "while"
            },
            Keyword::Do => {
                proof {
                    reveal_strlit("do");
                }
                "do"
            },
            Keyword::Fn => {
                proof {
                    reveal_strlit("fn");
                }
                "fn"
            },
            Keyword::Assign => {
                proof {
                    reveal_strlit("assign");
                }
                "assign"
            },
            Keyword::DefineSyntax => {
                proof {
                    reveal_strlit("define-syntax");
                }
                "define-syntax"
            },
            Keyword::SyntaxRules => {
                proof {
                    reveal_strlit("syntax-rules");
                }
                "syntax-rules"
            },
        }
    }
}

/// The kind of a token.
///
/// Reserved words are keyword tokens; other identifier-like words are
/// carried as text, interning belongs to the symbol table.  A float literal carries its literal text
/// (digits, optional fraction, optional exponent written with `e`).
#[derive(Debug, Clone, PartialEq)]
pub enum TokenKind {
    IntLiteral(i64),
    FloatLiteral(String),
    StringLiteral(String),
    BoolLiteral(bool),
    NilLiteral,
    Identifier(String),
    Keyword(Keyword),
    /// The quote shorthand `'x` (read as `(quote x)`).
    QuoteShorthand,
    Operator(Operator, String),
    Delimiter(Delimiter),
    Eof,
}

/// The mathematical value of a token kind.
pub ghost enum KindV {
    Int(i64),
    Float(Seq<char>),
    Str(Seq<char>),
    Bool(bool),
    Nil,
    Ident(Seq<char>),
    Kw(Keyword),
    Quote,
    Op(Operator, Seq<char>),
    Delim(Delimiter),
    Eof,
}

impl View for TokenKind {
    type V = KindV;

    open spec fn view(&self) -> KindV {
        match self {
            TokenKind::IntLiteral(v) => KindV::Int(*v),
            TokenKind::FloatLiteral(t) => KindV::Float(t@),
            TokenKind::StringLiteral(s) => KindV::Str(s@),
            TokenKind::BoolLiteral(b) => KindV::Bool(*b),
            TokenKind::NilLiteral => KindV::Nil,
            TokenKind::Identifier(t) => KindV::Ident(t@),
            TokenKind::Keyword(k) => KindV::Kw(*k),
            TokenKind::QuoteShorthand => KindV::Quote,
            TokenKind::Operator(op, t) => KindV::Op(*op, t@),
            TokenKind::Delimiter(d) => KindV::Delim(*d),
            TokenKind::Eof => KindV::Eof,
        }
    }
}

/// A token: its kind and its source span.
#[derive(Debug, Clone, PartialEq)]
pub struct Token {
    pub kind: TokenKind,
    pub span: Span,
}

impl Token {
    /// Whether this is the end-of-file token.
    pub fn is_eof(&self) -> (b: bool)
        ensures
            b == (self.kind is Eof),
    {
        match self.kind {
            TokenKind::Eof => true,
            _ => false,
        }
    }

    /// Whether this is the keyword token `kw`.
    pub fn is_keyword(&self, kw: Keyword) -> (b: bool)
        ensures
            b == (self.kind matches TokenKind::Keyword(k) && k == kw),
    {
        match &self.kind {
            TokenKind::Keyword(k) => *k == kw,
            _ => false,
        }
    }
}

/// A lexical or syntactic error: a message and the span it is about.
#[derive(Debug, Clone, PartialEq)]
pub struct ReadError {
    pub message: String,
    pub span: Span,
}

/// The message for an unclosed delimiter.
pub open spec fn unclosed_message(open: Delimiter) -> Seq<char> {
    "括号未闭合：缺少 '"@ + seq![delimiter_char(closing_delimiter(open))] + "'"@
}

/// The message for a stray closing delimiter.
pub open spec fn stray_message(close: Delimiter) -> Seq<char> {
    "多余的关闭括号：'"@ + seq![delimiter_char(close)] + "'"@
}

impl ReadError {
    /// An error with the given message at `span`.
    pub fn new(message: &str, span: Span) -> (e: ReadError)
        ensures
            e.message@ == message@,
            e.span == span,
    {
        let mut m = String::new();
        push_str(&mut m, message);
        ReadError { message: m, span }
    }

    /// An opening delimiter that is never closed.
    pub fn unclosed_delimiter(open: Delimiter, span: Span) -> (e: ReadError)
        ensures
            e.message@ == unclosed_message(open),
            e.span == span,
    {
        let mut m = String::new();
        push_str(&mut m, "括号未闭合：缺少 '");
        push_char(&mut m, Delimiter::closing_of(open).as_char());
        push_str(&mut m, "'");
        ReadError { message: m, span }
    }

    /// A closing delimiter with nothing to close.
    pub fn stray_closing_delimiter(close: Delimiter, span: Span) -> (e: ReadError)
        ensures
            e.message@ == stray_message(close),
            e.span == span,
    {
        let mut m = String::new();
        push_str(&mut m, "多余的关闭括号：'");
        push_char(&mut m, close.as_char());
        push_str(&mut m, "'");
        ReadError { message: m, span }
    }
}

} // verus!
