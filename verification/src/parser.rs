//! The recursive-descent reader: tokens to syntax objects.
//!
//! A program is a sequence of data up to `Eof`; a datum is a literal, a
//! symbol, a list `( ... )`, a vector `[ ... ]`, or the quote shorthand
//! `'x`, read as `(quote x)`.  Nesting deeper than `MAX_NESTING_DEPTH`
//! brackets is an error.  The grammar is stated below as spec functions
//! over the tokens (`program_from`).
use vstd::prelude::*;
use vstd::string::*;

use crate::lexer::lex_source;
use crate::span::{spec_merge, Span};
use crate::text::{push_char, push_dec, push_str, string_of};
use crate::token::{
    closing_delimiter, delimiter_char, keyword_text, stray_message, unclosed_message, Delimiter, KindV, ReadError,
    Token, TokenKind,
};

verus! {

/// The deepest bracket nesting the reader accepts.
pub const MAX_NESTING_DEPTH: usize = 256;

/// A literal datum.
#[derive(Debug, Clone, PartialEq)]
pub enum StxLiteral {
    Int(i64),
    /// A float literal, by its text.
    Float(String),
    Str(String),
    Bool(bool),
    Nil,
}

/// What a syntax object is.
#[derive(Debug, PartialEq)]
pub enum StxDatum {
    Literal(StxLiteral),
    /// A symbol, by its name.
    Symbol(String),
    List(Vec<Stx>),
    Vector(Vec<Stx>),
}

/// A syntax object: a datum and its source span.
#[derive(Debug, PartialEq)]
pub struct Stx {
    pub datum: StxDatum,
    pub span: Span,
}

/// The mathematical value of a syntax object.
pub ghost enum StxV {
    /// A literal (by the token kind it was read from) and its span.
    Lit(KindV, Span),
    Sym(Seq<char>, Span),
    List(Seq<StxV>, Span),
    Vector(Seq<StxV>, Span),
}

/// The span of a syntax value.
pub open spec fn stxv_span(v: StxV) -> Span {
    match v {
        StxV::Lit(_, s) => s,
        StxV::Sym(_, s) => s,
        StxV::List(_, s) => s,
        StxV::Vector(_, s) => s,
    }
}

/// The token kind a literal is read from.
pub open spec fn literal_kind(l: StxLiteral) -> KindV {
    match l {
        StxLiteral::Int(v) => KindV::Int(v),
        StxLiteral::Float(t) => KindV::Float(t@),
        StxLiteral::Str(s) => KindV::Str(s@),
        StxLiteral::Bool(b) => KindV::Bool(b),
        StxLiteral::Nil => KindV::Nil,
    }
}

/// The value of a syntax object.
pub open spec fn stx_view(s: Stx) -> StxV
    decreases s,
{
    match s.datum {
        StxDatum::Literal(l) => StxV::Lit(literal_kind(l), s.span),
        StxDatum::Symbol(n) => StxV::Sym(n@, s.span),
        StxDatum::List(items) => StxV::List(stx_views(items@), s.span),
        StxDatum::Vector(items) => StxV::Vector(stx_views(items@), s.span),
    }
}

/// The values of a sequence of syntax objects.
pub open spec fn stx_views(items: Seq<Stx>) -> Seq<StxV>
    decreases items,
{
    if items.len() == 0 {
        Seq::empty()
    } else {
        stx_views(items.drop_last()).push(stx_view(items.last()))
    }
}

// ---- the grammar ----

/// The outcome of reading a datum: its value and the position after it,
/// or an error message and span.
pub ghost enum Parsed {
    Read(StxV, int),
    Fail(Seq<char>, Span),
}

/// The message at the end of input where a datum is expected.
pub open spec fn eof_message() -> Seq<char> {
    "意外的文件结束（期望表达式）"@
}

/// The message for nesting beyond the limit.
pub open spec fn depth_message() -> Seq<char> {
    "嵌套深度超过上限 "@ + crate::text::dec(MAX_NESTING_DEPTH as nat)
}

/// The message for a list closed by the wrong bracket.
pub open spec fn mismatch_message(open: Delimiter, close: Delimiter) -> Seq<char> {
    "括号不匹配：'"@ + seq![delimiter_char(open)] + "' 应以 '"@ + seq![
        delimiter_char(closing_delimiter(open)),
    ] + "' 关闭，实际 '"@ + seq![delimiter_char(close)] + "'"@
}

/// The datum starting at token `i`, read at bracket depth `depth`.
pub open spec fn parse_datum(ts: Seq<Token>, i: int, depth: nat) -> Parsed
    decreases ts.len() - i, 0int,
{
    if i < 0 || i >= ts.len() {
        Parsed::Fail(eof_message(), Span { file_id: 0, start: 0, end: 0, expansion_id: 0 })
    } else {
        let t = ts[i];
        match t.kind@ {
            KindV::Int(_) => Parsed::Read(StxV::Lit(t.kind@, t.span), i + 1),
            KindV::Float(_) => Parsed::Read(StxV::Lit(t.kind@, t.span), i + 1),
            KindV::Str(_) => Parsed::Read(StxV::Lit(t.kind@, t.span), i + 1),
            KindV::Bool(_) => Parsed::Read(StxV::Lit(t.kind@, t.span), i + 1),
            KindV::Nil => Parsed::Read(StxV::Lit(t.kind@, t.span), i + 1),
            KindV::Ident(n) => Parsed::Read(StxV::Sym(n, t.span), i + 1),
            KindV::Kw(k) => Parsed::Read(StxV::Sym(keyword_text(k), t.span), i + 1),
            KindV::Op(_, n) => Parsed::Read(StxV::Sym(n, t.span), i + 1),
            KindV::Quote => match parse_datum(ts, i + 1, depth) {
                Parsed::Read(q, j) => Parsed::Read(
                    StxV::List(
                        seq![StxV::Sym("quote"@, t.span), q],
                        spec_merge(t.span, stxv_span(q)),
                    ),
                    j,
                ),
                Parsed::Fail(m, s) => Parsed::Fail(m, s),
            },
            KindV::Delim(d) => match d {
                Delimiter::OpenParen | Delimiter::OpenBracket => if depth + 1 > MAX_NESTING_DEPTH {
                    Parsed::Fail(depth_message(), t.span)
                } else {
                    parse_items(ts, i + 1, depth + 1, d, t.span, Seq::empty())
                },
                _ => Parsed::Fail(stray_message(d), t.span),
            },
            KindV::Eof => Parsed::Fail(eof_message(), t.span),
        }
    }
}

/// The rest of a list or vector opened by `open` at `open_span`, from token
/// `i` on, with `items` read so far.
pub open spec fn parse_items(
    ts: Seq<Token>,
    i: int,
    depth: nat,
    open: Delimiter,
    open_span: Span,
    items: Seq<StxV>,
) -> Parsed
    decreases ts.len() - i, 1int,
{
    if i < 0 || i >= ts.len() {
        Parsed::Fail(unclosed_message(open), open_span)
    } else {
        let t = ts[i];
        match t.kind@ {
            KindV::Eof => Parsed::Fail(unclosed_message(open), open_span),
            KindV::Delim(Delimiter::CloseParen) => close_list(open, open_span, items, Delimiter::CloseParen, t.span, i + 1),
            KindV::Delim(Delimiter::CloseBracket) => close_list(open, open_span, items, Delimiter::CloseBracket, t.span, i + 1),
            _ => match parse_datum(ts, i, depth) {
                Parsed::Read(v, j) => if i < j <= ts.len() {
                    parse_items(ts, j, depth, open, open_span, items.push(v))
                } else {
                    Parsed::Fail(eof_message(), t.span)
                },
                Parsed::Fail(m, s) => Parsed::Fail(m, s),
            },
        }
    }
}

/// A list or vector closed by `close` at `close_span`: an error when the
/// brackets do not match.
pub open spec fn close_list(
    open: Delimiter,
    open_span: Span,
    items: Seq<StxV>,
    close: Delimiter,
    close_span: Span,
    next: int,
) -> Parsed {
    if close != closing_delimiter(open) {
        Parsed::Fail(mismatch_message(open, close), close_span)
    } else if open == Delimiter::OpenBracket {
        Parsed::Read(StxV::Vector(items, spec_merge(open_span, close_span)), next)
    } else {
        Parsed::Read(StxV::List(items, spec_merge(open_span, close_span)), next)
    }
}

/// The data of a program from token `i` on, up to `Eof`, after `done`.
pub open spec fn program_from(ts: Seq<Token>, i: int, done: Seq<StxV>) -> Result<Seq<StxV>, (Seq<char>, Span)>
    decreases ts.len() - i,
{
    if i < 0 || i >= ts.len() || ts[i].kind@ is Eof {
        Ok(done)
    } else {
        match parse_datum(ts, i, 0) {
            Parsed::Read(v, j) => if i < j <= ts.len() {
                program_from(ts, j, done.push(v))
            } else {
                Err((eof_message(), ts[i].span))
            },
            Parsed::Fail(m, s) => Err((m, s)),
        }
    }
}

/// A token stream as the lexer produces it: at least one token, the last
/// one `Eof`.
pub open spec fn well_ended(ts: Seq<Token>) -> bool {
    ts.len() >= 1 && ts.last().kind is Eof
}

// ---- facts about the grammar ----

/// Reading a datum consumes at least one token and stays within the
/// stream.
pub proof fn lemma_datum_advances(ts: Seq<Token>, i: int, depth: nat)
    requires
        0 <= i,
    ensures
        parse_datum(ts, i, depth) matches Parsed::Read(_, j) ==> i < j <= ts.len(),
        well_ended(ts) ==> (parse_datum(ts, i, depth) matches Parsed::Read(_, j) ==> j < ts.len()),
    decreases ts.len() - i, 0int,
{
    if 0 <= i < ts.len() {
        if well_ended(ts) && !(ts[i].kind@ is Eof) {
            lemma_not_last(ts, i);
        }
        match ts[i].kind@ {
            KindV::Quote => {
                lemma_datum_advances(ts, i + 1, depth);
            },
            KindV::Delim(d) => {
                if (d == Delimiter::OpenParen || d == Delimiter::OpenBracket) && depth + 1
                    <= MAX_NESTING_DEPTH {
                    lemma_items_advance(ts, i + 1, depth + 1, d, ts[i].span, Seq::empty());
                }
            },
            _ => {},
        }
    }
}

/// Reading the rest of a list consumes at least one token and stays
/// within the stream.
pub proof fn lemma_items_advance(
    ts: Seq<Token>,
    i: int,
    depth: nat,
    open: Delimiter,
    open_span: Span,
    items: Seq<StxV>,
)
    requires
        0 <= i,
    ensures
        parse_items(ts, i, depth, open, open_span, items) matches Parsed::Read(_, j) ==> i < j
            <= ts.len(),
        well_ended(ts) ==> (parse_items(ts, i, depth, open, open_span, items) matches Parsed::Read(
            _,
            j,
        ) ==> j < ts.len()),
    decreases ts.len() - i, 1int,
{
    if 0 <= i < ts.len() {
        if well_ended(ts) && !(ts[i].kind@ is Eof) {
            lemma_not_last(ts, i);
        }
        match ts[i].kind@ {
            KindV::Eof => {},
            KindV::Delim(Delimiter::CloseParen) => {},
            KindV::Delim(Delimiter::CloseBracket) => {},
            _ => {
                lemma_datum_advances(ts, i, depth);
                match parse_datum(ts, i, depth) {
                    Parsed::Read(v, j) => {
                        if i < j <= ts.len() {
                            lemma_items_advance(ts, j, depth, open, open_span, items.push(v));
                        }
                    },
                    Parsed::Fail(_, _) => {},
                }
            },
        }
    }
}

// ---- the reader ----

/// The reader's result `r` is what the grammar gives, `g`.
pub open spec fn read_as(r: Result<(Stx, usize), ReadError>, g: Parsed) -> bool {
    match g {
        Parsed::Read(v, j) => r matches Ok(x) && stx_view(x.0) == v && x.1 == j,
        Parsed::Fail(m, sp) => r matches Err(e) && e.message@ == m && e.span == sp,
    }
}

proof fn lemma_views_push(items: Seq<Stx>, s: Stx)
    ensures
        stx_views(items.push(s)) == stx_views(items).push(stx_view(s)),
{
    assert(items.push(s).drop_last() =~= items);
}

/// A token that is not the last of a well-ended stream is followed by
/// another.
proof fn lemma_not_last(ts: Seq<Token>, i: int)
    requires
        well_ended(ts),
        0 <= i < ts.len(),
        !(ts[i].kind@ is Eof),
    ensures
        i + 1 < ts.len(),
{
    if i == ts.len() - 1 {
        assert(ts[i] == ts.last());
    }
}

/// The message of nesting beyond the limit.
fn depth_error_message() -> (m: String)
    ensures
        m@ == depth_message(),
{
    let mut m = string_of("嵌套深度超过上限 ");
    push_dec(&mut m, MAX_NESTING_DEPTH as u64);
    m
}

/// Reads the datum at token `i`.
fn datum_at(ts: &[Token], i: usize, depth: usize) -> (r: Result<(Stx, usize), ReadError>)
    requires
        well_ended(ts@),
        i < ts@.len(),
        depth <= MAX_NESTING_DEPTH,
    ensures
        read_as(r, parse_datum(ts@, i as int, depth as nat)),
    decreases ts@.len() - i, 0int,
{
    let t = &ts[i];
    match &t.kind {
        TokenKind::IntLiteral(v) => Ok(
            (Stx { datum: StxDatum::Literal(StxLiteral::Int(*v)), span: t.span }, i + 1),
        ),
        TokenKind::FloatLiteral(x) => Ok(
            (Stx { datum: StxDatum::Literal(StxLiteral::Float(x.clone())), span: t.span }, i + 1),
        ),
        TokenKind::StringLiteral(x) => Ok(
            (Stx { datum: StxDatum::Literal(StxLiteral::Str(x.clone())), span: t.span }, i + 1),
        ),
        TokenKind::BoolLiteral(b) => Ok(
            (Stx { datum: StxDatum::Literal(StxLiteral::Bool(*b)), span: t.span }, i + 1),
        ),
        TokenKind::NilLiteral => Ok(
            (Stx { datum: StxDatum::Literal(StxLiteral::Nil), span: t.span }, i + 1),
        ),
        TokenKind::Identifier(n) => Ok((Stx { datum: StxDatum::Symbol(n.clone()), span: t.span }, i + 1)),
        TokenKind::Keyword(k) => Ok(
            (Stx { datum: StxDatum::Symbol(string_of(k.as_str())), span: t.span }, i + 1),
        ),
        TokenKind::Operator(_, n) => Ok((Stx { datum: StxDatum::Symbol(n.clone()), span: t.span }, i + 1)),
        TokenKind::QuoteShorthand => {
            proof {
                lemma_not_last(ts@, i as int);
            }
            match datum_at(ts, i + 1, depth) {
                Ok((q, j)) => {
                    let span = t.span.merge(q.span);
                    let head = Stx { datum: StxDatum::Symbol(string_of("quote")), span: t.span };
                    let ghost qv = stx_view(q);
                    let items = vec![head, q];
                    proof {
                        assert(items@ =~= seq![head].push(q));
                        lemma_views_push(seq![head], q);
                        lemma_views_push(Seq::empty(), head);
                        assert(seq![head] =~= Seq::<Stx>::empty().push(head));
                        assert(stx_views(Seq::<Stx>::empty()) =~= Seq::<StxV>::empty());
                        assert(stx_views(items@) =~= seq![StxV::Sym("quote"@, t.span), qv]);
                    }
                    Ok((Stx { datum: StxDatum::List(items), span }, j))
                },
                Err(e) => Err(e),
            }
        },
        TokenKind::Delimiter(d) => {
            let d = *d;
            match d {
                Delimiter::OpenParen | Delimiter::OpenBracket => {
                    if depth + 1 > MAX_NESTING_DEPTH {
                        return Err(ReadError { message: depth_error_message(), span: t.span });
                    }
                    proof {
                        lemma_not_last(ts@, i as int);
                    }
                    parse_list_like(ts, i + 1, depth + 1, d, t.span)
                },
                _ => Err(ReadError::stray_closing_delimiter(d, t.span)),
            }
        },
        TokenKind::Eof => Err(ReadError::new("意外的文件结束（期望表达式）", t.span)),
    }
}

/// Reads the rest of a list or vector opened by `open` at `open_span`,
/// from token `i0` on.
fn parse_list_like(ts: &[Token], i0: usize, depth: usize, open: Delimiter, open_span: Span) -> (r: Result<
    (Stx, usize),
    ReadError,
>)
    requires
        well_ended(ts@),
        i0 < ts@.len(),
        depth <= MAX_NESTING_DEPTH,
    ensures
        read_as(r, parse_items(ts@, i0 as int, depth as nat, open, open_span, Seq::empty())),
    decreases ts@.len() - i0, 1int,
{
    let ghost goal = parse_items(ts@, i0 as int, depth as nat, open, open_span, Seq::empty());
    let mut items: Vec<Stx> = Vec::new();
    let mut i = i0;
    proof {
        assert(stx_views(items@) =~= Seq::<StxV>::empty());
    }
    loop
        invariant
            well_ended(ts@),
            i0 <= i < ts@.len(),
            depth <= MAX_NESTING_DEPTH,
            goal == parse_items(ts@, i0 as int, depth as nat, open, open_span, Seq::empty()),
            parse_items(ts@, i as int, depth as nat, open, open_span, stx_views(items@)) == goal,
        decreases ts@.len() - i,
    {
        let t = &ts[i];
        match &t.kind {
            TokenKind::Eof => {
                return Err(ReadError::unclosed_delimiter(open, open_span));
            },
            TokenKind::Delimiter(Delimiter::CloseParen) | TokenKind::Delimiter(
                Delimiter::CloseBracket,
            ) => {
                let close = match &t.kind {
                    TokenKind::Delimiter(c) => *c,
                    _ => Delimiter::CloseParen,
                };
                let expected = Delimiter::closing_of(open);
                if close != expected {
                    let mut m = string_of("括号不匹配：'");
                    push_char(&mut m, open.as_char());
                    push_str(&mut m, "' 应以 '");
                    push_char(&mut m, expected.as_char());
                    push_str(&mut m, "' 关闭，实际 '");
                    push_char(&mut m, close.as_char());
                    push_str(&mut m, "'");
                    proof {
                        reveal_strlit("'");
                        assert(m@ =~= mismatch_message(open, close));
                    }
                    return Err(ReadError { message: m, span: t.span });
                }
                let span = open_span.merge(t.span);
                let stx = match open {
                    Delimiter::OpenBracket => Stx { datum: StxDatum::Vector(items), span },
                    _ => Stx { datum: StxDatum::List(items), span },
                };
                return Ok((stx, i + 1));
            },
            _ => {
                proof {
                    lemma_datum_advances(ts@, i as int, depth as nat);
                }
                match datum_at(ts, i, depth) {
                    Ok((s, j)) => {
                        proof {
                            lemma_views_push(items@, s);
                        }
                        items.push(s);
                        i = j;
                    },
                    Err(e) => {
                        return Err(e);
                    },
                }
            },
        }
    }
}

/// The reader's result `r` for a program is what the grammar gives, `g`.
pub open spec fn program_as(r: Result<Vec<Stx>, ReadError>, g: Result<Seq<StxV>, (Seq<char>, Span)>) -> bool {
    match g {
        Ok(vs) => r matches Ok(v) && stx_views(v@) == vs,
        Err(e) => r matches Err(x) && x.message@ == e.0 && x.span == e.1,
    }
}

/// Reads the data from token `i0` up to `Eof`.
fn program_at(ts: &[Token], i0: usize) -> (r: Result<Vec<Stx>, ReadError>)
    requires
        well_ended(ts@),
        i0 < ts@.len(),
    ensures
        program_as(r, program_from(ts@, i0 as int, Seq::empty())),
{
    let ghost goal = program_from(ts@, i0 as int, Seq::empty());
    let mut forms: Vec<Stx> = Vec::new();
    let mut i = i0;
    proof {
        assert(stx_views(forms@) =~= Seq::<StxV>::empty());
    }
    loop
        invariant
            well_ended(ts@),
            i < ts@.len(),
            goal == program_from(ts@, i0 as int, Seq::empty()),
            program_from(ts@, i as int, stx_views(forms@)) == goal,
        decreases ts@.len() - i,
    {
        if ts[i].is_eof() {
            return Ok(forms);
        }
        proof {
            lemma_datum_advances(ts@, i as int, 0);
        }
        match datum_at(ts, i, 0) {
            Ok((s, j)) => {
                proof {
                    lemma_views_push(forms@, s);
                }
                forms.push(s);
                i = j;
            },
            Err(e) => {
                return Err(e);
            },
        }
    }
}

/// The data of a token stream, up to `Eof`, or the first error.
pub fn parse_tokens(tokens: &[Token]) -> (r: Result<Vec<Stx>, ReadError>)
    requires
        well_ended(tokens@),
    ensures
        program_as(r, program_from(tokens@, 0, Seq::empty())),
{
    program_at(tokens, 0)
}

/// The data of a source text (lexing, then reading), or the first error.
pub fn read_source(source: &str, file_id: u32) -> (r: Result<Vec<Stx>, ReadError>)
    requires
        source.spec_bytes().len() <= u32::MAX,
    ensures
        crate::lexer::spec_lex(source@) matches Err(e) ==> (r matches Err(x) && x.message@ == e.0
            && x.span == (Span { file_id, start: e.1 as u32, end: e.2 as u32, expansion_id: 0 })),
        crate::lexer::spec_lex(source@) is Ok ==> exists|ts: Seq<Token>|
            #![trigger program_from(ts, 0, Seq::empty())]
            crate::lexer::tokens_are(ts, crate::lexer::spec_lex(source@)->Ok_0, file_id)
                && program_as(r, program_from(ts, 0, Seq::empty())),
{
    match lex_source(source, file_id) {
        Ok(tokens) => {
            proof {
                crate::lexer::lemma_lex_in_order(source@, 0);
                let vs = crate::lexer::spec_lex(source@)->Ok_0;
                assert(tokens@.last() == tokens@[tokens@.len() - 1]);
                assert(tokens@[tokens@.len() - 1].kind@ == vs[vs.len() - 1].0);
            }
            let r = parse_tokens(tokens.as_slice());
            proof {
                assert(crate::lexer::tokens_are(tokens@, crate::lexer::spec_lex(source@)->Ok_0, file_id)
                    && program_as(r, program_from(tokens@, 0, Seq::empty())));
            }
            r
        },
        Err(e) => Err(e),
    }
}

/// Reads a program (the same as `read_source`).
pub fn read_program(source: &str, file_id: u32) -> (r: Result<Vec<Stx>, ReadError>)
    requires
        source.spec_bytes().len() <= u32::MAX,
    ensures
        crate::lexer::spec_lex(source@) matches Err(e) ==> (r matches Err(x) && x.message@ == e.0
            && x.span == (Span { file_id, start: e.1 as u32, end: e.2 as u32, expansion_id: 0 })),
        crate::lexer::spec_lex(source@) is Ok ==> exists|ts: Seq<Token>|
            #![trigger program_from(ts, 0, Seq::empty())]
            crate::lexer::tokens_are(ts, crate::lexer::spec_lex(source@)->Ok_0, file_id)
                && program_as(r, program_from(ts, 0, Seq::empty())),
{
    read_source(source, file_id)
}

/// A reader over a token stream: its position and bracket depth.
pub struct Parser<'t> {
    tokens: &'t [Token],
    pos: usize,
    depth: usize,
}

impl<'t> Parser<'t> {
    /// The tokens read.
    pub closed spec fn tokens(&self) -> Seq<Token> {
        self.tokens@
    }

    /// The current position.
    pub closed spec fn position(&self) -> int {
        self.pos as int
    }

    /// The stream is well ended and the position within it.
    pub closed spec fn wf(&self) -> bool {
        well_ended(self.tokens@) && self.pos < self.tokens@.len() && self.depth == 0
    }

    /// A reader at the start of `tokens`.
    pub fn new(tokens: &'t [Token]) -> (p: Parser<'t>)
        requires
            well_ended(tokens@),
        ensures
            p.wf(),
            p.tokens() == tokens@,
            p.position() == 0,
    {
        Parser { tokens, pos: 0, depth: 0 }
    }

    /// Reads the data up to `Eof`.
    pub fn parse_program(&mut self) -> (r: Result<Vec<Stx>, ReadError>)
        requires
            old(self).wf(),
        ensures
            program_as(r, program_from(old(self).tokens(), old(self).position(), Seq::empty())),
    {
        program_at(self.tokens, self.pos)
    }

    /// Reads one datum at the current position, and moves past it.
    pub fn parse_datum(&mut self) -> (r: Result<Stx, ReadError>)
        requires
            old(self).wf(),
        ensures
            final(self).wf(),
            final(self).tokens() == old(self).tokens(),
            match parse_datum(old(self).tokens(), old(self).position(), 0) {
                Parsed::Read(v, j) => r matches Ok(s) && stx_view(s) == v && final(self).position() == j,
                Parsed::Fail(m, sp) => r matches Err(e) && e.message@ == m && e.span == sp
                    && final(self).position() == old(self).position(),
            },
    {
        proof {
            lemma_datum_advances(self.tokens@, self.pos as int, 0);
        }
        match datum_at(self.tokens, self.pos, self.depth) {
            Ok((s, j)) => {
                self.pos = j;
                Ok(s)
            },
            Err(e) => Err(e),
        }
    }
}

/// Every reading error is at the span of one of the tokens read.
pub proof fn lemma_datum_error_at_token(ts: Seq<Token>, i: int, depth: nat)
    requires
        well_ended(ts),
        0 <= i < ts.len(),
    ensures
        parse_datum(ts, i, depth) matches Parsed::Fail(_, sp) ==> exists|k: int|
            0 <= k < ts.len() && (#[trigger] ts[k]).span == sp,
    decreases ts.len() - i, 0int,
{
    match ts[i].kind@ {
        KindV::Quote => {
            lemma_not_last(ts, i);
            lemma_datum_error_at_token(ts, i + 1, depth);
        },
        KindV::Delim(d) => {
            if (d == Delimiter::OpenParen || d == Delimiter::OpenBracket) && depth + 1
                <= MAX_NESTING_DEPTH {
                lemma_items_error_at_token(ts, i + 1, depth + 1, d, ts[i].span, Seq::empty(), i);
            }
        },
        _ => {},
    }
    assert(ts[i].span == ts[i].span);
}

/// Every reading error inside a list is at the span of one of the tokens.
pub proof fn lemma_items_error_at_token(
    ts: Seq<Token>,
    i: int,
    depth: nat,
    open: Delimiter,
    open_span: Span,
    items: Seq<StxV>,
    open_at: int,
)
    requires
        well_ended(ts),
        0 <= open_at < ts.len(),
        ts[open_at].span == open_span,
        0 <= i,
    ensures
        parse_items(ts, i, depth, open, open_span, items) matches Parsed::Fail(_, sp) ==> exists|
            k: int,
        | 0 <= k < ts.len() && (#[trigger] ts[k]).span == sp,
    decreases ts.len() - i, 1int,
{
    assert(ts[open_at].span == open_span);
    if 0 <= i < ts.len() {
        assert(ts[i].span == ts[i].span);
        match ts[i].kind@ {
            KindV::Eof => {},
            KindV::Delim(Delimiter::CloseParen) => {},
            KindV::Delim(Delimiter::CloseBracket) => {},
            _ => {
                lemma_datum_error_at_token(ts, i, depth);
                match parse_datum(ts, i, depth) {
                    Parsed::Read(v, j) => {
                        if i < j <= ts.len() {
                            lemma_items_error_at_token(ts, j, depth, open, open_span, items.push(v), open_at);
                        }
                    },
                    Parsed::Fail(_, _) => {},
                }
            },
        }
    }
}

/// The values of a sequence of syntax objects, one by one.
pub proof fn lemma_views_index(items: Seq<Stx>)
    ensures
        stx_views(items).len() == items.len(),
        forall|k: int| 0 <= k < items.len() ==> #[trigger] stx_views(items)[k] == stx_view(items[k]),
    decreases items.len(),
{
    if items.len() > 0 {
        lemma_views_index(items.drop_last());
    }
}

} // verus!
