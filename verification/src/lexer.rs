//! The lexer: source text to a token stream.
//!
//! - input: the source text and its file id;
//! - output: the tokens in order, ending with `Eof`; every token carries
//!   the byte span of exactly the text it was read from;
//! - errors: a `ReadError` with the span of the offending text.
//!
//! The lexical grammar is stated below as spec functions over the source's
//! characters (`lex_from`); positions are character indices, and spans are
//! the UTF-8 byte offsets of those positions (`byte_pos`).
use vstd::prelude::*;
use vstd::string::*;
use vstd::utf8::*;

use crate::span::{FileId, Span};
use crate::text::{chars_of, push_char, push_chars, push_str, string_of};
use crate::token::{keyword_of_chars, spec_keyword_of, Delimiter, KindV, Operator, ReadError, Token, TokenKind};

verus! {

broadcast use vstd::utf8::char_is_scalar;

// ---- characters ----

/// Whether `c` has the Unicode `Alphabetic` property.
pub uninterp spec fn alphabetic(c: char) -> bool;

/// Whether `c` has the Unicode `White_Space` property: the 25 code points
/// U+0009 to U+000D, U+0020, U+0085, U+00A0, U+1680, U+2000 to U+200A,
/// U+2028, U+2029, U+202F, U+205F and U+3000.
pub open spec fn whitespace(c: char) -> bool {
    let u = c as u32;
    ||| 0x09 <= u <= 0x0D
    ||| u == 0x20
    ||| u == 0x85
    ||| u == 0xA0
    ||| u == 0x1680
    ||| 0x2000 <= u <= 0x200A
    ||| u == 0x2028
    ||| u == 0x2029
    ||| u == 0x202F
    ||| u == 0x205F
    ||| u == 0x3000
}

/// `char::is_alphabetic`: whether `c` is alphabetic; the Unicode table is
/// not restated here, the result is named `alphabetic(c)`.
#[verifier::external_body]
fn char_is_alphabetic(c: char) -> (b: bool)
    ensures
        b == alphabetic(c),
{
    c.is_alphabetic()
}

/// Whether `c` is white space, as `char::is_whitespace` decides it.
fn char_is_whitespace(c: char) -> (b: bool)
    ensures
        b == whitespace(c),
{
    let u = c as u32;
    (0x09 <= u && u <= 0x0D) || u == 0x20 || u == 0x85 || u == 0xA0 || u == 0x1680 || (0x2000 <= u && u
        <= 0x200A) || u == 0x2028 || u == 0x2029 || u == 0x202F || u == 0x205F || u == 0x3000
}

/// An ASCII decimal digit.
pub open spec fn is_digit(c: char) -> bool {
    '0' <= c && c <= '9'
}

/// A character that may start an identifier: a letter or one of
/// `_ ! $ % & ? + - * / < > =`.
pub open spec fn id_start(c: char) -> bool {
    ||| alphabetic(c)
    ||| c == '_' || c == '!' || c == '$' || c == '%' || c == '&' || c == '?'
    ||| c == '+' || c == '-' || c == '*' || c == '/' || c == '<' || c == '>' || c == '='
}

/// A character that may continue an identifier.
pub open spec fn id_continue(c: char) -> bool {
    id_start(c) || is_digit(c) || c == '\''
}

/// The number of bytes of the UTF-8 encoding of `c`.
pub open spec fn char_width(c: char) -> nat {
    if (c as u32) < 0x80 {
        1
    } else if (c as u32) < 0x800 {
        2
    } else if (c as u32) < 0x10000 {
        3
    } else {
        4
    }
}

/// The byte offset of character position `i` of `cs`.
pub open spec fn byte_pos(cs: Seq<char>, i: int) -> nat
    decreases i,
{
    if i <= 0 {
        0
    } else {
        byte_pos(cs, i - 1) + char_width(cs[i - 1])
    }
}

/// The length in bytes of the whole text.
pub open spec fn total_bytes(cs: Seq<char>) -> nat {
    byte_pos(cs, cs.len() as int)
}

// ---- the lexical grammar ----

/// The outcome of reading at one position: a token ending before `end`,
/// skipped text (a comment) ending before `end`, or an error with its
/// message and byte span.
pub ghost enum Scan {
    Tok(KindV, int),
    Skip(int),
    Fail(Seq<char>, nat, nat),
}

/// The position after the white space and line comments that start at `i`
/// (`in_comment`: inside a line comment already).
pub open spec fn skip_trivia(cs: Seq<char>, i: int, in_comment: bool) -> int
    decreases cs.len() - i, (if in_comment { 1int } else { 0int }),
{
    if i < 0 || i >= cs.len() {
        i
    } else if in_comment {
        if cs[i] == '\n' {
            skip_trivia(cs, i, false)
        } else {
            skip_trivia(cs, i + 1, true)
        }
    } else if whitespace(cs[i]) {
        skip_trivia(cs, i + 1, false)
    } else if cs[i] == ';' {
        skip_trivia(cs, i + 1, true)
    } else {
        i
    }
}

/// The position just after the `|#` that closes a block comment whose
/// body starts at `i`, at nesting `depth`; `None` when it is never closed.
pub open spec fn block_end(cs: Seq<char>, i: int, depth: nat) -> Option<int>
    decreases cs.len() - i,
{
    if i < 0 || i >= cs.len() {
        None
    } else if cs[i] == '#' && i + 1 < cs.len() && cs[i + 1] == '|' {
        block_end(cs, i + 2, depth + 1)
    } else if cs[i] == '|' && i + 1 < cs.len() && cs[i + 1] == '#' {
        if depth <= 1 {
            Some(i + 2)
        } else {
            block_end(cs, i + 2, (depth - 1) as nat)
        }
    } else {
        block_end(cs, i + 1, depth)
    }
}

/// The character that the escape `\e` stands for.
pub open spec fn escape_of(e: char) -> Option<char> {
    if e == 'n' {
        Some('\n')
    } else if e == 't' {
        Some('\t')
    } else if e == 'r' {
        Some('\r')
    } else if e == '\\' {
        Some('\\')
    } else if e == '"' {
        Some('"')
    } else if e == '0' {
        Some('\0')
    } else {
        None
    }
}

/// The escapes of string literals, by code point: `\n` (U+006E) is a line
/// feed (U+000A), `\t` (U+0074) a tab (U+0009), `\r` (U+0072) a carriage
/// return (U+000D), `\\` (U+005C) a backslash, `\"` (U+0022) a quote and
/// `\0` (U+0030) a NUL (U+0000); no other character escapes.
pub proof fn lemma_escape_table(e: char)
    ensures
        e as u32 == 0x6E ==> (escape_of(e) matches Some(x) && x as u32 == 0x0A),
        e as u32 == 0x74 ==> (escape_of(e) matches Some(x) && x as u32 == 0x09),
        e as u32 == 0x72 ==> (escape_of(e) matches Some(x) && x as u32 == 0x0D),
        e as u32 == 0x5C ==> (escape_of(e) matches Some(x) && x as u32 == 0x5C),
        e as u32 == 0x22 ==> (escape_of(e) matches Some(x) && x as u32 == 0x22),
        e as u32 == 0x30 ==> (escape_of(e) matches Some(x) && x as u32 == 0x00),
        !(e as u32 == 0x6E || e as u32 == 0x74 || e as u32 == 0x72 || e as u32 == 0x5C || e as u32
            == 0x22 || e as u32 == 0x30) ==> escape_of(e) is None,
{
}

/// Inside a string literal, a backslash and an escape letter are read as
/// the one character the escape names, and reading goes on after them.
pub proof fn lemma_escape_in_string(cs: Seq<char>, start: int, i: int, acc: Seq<char>)
    requires
        0 <= i,
        i + 1 < cs.len(),
        cs[i] == '\\',
    ensures
        cs[i + 1] == 't' ==> scan_string(cs, start, i, acc) == scan_string(cs, start, i + 2, acc.push('\t')),
        cs[i + 1] == 'n' ==> scan_string(cs, start, i, acc) == scan_string(cs, start, i + 2, acc.push('\n')),
        cs[i + 1] == 'r' ==> scan_string(cs, start, i, acc) == scan_string(cs, start, i + 2, acc.push('\r')),
        cs[i + 1] == '0' ==> scan_string(cs, start, i, acc) == scan_string(cs, start, i + 2, acc.push('\0')),
        cs[i + 1] == '"' ==> scan_string(cs, start, i, acc) == scan_string(cs, start, i + 2, acc.push('"')),
        cs[i + 1] == '\\' ==> scan_string(cs, start, i, acc) == scan_string(cs, start, i + 2, acc.push('\\')),
{
}

/// The message for a string literal that is never closed.
pub open spec fn unclosed_string_message() -> Seq<char> {
    "字符串未闭合（文件意外结束）"@
}

/// The message for an unknown escape `\e`.
pub open spec fn bad_escape_message(e: char) -> Seq<char> {
    "非法转义字符 '\\"@ + seq![e] + "'"@
}

/// A string literal opened at `start`, read from `i` on with `acc` read
/// so far.
pub open spec fn scan_string(cs: Seq<char>, start: int, i: int, acc: Seq<char>) -> Scan
    decreases cs.len() - i,
{
    if i < 0 || i >= cs.len() {
        Scan::Fail(unclosed_string_message(), byte_pos(cs, start), total_bytes(cs))
    } else if cs[i] == '"' {
        Scan::Tok(KindV::Str(acc), i + 1)
    } else if cs[i] == '\\' {
        if i + 1 >= cs.len() {
            Scan::Fail(unclosed_string_message(), byte_pos(cs, start), total_bytes(cs))
        } else {
            match escape_of(cs[i + 1]) {
                Some(x) => scan_string(cs, start, i + 2, acc.push(x)),
                None => Scan::Fail(
                    bad_escape_message(cs[i + 1]),
                    byte_pos(cs, i),
                    byte_pos(cs, i + 1) + 1,
                ),
            }
        }
    } else {
        scan_string(cs, start, i + 1, acc.push(cs[i]))
    }
}

/// The value of a sequence of decimal digits.
pub open spec fn digits_value(d: Seq<char>) -> nat
    decreases d.len(),
{
    if d.len() == 0 {
        0
    } else {
        digits_value(d.drop_last()) * 10 + ((d.last() as int - '0' as int) as nat)
    }
}

/// The value of an optionally signed numeral.
pub open spec fn signed_value(t: Seq<char>) -> int {
    if t.len() > 0 && t[0] == '-' {
        -(digits_value(t.drop_first()) as int)
    } else if t.len() > 0 && t[0] == '+' {
        digits_value(t.drop_first()) as int
    } else {
        digits_value(t) as int
    }
}

/// The `i64` a numeral denotes, if it is in range.
pub open spec fn parse_int(t: Seq<char>) -> Option<i64> {
    let v = signed_value(t);
    if i64::MIN <= v && v <= i64::MAX {
        Some(v as i64)
    } else {
        None
    }
}

/// The message for an exponent without digits.
pub open spec fn exponent_message(text: Seq<char>) -> Seq<char> {
    "非法数字字面量 '"@ + text + "'（指数缺少数字）"@
}

/// The message for a number glued to an identifier character.
pub open spec fn glued_message(text: Seq<char>, c: char) -> Seq<char> {
    "数字 '"@ + text + "' 后紧跟标识符字符 '"@ + seq![c] + "'（应为独立 Token）"@
}

/// The message for an integer out of the `i64` range.
pub open spec fn int_range_message(text: Seq<char>) -> Seq<char> {
    "整数超出范围 '"@ + text + "'"@
}

/// A number that started at `start` and whose text so far is `text`,
/// read from `i` on.  The exponent mark is written `e` in the text.
pub open spec fn scan_number(
    cs: Seq<char>,
    start: int,
    i: int,
    text: Seq<char>,
    is_float: bool,
    has_exp: bool,
) -> Scan
    decreases cs.len() - i,
{
    if 0 <= i < cs.len() && is_digit(cs[i]) {
        scan_number(cs, start, i + 1, text.push(cs[i]), is_float, has_exp)
    } else if 0 <= i < cs.len() && cs[i] == '.' && !is_float && !has_exp && i + 1 < cs.len()
        && is_digit(cs[i + 1]) {
        scan_number(cs, start, i + 1, text.push('.'), true, has_exp)
    } else if 0 <= i < cs.len() && (cs[i] == 'e' || cs[i] == 'E') && !has_exp {
        let t1 = text.push('e');
        let signed = i + 1 < cs.len() && (cs[i + 1] == '-' || cs[i + 1] == '+');
        let t2 = if signed {
            t1.push(cs[i + 1])
        } else {
            t1
        };
        let i2 = if signed {
            i + 2
        } else {
            i + 1
        };
        if i2 < cs.len() && is_digit(cs[i2]) {
            scan_number(cs, start, i2, t2, true, true)
        } else {
            Scan::Fail(exponent_message(t2), byte_pos(cs, start), byte_pos(cs, i2))
        }
    } else {
        finish_number(cs, start, i, text, is_float)
    }
}

/// The end of a number: it may not be glued to an identifier character,
/// and an integer must fit in `i64`.
pub open spec fn finish_number(cs: Seq<char>, start: int, i: int, text: Seq<char>, is_float: bool) -> Scan {
    if 0 <= i < cs.len() && id_start(cs[i]) {
        Scan::Fail(glued_message(text, cs[i]), byte_pos(cs, i), byte_pos(cs, i) + char_width(cs[i]))
    } else if is_float {
        Scan::Tok(KindV::Float(text), i)
    } else {
        match parse_int(text) {
            Some(v) => Scan::Tok(KindV::Int(v), i),
            None => Scan::Fail(int_range_message(text), byte_pos(cs, start), byte_pos(cs, i)),
        }
    }
}

/// The first position from `i` on that does not hold a `.`.
pub open spec fn dots_end(cs: Seq<char>, i: int) -> int
    decreases cs.len() - i,
{
    if 0 <= i < cs.len() && cs[i] == '.' {
        dots_end(cs, i + 1)
    } else {
        i
    }
}

/// The first position from `i` on that cannot continue an identifier.
pub open spec fn word_end(cs: Seq<char>, i: int) -> int
    decreases cs.len() - i,
{
    if 0 <= i < cs.len() && id_continue(cs[i]) {
        word_end(cs, i + 1)
    } else {
        i
    }
}

/// The operator a word spells, if any.
pub open spec fn spec_operator_of(t: Seq<char>) -> Option<Operator> {
    if t == seq!['+'] {
        Some(Operator::Add)
    } else if t == seq!['-'] {
        Some(Operator::Sub)
    } else if t == seq!['*'] {
        Some(Operator::Mul)
    } else if t == seq!['/'] {
        Some(Operator::Div)
    } else if t == seq!['m', 'o', 'd'] {
        Some(Operator::Mod)
    } else if t == seq!['<'] {
        Some(Operator::Lt)
    } else if t == seq!['>'] {
        Some(Operator::Gt)
    } else if t == seq!['<', '='] {
        Some(Operator::Le)
    } else if t == seq!['>', '='] {
        Some(Operator::Ge)
    } else if t == seq!['='] {
        Some(Operator::Eq)
    } else {
        None
    }
}

/// The token a word is read as: a keyword, an operator, a boolean, `nil`,
/// or an identifier.
pub open spec fn word_kind(t: Seq<char>) -> KindV {
    match spec_keyword_of(t) {
        Some(k) => KindV::Kw(k),
        None => match spec_operator_of(t) {
            Some(op) => KindV::Op(op, t),
            None => if t == seq!['t', 'r', 'u', 'e'] {
                KindV::Bool(true)
            } else if t == seq!['f', 'a', 'l', 's', 'e'] {
                KindV::Bool(false)
            } else if t == seq!['n', 'i', 'l'] {
                KindV::Nil
            } else {
                KindV::Ident(t)
            },
        },
    }
}

/// An identifier starting at `j`.  A run of dots other than `...` is an
/// identifier by itself; `...` may continue like any identifier.
pub open spec fn scan_identifier(cs: Seq<char>, j: int) -> Scan {
    if cs[j] == '.' {
        let k = dots_end(cs, j + 1);
        if k - j != 3 {
            Scan::Tok(KindV::Ident(cs.subrange(j, k)), k)
        } else {
            let e = word_end(cs, k);
            Scan::Tok(word_kind(cs.subrange(j, e)), e)
        }
    } else {
        let e = word_end(cs, j + 1);
        Scan::Tok(word_kind(cs.subrange(j, e)), e)
    }
}

/// The message for a character that starts no token.
pub open spec fn illegal_message(c: char) -> Seq<char> {
    "非法字符 '"@ + seq![c] + "'"@
}

/// The message for a block comment that is never closed.
pub open spec fn unclosed_block_message() -> Seq<char> {
    "块注释 #|...|# 未闭合"@
}

/// What starts at position `j` (not white space, not a line comment).
pub open spec fn scan_at(cs: Seq<char>, j: int) -> Scan {
    let c = cs[j];
    let has_next = j + 1 < cs.len();
    if c == '(' {
        Scan::Tok(KindV::Delim(Delimiter::OpenParen), j + 1)
    } else if c == ')' {
        Scan::Tok(KindV::Delim(Delimiter::CloseParen), j + 1)
    } else if c == '[' {
        Scan::Tok(KindV::Delim(Delimiter::OpenBracket), j + 1)
    } else if c == ']' {
        Scan::Tok(KindV::Delim(Delimiter::CloseBracket), j + 1)
    } else if c == '\'' {
        Scan::Tok(KindV::Quote, j + 1)
    } else if c == '"' {
        scan_string(cs, j, j + 1, Seq::empty())
    } else if c == '.' && has_next && cs[j + 1] == '.' {
        scan_identifier(cs, j)
    } else if is_digit(c) || ((c == '-' || c == '+') && has_next && is_digit(cs[j + 1])) {
        scan_number(cs, j, j + 1, seq![c], false, false)
    } else if id_start(c) {
        scan_identifier(cs, j)
    } else if c == '#' && has_next && cs[j + 1] == '|' {
        match block_end(cs, j + 2, 1) {
            Some(e) => Scan::Skip(e),
            None => Scan::Fail(unclosed_block_message(), byte_pos(cs, j), total_bytes(cs)),
        }
    } else {
        Scan::Fail(illegal_message(c), byte_pos(cs, j), byte_pos(cs, j) + char_width(c))
    }
}

/// A token as the grammar reads it: kind, start byte, end byte.
pub type TokV = (KindV, nat, nat);

/// A lexical error as the grammar reports it: message, start byte, end byte.
pub type ErrV = (Seq<char>, nat, nat);

/// The tokens read from position `i` on (ending with `Eof` at the end of
/// the text), or the first lexical error.
pub open spec fn lex_from(cs: Seq<char>, i: int) -> Result<Seq<TokV>, ErrV>
    decreases cs.len() - i,
    when 0 <= i <= cs.len()
{
    let j = skip_trivia(cs, i, false);
    proof {
        lemma_skip_trivia(cs, i, false);
    }
    if j >= cs.len() {
        Ok(seq![(KindV::Eof, total_bytes(cs), total_bytes(cs))])
    } else {
        proof {
            lemma_scan_at(cs, j);
        }
        match scan_at(cs, j) {
            Scan::Tok(k, e) => match lex_from(cs, e) {
                Ok(ts) => Ok(seq![(k, byte_pos(cs, j), byte_pos(cs, e))] + ts),
                Err(x) => Err(x),
            },
            Scan::Skip(e) => lex_from(cs, e),
            Scan::Fail(m, a, b) => Err((m, a, b)),
        }
    }
}

/// The tokens of a whole text, or its first lexical error.
pub open spec fn spec_lex(cs: Seq<char>) -> Result<Seq<TokV>, ErrV> {
    lex_from(cs, 0)
}

// ---- facts about the grammar ----

/// Skipping trivia moves forward and stops at the end or before a
/// character that is neither white space nor `;`.
pub proof fn lemma_skip_trivia(cs: Seq<char>, i: int, in_comment: bool)
    requires
        0 <= i <= cs.len(),
    ensures
        i <= skip_trivia(cs, i, in_comment) <= cs.len(),
        skip_trivia(cs, i, in_comment) < cs.len() ==> {
            let j = skip_trivia(cs, i, in_comment);
            !whitespace(cs[j]) && cs[j] != ';'
        },
    decreases cs.len() - i, (if in_comment { 1int } else { 0int }),
{
    if i < cs.len() {
        if in_comment {
            if cs[i] == '\n' {
                lemma_skip_trivia(cs, i, false);
            } else {
                lemma_skip_trivia(cs, i + 1, true);
            }
        } else if whitespace(cs[i]) {
            lemma_skip_trivia(cs, i + 1, false);
        } else if cs[i] == ';' {
            lemma_skip_trivia(cs, i + 1, true);
        }
    }
}

proof fn lemma_block_end(cs: Seq<char>, i: int, depth: nat)
    requires
        0 <= i,
    ensures
        block_end(cs, i, depth) matches Some(e) ==> i < e <= cs.len(),
    decreases cs.len() - i,
{
    if 0 <= i < cs.len() {
        if cs[i] == '#' && i + 1 < cs.len() && cs[i + 1] == '|' {
            lemma_block_end(cs, i + 2, depth + 1);
        } else if cs[i] == '|' && i + 1 < cs.len() && cs[i + 1] == '#' {
            if depth > 1 {
                lemma_block_end(cs, i + 2, (depth - 1) as nat);
            }
        } else {
            lemma_block_end(cs, i + 1, depth);
        }
    }
}

proof fn lemma_scan_string(cs: Seq<char>, start: int, i: int, acc: Seq<char>)
    requires
        0 <= start <= i <= cs.len(),
    ensures
        scan_string(cs, start, i, acc) matches Scan::Tok(_, e) ==> i < e <= cs.len(),
        scan_string(cs, start, i, acc) matches Scan::Tok(k, _) ==> k is Str,
        scan_string(cs, start, i, acc) matches Scan::Fail(_, a, b) ==> byte_pos(cs, start) <= a
            <= b <= total_bytes(cs),
        !(scan_string(cs, start, i, acc) is Skip),
    decreases cs.len() - i,
{
    lemma_byte_pos_mono(cs, start, cs.len() as int);
    if 0 <= i < cs.len() && cs[i] != '"' {
        if cs[i] == '\\' {
            if i + 1 < cs.len() {
                if let Some(x) = escape_of(cs[i + 1]) {
                    lemma_scan_string(cs, start, i + 2, acc.push(x));
                } else {
                    lemma_byte_pos_mono(cs, start, i);
                    lemma_byte_pos_mono(cs, i, i + 1);
                    lemma_byte_pos_mono(cs, i + 2, cs.len() as int);
                }
            }
        } else {
            lemma_scan_string(cs, start, i + 1, acc.push(cs[i]));
        }
    }
}

proof fn lemma_scan_number(
    cs: Seq<char>,
    start: int,
    i: int,
    text: Seq<char>,
    is_float: bool,
    has_exp: bool,
)
    requires
        0 <= start < i <= cs.len(),
    ensures
        scan_number(cs, start, i, text, is_float, has_exp) matches Scan::Tok(_, e) ==> i <= e
            <= cs.len(),
        scan_number(cs, start, i, text, is_float, has_exp) matches Scan::Tok(k, _) ==> k is Int
            || k is Float,
        scan_number(cs, start, i, text, is_float, has_exp) matches Scan::Fail(_, a, b)
            ==> byte_pos(cs, start) <= a <= b <= total_bytes(cs),
        !(scan_number(cs, start, i, text, is_float, has_exp) is Skip),
    decreases cs.len() - i,
{
    lemma_byte_pos_mono(cs, start, i);
    lemma_byte_pos_mono(cs, i, cs.len() as int);
    if 0 <= i < cs.len() && is_digit(cs[i]) {
        lemma_scan_number(cs, start, i + 1, text.push(cs[i]), is_float, has_exp);
    } else if 0 <= i < cs.len() && cs[i] == '.' && !is_float && !has_exp && i + 1 < cs.len()
        && is_digit(cs[i + 1]) {
        lemma_scan_number(cs, start, i + 1, text.push('.'), true, has_exp);
    } else if 0 <= i < cs.len() && (cs[i] == 'e' || cs[i] == 'E') && !has_exp {
        let t1 = text.push('e');
        let signed = i + 1 < cs.len() && (cs[i + 1] == '-' || cs[i + 1] == '+');
        let t2 = if signed {
            t1.push(cs[i + 1])
        } else {
            t1
        };
        let i2 = if signed {
            i + 2
        } else {
            i + 1
        };
        lemma_byte_pos_mono(cs, start, i2);
        lemma_byte_pos_mono(cs, i2, cs.len() as int);
        if i2 < cs.len() && is_digit(cs[i2]) {
            lemma_scan_number(cs, start, i2, t2, true, true);
        }
    } else if 0 <= i < cs.len() {
        lemma_byte_pos_mono(cs, i + 1, cs.len() as int);
    }
}

proof fn lemma_dots_end(cs: Seq<char>, i: int)
    requires
        0 <= i <= cs.len(),
    ensures
        i <= dots_end(cs, i) <= cs.len(),
        forall|k: int| i <= k < dots_end(cs, i) ==> cs[k] == '.',
        dots_end(cs, i) < cs.len() ==> cs[dots_end(cs, i)] != '.',
    decreases cs.len() - i,
{
    if i < cs.len() && cs[i] == '.' {
        lemma_dots_end(cs, i + 1);
    }
}

proof fn lemma_word_end(cs: Seq<char>, i: int)
    requires
        0 <= i <= cs.len(),
    ensures
        i <= word_end(cs, i) <= cs.len(),
        forall|k: int| i <= k < word_end(cs, i) ==> id_continue(cs[k]),
        word_end(cs, i) < cs.len() ==> !id_continue(cs[word_end(cs, i)]),
    decreases cs.len() - i,
{
    if i < cs.len() && id_continue(cs[i]) {
        lemma_word_end(cs, i + 1);
    }
}

/// What is read at a position ends after it, within the text.
pub proof fn lemma_scan_at(cs: Seq<char>, j: int)
    requires
        0 <= j < cs.len(),
    ensures
        scan_at(cs, j) matches Scan::Tok(_, e) ==> j < e <= cs.len(),
        scan_at(cs, j) matches Scan::Skip(e) ==> j < e <= cs.len(),
        scan_at(cs, j) matches Scan::Tok(k, _) ==> !(k is Eof),
        scan_at(cs, j) matches Scan::Fail(_, a, b) ==> byte_pos(cs, j) <= a <= b <= total_bytes(
            cs,
        ),
{
    lemma_byte_pos_mono(cs, j, cs.len() as int);
    lemma_byte_pos_mono(cs, j + 1, cs.len() as int);
    lemma_scan_string(cs, j, j + 1, Seq::empty());
    lemma_scan_number(cs, j, j + 1, seq![cs[j]], false, false);
    lemma_dots_end(cs, j + 1);
    lemma_word_end(cs, j + 1);
    if cs[j] == '.' {
        let k = dots_end(cs, j + 1);
        lemma_word_end(cs, k);
    }
    lemma_block_end(cs, j + 2, 1);
}

// ---- offsets are UTF-8 byte offsets ----

proof fn lemma_scalar_width(c: char)
    ensures
        encode_scalar(c as u32).len() == char_width(c),
{
    assert(is_scalar(c as u32));
}

proof fn lemma_encode_push(t: Seq<char>, c: char)
    ensures
        encode_utf8(t.push(c)).len() == encode_utf8(t).len() + char_width(c),
    decreases t.len(),
{
    lemma_scalar_width(c);
    let tc = t.push(c);
    assert(encode_utf8(tc) == encode_scalar(tc[0] as u32) + encode_utf8(tc.drop_first()));
    if t.len() == 0 {
        assert(tc.drop_first() =~= Seq::<char>::empty());
        assert(encode_utf8(tc.drop_first()).len() == 0);
        assert(tc[0] == c);
    } else {
        lemma_encode_push(t.drop_first(), c);
        assert(tc.drop_first() =~= t.drop_first().push(c));
        assert(tc[0] == t[0]);
        lemma_scalar_width(t[0]);
        assert(encode_utf8(t) == encode_scalar(t[0] as u32) + encode_utf8(t.drop_first()));
    }
}

/// `byte_pos` is the length of the UTF-8 encoding of the text before the
/// position: token spans are true byte offsets into the source.
pub proof fn lemma_byte_pos_is_utf8_offset(cs: Seq<char>, i: int)
    requires
        0 <= i <= cs.len(),
    ensures
        byte_pos(cs, i) == encode_utf8(cs.subrange(0, i)).len(),
    decreases i,
{
    if i == 0 {
        assert(cs.subrange(0, 0) =~= Seq::<char>::empty());
    } else {
        lemma_byte_pos_is_utf8_offset(cs, i - 1);
        assert(cs.subrange(0, i) =~= cs.subrange(0, i - 1).push(cs[i - 1]));
        lemma_encode_push(cs.subrange(0, i - 1), cs[i - 1]);
    }
}

/// Byte offsets grow with the position.
pub proof fn lemma_byte_pos_mono(cs: Seq<char>, a: int, b: int)
    requires
        0 <= a <= b,
    ensures
        byte_pos(cs, a) <= byte_pos(cs, b),
    decreases b - a,
{
    if a < b {
        lemma_byte_pos_mono(cs, a, b - 1);
    }
}

// ---- results ----

/// `r` prepended with the tokens `vs` (errors are kept as they are).
pub open spec fn prepend(vs: Seq<TokV>, r: Result<Seq<TokV>, ErrV>) -> Result<Seq<TokV>, ErrV> {
    match r {
        Ok(ts) => Ok(vs + ts),
        Err(e) => Err(e),
    }
}

/// The tokens `ts` of file `file` are the grammar's tokens `vs`.
pub open spec fn tokens_are(ts: Seq<Token>, vs: Seq<TokV>, file: FileId) -> bool {
    &&& ts.len() == vs.len()
    &&& forall|k: int|
        0 <= k < ts.len() ==> (#[trigger] ts[k]).kind@ == vs[k].0 && ts[k].span == (Span {
            file_id: file,
            start: vs[k].1 as u32,
            end: vs[k].2 as u32,
            expansion_id: 0,
        })
}

/// The lexer's result `r` is what the grammar says, `g`, for file `file`.
pub open spec fn lexed_as(r: Result<Vec<Token>, ReadError>, g: Result<Seq<TokV>, ErrV>, file: FileId) -> bool {
    match r {
        Ok(ts) => g is Ok && tokens_are(ts@, g->Ok_0, file),
        Err(e) => g is Err && e.message@ == g->Err_0.0 && e.span == (Span {
            file_id: file,
            start: g->Err_0.1 as u32,
            end: g->Err_0.2 as u32,
            expansion_id: 0,
        }),
    }
}

/// What a scanner found, in executable form.
enum Scanned {
    Tok(TokenKind, usize),
    Skip(usize),
    Fail(String, usize, usize),
}

spec fn scanned_is(out: Scanned, s: Scan) -> bool {
    match out {
        Scanned::Tok(k, e) => s == Scan::Tok(k@, e as int),
        Scanned::Skip(e) => s == Scan::Skip(e as int),
        Scanned::Fail(m, a, b) => s == Scan::Fail(m@, a as nat, b as nat),
    }
}

// ---- executable helpers ----

/// The number of UTF-8 bytes of `c`.
fn width_of(c: char) -> (w: usize)
    ensures
        w == char_width(c),
{
    let u = c as u32;
    if u < 0x80 {
        1
    } else if u < 0x800 {
        2
    } else if u < 0x10000 {
        3
    } else {
        4
    }
}

fn is_digit_char(c: char) -> (b: bool)
    ensures
        b == is_digit(c),
{
    '0' <= c && c <= '9'
}

fn is_id_start(c: char) -> (b: bool)
    ensures
        b == id_start(c),
{
    char_is_alphabetic(c) || c == '_' || c == '!' || c == '$' || c == '%' || c == '&' || c == '?'
        || c == '+' || c == '-' || c == '*' || c == '/' || c == '<' || c == '>' || c == '='
}

fn is_id_continue(c: char) -> (b: bool)
    ensures
        b == id_continue(c),
{
    is_id_start(c) || is_digit_char(c) || c == '\''
}

fn escape_char(e: char) -> (r: Option<char>)
    ensures
        r == escape_of(e),
{
    if e == 'n' {
        Some('\n')
    } else if e == 't' {
        Some('\t')
    } else if e == 'r' {
        Some('\r')
    } else if e == '\\' {
        Some('\\')
    } else if e == '"' {
        Some('"')
    } else if e == '0' {
        Some('\0')
    } else {
        None
    }
}

/// The operator a word (given by its characters) spells, if any.
fn operator_of_chars(t: &Vec<char>) -> (r: Option<Operator>)
    ensures
        r == spec_operator_of(t@),
{
    let n = t.len();
    if n == 1 {
        let c = t[0];
        proof {
            assert(t@ =~= seq![c]);
        }
        if c == '+' {
            Some(Operator::Add)
        } else if c == '-' {
            Some(Operator::Sub)
        } else if c == '*' {
            Some(Operator::Mul)
        } else if c == '/' {
            Some(Operator::Div)
        } else if c == '<' {
            Some(Operator::Lt)
        } else if c == '>' {
            Some(Operator::Gt)
        } else if c == '=' {
            Some(Operator::Eq)
        } else {
            None
        }
    } else if n == 2 {
        let a = t[0];
        let b = t[1];
        proof {
            assert(t@ =~= seq![a, b]);
        }
        if a == '<' && b == '=' {
            Some(Operator::Le)
        } else if a == '>' && b == '=' {
            Some(Operator::Ge)
        } else {
            None
        }
    } else if n == 3 {
        let a = t[0];
        let b = t[1];
        let c = t[2];
        proof {
            assert(t@ =~= seq![a, b, c]);
        }
        if a == 'm' && b == 'o' && c == 'd' {
            Some(Operator::Mod)
        } else {
            None
        }
    } else {
        proof {
            assert(t@.len() != 1 && t@.len() != 2 && t@.len() != 3);
        }
        None
    }
}

/// The operator a word spells, if any (a pure table lookup).
pub fn operator_of(text: &str) -> (r: Option<Operator>)
    ensures
        r == spec_operator_of(text@),
{
    let t = chars_of(text);
    operator_of_chars(&t)
}

/// Whether word `t` is the literal `w`.
fn word_is(t: &Vec<char>, w: &Vec<char>) -> (b: bool)
    ensures
        b == (t@ == w@),
{
    if t.len() != w.len() {
        return false;
    }
    let mut i: usize = 0;
    while i < t.len()
        invariant
            t@.len() == w@.len(),
            0 <= i <= t@.len(),
            forall|k: int| 0 <= k < i ==> t@[k] == w@[k],
        decreases t@.len() - i,
    {
        if t[i] != w[i] {
            return false;
        }
        i = i + 1;
    }
    proof {
        assert(t@ =~= w@);
    }
    true
}

/// The token kind of a word.
fn classify_word(t: Vec<char>) -> (k: TokenKind)
    ensures
        k@ == word_kind(t@),
{
    if let Some(k) = keyword_of_chars(&t) {
        return TokenKind::Keyword(k);
    }
    let mut text = String::new();
    push_chars(&mut text, &t);
    match operator_of_chars(&t) {
        Some(op) => TokenKind::Operator(op, text),
        None => {
            if word_is(&t, &vec!['t', 'r', 'u', 'e']) {
                TokenKind::BoolLiteral(true)
            } else if word_is(&t, &vec!['f', 'a', 'l', 's', 'e']) {
                TokenKind::BoolLiteral(false)
            } else if word_is(&t, &vec!['n', 'i', 'l']) {
                TokenKind::NilLiteral
            } else {
                TokenKind::Identifier(text)
            }
        },
    }
}

/// A numeral read by the number scanner: an optional sign, then digits.
spec fn numeral(t: Seq<char>) -> bool {
    &&& t.len() >= 1
    &&& is_digit(t[0]) || t[0] == '-' || t[0] == '+'
    &&& forall|k: int| 1 <= k < t.len() ==> is_digit(t[k])
}

proof fn lemma_digits_value_grows(d: Seq<char>)
    requires
        d.len() > 0,
        is_digit(d.last()),
    ensures
        digits_value(d) >= digits_value(d.drop_last()) * 10,
        digits_value(d) >= digits_value(d.drop_last()),
{
}

/// The `i64` value of a numeral, if in range (`str::parse::<i64>` on the
/// numerals the number scanner produces).
fn parse_numeral(t: &Vec<char>) -> (r: Option<i64>)
    requires
        numeral(t@),
    ensures
        r == parse_int(t@),
{
    let limit: u64 = 0x8000_0000_0000_0000;
    let neg = t[0] == '-';
    let k0: usize = if t[0] == '-' || t[0] == '+' { 1 } else { 0 };
    let ghost body = t@.subrange(k0 as int, t@.len() as int);
    let mut acc: u64 = 0;
    let mut over = false;
    let mut k: usize = k0;
    proof {
        assert(t@.subrange(k0 as int, k0 as int) =~= Seq::<char>::empty());
    }
    while k < t.len()
        invariant
            numeral(t@),
            k0 <= k <= t@.len(),
            k0 == 0 || k0 == 1,
            k0 == 1 ==> t@[0] == '-' || t@[0] == '+',
            k0 == 0 ==> is_digit(t@[0]),
            !over ==> acc == digits_value(t@.subrange(k0 as int, k as int)) && acc <= limit,
            over ==> digits_value(t@.subrange(k0 as int, k as int)) > limit,
            limit == 0x8000_0000_0000_0000u64,
        decreases t@.len() - k,
    {
        let ghost prev = t@.subrange(k0 as int, k as int);
        let ghost next = t@.subrange(k0 as int, k + 1);
        proof {
            assert(next.drop_last() =~= prev);
            assert(next.last() == t@[k as int]);
            assert(is_digit(t@[k as int]));
            lemma_digits_value_grows(next);
        }
        let d: u64 = (t[k] as u32 - '0' as u32) as u64;
        if !over {
            let v: u128 = acc as u128 * 10 + d as u128;
            if v > limit as u128 {
                over = true;
            } else {
                acc = v as u64;
            }
        }
        k = k + 1;
    }
    proof {
        assert(t@.subrange(k0 as int, t@.len() as int) =~= (if k0 == 1 {
            t@.drop_first()
        } else {
            t@
        }));
    }
    if over {
        None
    } else if neg {
        if acc == limit {
            Some(i64::MIN)
        } else {
            Some(-(acc as i64))
        }
    } else if acc == limit {
        None
    } else {
        Some(acc as i64)
    }
}

// ---- the lexer ----

/// The lexer's state: the characters of the text, the byte offset of every
/// position (and of the end), the file id, and the current position.
pub struct Lexer {
    chars: Vec<char>,
    offsets: Vec<usize>,
    file_id: FileId,
    pos: usize,
}

impl Lexer {
    /// The characters of the text.
    pub closed spec fn text(&self) -> Seq<char> {
        self.chars@
    }

    /// The current position (a character index).
    pub closed spec fn position(&self) -> int {
        self.pos as int
    }

    /// The file the text belongs to.
    pub closed spec fn file(&self) -> FileId {
        self.file_id
    }

    /// The offsets table is right, the text fits `u32` offsets, and the
    /// position lies within the text.
    pub closed spec fn wf(&self) -> bool {
        &&& self.offsets@.len() == self.chars@.len() + 1
        &&& forall|k: int|
            0 <= k <= self.chars@.len() ==> #[trigger] self.offsets@[k] == byte_pos(self.chars@, k)
        &&& total_bytes(self.chars@) <= u32::MAX
        &&& self.pos <= self.chars@.len()
    }

    /// A lexer at the start of `source`.
    pub fn new(source: &str, file_id: FileId) -> (l: Lexer)
        requires
            source.spec_bytes().len() <= u32::MAX,
        ensures
            l.wf(),
            l.text() == source@,
            l.position() == 0,
            l.file() == file_id,
    {
        let chars = chars_of(source);
        let mut offsets: Vec<usize> = Vec::new();
        let mut off: usize = 0;
        let mut i: usize = 0;
        proof {
            lemma_byte_pos_is_utf8_offset(chars@, chars@.len() as int);
            assert(chars@.subrange(0, chars@.len() as int) =~= chars@);
        }
        while i < chars.len()
            invariant
                0 <= i <= chars@.len(),
                chars@ == source@,
                total_bytes(chars@) <= u32::MAX,
                off == byte_pos(chars@, i as int),
                offsets@.len() == i,
                forall|k: int| 0 <= k < i ==> #[trigger] offsets@[k] == byte_pos(chars@, k),
            decreases chars@.len() - i,
        {
            offsets.push(off);
            proof {
                lemma_byte_pos_mono(chars@, i + 1, chars@.len() as int);
            }
            off = off + width_of(chars[i]);
            i = i + 1;
        }
        offsets.push(off);
        Lexer { chars, offsets, file_id, pos: 0 }
    }

    proof fn lemma_offsets(&self, a: int, b: int)
        requires
            self.wf(),
            0 <= a <= b <= self.chars@.len(),
        ensures
            self.offsets@[a] <= self.offsets@[b] <= u32::MAX,
            self.offsets@[a] == byte_pos(self.chars@, a),
            self.offsets@[b] == byte_pos(self.chars@, b),
    {
        lemma_byte_pos_mono(self.chars@, a, b);
        lemma_byte_pos_mono(self.chars@, b, self.chars@.len() as int);
    }

    /// The text of positions `a..b`.
    fn text_of(&self, a: usize, b: usize) -> (t: Vec<char>)
        requires
            a <= b <= self.chars@.len(),
        ensures
            t@ == self.chars@.subrange(a as int, b as int),
    {
        let mut t: Vec<char> = Vec::new();
        let mut i: usize = a;
        while i < b
            invariant
                a <= i <= b <= self.chars@.len(),
                t@ == self.chars@.subrange(a as int, i as int),
            decreases b - i,
        {
            t.push(self.chars[i]);
            i = i + 1;
            proof {
                assert(t@ =~= self.chars@.subrange(a as int, i as int));
            }
        }
        t
    }

    /// Skips white space and line comments.
    fn skip_trivia(&mut self)
        requires
            old(self).wf(),
        ensures
            final(self).wf(),
            final(self).chars@ == old(self).chars@,
            final(self).file_id == old(self).file_id,
            final(self).pos == skip_trivia(old(self).chars@, old(self).pos as int, false),
    {
        let ghost target = skip_trivia(self.chars@, self.pos as int, false);
        assert(target == skip_trivia(old(self).chars@, old(self).pos as int, false));
        let n = self.chars.len();
        while self.pos < n
            invariant
                self.wf(),
                self.chars@ == old(self).chars@,
                self.file_id == old(self).file_id,
                n == self.chars@.len(),
                skip_trivia(self.chars@, self.pos as int, false) == target,
                target == skip_trivia(old(self).chars@, old(self).pos as int, false),
            decreases n - self.pos,
        {
            let c = self.chars[self.pos];
            let ghost p0 = self.pos;
            if char_is_whitespace(c) {
                self.pos = self.pos + 1;
            } else if c == ';' {
                self.pos = self.pos + 1;
                while self.pos < n && self.chars[self.pos] != '\n'
                    invariant
                        self.wf(),
                        self.chars@ == old(self).chars@,
                        self.file_id == old(self).file_id,
                        n == self.chars@.len(),
                        p0 < self.pos <= n,
                        skip_trivia(self.chars@, self.pos as int, true) == target,
                    decreases n - self.pos,
                {
                    self.pos = self.pos + 1;
                }
                proof {
                    if self.pos < n {
                        assert(skip_trivia(self.chars@, self.pos as int, true) == skip_trivia(
                            self.chars@,
                            self.pos as int,
                            false,
                        ));
                    }
                }
            } else {
                proof {
                    assert(skip_trivia(self.chars@, self.pos as int, false) == self.pos);
                    assert(self.pos == target);
                }
                return;
            }
        }
    }

    /// A string literal whose opening quote is at `j`.
    fn string_literal(&self, j: usize) -> (out: Scanned)
        requires
            self.wf(),
            j < self.chars@.len(),
        ensures
            scanned_is(out, scan_string(self.chars@, j as int, j + 1, Seq::empty())),
    {
        let n = self.chars.len();
        let mut acc = String::new();
        let mut i: usize = j + 1;
        proof {
            self.lemma_offsets(j as int, n as int);
        }
        loop
            invariant
                self.wf(),
                n == self.chars@.len(),
                j < i <= n + 1,
                scan_string(self.chars@, j as int, i as int, acc@) == scan_string(
                    self.chars@,
                    j as int,
                    j + 1,
                    Seq::empty(),
                ),
                self.offsets@[j as int] <= self.offsets@[n as int] <= u32::MAX,
            decreases n + 1 - i,
        {
            if i >= n {
                let m = string_of("字符串未闭合（文件意外结束）");
                return Scanned::Fail(m, self.offsets[j], self.offsets[n]);
            }
            let c = self.chars[i];
            if c == '"' {
                return Scanned::Tok(TokenKind::StringLiteral(acc), i + 1);
            }
            if c == '\\' {
                if i + 1 >= n {
                    let m = string_of("字符串未闭合（文件意外结束）");
                    return Scanned::Fail(m, self.offsets[j], self.offsets[n]);
                }
                let e = self.chars[i + 1];
                match escape_char(e) {
                    Some(x) => {
                        push_char(&mut acc, x);
                        i = i + 2;
                    },
                    None => {
                        proof {
                            self.lemma_offsets(i as int, i + 1);
                            self.lemma_offsets(i + 1, i + 2);
                            self.lemma_offsets(i + 2, n as int);
                        }
                        let mut m = string_of("非法转义字符 '\\");
                        let ghost m0 = m@;
                        push_char(&mut m, e);
                        proof {
                            assert(m@ =~= m0 + seq![e]);
                        }
                        push_str(&mut m, "'");
                        return Scanned::Fail(m, self.offsets[i], self.offsets[i + 1] + 1);
                    },
                }
            } else {
                push_char(&mut acc, c);
                i = i + 1;
            }
        }
    }
}

impl Lexer {
    /// A number starting at `j` (a digit, or a sign followed by a digit).
    fn number(&self, j: usize) -> (out: Scanned)
        requires
            self.wf(),
            j < self.chars@.len(),
            is_digit(self.chars@[j as int]) || self.chars@[j as int] == '-' || self.chars@[j as int]
                == '+',
        ensures
            scanned_is(
                out,
                scan_number(self.chars@, j as int, j + 1, seq![self.chars@[j as int]], false, false),
            ),
    {
        let n = self.chars.len();
        let ghost cs = self.chars@;
        let ghost goal = scan_number(cs, j as int, j + 1, seq![cs[j as int]], false, false);
        let mut text: Vec<char> = Vec::new();
        text.push(self.chars[j]);
        let mut i: usize = j + 1;
        let mut is_float = false;
        let mut has_exp = false;
        proof {
            assert(text@ =~= seq![cs[j as int]]);
        }
        loop
            invariant
                self.wf(),
                cs == self.chars@,
                n == cs.len(),
                j < i <= n,
                scan_number(cs, j as int, i as int, text@, is_float, has_exp) == goal,
                goal == scan_number(cs, j as int, j + 1, seq![cs[j as int]], false, false),
                !is_float ==> numeral(text@),
            decreases n - i,
        {
            if i < n && is_digit_char(self.chars[i]) {
                text.push(self.chars[i]);
                i = i + 1;
            } else if i < n && self.chars[i] == '.' && !is_float && !has_exp && i + 1 < n
                && is_digit_char(self.chars[i + 1]) {
                text.push('.');
                is_float = true;
                i = i + 1;
            } else if i < n && (self.chars[i] == 'e' || self.chars[i] == 'E') && !has_exp {
                text.push('e');
                let i1 = i + 1;
                if i1 < n && (self.chars[i1] == '-' || self.chars[i1] == '+') {
                    text.push(self.chars[i1]);
                    i = i1 + 1;
                } else {
                    i = i1;
                }
                if i < n && is_digit_char(self.chars[i]) {
                    is_float = true;
                    has_exp = true;
                } else {
                    proof {
                        self.lemma_offsets(j as int, i as int);
                    }
                    let mut m = string_of("非法数字字面量 '");
                    push_chars(&mut m, &text);
                    push_str(&mut m, "'（指数缺少数字）");
                    return Scanned::Fail(m, self.offsets[j], self.offsets[i]);
                }
            } else {
                return self.finish_number(j, i, text, is_float);
            }
        }
    }

    fn finish_number(&self, j: usize, i: usize, text: Vec<char>, is_float: bool) -> (out: Scanned)
        requires
            self.wf(),
            j < i <= self.chars@.len(),
            !is_float ==> numeral(text@),
        ensures
            scanned_is(out, finish_number(self.chars@, j as int, i as int, text@, is_float)),
    {
        let n = self.chars.len();
        if i < n && is_id_start(self.chars[i]) {
            let c = self.chars[i];
            proof {
                self.lemma_offsets(i as int, i + 1);
                self.lemma_offsets(i + 1, n as int);
            }
            let mut m = string_of("数字 '");
            push_chars(&mut m, &text);
            push_str(&mut m, "' 后紧跟标识符字符 '");
            let ghost m0 = m@;
            push_char(&mut m, c);
            proof {
                assert(m@ =~= m0 + seq![c]);
            }
            push_str(&mut m, "'（应为独立 Token）");
            return Scanned::Fail(m, self.offsets[i], self.offsets[i + 1]);
        }
        if is_float {
            let mut t = String::new();
            push_chars(&mut t, &text);
            return Scanned::Tok(TokenKind::FloatLiteral(t), i);
        }
        match parse_numeral(&text) {
            Some(v) => Scanned::Tok(TokenKind::IntLiteral(v), i),
            None => {
                proof {
                    self.lemma_offsets(j as int, i as int);
                }
                let mut m = string_of("整数超出范围 '");
                push_chars(&mut m, &text);
                push_str(&mut m, "'");
                Scanned::Fail(m, self.offsets[j], self.offsets[i])
            },
        }
    }

    /// The first position from `i` on that cannot continue an identifier.
    fn word_end_from(&self, i: usize) -> (e: usize)
        requires
            i <= self.chars@.len(),
        ensures
            e == word_end(self.chars@, i as int),
            i <= e <= self.chars@.len(),
    {
        let mut e = i;
        while e < self.chars.len() && is_id_continue(self.chars[e])
            invariant
                i <= e <= self.chars@.len(),
                word_end(self.chars@, e as int) == word_end(self.chars@, i as int),
            decreases self.chars@.len() - e,
        {
            e = e + 1;
        }
        e
    }

    /// An identifier (or word) starting at `j`.
    fn identifier(&self, j: usize) -> (out: Scanned)
        requires
            j < self.chars@.len(),
        ensures
            scanned_is(out, scan_identifier(self.chars@, j as int)),
    {
        let n = self.chars.len();
        if self.chars[j] == '.' {
            let mut k = j + 1;
            while k < n && self.chars[k] == '.'
                invariant
                    j < k <= n,
                    n == self.chars@.len(),
                    dots_end(self.chars@, k as int) == dots_end(self.chars@, j + 1),
                decreases n - k,
            {
                k = k + 1;
            }
            if k - j != 3 {
                let t = self.text_of(j, k);
                let mut s = String::new();
                push_chars(&mut s, &t);
                return Scanned::Tok(TokenKind::Identifier(s), k);
            }
            let e = self.word_end_from(k);
            let t = self.text_of(j, e);
            Scanned::Tok(classify_word(t), e)
        } else {
            let e = self.word_end_from(j + 1);
            let t = self.text_of(j, e);
            Scanned::Tok(classify_word(t), e)
        }
    }

    /// Where the block comment whose body starts at `i` ends.
    fn block_comment(&self, i0: usize) -> (r: Option<usize>)
        requires
            i0 <= self.chars@.len(),
            i0 >= 1,
        ensures
            r matches Some(e) ==> block_end(self.chars@, i0 as int, 1) == Some(e as int),
            r is None ==> block_end(self.chars@, i0 as int, 1) is None,
    {
        let n = self.chars.len();
        let ghost goal = block_end(self.chars@, i0 as int, 1);
        let mut i = i0;
        let mut depth: usize = 1;
        while i < n
            invariant
                i0 <= i <= n,
                n == self.chars@.len(),
                1 <= depth <= i,
                block_end(self.chars@, i as int, depth as nat) == goal,
                goal == block_end(self.chars@, i0 as int, 1),
            decreases n - i,
        {
            if self.chars[i] == '#' && i + 1 < n && self.chars[i + 1] == '|' {
                depth = depth + 1;
                i = i + 2;
            } else if self.chars[i] == '|' && i + 1 < n && self.chars[i + 1] == '#' {
                if depth <= 1 {
                    return Some(i + 2);
                }
                depth = depth - 1;
                i = i + 2;
            } else {
                i = i + 1;
            }
        }
        None
    }

    /// What starts at position `j`.
    fn scan_at(&self, j: usize) -> (out: Scanned)
        requires
            self.wf(),
            j < self.chars@.len(),
        ensures
            scanned_is(out, scan_at(self.chars@, j as int)),
    {
        let n = self.chars.len();
        let c = self.chars[j];
        let has_next = j + 1 < n;
        if c == '(' {
            Scanned::Tok(TokenKind::Delimiter(Delimiter::OpenParen), j + 1)
        } else if c == ')' {
            Scanned::Tok(TokenKind::Delimiter(Delimiter::CloseParen), j + 1)
        } else if c == '[' {
            Scanned::Tok(TokenKind::Delimiter(Delimiter::OpenBracket), j + 1)
        } else if c == ']' {
            Scanned::Tok(TokenKind::Delimiter(Delimiter::CloseBracket), j + 1)
        } else if c == '\'' {
            Scanned::Tok(TokenKind::QuoteShorthand, j + 1)
        } else if c == '"' {
            self.string_literal(j)
        } else if c == '.' && has_next && self.chars[j + 1] == '.' {
            self.identifier(j)
        } else if is_digit_char(c) || ((c == '-' || c == '+') && has_next && is_digit_char(
            self.chars[j + 1],
        )) {
            self.number(j)
        } else if is_id_start(c) {
            self.identifier(j)
        } else if c == '#' && has_next && self.chars[j + 1] == '|' {
            proof {
                self.lemma_offsets(j as int, n as int);
            }
            match self.block_comment(j + 2) {
                Some(e) => Scanned::Skip(e),
                None => Scanned::Fail(string_of("块注释 #|...|# 未闭合"), self.offsets[j], self.offsets[n]),
            }
        } else {
            proof {
                self.lemma_offsets(j as int, j + 1);
                self.lemma_offsets(j + 1, n as int);
            }
            let mut m = string_of("非法字符 '");
            let ghost m0 = m@;
            push_char(&mut m, c);
            proof {
                assert(m@ =~= m0 + seq![c]);
            }
            push_str(&mut m, "'");
            Scanned::Fail(m, self.offsets[j], self.offsets[j + 1])
        }
    }
}

impl Lexer {
    /// Reads the rest of the text: the tokens up to the end, closed by
    /// `Eof`, or the first lexical error.
    pub fn run(&mut self) -> (res: Result<Vec<Token>, ReadError>)
        requires
            old(self).wf(),
        ensures
            final(self).wf(),
            final(self).text() == old(self).text(),
            final(self).file() == old(self).file(),
            lexed_as(res, lex_from(old(self).text(), old(self).position()), old(self).file()),
    {
        let ghost cs = self.chars@;
        let ghost goal = lex_from(cs, self.pos as int);
        let ghost mut vs: Seq<TokV> = Seq::empty();
        let n = self.chars.len();
        let file = self.file_id;
        let mut toks: Vec<Token> = Vec::new();
        proof {
            assert(prepend(vs, lex_from(cs, self.pos as int)) =~= goal) by {
                match lex_from(cs, self.pos as int) {
                    Ok(ts) => {
                        assert(vs + ts =~= ts);
                    },
                    Err(_) => {},
                }
            }
        }
        loop
            invariant
                self.wf(),
                cs == self.chars@,
                n == cs.len(),
                file == self.file_id,
                self.file_id == old(self).file_id,
                cs == old(self).chars@,
                goal == lex_from(old(self).chars@, old(self).pos as int),
                tokens_are(toks@, vs, file),
                prepend(vs, lex_from(cs, self.pos as int)) == goal,
            decreases n - self.pos,
        {
            let ghost p0 = self.pos;
            self.skip_trivia();
            let j = self.pos;
            proof {
                lemma_skip_trivia(cs, p0 as int, false);
            }
            if j >= n {
                proof {
                    self.lemma_offsets(n as int, n as int);
                }
                let span = Span::new(file, self.offsets[n] as u32, self.offsets[n] as u32);
                let ghost old_toks = toks@;
                toks.push(Token { kind: TokenKind::Eof, span });
                proof {
                    let eof: TokV = (KindV::Eof, total_bytes(cs), total_bytes(cs));
                    assert(lex_from(cs, p0 as int) == Ok::<Seq<TokV>, ErrV>(seq![eof]));
                    assert(tokens_are(toks@, vs.push(eof), file)) by {
                        assert forall|k: int| 0 <= k < toks@.len() implies (#[trigger] toks@[k]).kind@
                            == vs.push(eof)[k].0 && toks@[k].span == (Span {
                            file_id: file,
                            start: vs.push(eof)[k].1 as u32,
                            end: vs.push(eof)[k].2 as u32,
                            expansion_id: 0,
                        }) by {
                            if k < vs.len() {
                                assert(toks@[k] == old_toks[k]);
                            }
                        }
                    }
                    assert(vs + seq![eof] =~= vs.push(eof));
                }
                return Ok(toks);
            }
            proof {
                lemma_scan_at(cs, j as int);
                self.lemma_offsets(j as int, n as int);
            }
            let out = self.scan_at(j);
            match out {
                Scanned::Tok(kind, e) => {
                    proof {
                        self.lemma_offsets(j as int, e as int);
                        self.lemma_offsets(e as int, n as int);
                    }
                    let span = Span::new(file, self.offsets[j] as u32, self.offsets[e] as u32);
                    let ghost tv: TokV = (kind@, byte_pos(cs, j as int), byte_pos(cs, e as int));
                    let ghost old_toks = toks@;
                    toks.push(Token { kind, span });
                    self.pos = e;
                    proof {
                        assert(tokens_are(toks@, vs.push(tv), file)) by {
                            assert forall|k: int| 0 <= k < toks@.len() implies (
                            #[trigger] toks@[k]).kind@ == vs.push(tv)[k].0 && toks@[k].span == (Span {
                                file_id: file,
                                start: vs.push(tv)[k].1 as u32,
                                end: vs.push(tv)[k].2 as u32,
                                expansion_id: 0,
                            }) by {
                                if k < vs.len() {
                                    assert(toks@[k] == old_toks[k]);
                                }
                            }
                        }
                        match lex_from(cs, e as int) {
                            Ok(ts) => {
                                assert(vs + (seq![tv] + ts) =~= vs.push(tv) + ts);
                            },
                            Err(_) => {},
                        }
                        vs = vs.push(tv);
                    }
                },
                Scanned::Skip(e) => {
                    self.pos = e;
                },
                Scanned::Fail(m, a, b) => {
                    proof {
                        lemma_byte_pos_mono(cs, j as int, n as int);
                    }
                    let span = Span::new(file, a as u32, b as u32);
                    return Err(ReadError { message: m, span });
                },
            }
        }
    }
}

/// Reads the tokens of a whole source text (of file `file_id`): the tokens
/// the lexical grammar gives, closed by `Eof`, or its first error.
pub fn lex_source(source: &str, file_id: FileId) -> (res: Result<Vec<Token>, ReadError>)
    requires
        source.spec_bytes().len() <= u32::MAX,
    ensures
        lexed_as(res, spec_lex(source@), file_id),
{
    let mut lexer = Lexer::new(source, file_id);
    lexer.run()
}

/// Byte offsets grow strictly with the position.
proof fn lemma_byte_pos_strict(cs: Seq<char>, a: int, b: int)
    requires
        0 <= a < b,
    ensures
        byte_pos(cs, a) < byte_pos(cs, b),
{
    lemma_byte_pos_mono(cs, a, b - 1);
}

/// Lexing is lossless and in order: from position `i`, the tokens lie
/// within the rest of the text, each ends before the next starts, every
/// token but the last is non-empty and is not `Eof`, and the last is `Eof`
/// at the end of the text; an error's span lies within the rest of the
/// text.
pub proof fn lemma_lex_in_order(cs: Seq<char>, i: int)
    requires
        0 <= i <= cs.len(),
    ensures
        match lex_from(cs, i) {
            Ok(ts) => {
                &&& ts.len() >= 1
                &&& ts.last() == (KindV::Eof, total_bytes(cs), total_bytes(cs))
                &&& forall|k: int|
                    0 <= k < ts.len() ==> byte_pos(cs, i) <= (#[trigger] ts[k]).1 <= ts[k].2
                        <= total_bytes(cs)
                &&& forall|k: int|
                    0 <= k < ts.len() - 1 ==> !((#[trigger] ts[k]).0 is Eof) && ts[k].1 < ts[k].2
                        && ts[k].2 <= ts[k + 1].1
            },
            Err(e) => byte_pos(cs, i) <= e.1 <= e.2 <= total_bytes(cs),
        },
    decreases cs.len() - i,
{
    let j = skip_trivia(cs, i, false);
    lemma_skip_trivia(cs, i, false);
    lemma_byte_pos_mono(cs, i, j);
    lemma_byte_pos_mono(cs, j, cs.len() as int);
    if j < cs.len() {
        lemma_scan_at(cs, j);
        match scan_at(cs, j) {
            Scan::Tok(kd, e) => {
                lemma_lex_in_order(cs, e);
                lemma_byte_pos_strict(cs, j, e);
                lemma_byte_pos_mono(cs, e, cs.len() as int);
                match lex_from(cs, e) {
                    Ok(rest) => {
                        let tv: TokV = (kd, byte_pos(cs, j), byte_pos(cs, e));
                        let ts = seq![tv] + rest;
                        assert(ts.last() == rest.last());
                        assert forall|k: int| 0 <= k < ts.len() implies byte_pos(cs, i) <= (
                        #[trigger] ts[k]).1 <= ts[k].2 <= total_bytes(cs) by {
                            if k > 0 {
                                assert(ts[k] == rest[k - 1]);
                            }
                        }
                        assert forall|k: int| 0 <= k < ts.len() - 1 implies !((
                        #[trigger] ts[k]).0 is Eof) && ts[k].1 < ts[k].2 && ts[k].2 <= ts[k + 1].1 by {
                            if k > 0 {
                                assert(ts[k] == rest[k - 1]);
                                assert(ts[k + 1] == rest[k]);
                            } else {
                                assert(ts[1] == rest[0]);
                                assert(!(kd is Eof));
                            }
                        }
                    },
                    Err(_) => {},
                }
            },
            Scan::Skip(e) => {
                lemma_lex_in_order(cs, e);
                lemma_byte_pos_mono(cs, i, e);
            },
            Scan::Fail(_, _, _) => {},
        }
    }
}

} // verus!
