//! Structured diagnostics: errors are data, rendered on demand.
use vstd::prelude::*;
use vstd::string::*;

use crate::source_map::{SourceFile, SourceMap, spec_render_excerpt, spec_render_location};
use crate::span::Span;
use crate::text::{dec, dec_chars, push_char, push_rjust, push_str, rjust, string_of};

verus! {

/// Severity of a diagnostic.
#[derive(Debug, Clone, Copy, PartialEq, Eq, Structural, Hash)]
pub enum Severity {
    Error,
    Warning,
    Note,
    Help,
}

/// The label a severity is rendered with.
pub open spec fn severity_label(s: Severity) -> Seq<char> {
    match s {
        Severity::Error => "error"@,
        Severity::Warning => "warning"@,
        Severity::Note => "note"@,
        Severity::Help => "help"@,
    }
}

impl Severity {
    /// The rendering label ("error", "warning", "note", "help").
    pub fn label(self) -> (l: &'static str)
        ensures
            l@ == severity_label(self),
    {
        match self {
            Severity::Error => "error",
            Severity::Warning => "warning",
            Severity::Note => "note",
            Severity::Help => "help",
        }
    }
}

/// A diagnostic number (E0001 is a lexical error, ...).
#[derive(Debug, Clone, Copy, PartialEq, Eq, Structural, Hash)]
pub struct DiagnosticCode(pub u32);

/// "E" followed by the number, zero-padded to four digits.
pub open spec fn code_text(c: DiagnosticCode) -> Seq<char> {
    seq!['E'] + rjust(dec(c.0 as nat), 4, '0')
}

impl DiagnosticCode {
    /// Renders as "E0001".
    pub fn render(self) -> (s: String)
        ensures
            s@ == code_text(self),
    {
        let mut s = String::new();
        push_char(&mut s, 'E');
        let digits = dec_chars(self.0 as u64);
        push_rjust(&mut s, &digits, 4, '0');
        proof {
            assert(s@ =~= code_text(self));
        }
        s
    }
}

/// A secondary diagnostic (a related note such as "expanded here").
#[derive(Debug, Clone)]
pub struct SubDiagnostic {
    pub severity: Severity,
    pub message: String,
    pub span: Span,
}

/// A suggested fix.
#[derive(Debug, Clone)]
pub struct Suggestion {
    pub message: String,
    pub span: Span,
    pub replacement: String,
}

/// A structured diagnostic.
#[derive(Debug, Clone)]
pub struct Diagnostic {
    pub severity: Severity,
    pub code: Option<DiagnosticCode>,
    pub message: String,
    pub primary_span: Span,
    pub children: Vec<SubDiagnostic>,
    pub suggestions: Vec<Suggestion>,
}

impl Diagnostic {
    /// An error-level diagnostic with no children and no suggestion.
    pub fn error(code: Option<DiagnosticCode>, message: &str, span: Span) -> (d: Diagnostic)
        ensures
            d.severity == Severity::Error,
            d.code == code,
            d.message@ == message@,
            d.primary_span == span,
            d.children@.len() == 0,
            d.suggestions@.len() == 0,
    {
        Diagnostic {
            severity: Severity::Error,
            code,
            message: string_of(message),
            primary_span: span,
            children: Vec::new(),
            suggestions: Vec::new(),
        }
    }

    /// A warning-level diagnostic with no children and no suggestion.
    pub fn warning(code: Option<DiagnosticCode>, message: &str, span: Span) -> (d: Diagnostic)
        ensures
            d.severity == Severity::Warning,
            d.code == code,
            d.message@ == message@,
            d.primary_span == span,
            d.children@.len() == 0,
            d.suggestions@.len() == 0,
    {
        Diagnostic {
            severity: Severity::Warning,
            code,
            message: string_of(message),
            primary_span: span,
            children: Vec::new(),
            suggestions: Vec::new(),
        }
    }

    /// The same diagnostic with one more secondary diagnostic at the end.
    pub fn with_child(self, severity: Severity, message: &str, span: Span) -> (d: Diagnostic)
        ensures
            d.severity == self.severity,
            d.code == self.code,
            d.message == self.message,
            d.primary_span == self.primary_span,
            d.suggestions == self.suggestions,
            d.children@.len() == self.children@.len() + 1,
            d.children@.subrange(0, self.children@.len() as int) == self.children@,
            d.children@.last().severity == severity,
            d.children@.last().message@ == message@,
            d.children@.last().span == span,
    {
        let mut d = self;
        d.children.push(SubDiagnostic { severity, message: string_of(message), span });
        proof {
            assert(d.children@.subrange(0, self.children@.len() as int) =~= self.children@);
        }
        d
    }

    /// The same diagnostic with one more suggestion at the end.
    pub fn with_suggestion(self, message: &str, span: Span, replacement: &str) -> (d: Diagnostic)
        ensures
            d.severity == self.severity,
            d.code == self.code,
            d.message == self.message,
            d.primary_span == self.primary_span,
            d.children == self.children,
            d.suggestions@.len() == self.suggestions@.len() + 1,
            d.suggestions@.subrange(0, self.suggestions@.len() as int) == self.suggestions@,
            d.suggestions@.last().message@ == message@,
            d.suggestions@.last().span == span,
            d.suggestions@.last().replacement@ == replacement@,
    {
        let mut d = self;
        d.suggestions.push(
            Suggestion { message: string_of(message), span, replacement: string_of(replacement) },
        );
        proof {
            assert(d.suggestions@.subrange(0, self.suggestions@.len() as int) =~= self.suggestions@);
        }
        d
    }

    /// Whether the diagnostic blocks (is an error).
    pub fn is_error(&self) -> (b: bool)
        ensures
            b == (self.severity == Severity::Error),
    {
        match self.severity {
            Severity::Error => true,
            _ => false,
        }
    }
}

/// `"  {label}: {message} ({location})\n"` for each secondary diagnostic.
pub open spec fn render_children(files: Seq<SourceFile>, cs: Seq<SubDiagnostic>) -> Seq<char>
    decreases cs.len(),
{
    if cs.len() == 0 {
        Seq::empty()
    } else {
        let c = cs.last();
        render_children(files, cs.drop_last()) + "  "@ + severity_label(c.severity) + ": "@
            + c.message@ + " ("@ + spec_render_location(
            files,
            c.span.file_id,
            c.span.start,
            c.span.expansion_id,
        ) + ")\n"@
    }
}

/// `"  help: {message} → 「{replacement}」\n"` for each suggestion.
pub open spec fn render_suggestions(ss: Seq<Suggestion>) -> Seq<char>
    decreases ss.len(),
{
    if ss.len() == 0 {
        Seq::empty()
    } else {
        let s = ss.last();
        render_suggestions(ss.drop_last()) + "  help: "@ + s.message@ + " → 「"@ + s.replacement@
            + "」\n"@
    }
}

/// The rendering of a diagnostic against the files `files`:
///
/// ```text
/// error[E0001]: message
///   --> main.krf:1:5
///    |
///    1 | (+# 1)
///      |     ^
///   note: child message (main.krf:1:1)
///   help: suggestion → 「replacement」
/// ```
///
/// The excerpt block appears when the primary span's file is known.
pub open spec fn spec_render_diagnostic(d: Diagnostic, files: Seq<SourceFile>) -> Seq<char> {
    let code = match d.code {
        Some(c) => "["@ + code_text(c) + "]"@,
        None => Seq::empty(),
    };
    let sp = d.primary_span;
    let excerpt = excerpt_block(files, sp);
    severity_label(d.severity) + code + ": "@ + d.message@ + "\n"@ + "  --> "@ + spec_render_location(
        files,
        sp.file_id,
        sp.start,
        sp.expansion_id,
    ) + "\n"@ + excerpt + render_children(files, d.children@) + render_suggestions(d.suggestions@)
}

/// Every position a diagnostic renders starts a character of its file.
pub open spec fn diagnostic_positions_ok(d: Diagnostic, sm: SourceMap) -> bool {
    &&& sm.position_ok(d.primary_span.file_id, d.primary_span.start)
    &&& forall|i: int|
        0 <= i < d.children@.len() ==> sm.position_ok(
            (#[trigger] d.children@[i]).span.file_id,
            d.children@[i].span.start,
        )
}

/// The excerpt block of a primary span: `"   |\n{excerpt}\n"` when its file
/// is known, nothing otherwise.
pub open spec fn excerpt_block(files: Seq<SourceFile>, sp: Span) -> Seq<char> {
    if (sp.file_id as int) < files.len() {
        "   |\n"@ + spec_render_excerpt(files, sp.file_id, sp.start) + "\n"@
    } else {
        Seq::empty()
    }
}

fn push_excerpt_block(out: &mut String, span: Span, source_map: &SourceMap)
    requires
        source_map.wf(),
        source_map.position_ok(span.file_id, span.start),
    ensures
        final(out)@ == old(out)@ + excerpt_block(source_map@, span),
{
    if !span.is_empty() || source_map.file(span.file_id).is_some() {
        let excerpt = source_map.excerpt(span.file_id, span.start);
        let es = excerpt.as_str();
        if !es.is_empty() {
            proof {
            }
            push_str(out, "   |\n");
            push_str(out, es);
            push_char(out, '\n');
            proof {
                reveal_strlit("\n");
                assert(out@ =~= old(out)@ + excerpt_block(source_map@, span));
            }
        } else {
            proof {
                if (span.file_id as int) < source_map@.len() {
                    let e = spec_render_excerpt(source_map@, span.file_id, span.start);
                    assert(e.len() > 0) by {
                        reveal_strlit("^");
                        assert(e.last() == '^');
                    }
                    assert(es@ == e);
                }
                assert(out@ =~= old(out)@ + excerpt_block(source_map@, span));
            }
        }
    } else {
        proof {
            assert(out@ =~= old(out)@ + excerpt_block(source_map@, span));
        }
    }
}

/// Renders a diagnostic as readable text.
pub fn render_diagnostic(diag: &Diagnostic, source_map: &SourceMap) -> (out: String)
    requires
        source_map.wf(),
        diagnostic_positions_ok(*diag, *source_map),
    ensures
        out@ == spec_render_diagnostic(*diag, source_map@),
{
    let mut out = String::new();
    push_str(&mut out, diag.severity.label());
    match diag.code {
        Some(c) => {
            push_char(&mut out, '[');
            let r = c.render();
            push_str(&mut out, r.as_str());
            push_char(&mut out, ']');
        },
        None => {},
    }
    push_str(&mut out, ": ");
    push_str(&mut out, diag.message.as_str());
    push_char(&mut out, '\n');
    let span = diag.primary_span;
    push_str(&mut out, "  --> ");
    let loc = source_map.render_location(span.file_id, span.start, span.expansion_id);
    push_str(&mut out, loc.as_str());
    push_char(&mut out, '\n');
    push_excerpt_block(&mut out, span, source_map);
    let ghost before_children = out@;
    let mut i: usize = 0;
    while i < diag.children.len()
        invariant
            source_map.wf(),
            diagnostic_positions_ok(*diag, *source_map),
            0 <= i <= diag.children@.len(),
            out@ == before_children + render_children(
                source_map@,
                diag.children@.subrange(0, i as int),
            ),
        decreases diag.children@.len() - i,
    {
        let child = &diag.children[i];
        let ghost prev = out@;
        push_str(&mut out, "  ");
        push_str(&mut out, child.severity.label());
        push_str(&mut out, ": ");
        push_str(&mut out, child.message.as_str());
        push_str(&mut out, " (");
        let loc = source_map.render_location(
            child.span.file_id,
            child.span.start,
            child.span.expansion_id,
        );
        push_str(&mut out, loc.as_str());
        push_str(&mut out, ")\n");
        proof {
            let cs = diag.children@.subrange(0, i + 1);
            assert(cs.drop_last() =~= diag.children@.subrange(0, i as int));
            assert(out@ =~= before_children + render_children(source_map@, cs));
        }
        i = i + 1;
    }
    proof {
        assert(diag.children@.subrange(0, i as int) =~= diag.children@);
    }
    let ghost before_sugg = out@;
    let mut j: usize = 0;
    while j < diag.suggestions.len()
        invariant
            0 <= j <= diag.suggestions@.len(),
            out@ == before_sugg + render_suggestions(diag.suggestions@.subrange(0, j as int)),
        decreases diag.suggestions@.len() - j,
    {
        let sugg = &diag.suggestions[j];
        push_str(&mut out, "  help: ");
        push_str(&mut out, sugg.message.as_str());
        push_str(&mut out, " → 「");
        push_str(&mut out, sugg.replacement.as_str());
        push_str(&mut out, "」\n");
        proof {
            let ss = diag.suggestions@.subrange(0, j + 1);
            assert(ss.drop_last() =~= diag.suggestions@.subrange(0, j as int));
            assert(out@ =~= before_sugg + render_suggestions(ss));
        }
        j = j + 1;
    }
    proof {
        assert(diag.suggestions@.subrange(0, j as int) =~= diag.suggestions@);
        reveal_strlit("[");
        reveal_strlit("]");
        reveal_strlit("\n");
        assert(out@ =~= spec_render_diagnostic(*diag, source_map@));
    }
    out
}

} // verus!
