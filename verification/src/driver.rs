//! The pipeline's shared shapes: stages, the driver error (stage,
//! structured diagnostic and its rendered text), compiler choice, and the
//! reports of `check` and `test`.
use vstd::prelude::*;

use crate::diagnostic::{
    diagnostic_positions_ok, render_diagnostic, spec_render_diagnostic, Diagnostic,
    DiagnosticCode, Severity,
};
use crate::core_expr::{is_prelude_form, spec_is_prelude_form, CoreExpr};
use crate::expander::ExpandError;
use crate::source_map::SourceMap;
use crate::span::Span;
use crate::text::{chars_of, push_char, push_str};
use crate::token::ReadError;

verus! {

/// A stage of the pipeline.
#[derive(Debug, Clone, Copy, PartialEq, Eq, Structural)]
pub enum Stage {
    Read,
    Expand,
    Compile,
    Run,
}

/// The name of a stage.
pub open spec fn stage_label(s: Stage) -> Seq<char> {
    match s {
        Stage::Read => "read"@,
        Stage::Expand => "expand"@,
        Stage::Compile => "compile"@,
        Stage::Run => "run"@,
    }
}

impl Stage {
    /// The stage's name.
    pub fn label(self) -> (l: &'static str)
        ensures
            l@ == stage_label(self),
    {
        match self {
            Stage::Read => "read",
            Stage::Expand => "expand",
            Stage::Compile => "compile",
            Stage::Run => "run",
        }
    }
}

/// A pipeline error: the stage, the structured diagnostic, and its
/// rendered text.
#[derive(Debug, Clone)]
pub struct DriverError {
    pub stage: Stage,
    pub diagnostic: Diagnostic,
    pub rendered: String,
}

/// A driver error for `diag` at `stage`, rendered against `sm`.
pub open spec fn error_of(stage: Stage, diag: Diagnostic, sm: SourceMap, e: DriverError) -> bool {
    &&& e.stage == stage
    &&& e.diagnostic == diag
    &&& e.rendered@ == spec_render_diagnostic(diag, sm@)
}

/// The diagnostic of a reader or expander error: an error with code
/// `code`, the error's message, and its span.
pub open spec fn stage_diagnostic(code: u32, message: Seq<char>, d: Diagnostic) -> bool {
    &&& d.severity == Severity::Error
    &&& d.code == Some(DiagnosticCode(code))
    &&& d.message@ == message
    &&& d.children@.len() == 0
    &&& d.suggestions@.len() == 0
}

impl DriverError {
    /// The text `[stage] rendered`.
    pub fn to_text(&self) -> (s: String)
        ensures
            s@ == "["@ + stage_label(self.stage) + "] "@ + self.rendered@,
    {
        let mut s = String::new();
        push_str(&mut s, "[");
        push_str(&mut s, self.stage.label());
        push_str(&mut s, "] ");
        push_str(&mut s, self.rendered.as_str());
        s
    }

    /// A read error (code E0001) as a driver error.
    pub fn from_read(e: &ReadError, sm: &SourceMap) -> (r: DriverError)
        requires
            sm.wf(),
            sm.position_ok(e.span.file_id, e.span.start),
        ensures
            error_of(Stage::Read, r.diagnostic, *sm, r),
            stage_diagnostic(1, e.message@, r.diagnostic),
            r.diagnostic.primary_span == e.span,
    {
        let diag = Diagnostic::error(Some(DiagnosticCode(1)), e.message.as_str(), e.span);
        let rendered = render_diagnostic(&diag, sm);
        DriverError { stage: Stage::Read, diagnostic: diag, rendered }
    }

    /// An expansion error (code E0002) as a driver error.
    pub fn from_expand(e: &ExpandError, sm: &SourceMap) -> (r: DriverError)
        requires
            sm.wf(),
            sm.position_ok(e.span.file_id, e.span.start),
        ensures
            error_of(Stage::Expand, r.diagnostic, *sm, r),
            stage_diagnostic(2, e.message@, r.diagnostic),
            r.diagnostic.primary_span == e.span,
    {
        let diag = Diagnostic::error(Some(DiagnosticCode(2)), e.message.as_str(), e.span);
        let rendered = render_diagnostic(&diag, sm);
        DriverError { stage: Stage::Expand, diagnostic: diag, rendered }
    }
}

/// Which front-end compiler runs.
#[derive(Debug, Clone, Copy, PartialEq, Eq, Structural)]
pub enum CompilerKind {
    /// The self-hosted compiler (production).
    Bootstrap,
    /// The seed compiler (bootstrap and reference).
    Seed,
}

/// The report of a static check.
#[derive(Debug, Clone)]
pub struct CheckReport {
    /// All static diagnostics, in span order.
    pub diagnostics: Vec<Diagnostic>,
    /// Each diagnostic rendered.
    pub rendered: Vec<String>,
    /// Whether the front end was served from the cache.
    pub cache_hit: bool,
    /// Whether the program declares reading.
    pub io_read: bool,
    /// Whether the program declares writing.
    pub io_write: bool,
    pub proto_count: usize,
    pub const_count: usize,
    pub global_ref_count: usize,
    pub instruction_count: usize,
    /// Warnings (they do not block).
    pub warnings: Vec<Diagnostic>,
}

/// The outcome of one test case.
#[derive(Debug, Clone)]
pub struct TestCaseOutcome {
    /// Its number, from 1.
    pub index: usize,
    /// Its form, rendered and shortened.
    pub name: String,
    /// Whether it passed.
    pub pass: bool,
    /// What went wrong, if anything.
    pub detail: String,
}

/// The report of a test run.
#[derive(Debug, Clone)]
pub struct TestReport {
    /// The cases in source order.
    pub cases: Vec<TestCaseOutcome>,
    pub passed: usize,
    pub failed: usize,
}

impl TestReport {
    /// Whether every case passed.
    pub fn all_passed(&self) -> (b: bool)
        ensures
            b == (self.failed == 0),
    {
        self.failed == 0
    }
}

/// The longest test-case name kept whole, in characters.
pub const MAX_CASE_NAME: usize = 64;

/// A rendered form shortened to its first 64 characters followed by `…`
/// when it is longer.
pub open spec fn truncated_name(t: Seq<char>) -> Seq<char> {
    if t.len() <= MAX_CASE_NAME {
        t
    } else {
        t.subrange(0, MAX_CASE_NAME as int).push('…')
    }
}

/// Shortens a rendered form for use as a test-case name.
pub fn truncate_form_name(rendered: &str) -> (s: String)
    ensures
        s@ == truncated_name(rendered@),
{
    let cs = chars_of(rendered);
    let n: usize = if cs.len() <= MAX_CASE_NAME { cs.len() } else { MAX_CASE_NAME };
    let mut s = String::new();
    let mut i: usize = 0;
    while i < n
        invariant
            i <= n <= cs@.len(),
            n == (if cs@.len() <= MAX_CASE_NAME { cs@.len() } else { MAX_CASE_NAME as nat }),
            s@ == cs@.subrange(0, i as int),
        decreases n - i,
    {
        push_char(&mut s, cs[i]);
        i = i + 1;
        proof {
            assert(s@ =~= cs@.subrange(0, i as int));
        }
    }
    if cs.len() > MAX_CASE_NAME {
        push_char(&mut s, '…');
    } else {
        proof {
            assert(cs@.subrange(0, n as int) =~= cs@);
        }
    }
    s
}

/// The first line of `t`: the text before the first line feed, without a
/// carriage return that ends it (empty for an empty text).
pub open spec fn first_line_of(t: Seq<char>) -> Seq<char> {
    let e = if exists|k: int| 0 <= k < t.len() && t[k] == '\n' {
        choose|k: int| 0 <= k < t.len() && t[k] == '\n' && forall|j: int| 0 <= j < k ==> t[j] != '\n'
    } else {
        t.len() as int
    };
    let line = t.subrange(0, e);
    if line.len() > 0 && line.last() == '\r' {
        line.drop_last()
    } else {
        line
    }
}

/// The first line of a text (to shorten messages).
pub fn first_line(s: &str) -> (r: String)
    ensures
        r@ == first_line_of(s@),
{
    let cs = chars_of(s);
    let mut e: usize = 0;
    while e < cs.len() && cs[e] != '\n'
        invariant
            e <= cs@.len(),
            forall|j: int| 0 <= j < e ==> cs@[j] != '\n',
        decreases cs@.len() - e,
    {
        e = e + 1;
    }
    proof {
        let t = cs@;
        if exists|k: int| 0 <= k < t.len() && t[k] == '\n' {
            let k = choose|k: int| 0 <= k < t.len() && t[k] == '\n' && forall|j: int| 0 <= j < k ==> t[j] != '\n';
            assert(e < t.len());
            assert(t[e as int] == '\n');
            if k < e {
                assert(t[k] != '\n');
            }
            if (e as int) < k {
                assert(t[e as int] != '\n');
            }
            assert(k == e);
        } else {
            assert(e == t.len());
        }
    }
    let end: usize = if e > 0 && cs[e - 1] == '\r' { e - 1 } else { e };
    let mut r = String::new();
    let mut i: usize = 0;
    while i < end
        invariant
            i <= end <= e <= cs@.len(),
            r@ == cs@.subrange(0, i as int),
        decreases end - i,
    {
        push_char(&mut r, cs[i]);
        i = i + 1;
        proof {
            assert(r@ =~= cs@.subrange(0, i as int));
        }
    }
    proof {
        if end < e {
            assert(cs@.subrange(0, e as int).drop_last() =~= r@);
        } else {
            assert(cs@.subrange(0, e as int) =~= r@);
        }
    }
    r
}

/// The number of cases of `cs` that passed.
pub open spec fn passes(cs: Seq<TestCaseOutcome>) -> nat
    decreases cs.len(),
{
    if cs.len() == 0 {
        0
    } else {
        passes(cs.drop_last()) + if cs.last().pass {
            1nat
        } else {
            0nat
        }
    }
}

proof fn lemma_passes_bound(cs: Seq<TestCaseOutcome>)
    ensures
        passes(cs) <= cs.len(),
    decreases cs.len(),
{
    if cs.len() > 0 {
        lemma_passes_bound(cs.drop_last());
    }
}

/// In a report made from a run's cases, each case counts once, as passed
/// or as failed, and no case failed exactly when every case passed.
pub proof fn lemma_report_counts(cs: Seq<TestCaseOutcome>)
    ensures
        passes(cs) <= cs.len(),
        passes(cs) + (cs.len() - passes(cs)) == cs.len(),
        (cs.len() - passes(cs) == 0) <==> (forall|i: int| 0 <= i < cs.len() ==> #[trigger] cs[i].pass),
    decreases cs.len(),
{
    lemma_passes_bound(cs);
    if cs.len() > 0 {
        let init = cs.drop_last();
        lemma_report_counts(init);
        lemma_passes_bound(init);
        if forall|i: int| 0 <= i < cs.len() ==> #[trigger] cs[i].pass {
            assert forall|i: int| 0 <= i < init.len() implies #[trigger] init[i].pass by {
                assert(init[i] == cs[i]);
            }
        } else {
            let j = choose|i: int| 0 <= i < cs.len() && !(#[trigger] cs[i].pass);
            if j < cs.len() - 1 {
                assert(init[j] == cs[j]);
            }
        }
    }
}

impl TestReport {
    /// The report of the cases run, in order: how many passed and how many
    /// failed.
    pub fn from_cases(cases: Vec<TestCaseOutcome>) -> (r: TestReport)
        ensures
            r.cases@ == cases@,
            r.passed == passes(cases@),
            r.failed == cases@.len() - passes(cases@),
    {
        let mut passed: usize = 0;
        let mut i: usize = 0;
        proof {
            assert(cases@.subrange(0, 0) =~= Seq::<TestCaseOutcome>::empty());
        }
        while i < cases.len()
            invariant
                i <= cases@.len(),
                passed == passes(cases@.subrange(0, i as int)),
                passed <= i,
            decreases cases@.len() - i,
        {
            proof {
                assert(cases@.subrange(0, i + 1).drop_last() =~= cases@.subrange(0, i as int));
            }
            if cases[i].pass {
                passed = passed + 1;
            }
            i = i + 1;
        }
        proof {
            assert(cases@.subrange(0, i as int) =~= cases@);
            lemma_passes_bound(cases@);
        }
        let failed = cases.len() - passed;
        TestReport { cases, passed, failed }
    }
}

/// The outcome of case number `index` whose form renders as `rendered`:
/// it passed unless `failure` says what went wrong.
pub fn case_outcome(index: usize, rendered: &str, failure: Option<String>) -> (o: TestCaseOutcome)
    ensures
        o.index == index,
        o.name@ == truncated_name(rendered@),
        o.pass == failure is None,
        o.detail@ == match failure {
            Some(f) => f@,
            None => Seq::empty(),
        },
{
    let name = truncate_form_name(rendered);
    match failure {
        Some(f) => TestCaseOutcome { index, name, pass: false, detail: f },
        None => TestCaseOutcome { index, name, pass: true, detail: String::new() },
    }
}

/// A test case as it ran: its rendered form, and what went wrong, if
/// anything.
#[derive(Debug, Clone)]
pub struct CaseRun {
    pub rendered: String,
    pub failure: Option<String>,
}

impl TestReport {
    /// The report of the cases run, in order, numbered from 1: each named
    /// by its shortened form, passed unless something went wrong.
    pub fn from_runs(runs: Vec<CaseRun>) -> (r: TestReport)
        requires
            runs@.len() < usize::MAX,
        ensures
            r.cases@.len() == runs@.len(),
            forall|i: int|
                0 <= i < runs@.len() ==> {
                    &&& (#[trigger] r.cases@[i]).index == i + 1
                    &&& r.cases@[i].name@ == truncated_name(runs@[i].rendered@)
                    &&& r.cases@[i].pass == runs@[i].failure is None
                },
            r.passed == passes(r.cases@),
            r.failed == r.cases@.len() - passes(r.cases@),
    {
        let mut cases: Vec<TestCaseOutcome> = Vec::new();
        let mut i: usize = 0;
        while i < runs.len()
            invariant
                i <= runs@.len(),
                runs@.len() < usize::MAX,
                cases@.len() == i,
                forall|k: int|
                    0 <= k < i ==> {
                        &&& (#[trigger] cases@[k]).index == k + 1
                        &&& cases@[k].name@ == truncated_name(runs@[k].rendered@)
                        &&& cases@[k].pass == runs@[k].failure is None
                    },
            decreases runs@.len() - i,
        {
            let run = &runs[i];
            let failure = match &run.failure {
                Some(f) => Some(f.clone()),
                None => None,
            };
            cases.push(case_outcome(i + 1, run.rendered.as_str(), failure));
            i = i + 1;
        }
        TestReport::from_cases(cases)
    }
}

/// Why a case whose slice of the program did not compile failed: the
/// first line of the rendered compile diagnostic.
pub fn compile_failure_detail(rendered: &str) -> (s: String)
    ensures
        s@ == "用例编译失败："@ + first_line_of(rendered@),
{
    let mut s = string_of_text("用例编译失败：");
    let l = first_line(rendered);
    push_str(&mut s, l.as_str());
    s
}

/// Why a case whose value was `#f` failed, given the value's rendering.
pub fn false_assertion_detail(value: &str) -> (s: String)
    ensures
        s@ == "断言返回 #f（期望非 #f 值）——求值结果 "@ + value@,
{
    let mut s = string_of_text("断言返回 #f（期望非 #f 值）——求值结果 ");
    push_str(&mut s, value);
    s
}

/// A string holding `t`.
fn string_of_text(t: &str) -> (s: String)
    ensures
        s@ == t@,
{
    let mut s = String::new();
    push_str(&mut s, t);
    s
}

/// A test program split into its shared preamble (the `define`, `set!`,
/// `module` and `require` forms) and its cases (every other form), each
/// in source order.
pub fn split_test_program(core: Vec<CoreExpr>) -> (r: (Vec<CoreExpr>, Vec<CoreExpr>))
    ensures
        r.0@ == core@.filter(|e: CoreExpr| spec_is_prelude_form(e)),
        r.1@ == core@.filter(|e: CoreExpr| !spec_is_prelude_form(e)),
{
    let ghost input = core@;
    let mut rest = core;
    let mut reversed: Vec<CoreExpr> = Vec::new();
    while rest.len() > 0
        invariant
            rest@.len() + reversed@.len() == input.len(),
            rest@ == input.subrange(0, rest@.len() as int),
            forall|k: int| 0 <= k < reversed@.len() ==> #[trigger] reversed@[k] == input[input.len() - 1 - k],
        decreases rest@.len(),
    {
        let e = rest.pop().unwrap();
        reversed.push(e);
        proof {
            assert(rest@ =~= input.subrange(0, rest@.len() as int));
        }
    }
    let mut prelude: Vec<CoreExpr> = Vec::new();
    let mut cases: Vec<CoreExpr> = Vec::new();
    let ghost n = input.len();
    proof {
        reveal(Seq::filter);
        assert(input.subrange(0, 0) =~= Seq::<CoreExpr>::empty());
    }
    while reversed.len() > 0
        invariant
            n == input.len(),
            reversed@.len() <= n,
            forall|k: int| 0 <= k < reversed@.len() ==> #[trigger] reversed@[k] == input[n - 1 - k],
            prelude@ == input.subrange(0, n - reversed@.len()).filter(|e: CoreExpr| spec_is_prelude_form(e)),
            cases@ == input.subrange(0, n - reversed@.len()).filter(|e: CoreExpr| !spec_is_prelude_form(e)),
        decreases reversed@.len(),
    {
        let ghost done = n - reversed@.len();
        let ghost last = reversed@.len() - 1;
        proof {
            reveal(Seq::filter);
            assert(reversed@[last] == input[done]);
            assert(input.subrange(0, done + 1).drop_last() =~= input.subrange(0, done));
            assert(input.subrange(0, done + 1).last() == input[done]);
        }
        let e = reversed.pop().unwrap();
        if is_prelude_form(&e) {
            prelude.push(e);
        } else {
            cases.push(e);
        }
    }
    proof {
        assert(input.subrange(0, n as int) =~= input);
    }
    (prelude, cases)
}

/// The diagnostic of a failure with code `code`, message `message` at
/// `span`, and one note `调用点` per call site of `trace`, in order.
pub open spec fn traced_diagnostic(code: u32, message: Seq<char>, span: Span, trace: Seq<Span>, d: Diagnostic) -> bool {
    &&& d.severity == Severity::Error
    &&& d.code == Some(DiagnosticCode(code))
    &&& d.message@ == message
    &&& d.primary_span == span
    &&& d.suggestions@.len() == 0
    &&& d.children@.len() == trace.len()
    &&& forall|i: int|
        0 <= i < trace.len() ==> (#[trigger] d.children@[i]).severity == Severity::Note
            && d.children@[i].message@ == "调用点"@ && d.children@[i].span == trace[i]
}

/// The error diagnostic of a failure, with a note per call site.
pub fn traced_diag(code: u32, message: &str, span: Span, trace: &Vec<Span>) -> (d: Diagnostic)
    ensures
        traced_diagnostic(code, message@, span, trace@, d),
{
    let mut d = Diagnostic::error(Some(DiagnosticCode(code)), message, span);
    let mut i: usize = 0;
    while i < trace.len()
        invariant
            i <= trace@.len(),
            d.severity == Severity::Error,
            d.code == Some(DiagnosticCode(code)),
            d.message@ == message@,
            d.primary_span == span,
            d.suggestions@.len() == 0,
            d.children@.len() == i,
            forall|k: int|
                0 <= k < i ==> (#[trigger] d.children@[k]).severity == Severity::Note
                    && d.children@[k].message@ == "调用点"@ && d.children@[k].span == trace@[k],
        decreases trace@.len() - i,
    {
        let ghost before = d.children@;
        d = d.with_child(Severity::Note, "调用点", trace[i]);
        proof {
            assert forall|k: int| 0 <= k < i + 1 implies (#[trigger] d.children@[k]).severity == Severity::Note
                && d.children@[k].message@ == "调用点"@ && d.children@[k].span == trace@[k] by {
                if k < i {
                    assert(d.children@.subrange(0, i as int)[k] == d.children@[k]);
                }
            }
        }
        i = i + 1;
    }
    d
}

/// Every span of `trace` starts a character of its file.
pub open spec fn trace_placed(trace: Seq<Span>, sm: SourceMap) -> bool {
    forall|i: int| 0 <= i < trace.len() ==> sm.position_ok((#[trigger] trace[i]).file_id, trace[i].start)
}

impl DriverError {
    /// A compile error (code E0003) as a driver error.
    pub fn from_compile(message: &str, span: Span, sm: &SourceMap) -> (r: DriverError)
        requires
            sm.wf(),
            sm.position_ok(span.file_id, span.start),
        ensures
            error_of(Stage::Compile, r.diagnostic, *sm, r),
            stage_diagnostic(3, message@, r.diagnostic),
            r.diagnostic.primary_span == span,
    {
        let diag = Diagnostic::error(Some(DiagnosticCode(3)), message, span);
        let rendered = render_diagnostic(&diag, sm);
        DriverError { stage: Stage::Compile, diagnostic: diag, rendered }
    }

    /// A run-time error as a driver error: its own code, else E0004, with
    /// a note per call site of its trace.
    pub fn from_vm(code: Option<u32>, message: &str, span: Span, trace: &Vec<Span>, sm: &SourceMap) -> (r:
        DriverError)
        requires
            sm.wf(),
            sm.position_ok(span.file_id, span.start),
            trace_placed(trace@, *sm),
        ensures
            error_of(Stage::Run, r.diagnostic, *sm, r),
            traced_diagnostic(
                match code {
                    Some(c) => c,
                    None => 4,
                },
                message@,
                span,
                trace@,
                r.diagnostic,
            ),
    {
        let c = match code {
            Some(c) => c,
            None => 4,
        };
        let diag = traced_diag(c, message, span, trace);
        let rendered = render_diagnostic(&diag, sm);
        DriverError { stage: Stage::Run, diagnostic: diag, rendered }
    }
}

/// The rendered report of an internal failure of a component that runs on
/// the VM (`Reader`, `Expander`, `Compiler`): `自举 {component} 内部错误：
/// {message}` with code `code` and a note per call site.
pub fn internal_failure_text(
    component: &str,
    code: u32,
    message: &str,
    span: Span,
    trace: &Vec<Span>,
    sm: &SourceMap,
) -> (s: String)
    requires
        sm.wf(),
        sm.position_ok(span.file_id, span.start),
        trace_placed(trace@, *sm),
    ensures
        exists|d: Diagnostic|
            traced_diagnostic(code, "自举 "@ + component@ + " 内部错误："@ + message@, span, trace@, d)
                && s@ == spec_render_diagnostic(d, sm@),
{
    let mut m = String::new();
    push_str(&mut m, "自举 ");
    push_str(&mut m, component);
    push_str(&mut m, " 内部错误：");
    push_str(&mut m, message);
    let diag = traced_diag(code, m.as_str(), span, trace);
    render_diagnostic(&diag, sm)
}

} // verus!
