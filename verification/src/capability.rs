//! Capability-gated I/O: the requirements a program declares with
//! `(require io read|write)`, the grant of tokens minted for exactly those
//! requirements, the stdio implementation of `CapabilityIO`, and the
//! compile-time permission rule (every reference to a gated builtin needs
//! the matching declaration, unless the program defines that name itself).
use std::io::{BufRead, Write};
use vstd::prelude::*;

use crate::core_expr::{preorder, preorder_all, Capability, CoreExpr};
use crate::lexer::is_digit;
use crate::reserved::{
    mint_read_token, mint_write_token, CapabilityIO, IOError, ReadCapability, WriteCapability,
};
use crate::diagnostic::{
    diagnostic_positions_ok, render_diagnostic, Diagnostic, DiagnosticCode,
};
use crate::driver::{error_of, DriverError, Stage};
use crate::source_map::SourceMap;
use crate::span::Span;
use crate::modules::{rows_view, stdlib_modules, stdlib_table, ExportRow};
use crate::text::{chars_of, push_chars, push_str, same_text, string_of, string_of_range, texts};

verus! {

/// The I/O capabilities a program declares.
#[derive(Debug, Clone, Copy, PartialEq, Eq, Structural)]
pub struct IoRequirements {
    /// Reading stdin (`(require io read)`).
    pub read: bool,
    /// Writing stdout (`(require io write)`).
    pub write: bool,
}

/// How requirements are displayed: `io:read`, `io:write`, both separated
/// by a space, or `（未声明）` when none is declared.
pub open spec fn requirements_text(r: IoRequirements) -> Seq<char> {
    if r.read && r.write {
        "io:read"@ + " "@ + "io:write"@
    } else if r.read {
        "io:read"@
    } else if r.write {
        "io:write"@
    } else {
        "（未声明）"@
    }
}

impl IoRequirements {
    /// Whether nothing is declared.
    pub fn is_empty(self) -> (b: bool)
        ensures
            b == (!self.read && !self.write),
    {
        !self.read && !self.write
    }

    /// The display text of the requirements.
    pub fn render(self) -> (s: String)
        ensures
            s@ == requirements_text(self),
    {
        if !self.read && !self.write {
            return string_of("（未声明）");
        }
        let mut s = String::new();
        if self.read {
            push_str(&mut s, "io:read");
        }
        if self.write {
            if self.read {
                push_str(&mut s, " ");
            }
            push_str(&mut s, "io:write");
        }
        proof {
            if !self.read {
                assert(s@ =~= "io:write"@);
            }
        }
        s
    }
}

impl Default for IoRequirements {
    fn default() -> (r: IoRequirements)
        ensures
            r == (IoRequirements { read: false, write: false }),
    {
        IoRequirements { read: false, write: false }
    }
}

/// The tokens granted to a program: one per declared capability.
pub struct IoGrant {
    read: Option<ReadCapability>,
    write: Option<WriteCapability>,
}

impl IoGrant {
    /// Which tokens the grant holds.
    pub closed spec fn grants(&self) -> IoRequirements {
        IoRequirements { read: self.read is Some, write: self.write is Some }
    }

    /// Mints exactly the tokens of the declared requirements.
    pub fn from_requirements(req: IoRequirements) -> (g: IoGrant)
        ensures
            g.grants() == req,
    {
        IoGrant {
            read: if req.read {
                Some(mint_read_token())
            } else {
                None
            },
            write: if req.write {
                Some(mint_write_token())
            } else {
                None
            },
        }
    }

    /// The empty grant (a program that declared nothing gets no I/O).
    pub fn none() -> (g: IoGrant)
        ensures
            g.grants() == (IoRequirements { read: false, write: false }),
    {
        IoGrant { read: None, write: None }
    }

    /// The read token, if granted.
    pub fn read_handle(&mut self) -> (h: Option<&mut ReadCapability>)
        ensures
            h is Some <==> old(self).grants().read,
            final(self).grants() == old(self).grants(),
    {
        self.read.as_mut()
    }

    /// The write token, if granted.
    pub fn write_handle(&mut self) -> (h: Option<&mut WriteCapability>)
        ensures
            h is Some <==> old(self).grants().write,
            final(self).grants() == old(self).grants(),
    {
        self.write.as_mut()
    }

    /// The requirements the grant answers.
    pub fn requirements(&self) -> (r: IoRequirements)
        ensures
            r == self.grants(),
    {
        IoRequirements { read: self.read.is_some(), write: self.write.is_some() }
    }
}

/// Capability-gated I/O on the process's stdin and stdout.
///
/// At the end of input `read_line` fails with the message `EOF`.
pub struct StdCapabilityIO;

/// `std::io::BufRead::read_line` on stdin: the number of bytes read (0 at
/// the end of input) with the line as read (its line break included), or
/// the error's text.  What comes back depends on the process's input and
/// is not stated.
#[verifier::external_body]
fn stdin_read_line() -> (r: Result<(usize, String), String>) {
    let mut line = String::new();
    match std::io::stdin().lock().read_line(&mut line) {
        Ok(n) => Ok((n, line)),
        Err(e) => Err(format!("{}", e)),
    }
}

/// `writeln!` of `s` on stdout: `Ok` or the error's text.  Whether the
/// write succeeds depends on the process's output and is not stated.
#[verifier::external_body]
fn stdout_write_line(s: &str) -> (r: Result<(), String>) {
    let mut out = std::io::stdout();
    match writeln!(out, "{}", s) {
        Ok(()) => Ok(()),
        Err(e) => Err(format!("{}", e)),
    }
}

/// `t` without its trailing line feeds.
pub open spec fn trim_line_feeds(t: Seq<char>) -> Seq<char>
    decreases t.len(),
{
    if t.len() > 0 && t.last() == '\n' {
        trim_line_feeds(t.drop_last())
    } else {
        t
    }
}

/// The text of a line as read, without its trailing line feeds.
fn trim_line(line: String) -> (s: String)
    ensures
        s@ == trim_line_feeds(line@),
{
    let cs = chars_of(line.as_str());
    let mut n = cs.len();
    proof {
        assert(cs@.subrange(0, n as int) =~= line@);
    }
    while n > 0 && cs[n - 1] == '\n'
        invariant
            n <= cs@.len(),
            trim_line_feeds(cs@.subrange(0, n as int)) == trim_line_feeds(line@),
            cs@ == line@,
        decreases n,
    {
        proof {
            assert(cs@.subrange(0, n as int).drop_last() =~= cs@.subrange(0, n - 1));
        }
        n = n - 1;
    }
    let mut s = String::new();
    let mut i: usize = 0;
    while i < n
        invariant
            i <= n <= cs@.len(),
            s@ == cs@.subrange(0, i as int),
        decreases n - i,
    {
        crate::text::push_char(&mut s, cs[i]);
        i = i + 1;
        proof {
            assert(s@ =~= cs@.subrange(0, i as int));
        }
    }
    proof {
        assert(cs@.subrange(0, n as int) =~= s@);
    }
    s
}

/// The line read, as the I/O interface answers it: the line without its
/// trailing line feeds, `EOF` at the end of input, or the read error's
/// text after `stdin 读取失败：`.
pub open spec fn read_answer(r: Result<(usize, String), String>, out: Result<String, IOError>) -> bool {
    match r {
        Ok((n, line)) => if n == 0 {
            out matches Err(e) && e.message@ == "EOF"@
        } else {
            out matches Ok(s) && s@ == trim_line_feeds(line@)
        },
        Err(m) => out matches Err(e) && e.message@ == "stdin 读取失败："@ + m@,
    }
}

/// Maps what stdin gave to the answer of `read_line`.
pub fn answer_read(r: Result<(usize, String), String>) -> (out: Result<String, IOError>)
    ensures
        read_answer(r, out),
{
    match r {
        Ok((0, _)) => Err(IOError { message: string_of("EOF") }),
        Ok((_, line)) => Ok(trim_line(line)),
        Err(m) => {
            let mut message = string_of("stdin 读取失败：");
            push_str(&mut message, m.as_str());
            Err(IOError { message })
        },
    }
}

/// The outcome of writing a line, as the I/O interface answers it: `Ok`,
/// or the write error's text after `stdout 写入失败：`.
pub open spec fn write_answer(r: Result<(), String>, out: Result<(), IOError>) -> bool {
    match r {
        Ok(()) => out is Ok,
        Err(m) => out matches Err(e) && e.message@ == "stdout 写入失败："@ + m@,
    }
}

/// Maps what stdout gave to the answer of `write_line`.
pub fn answer_write(r: Result<(), String>) -> (out: Result<(), IOError>)
    ensures
        write_answer(r, out),
{
    match r {
        Ok(()) => Ok(()),
        Err(m) => {
            let mut message = string_of("stdout 写入失败：");
            push_str(&mut message, m.as_str());
            Err(IOError { message })
        },
    }
}

impl CapabilityIO for StdCapabilityIO {
    /// Whatever stdin gives, the answer is one of `read_answer`'s: a line
    /// without trailing line feeds, `EOF`, or the prefixed error text.
    fn read_line(_cap: &mut ReadCapability) -> (r: Result<String, IOError>)
        ensures
            exists|raw: Result<(usize, String), String>| #[trigger] read_answer(raw, r),
    {
        let raw = stdin_read_line();
        let r = answer_read(raw);
        proof {
            assert(read_answer(raw, r));
        }
        r
    }

    /// Whatever stdout gives, the answer is one of `write_answer`'s: `Ok`,
    /// or the prefixed error text.
    fn write_line(_cap: &mut WriteCapability, s: &str) -> (r: Result<(), IOError>)
        ensures
            exists|raw: Result<(), String>| #[trigger] write_answer(raw, r),
    {
        let raw = stdout_write_line(s);
        let r = answer_write(raw);
        proof {
            assert(write_answer(raw, r));
        }
        r
    }
}

/// The text `t` is the literal `lit`.
fn text_is(t: &Vec<char>, lit: &str) -> (b: bool)
    ensures
        b == (t@ == lit@),
{
    let w = chars_of(lit);
    if t.len() != w.len() {
        return false;
    }
    let mut i: usize = 0;
    while i < t.len()
        invariant
            t@.len() == w@.len(),
            w@ == lit@,
            0 <= i <= t@.len(),
            forall|k: int| 0 <= k < i ==> t@[k] == w@[k],
        decreases t@.len() - i,
    {
        if t[i] != w[i] {
            return false;
        }
        i = i + 1;
    }
    proof {
        assert(t@ =~= w@);
    }
    true
}

// ---- gated builtins and hygienic names ----

/// The capability a builtin needs: `read-line`, `read-int`, `read-num`
/// read; `print`, `newline`, `write-string` write; others need none.
pub open spec fn gated(name: Seq<char>) -> Option<Capability> {
    if name == "read-line"@ || name == "read-int"@ || name == "read-num"@ {
        Some(Capability::IoRead)
    } else if name == "print"@ || name == "newline"@ || name == "write-string"@ {
        Some(Capability::IoWrite)
    } else {
        None
    }
}

/// The capability that the builtin `builtin_name` needs, if it is gated.
pub fn required_capability(builtin_name: &str) -> (r: Option<Capability>)
    ensures
        r == gated(builtin_name@),
{
    let t = chars_of(builtin_name);
    if text_is(&t, "read-line") || text_is(&t, "read-int") || text_is(&t, "read-num") {
        Some(Capability::IoRead)
    } else if text_is(&t, "print") || text_is(&t, "newline") || text_is(&t, "write-string") {
        Some(Capability::IoWrite)
    } else {
        None
    }
}

/// Whether the grant `req` covers the capability `c` (no capability is
/// always covered).
pub open spec fn granted(c: Option<Capability>, req: IoRequirements) -> bool {
    match c {
        None => true,
        Some(Capability::IoRead) => req.read,
        Some(Capability::IoWrite) => req.write,
    }
}

/// Whether the builtin `name` is registered under its bare name for a
/// program that declared `req`: a gated builtin only when its capability
/// was declared.
pub fn bare_builtin_registered(name: &str, req: IoRequirements) -> (b: bool)
    ensures
        b == granted(gated(name@), req),
{
    match required_capability(name) {
        None => true,
        Some(Capability::IoRead) => req.read,
        Some(Capability::IoWrite) => req.write,
    }
}

/// Whether the module export `ns/local` of builtin `underlying` is
/// registered under its qualified name: the `io` module's exports only
/// when the capability of their builtin was declared.
pub open spec fn qualified_allowed(ns: Seq<char>, underlying: Seq<char>, req: IoRequirements) -> bool {
    ns != "io"@ || granted(gated(underlying), req)
}

pub fn qualified_builtin_registered(ns: &str, underlying: &str, req: IoRequirements) -> (b: bool)
    ensures
        b == qualified_allowed(ns@, underlying@, req),
{
    if same_text(ns, "io") {
        bare_builtin_registered(underlying, req)
    } else {
        true
    }
}

/// The qualified names `ns/local` registered for a program that declared
/// `req`, in module-table order among rows `t`.
pub open spec fn qualified_names(t: Seq<ExportRow>, req: IoRequirements) -> Seq<Seq<char>>
    decreases t.len(),
{
    if t.len() == 0 {
        Seq::empty()
    } else if qualified_allowed(t.last().0, t.last().2, req) {
        qualified_names(t.drop_last(), req).push(t.last().0 + "/"@ + t.last().1)
    } else {
        qualified_names(t.drop_last(), req)
    }
}

/// The qualified builtin names registered for a program that declared
/// `req`, in module-table order.
pub fn registered_qualified_names(req: IoRequirements) -> (v: Vec<String>)
    ensures
        texts(v@) == qualified_names(stdlib_table(), req),
{
    let rows = stdlib_modules();
    let mut v: Vec<String> = Vec::new();
    let mut i: usize = 0;
    proof {
        assert(rows_view(rows@).subrange(0, 0) =~= Seq::<ExportRow>::empty());
        assert(texts(v@) =~= Seq::<Seq<char>>::empty());
    }
    while i < rows.len()
        invariant
            i <= rows@.len(),
            rows_view(rows@) == stdlib_table(),
            texts(v@) == qualified_names(rows_view(rows@).subrange(0, i as int), req),
        decreases rows@.len() - i,
    {
        let (ns, local, underlying) = rows[i];
        let ghost t = rows_view(rows@).subrange(0, i + 1);
        proof {
            assert(t.drop_last() =~= rows_view(rows@).subrange(0, i as int));
            assert(t.last() == (ns@, local@, underlying@));
        }
        if qualified_builtin_registered(ns, underlying, req) {
            let mut q = string_of(ns);
            push_str(&mut q, "/");
            push_str(&mut q, local);
            let ghost before = v@;
            v.push(q);
            proof {
                assert(texts(v@) =~= texts(before).push(q@));
            }
        }
        i = i + 1;
    }
    proof {
        assert(rows_view(rows@).subrange(0, i as int) =~= rows_view(rows@));
    }
    v
}

/// The marker that separates a name from its hygiene counter.
pub open spec fn hyg_marker() -> Seq<char> {
    seq!['$', 'h', 'y', 'g', '$']
}

/// The marker occurs at position `i` of `t`.
pub open spec fn marker_at(t: Seq<char>, i: int) -> bool {
    0 <= i && i + 5 <= t.len() && t.subrange(i, i + 5) == hyg_marker()
}

/// The last occurrence of the marker at or before position `i`.
pub open spec fn last_marker_from(t: Seq<char>, i: int) -> Option<int>
    decreases i + 1,
{
    if i < 0 {
        None
    } else if marker_at(t, i) {
        Some(i)
    } else {
        last_marker_from(t, i - 1)
    }
}

/// The base of a hygienic name: `name$hyg$N` (N non-empty ASCII digits,
/// split at the last marker) is `name`; any other name is itself.
pub open spec fn spec_hygienic_base(t: Seq<char>) -> Seq<char> {
    match last_marker_from(t, t.len() - 5) {
        Some(i) => {
            let suffix = t.subrange(i + 5, t.len() as int);
            if suffix.len() > 0 && forall|k: int| 0 <= k < suffix.len() ==> is_digit(#[trigger] suffix[k]) {
                t.subrange(0, i)
            } else {
                t
            }
        },
        None => t,
    }
}

/// The last position of the marker in `t`.
fn last_marker(t: &Vec<char>) -> (r: Option<usize>)
    ensures
        r matches Some(i) ==> last_marker_from(t@, t@.len() - 5) == Some(i as int) && i + 5
            <= t@.len(),
        r is None ==> last_marker_from(t@, t@.len() - 5) is None,
{
    let n = t.len();
    if n < 5 {
        return None;
    }
    let mut found: Option<usize> = None;
    let mut i: usize = 0;
    while i <= n - 5
        invariant
            n == t@.len(),
            n >= 5,
            i <= n - 4,
            found matches Some(f) ==> last_marker_from(t@, i - 1) == Some(f as int) && f + 5 <= n,
            found is None ==> last_marker_from(t@, i - 1) is None,
        decreases n - i,
    {
        if t[i] == '$' && t[i + 1] == 'h' && t[i + 2] == 'y' && t[i + 3] == 'g' && t[i + 4] == '$' {
            proof {
                assert(t@.subrange(i as int, i + 5) =~= hyg_marker());
            }
            found = Some(i);
        } else {
            proof {
                if t@.subrange(i as int, i + 5) == hyg_marker() {
                    assert(t@.subrange(i as int, i + 5)[0] == t@[i as int]);
                    assert(t@.subrange(i as int, i + 5)[1] == t@[i + 1]);
                    assert(t@.subrange(i as int, i + 5)[2] == t@[i + 2]);
                    assert(t@.subrange(i as int, i + 5)[3] == t@[i + 3]);
                    assert(t@.subrange(i as int, i + 5)[4] == t@[i + 4]);
                }
            }
        }
        i = i + 1;
    }
    found
}

/// The fresh name of the `n`-th renaming of `base`: `base$hyg$n`.
pub open spec fn spec_hygienic_name(base: Seq<char>, n: nat) -> Seq<char> {
    base + hyg_marker() + crate::text::dec(n)
}

/// The fresh name that hygienic renaming number `n` gives `base`.
pub fn hygienic_name(base: &str, n: u64) -> (s: String)
    ensures
        s@ == spec_hygienic_name(base@, n as nat),
{
    let mut s = string_of(base);
    push_str(&mut s, "$hyg$");
    crate::text::push_dec(&mut s, n);
    proof {
        reveal_strlit("$hyg$");
        assert(s@ =~= spec_hygienic_name(base@, n as nat));
    }
    s
}

proof fn lemma_dec_digits(n: nat)
    ensures
        crate::text::dec(n).len() > 0,
        forall|k: int| 0 <= k < crate::text::dec(n).len() ==> is_digit(#[trigger] crate::text::dec(n)[k]),
    decreases n,
{
    if n >= 10 {
        lemma_dec_digits(n / 10);
    }
}

proof fn lemma_no_marker_after(t: Seq<char>, b: int, i: int)
    requires
        0 <= b,
        b + 5 <= t.len(),
        t.subrange(b, b + 5) == hyg_marker(),
        forall|k: int| b + 5 <= k < t.len() ==> is_digit(#[trigger] t[k]),
        b <= i,
    ensures
        last_marker_from(t, i) == Some(b),
    decreases i - b,
{
    assert(t[b] == t.subrange(b, b + 5)[0]);
    if i > b {
        if marker_at(t, i) {
            assert(t[i] == t.subrange(i, i + 5)[0]);
            assert(t[i] == '$');
            if i < b + 4 {
                assert(t[i] == t.subrange(b, b + 5)[i - b]);
            } else if i == b + 4 {
                assert(t[i + 1] == t.subrange(i, i + 5)[1]);
                assert(t[i + 1] == 'h');
                assert(is_digit(t[i + 1]));
            } else {
                assert(is_digit(t[i]));
            }
        }
        lemma_no_marker_after(t, b, i - 1);
    } else {
        assert(marker_at(t, b));
    }
}

/// Stripping the hygiene suffix undoes hygienic renaming: the base of
/// `base$hyg$n` is `base`.
pub proof fn lemma_hygienic_name_base(base: Seq<char>, n: nat)
    ensures
        spec_hygienic_base(spec_hygienic_name(base, n)) == base,
{
    let t = spec_hygienic_name(base, n);
    let b = base.len() as int;
    lemma_dec_digits(n);
    assert(t.subrange(b, b + 5) =~= hyg_marker());
    assert forall|k: int| b + 5 <= k < t.len() implies is_digit(#[trigger] t[k]) by {
        assert(t[k] == crate::text::dec(n)[k - b - 5]);
    }
    lemma_no_marker_after(t, b, t.len() - 5);
    let suffix = t.subrange(b + 5, t.len() as int);
    assert(suffix =~= crate::text::dec(n));
    assert(t.subrange(0, b) =~= base);
}

/// A quoted symbol's name without its hygiene suffix, by the same rule as
/// the global-name fallback: `name$hyg$N` (N non-empty ASCII digits) is
/// `name`; any other name is itself.
pub fn strip_hygiene_suffix(name: &str) -> (s: String)
    ensures
        s@ == spec_hygienic_base(name@),
{
    hygienic_base(name)
}

/// The base of a hygienic name (`name$hyg$N` is `name`).
pub fn hygienic_base(name: &str) -> (s: String)
    ensures
        s@ == spec_hygienic_base(name@),
{
    let t = chars_of(name);
    let n = t.len();
    proof {
        assert(t@.subrange(0, n as int) =~= t@);
    }
    match last_marker(&t) {
        Some(i) => {
            let mut ok = i + 5 < n;
            let mut k = i + 5;
            while k < n
                invariant
                    i + 5 <= k <= n,
                    n == t@.len(),
                    ok == (i + 5 < n && forall|j: int| i + 5 <= j < k ==> is_digit(#[trigger] t@[j])),
                decreases n - k,
            {
                if !('0' <= t[k] && t[k] <= '9') {
                    ok = false;
                }
                k = k + 1;
            }
            proof {
                let suffix = t@.subrange(i + 5, n as int);
                assert(ok == (suffix.len() > 0 && forall|k: int| 0 <= k < suffix.len() ==> is_digit(
                    #[trigger] suffix[k],
                ))) by {
                    if ok {
                        assert forall|k: int| 0 <= k < suffix.len() implies is_digit(
                            #[trigger] suffix[k],
                        ) by {
                            assert(suffix[k] == t@[i + 5 + k]);
                        }
                    } else if i + 5 < n {
                        let j = choose|j: int| i + 5 <= j < n && !is_digit(#[trigger] t@[j]);
                        assert(suffix[j - i - 5] == t@[j]);
                    }
                }
            }
            if ok {
                string_of_range(&t, 0, i)
            } else {
                string_of_range(&t, 0, n)
            }
        },
        None => string_of_range(&t, 0, n),
    }
}

// ---- declared requirements ----

/// Some `require` among `nodes` declares `c`.
pub open spec fn declares(nodes: Seq<CoreExpr>, c: Capability) -> bool {
    exists|k: int| 0 <= k < nodes.len() && #[trigger] nodes[k] is Require && nodes[k]->caps@.contains(c)
}

/// The requirements a program declares, wherever its `require` forms stand.
pub open spec fn requirements_of(core: Seq<CoreExpr>) -> IoRequirements {
    IoRequirements {
        read: declares(preorder_all(core), Capability::IoRead),
        write: declares(preorder_all(core), Capability::IoWrite),
    }
}

proof fn lemma_contains_push(s: Seq<Capability>, x: Capability, c: Capability)
    ensures
        s.push(x).contains(c) == (s.contains(c) || x == c),
{
    if s.contains(c) {
        let k = choose|k: int| 0 <= k < s.len() && s[k] == c;
        assert(s.push(x)[k] == c);
    }
    if x == c {
        assert(s.push(x)[s.len() as int] == c);
    }
    if s.push(x).contains(c) {
        let k = choose|k: int| 0 <= k < s.push(x).len() && s.push(x)[k] == c;
        if k < s.len() {
            assert(s[k] == c);
        }
    }
}

proof fn lemma_declares_concat(a: Seq<CoreExpr>, b: Seq<CoreExpr>, c: Capability)
    ensures
        declares(a + b, c) == (declares(a, c) || declares(b, c)),
{
    let ab = a + b;
    if declares(a, c) {
        let k = choose|k: int| 0 <= k < a.len() && #[trigger] a[k] is Require && a[k]->caps@.contains(c);
        assert(ab[k] == a[k]);
    }
    if declares(b, c) {
        let k = choose|k: int| 0 <= k < b.len() && #[trigger] b[k] is Require && b[k]->caps@.contains(c);
        assert(ab[a.len() + k] == b[k]);
    }
    if declares(ab, c) {
        let k = choose|k: int| 0 <= k < ab.len() && #[trigger] ab[k] is Require && ab[k]->caps@.contains(c);
        if k < a.len() {
            assert(ab[k] == a[k]);
        } else {
            assert(ab[k] == b[k - a.len()]);
        }
    }
}

/// Whether `caps` holds the read and the write capability.
fn caps_declared(caps: &Vec<Capability>) -> (r: (bool, bool))
    ensures
        r.0 == caps@.contains(Capability::IoRead),
        r.1 == caps@.contains(Capability::IoWrite),
{
    let mut rd = false;
    let mut wr = false;
    let mut i: usize = 0;
    while i < caps.len()
        invariant
            i <= caps@.len(),
            rd == caps@.subrange(0, i as int).contains(Capability::IoRead),
            wr == caps@.subrange(0, i as int).contains(Capability::IoWrite),
        decreases caps@.len() - i,
    {
        proof {
            assert(caps@.subrange(0, i + 1) =~= caps@.subrange(0, i as int).push(caps@[i as int]));
            lemma_contains_push(caps@.subrange(0, i as int), caps@[i as int], Capability::IoRead);
            lemma_contains_push(caps@.subrange(0, i as int), caps@[i as int], Capability::IoWrite);
        }
        match caps[i] {
            Capability::IoRead => {
                rd = true;
            },
            Capability::IoWrite => {
                wr = true;
            },
        }
        i = i + 1;
    }
    proof {
        assert(caps@.subrange(0, i as int) =~= caps@);
    }
    (rd, wr)
}

/// Whether `e` declares reading and writing, wherever its `require` forms
/// stand.
fn collect_requirements(e: &CoreExpr) -> (r: (bool, bool))
    ensures
        r.0 == declares(preorder(*e), Capability::IoRead),
        r.1 == declares(preorder(*e), Capability::IoWrite),
    decreases e,
{
    let ghost rest = preorder(*e).drop_first();
    proof {
        assert(preorder(*e) =~= seq![*e] + rest);
        lemma_declares_concat(seq![*e], rest, Capability::IoRead);
        lemma_declares_concat(seq![*e], rest, Capability::IoWrite);
        let one = seq![*e];
        assert(one[0] == *e);
        if !(*e is Require) {
            assert(!declares(one, Capability::IoRead));
            assert(!declares(one, Capability::IoWrite));
        }
    }
    match e {
        CoreExpr::Require { caps, .. } => {
            proof {
                assert(rest =~= Seq::<CoreExpr>::empty());
                let one = seq![*e];
                assert(declares(one, Capability::IoRead) == caps@.contains(Capability::IoRead));
                assert(declares(one, Capability::IoWrite) == caps@.contains(Capability::IoWrite));
            }
            let r = caps_declared(caps);
            r
        },
        CoreExpr::Lambda { body, .. } => {
            proof {
                assert(rest =~= preorder(**body));
            }
            collect_requirements(body)
        },
        CoreExpr::App { fn_expr, args, .. } => {
            let a = collect_requirements(fn_expr);
            let b = collect_requirements_all(args);
            proof {
                assert(rest =~= preorder(**fn_expr) + preorder_all(args@));
                lemma_declares_concat(preorder(**fn_expr), preorder_all(args@), Capability::IoRead);
                lemma_declares_concat(preorder(**fn_expr), preorder_all(args@), Capability::IoWrite);
            }
            (a.0 || b.0, a.1 || b.1)
        },
        CoreExpr::If { cond, then_branch, else_branch, .. } => {
            let x = collect_requirements(cond);
            let y = collect_requirements(then_branch);
            let z = collect_requirements(else_branch);
            proof {
                assert(rest =~= preorder(**cond) + preorder(**then_branch) + preorder(**else_branch));
                let a = preorder(**cond);
                let b = preorder(**then_branch);
                let c = preorder(**else_branch);
                lemma_declares_concat(a, b, Capability::IoRead);
                lemma_declares_concat(a, b, Capability::IoWrite);
                lemma_declares_concat(a + b, c, Capability::IoRead);
                lemma_declares_concat(a + b, c, Capability::IoWrite);
            }
            (x.0 || y.0 || z.0, x.1 || y.1 || z.1)
        },
        CoreExpr::SetBang { value, .. } => {
            proof {
                assert(rest =~= preorder(**value));
            }
            collect_requirements(value)
        },
        CoreExpr::Define { value, .. } => {
            proof {
                assert(rest =~= preorder(**value));
            }
            collect_requirements(value)
        },
        CoreExpr::Begin { body, .. } => {
            proof {
                assert(rest =~= preorder_all(body@));
            }
            collect_requirements_all(body)
        },
        CoreExpr::Module { body, .. } => {
            proof {
                assert(rest =~= preorder_all(body@));
            }
            collect_requirements_all(body)
        },
        CoreExpr::Perform { effect, .. } => {
            proof {
                assert(rest =~= preorder(**effect));
            }
            collect_requirements(effect)
        },
        CoreExpr::Handle { handler_body, body, .. } => {
            let x = collect_requirements(handler_body);
            let y = collect_requirements(body);
            proof {
                assert(rest =~= preorder(**handler_body) + preorder(**body));
                lemma_declares_concat(preorder(**handler_body), preorder(**body), Capability::IoRead);
                lemma_declares_concat(preorder(**handler_body), preorder(**body), Capability::IoWrite);
            }
            (x.0 || y.0, x.1 || y.1)
        },
        _ => {
            proof {
                assert(rest =~= Seq::<CoreExpr>::empty());
            }
            (false, false)
        },
    }
}

/// Whether any of `es` declares reading and writing.
fn collect_requirements_all(es: &Vec<CoreExpr>) -> (r: (bool, bool))
    ensures
        r.0 == declares(preorder_all(es@), Capability::IoRead),
        r.1 == declares(preorder_all(es@), Capability::IoWrite),
    decreases es,
{
    let mut rd = false;
    let mut wr = false;
    let mut i: usize = 0;
    proof {
        assert(es@.subrange(0, 0) =~= Seq::<CoreExpr>::empty());
    }
    while i < es.len()
        invariant
            i <= es@.len(),
            rd == declares(preorder_all(es@.subrange(0, i as int)), Capability::IoRead),
            wr == declares(preorder_all(es@.subrange(0, i as int)), Capability::IoWrite),
        decreases es@.len() - i,
    {
        let ghost pre = es@.subrange(0, i as int);
        proof {
            let next = es@.subrange(0, i + 1);
            assert(next.drop_last() =~= pre);
            assert(next.last() == es@[i as int]);
            lemma_declares_concat(preorder_all(pre), preorder(es@[i as int]), Capability::IoRead);
            lemma_declares_concat(preorder_all(pre), preorder(es@[i as int]), Capability::IoWrite);
        }
        let r = collect_requirements(&es[i]);
        rd = rd || r.0;
        wr = wr || r.1;
        i = i + 1;
    }
    proof {
        assert(es@.subrange(0, i as int) =~= es@);
    }
    (rd, wr)
}

impl IoRequirements {
    /// The requirements a program declares with its `require` forms,
    /// wherever they stand.
    pub fn from_core(core: &Vec<CoreExpr>) -> (r: IoRequirements)
        ensures
            r == requirements_of(core@),
    {
        let (read, write) = collect_requirements_all(core);
        IoRequirements { read, write }
    }
}

// ---- names the program takes over ----

/// Node `n` defines or assigns `name`.
pub open spec fn defines_name(n: CoreExpr, name: Seq<char>) -> bool {
    match n {
        CoreExpr::Define { name: m, .. } => m@ == name,
        CoreExpr::SetBang { name: m, .. } => m@ == name,
        _ => false,
    }
}

/// `name` is defined or assigned somewhere among `nodes`: the program
/// takes the name over, and a builtin of that name is not what it uses.
pub open spec fn taken_over(nodes: Seq<CoreExpr>, name: Seq<char>) -> bool {
    exists|k: int| 0 <= k < nodes.len() && defines_name(#[trigger] nodes[k], name)
}

/// Some string of `v` is `t`.
pub open spec fn holds_text(v: Seq<String>, t: Seq<char>) -> bool {
    exists|k: int| 0 <= k < v.len() && (#[trigger] v[k])@ == t
}

proof fn lemma_taken_over_concat(a: Seq<CoreExpr>, b: Seq<CoreExpr>, t: Seq<char>)
    ensures
        taken_over(a + b, t) == (taken_over(a, t) || taken_over(b, t)),
{
    let ab = a + b;
    if taken_over(a, t) {
        let k = choose|k: int| 0 <= k < a.len() && defines_name(#[trigger] a[k], t);
        assert(ab[k] == a[k]);
    }
    if taken_over(b, t) {
        let k = choose|k: int| 0 <= k < b.len() && defines_name(#[trigger] b[k], t);
        assert(ab[a.len() + k] == b[k]);
    }
    if taken_over(ab, t) {
        let k = choose|k: int| 0 <= k < ab.len() && defines_name(#[trigger] ab[k], t);
        if k < a.len() {
            assert(ab[k] == a[k]);
        } else {
            assert(ab[k] == b[k - a.len()]);
        }
    }
}

pub(crate) proof fn lemma_holds_push(v: Seq<String>, x: String, t: Seq<char>)
    ensures
        holds_text(v.push(x), t) == (holds_text(v, t) || x@ == t),
{
    if holds_text(v, t) {
        let k = choose|k: int| 0 <= k < v.len() && (#[trigger] v[k])@ == t;
        assert(v.push(x)[k] == v[k]);
    }
    if x@ == t {
        assert(v.push(x)[v.len() as int] == x);
    }
    if holds_text(v.push(x), t) {
        let k = choose|k: int| 0 <= k < v.push(x).len() && (#[trigger] v.push(x)[k])@ == t;
        if k < v.len() {
            assert(v.push(x)[k] == v[k]);
        }
    }
}

/// Adds the names that `e` defines or assigns to `out`.
fn collect_takeover(e: &CoreExpr, out: &mut Vec<String>)
    ensures
        forall|t: Seq<char>|
            #![trigger holds_text(final(out)@, t)]
            holds_text(final(out)@, t) == (holds_text(old(out)@, t) || taken_over(preorder(*e), t)),
    decreases e,
{
    let ghost rest = preorder(*e).drop_first();
    let ghost one = seq![*e];
    proof {
        assert(preorder(*e) =~= one + rest);
        assert(one[0] == *e);
        assert forall|t: Seq<char>| #[trigger] taken_over(preorder(*e), t) == (taken_over(one, t)
            || taken_over(rest, t)) by {
            lemma_taken_over_concat(one, rest, t);
        }
        assert forall|t: Seq<char>| #[trigger] taken_over(one, t) == defines_name(*e, t) by {
            if defines_name(*e, t) {
                assert(defines_name(one[0], t));
            }
        }
    }
    match e {
        CoreExpr::Define { name, value, .. } => {
            let ghost o0 = out@;
            out.push(name.clone());
            proof {
                assert forall|t: Seq<char>| #[trigger] holds_text(out@, t) == (holds_text(o0, t) || name@
                    == t) by {
                    lemma_holds_push(o0, *name, t);
                }
                assert(rest =~= preorder(**value));
            }
            collect_takeover(value, out);
        },
        CoreExpr::SetBang { name, value, .. } => {
            let ghost o0 = out@;
            out.push(name.clone());
            proof {
                assert forall|t: Seq<char>| #[trigger] holds_text(out@, t) == (holds_text(o0, t) || name@
                    == t) by {
                    lemma_holds_push(o0, *name, t);
                }
                assert(rest =~= preorder(**value));
            }
            collect_takeover(value, out);
        },
        CoreExpr::Lambda { body, .. } => {
            proof {
                assert(rest =~= preorder(**body));
            }
            collect_takeover(body, out);
        },
        CoreExpr::App { fn_expr, args, .. } => {
            proof {
                assert(rest =~= preorder(**fn_expr) + preorder_all(args@));
                assert forall|t: Seq<char>| #[trigger] taken_over(rest, t) == (taken_over(
                    preorder(**fn_expr),
                    t,
                ) || taken_over(preorder_all(args@), t)) by {
                    lemma_taken_over_concat(preorder(**fn_expr), preorder_all(args@), t);
                }
            }
            collect_takeover(fn_expr, out);
            collect_takeover_all(args, out);
        },
        CoreExpr::If { cond, then_branch, else_branch, .. } => {
            proof {
                let a = preorder(**cond);
                let b = preorder(**then_branch);
                let c = preorder(**else_branch);
                assert(rest =~= a + b + c);
                assert forall|t: Seq<char>| #[trigger] taken_over(rest, t) == (taken_over(a, t)
                    || taken_over(b, t) || taken_over(c, t)) by {
                    lemma_taken_over_concat(a, b, t);
                    lemma_taken_over_concat(a + b, c, t);
                }
            }
            collect_takeover(cond, out);
            collect_takeover(then_branch, out);
            collect_takeover(else_branch, out);
        },
        CoreExpr::Begin { body, .. } => {
            proof {
                assert(rest =~= preorder_all(body@));
            }
            collect_takeover_all(body, out);
        },
        CoreExpr::Module { body, .. } => {
            proof {
                assert(rest =~= preorder_all(body@));
            }
            collect_takeover_all(body, out);
        },
        CoreExpr::Perform { effect, .. } => {
            proof {
                assert(rest =~= preorder(**effect));
            }
            collect_takeover(effect, out);
        },
        CoreExpr::Handle { handler_body, body, .. } => {
            proof {
                let a = preorder(**handler_body);
                let b = preorder(**body);
                assert(rest =~= a + b);
                assert forall|t: Seq<char>| #[trigger] taken_over(rest, t) == (taken_over(a, t)
                    || taken_over(b, t)) by {
                    lemma_taken_over_concat(a, b, t);
                }
            }
            collect_takeover(handler_body, out);
            collect_takeover(body, out);
        },
        _ => {
            proof {
                assert(rest =~= Seq::<CoreExpr>::empty());
            }
        },
    }
}

/// Adds the names that any of `es` defines or assigns to `out`.
pub(crate) fn collect_takeover_all(es: &Vec<CoreExpr>, out: &mut Vec<String>)
    ensures
        forall|t: Seq<char>|
            #![trigger holds_text(final(out)@, t)]
            holds_text(final(out)@, t) == (holds_text(old(out)@, t) || taken_over(
                preorder_all(es@),
                t,
            )),
    decreases es,
{
    let ghost o0 = out@;
    let mut i: usize = 0;
    proof {
        assert(es@.subrange(0, 0) =~= Seq::<CoreExpr>::empty());
    }
    while i < es.len()
        invariant
            i <= es@.len(),
            forall|t: Seq<char>|
                #![trigger holds_text(out@, t)]
                holds_text(out@, t) == (holds_text(o0, t) || taken_over(
                    preorder_all(es@.subrange(0, i as int)),
                    t,
                )),
        decreases es@.len() - i,
    {
        let ghost pre = es@.subrange(0, i as int);
        proof {
            let next = es@.subrange(0, i + 1);
            assert(next.drop_last() =~= pre);
            assert(next.last() == es@[i as int]);
            assert forall|t: Seq<char>| #[trigger] taken_over(preorder_all(next), t) == (taken_over(
                preorder_all(pre),
                t,
            ) || taken_over(preorder(es@[i as int]), t)) by {
                lemma_taken_over_concat(preorder_all(pre), preorder(es@[i as int]), t);
            }
        }
        collect_takeover(&es[i], out);
        i = i + 1;
    }
    proof {
        assert(es@.subrange(0, i as int) =~= es@);
    }
}

// ---- the permission rule ----

/// A violation: the builtin's base name, the capability it needs, and the
/// span of the reference.
pub type Violation = (Seq<char>, Capability, Span);

/// Whether node `n` breaks the permission rule: a reference to a gated
/// builtin (by its hygienic base name) whose capability is not declared,
/// where the program takes over neither the raw name nor the base.
pub open spec fn violation_at(n: CoreExpr, decl: IoRequirements, all: Seq<CoreExpr>) -> Option<
    Violation,
> {
    match n {
        CoreExpr::VarRef { name, span } => {
            let raw = name@;
            let base = spec_hygienic_base(raw);
            if taken_over(all, raw) || taken_over(all, base) {
                None
            } else {
                match gated(base) {
                    Some(Capability::IoRead) => if !decl.read {
                        Some((base, Capability::IoRead, span))
                    } else {
                        None
                    },
                    Some(Capability::IoWrite) => if !decl.write {
                        Some((base, Capability::IoWrite, span))
                    } else {
                        None
                    },
                    None => None,
                }
            }
        },
        _ => None,
    }
}

/// The first node of `nodes` that breaks the rule.
pub open spec fn first_violation(nodes: Seq<CoreExpr>, decl: IoRequirements, all: Seq<CoreExpr>) -> Option<
    Violation,
>
    decreases nodes.len(),
{
    if nodes.len() == 0 {
        None
    } else {
        match violation_at(nodes[0], decl, all) {
            Some(v) => Some(v),
            None => first_violation(nodes.drop_first(), decl, all),
        }
    }
}

proof fn lemma_first_violation_concat(
    a: Seq<CoreExpr>,
    b: Seq<CoreExpr>,
    decl: IoRequirements,
    all: Seq<CoreExpr>,
)
    ensures
        first_violation(a + b, decl, all) == (match first_violation(a, decl, all) {
            Some(v) => Some(v),
            None => first_violation(b, decl, all),
        }),
    decreases a.len(),
{
    if a.len() == 0 {
        assert(a + b =~= b);
    } else {
        assert((a + b)[0] == a[0]);
        assert((a + b).drop_first() =~= a.drop_first() + b);
        lemma_first_violation_concat(a.drop_first(), b, decl, all);
    }
}

/// Some string of `v` equals `t`.
pub(crate) fn holds(v: &Vec<String>, t: &String) -> (b: bool)
    ensures
        b == holds_text(v@, t@),
{
    let mut i: usize = 0;
    while i < v.len()
        invariant
            i <= v@.len(),
            forall|k: int| 0 <= k < i ==> (#[trigger] v@[k])@ != t@,
        decreases v@.len() - i,
    {
        if v[i] == *t {
            return true;
        }
        i = i + 1;
    }
    false
}

/// The violation at node `e` itself (not its children).
fn node_violation(
    e: &CoreExpr,
    decl: IoRequirements,
    takeover: &Vec<String>,
    Ghost(all): Ghost<Seq<CoreExpr>>,
) -> (r: Option<(String, Capability, Span)>)
    requires
        forall|t: Seq<char>| #[trigger] holds_text(takeover@, t) == taken_over(all, t),
    ensures
        match violation_at(*e, decl, all) {
            Some(v) => r matches Some(x) && x.0@ == v.0 && x.1 == v.1 && x.2 == v.2,
            None => r is None,
        },
{
    match e {
        CoreExpr::VarRef { name, span } => {
            let base = hygienic_base(name.as_str());
            let raw_taken = holds(takeover, name);
            let base_taken = holds(takeover, &base);
            if raw_taken || base_taken {
                return None;
            }
            match required_capability(base.as_str()) {
                Some(Capability::IoRead) => if !decl.read {
                    Some((base, Capability::IoRead, *span))
                } else {
                    None
                },
                Some(Capability::IoWrite) => if !decl.write {
                    Some((base, Capability::IoWrite, *span))
                } else {
                    None
                },
                None => None,
            }
        },
        _ => None,
    }
}

/// The view of a found violation.
pub open spec fn found_is(r: Option<(String, Capability, Span)>, v: Option<Violation>) -> bool {
    match v {
        Some(v) => r matches Some(x) && x.0@ == v.0 && x.1 == v.1 && x.2 == v.2,
        None => r is None,
    }
}

/// The first violation among the nodes of `e`.
fn verify_refs(
    e: &CoreExpr,
    decl: IoRequirements,
    takeover: &Vec<String>,
    Ghost(all): Ghost<Seq<CoreExpr>>,
) -> (r: Option<(String, Capability, Span)>)
    requires
        forall|t: Seq<char>| #[trigger] holds_text(takeover@, t) == taken_over(all, t),
    ensures
        found_is(r, first_violation(preorder(*e), decl, all)),
    decreases e,
{
    let ghost rest = preorder(*e).drop_first();
    let ghost one = seq![*e];
    proof {
        assert(preorder(*e) =~= one + rest);
        lemma_first_violation_concat(one, rest, decl, all);
        assert(one[0] == *e);
        assert(one.drop_first() =~= Seq::<CoreExpr>::empty());
    }
    let here = node_violation(e, decl, takeover, Ghost(all));
    if here.is_some() {
        return here;
    }
    match e {
        CoreExpr::Lambda { body, .. } => {
            proof {
                assert(rest =~= preorder(**body));
            }
            verify_refs(body, decl, takeover, Ghost(all))
        },
        CoreExpr::App { fn_expr, args, .. } => {
            proof {
                assert(rest =~= preorder(**fn_expr) + preorder_all(args@));
                lemma_first_violation_concat(preorder(**fn_expr), preorder_all(args@), decl, all);
            }
            let r = verify_refs(fn_expr, decl, takeover, Ghost(all));
            if r.is_some() {
                return r;
            }
            verify_refs_all(args, decl, takeover, Ghost(all))
        },
        CoreExpr::If { cond, then_branch, else_branch, .. } => {
            proof {
                let a = preorder(**cond);
                let b = preorder(**then_branch);
                let c = preorder(**else_branch);
                assert(rest =~= (a + b) + c);
                lemma_first_violation_concat(a + b, c, decl, all);
                lemma_first_violation_concat(a, b, decl, all);
            }
            let r = verify_refs(cond, decl, takeover, Ghost(all));
            if r.is_some() {
                return r;
            }
            let r = verify_refs(then_branch, decl, takeover, Ghost(all));
            if r.is_some() {
                return r;
            }
            verify_refs(else_branch, decl, takeover, Ghost(all))
        },
        CoreExpr::SetBang { value, .. } => {
            proof {
                assert(rest =~= preorder(**value));
            }
            verify_refs(value, decl, takeover, Ghost(all))
        },
        CoreExpr::Define { value, .. } => {
            proof {
                assert(rest =~= preorder(**value));
            }
            verify_refs(value, decl, takeover, Ghost(all))
        },
        CoreExpr::Begin { body, .. } => {
            proof {
                assert(rest =~= preorder_all(body@));
            }
            verify_refs_all(body, decl, takeover, Ghost(all))
        },
        CoreExpr::Module { body, .. } => {
            proof {
                assert(rest =~= preorder_all(body@));
            }
            verify_refs_all(body, decl, takeover, Ghost(all))
        },
        CoreExpr::Perform { effect, .. } => {
            proof {
                assert(rest =~= preorder(**effect));
            }
            verify_refs(effect, decl, takeover, Ghost(all))
        },
        CoreExpr::Handle { handler_body, body, .. } => {
            proof {
                assert(rest =~= preorder(**handler_body) + preorder(**body));
                lemma_first_violation_concat(preorder(**handler_body), preorder(**body), decl, all);
            }
            let r = verify_refs(handler_body, decl, takeover, Ghost(all));
            if r.is_some() {
                return r;
            }
            verify_refs(body, decl, takeover, Ghost(all))
        },
        _ => {
            proof {
                assert(rest =~= Seq::<CoreExpr>::empty());
            }
            None
        },
    }
}

/// The first violation among the nodes of `es`, one after another.
fn verify_refs_all(
    es: &Vec<CoreExpr>,
    decl: IoRequirements,
    takeover: &Vec<String>,
    Ghost(all): Ghost<Seq<CoreExpr>>,
) -> (r: Option<(String, Capability, Span)>)
    requires
        forall|t: Seq<char>| #[trigger] holds_text(takeover@, t) == taken_over(all, t),
    ensures
        found_is(r, first_violation(preorder_all(es@), decl, all)),
    decreases es,
{
    let mut i: usize = 0;
    proof {
        assert(es@.subrange(0, 0) =~= Seq::<CoreExpr>::empty());
    }
    while i < es.len()
        invariant
            i <= es@.len(),
            forall|t: Seq<char>| #[trigger] holds_text(takeover@, t) == taken_over(all, t),
            first_violation(preorder_all(es@.subrange(0, i as int)), decl, all) is None,
        decreases es@.len() - i,
    {
        let ghost pre = es@.subrange(0, i as int);
        let ghost next = es@.subrange(0, i + 1);
        proof {
            assert(next.drop_last() =~= pre);
            assert(next.last() == es@[i as int]);
            lemma_first_violation_concat(preorder_all(pre), preorder(es@[i as int]), decl, all);
        }
        let r = verify_refs(&es[i], decl, takeover, Ghost(all));
        if r.is_some() {
            proof {
                lemma_first_violation_tail(es@, i as int, decl, all);
            }
            return r;
        }
        i = i + 1;
    }
    proof {
        assert(es@.subrange(0, i as int) =~= es@);
    }
    None
}

/// A violation in the first `i + 1` expressions, with none in the first `i`,
/// is the first violation of them all.
proof fn lemma_first_violation_tail(es: Seq<CoreExpr>, i: int, decl: IoRequirements, all: Seq<CoreExpr>)
    requires
        0 <= i < es.len(),
        first_violation(preorder_all(es.subrange(0, i + 1)), decl, all) is Some,
    ensures
        first_violation(preorder_all(es), decl, all) == first_violation(
            preorder_all(es.subrange(0, i + 1)),
            decl,
            all,
        ),
    decreases es.len() - i,
{
    if i + 1 < es.len() {
        let longer = es.subrange(0, i + 2);
        assert(longer.drop_last() =~= es.subrange(0, i + 1));
        lemma_first_violation_concat(
            preorder_all(es.subrange(0, i + 1)),
            preorder(longer.last()),
            decl,
            all,
        );
        lemma_first_violation_tail(es, i + 1, decl, all);
    } else {
        assert(es.subrange(0, i + 1) =~= es);
    }
}

/// The diagnostic code of a permission violation (E0006).
pub const IO_PERMISSION_CODE: u32 = 6;

/// The name of a capability in messages.
pub open spec fn capability_word(c: Capability) -> Seq<char> {
    match c {
        Capability::IoRead => "read"@,
        Capability::IoWrite => "write"@,
    }
}

/// The declaration that grants a capability.
pub open spec fn declaration_hint(c: Capability) -> Seq<char> {
    match c {
        Capability::IoRead => "(require io read)"@,
        Capability::IoWrite => "(require io write)"@,
    }
}

/// The message of a permission violation.
pub open spec fn permission_message(builtin: Seq<char>, c: Capability) -> Seq<char> {
    "能力权限不足：「"@ + builtin + "」需要 "@ + capability_word(c) + " 能力——程序未声明 "@
        + declaration_hint(c) + "（无令牌的 I/O 调用为编译期错误）"@
}

/// The diagnostic of a permission violation: error E0006 with the
/// permission message, at the reference.
pub open spec fn permission_diagnostic(v: Violation, d: Diagnostic) -> bool {
    &&& d.severity == crate::diagnostic::Severity::Error
    &&& d.code == Some(DiagnosticCode(IO_PERMISSION_CODE))
    &&& d.message@ == permission_message(v.0, v.1)
    &&& d.primary_span == v.2
    &&& d.children@.len() == 0
    &&& d.suggestions@.len() == 0
}

/// The permission diagnostic for `builtin` needing `c` at `span`.
pub fn permission_diag(builtin: &str, c: Capability, span: Span) -> (d: Diagnostic)
    ensures
        permission_diagnostic((builtin@, c, span), d),
{
    let mut m = string_of("能力权限不足：「");
    push_str(&mut m, builtin);
    push_str(&mut m, "」需要 ");
    match c {
        Capability::IoRead => push_str(&mut m, "read"),
        Capability::IoWrite => push_str(&mut m, "write"),
    }
    push_str(&mut m, " 能力——程序未声明 ");
    match c {
        Capability::IoRead => push_str(&mut m, "(require io read)"),
        Capability::IoWrite => push_str(&mut m, "(require io write)"),
    }
    push_str(&mut m, "（无令牌的 I/O 调用为编译期错误）");
    Diagnostic::error(Some(DiagnosticCode(IO_PERMISSION_CODE)), m.as_str(), span)
}

/// Every reference among `nodes` points into a known position of `sm`.
pub open spec fn references_placed(nodes: Seq<CoreExpr>, sm: SourceMap) -> bool {
    forall|k: int|
        0 <= k < nodes.len() && (#[trigger] nodes[k]) is VarRef ==> sm.position_ok(
            nodes[k]->VarRef_span.file_id,
            nodes[k]->VarRef_span.start,
        )
}

proof fn lemma_violation_placed(nodes: Seq<CoreExpr>, decl: IoRequirements, all: Seq<CoreExpr>, sm: SourceMap)
    requires
        references_placed(nodes, sm),
    ensures
        first_violation(nodes, decl, all) matches Some(v) ==> sm.position_ok(v.2.file_id, v.2.start),
    decreases nodes.len(),
{
    if nodes.len() > 0 {
        assert(nodes[0] == nodes[0]);
        assert forall|k: int|
            0 <= k < nodes.drop_first().len() && (#[trigger] nodes.drop_first()[k]) is VarRef
                implies sm.position_ok(
            nodes.drop_first()[k]->VarRef_span.file_id,
            nodes.drop_first()[k]->VarRef_span.start,
        ) by {
            assert(nodes.drop_first()[k] == nodes[k + 1]);
        }
        lemma_violation_placed(nodes.drop_first(), decl, all, sm);
    }
}

/// The permission rule, checked at compile time: every reference to a gated
/// builtin (by hygienic base name) needs its capability declared, unless
/// the program defines or assigns that name (raw or base) itself.  The
/// first violation, in program order, is the error (E0006, compile stage).
pub fn verify_io_capabilities(core: &Vec<CoreExpr>, sm: &SourceMap) -> (r: Result<(), DriverError>)
    requires
        sm.wf(),
        references_placed(preorder_all(core@), *sm),
    ensures
        match first_violation(
            preorder_all(core@),
            requirements_of(core@),
            preorder_all(core@),
        ) {
            None => r is Ok,
            Some(v) => r matches Err(e) && permission_diagnostic(v, e.diagnostic) && error_of(
                Stage::Compile,
                e.diagnostic,
                *sm,
                e,
            ),
        },
{
    let ghost all = preorder_all(core@);
    let declared = IoRequirements::from_core(core);
    let mut takeover: Vec<String> = Vec::new();
    collect_takeover_all(core, &mut takeover);
    proof {
        assert forall|t: Seq<char>| #[trigger] holds_text(takeover@, t) == taken_over(all, t) by {
            assert(!holds_text(Seq::<String>::empty(), t));
        }
        lemma_violation_placed(all, declared, all, *sm);
    }
    match verify_refs_all(core, declared, &takeover, Ghost(all)) {
        None => Ok(()),
        Some((base, c, span)) => {
            let diag = permission_diag(base.as_str(), c, span);
            proof {
                assert(diagnostic_positions_ok(diag, *sm));
            }
            let rendered = render_diagnostic(&diag, sm);
            Err(DriverError { stage: Stage::Compile, diagnostic: diag, rendered })
        },
    }
}

/// A program that declares both reading and writing breaks no permission
/// rule, whatever it references.
pub proof fn lemma_full_declaration_passes(nodes: Seq<CoreExpr>, decl: IoRequirements, all: Seq<CoreExpr>)
    requires
        decl.read,
        decl.write,
    ensures
        first_violation(nodes, decl, all) is None,
    decreases nodes.len(),
{
    if nodes.len() > 0 {
        lemma_full_declaration_passes(nodes.drop_first(), decl, all);
    }
}

/// A reference to a builtin whose name (raw or base) the program defines
/// or assigns is never a violation.
pub proof fn lemma_takeover_exempts(n: CoreExpr, decl: IoRequirements, all: Seq<CoreExpr>)
    requires
        n is VarRef,
        taken_over(all, n->VarRef_name@) || taken_over(all, spec_hygienic_base(n->VarRef_name@)),
    ensures
        violation_at(n, decl, all) is None,
{
}

/// Every node of `nodes` has a placed span.
pub open spec fn nodes_placed(nodes: Seq<CoreExpr>, sm: SourceMap) -> bool {
    forall|k: int|
        0 <= k < nodes.len() ==> sm.position_ok(
            crate::core_expr::node_span(#[trigger] nodes[k]).file_id,
            crate::core_expr::node_span(nodes[k]).start,
        )
}

proof fn lemma_nodes_placed_concat(a: Seq<CoreExpr>, b: Seq<CoreExpr>, sm: SourceMap)
    requires
        nodes_placed(a, sm),
        nodes_placed(b, sm),
    ensures
        nodes_placed(a + b, sm),
{
    assert forall|k: int| 0 <= k < (a + b).len() implies sm.position_ok(
        crate::core_expr::node_span(#[trigger] (a + b)[k]).file_id,
        crate::core_expr::node_span((a + b)[k]).start,
    ) by {
        if k < a.len() {
            assert((a + b)[k] == a[k]);
        } else {
            assert((a + b)[k] == b[k - a.len()]);
        }
    }
}

proof fn lemma_preorder_placed(e: CoreExpr, sm: SourceMap)
    requires
        crate::core_expr::placed(e, sm),
    ensures
        nodes_placed(preorder(e), sm),
    decreases e,
{
    let one = seq![e];
    assert(nodes_placed(one, sm)) by {
        assert forall|k: int| 0 <= k < one.len() implies sm.position_ok(
            crate::core_expr::node_span(#[trigger] one[k]).file_id,
            crate::core_expr::node_span(one[k]).start,
        ) by {
            assert(one[k] == e);
        }
    }
    match e {
        CoreExpr::Lambda { body, .. } => {
            lemma_preorder_placed(*body, sm);
            lemma_nodes_placed_concat(one, preorder(*body), sm);
        },
        CoreExpr::App { fn_expr, args, .. } => {
            lemma_preorder_placed(*fn_expr, sm);
            lemma_preorder_all_placed(args@, sm);
            lemma_nodes_placed_concat(preorder(*fn_expr), preorder_all(args@), sm);
            lemma_nodes_placed_concat(one, preorder(*fn_expr) + preorder_all(args@), sm);
        },
        CoreExpr::If { cond, then_branch, else_branch, .. } => {
            lemma_preorder_placed(*cond, sm);
            lemma_preorder_placed(*then_branch, sm);
            lemma_preorder_placed(*else_branch, sm);
            lemma_nodes_placed_concat(preorder(*cond), preorder(*then_branch), sm);
            lemma_nodes_placed_concat(preorder(*cond) + preorder(*then_branch), preorder(*else_branch), sm);
            lemma_nodes_placed_concat(one, preorder(*cond) + preorder(*then_branch) + preorder(*else_branch), sm);
        },
        CoreExpr::SetBang { value, .. } => {
            lemma_preorder_placed(*value, sm);
            lemma_nodes_placed_concat(one, preorder(*value), sm);
        },
        CoreExpr::Define { value, .. } => {
            lemma_preorder_placed(*value, sm);
            lemma_nodes_placed_concat(one, preorder(*value), sm);
        },
        CoreExpr::Begin { body, .. } => {
            lemma_preorder_all_placed(body@, sm);
            lemma_nodes_placed_concat(one, preorder_all(body@), sm);
        },
        CoreExpr::Module { body, .. } => {
            lemma_preorder_all_placed(body@, sm);
            lemma_nodes_placed_concat(one, preorder_all(body@), sm);
        },
        CoreExpr::Perform { effect, .. } => {
            lemma_preorder_placed(*effect, sm);
            lemma_nodes_placed_concat(one, preorder(*effect), sm);
        },
        CoreExpr::Handle { handler_body, body, .. } => {
            lemma_preorder_placed(*handler_body, sm);
            lemma_preorder_placed(*body, sm);
            lemma_nodes_placed_concat(preorder(*handler_body), preorder(*body), sm);
            lemma_nodes_placed_concat(one, preorder(*handler_body) + preorder(*body), sm);
        },
        _ => {
            assert(preorder(e) =~= one);
        },
    }
}

proof fn lemma_preorder_all_placed(es: Seq<CoreExpr>, sm: SourceMap)
    requires
        crate::core_expr::placed_all(es, sm),
    ensures
        nodes_placed(preorder_all(es), sm),
    decreases es,
{
    if es.len() > 0 {
        lemma_preorder_all_placed(es.drop_last(), sm);
        lemma_preorder_placed(es.last(), sm);
        lemma_nodes_placed_concat(preorder_all(es.drop_last()), preorder(es.last()), sm);
    }
}

/// A program whose spans are all placed has its references placed.
pub proof fn lemma_placed_references(es: Seq<CoreExpr>, sm: SourceMap)
    requires
        crate::core_expr::placed_all(es, sm),
    ensures
        references_placed(preorder_all(es), sm),
{
    lemma_preorder_all_placed(es, sm);
    let nodes = preorder_all(es);
    assert forall|k: int| 0 <= k < nodes.len() && (#[trigger] nodes[k]) is VarRef implies sm.position_ok(
        nodes[k]->VarRef_span.file_id,
        nodes[k]->VarRef_span.start,
    ) by {
        assert(crate::core_expr::node_span(nodes[k]) == nodes[k]->VarRef_span);
    }
}

} // verus!
