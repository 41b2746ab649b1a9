//! Qualified names (`ns/local`) after expansion.
//!
//! A qualified reference is looked up in the export list of its module
//! only, never elsewhere: `string/append` is fine, `string/nope` is an
//! error (E0014) even if some other `nope` exists.  The namespace may be an
//! alias from the import face (`str/append` with `(import kerf-string as
//! str)`).  Retired builtin names are errors that name their modern
//! replacement (E0021); user modules may not take a `kerf-` name
//! (E0015).  A lambda parameter shadows a qualified name, and a name the
//! program defines or assigns itself is its own.  After the check, aliased
//! references are rewritten to their module's namespace.
use vstd::prelude::*;

use crate::capability::{
    collect_takeover_all, holds, holds_text, hygienic_base, lemma_holds_push, spec_hygienic_base,
    taken_over,
};
use crate::core_expr::{
    core_view, core_views, lemma_core_views_index, placed, placed_all, preorder_all, Capability, CoreExpr, CoreV,
};
use crate::diagnostic::{render_diagnostic, Diagnostic, DiagnosticCode, Severity};
use crate::driver::{error_of, DriverError, Stage};
use crate::imports::{text_pairs, ImportFace};
use crate::modules::{
    allowed_modules, exports, is_allowed_module, is_exported, removed_builtin_modern,
    removed_modern,
};
use crate::source_map::SourceMap;
use crate::span::Span;
use crate::text::{chars_of, push_char, push_str, string_of, string_of_range, texts};

verus! {

/// The diagnostic code of a qualified name its module does not export (E0014).
pub const QUALIFIED_NOT_EXPORTED_CODE: u32 = 14;
/// The diagnostic code of a user module with a reserved name (E0015).
pub const RESERVED_DOMAIN_CODE: u32 = 15;
/// The diagnostic code of a reference to a retired builtin name (E0021).
pub const REMOVED_NAME_CODE: u32 = 21;

/// The texts of a sequence of strings, as a set.
pub open spec fn text_set(v: Seq<String>) -> Set<Seq<char>> {
    Set::new(|t: Seq<char>| holds_text(v, t))
}

/// The position of the first `/` in `t` at or after `i`.
pub open spec fn slash_from(t: Seq<char>, i: int) -> Option<int>
    decreases t.len() - i,
{
    if i < 0 || i >= t.len() {
        None
    } else if t[i] == '/' {
        Some(i)
    } else {
        slash_from(t, i + 1)
    }
}

proof fn lemma_slash_from(t: Seq<char>, i: int)
    ensures
        slash_from(t, i) matches Some(p) ==> i <= p < t.len() && t[p] == '/',
    decreases t.len() - i,
{
    if 0 <= i < t.len() && t[i] != '/' {
        lemma_slash_from(t, i + 1);
    }
}

/// The namespace an alias stands for (the first binding of `a`).
pub open spec fn alias_target(al: Seq<(Seq<char>, Seq<char>)>, a: Seq<char>) -> Option<Seq<char>>
    decreases al.len(),
{
    if al.len() == 0 {
        None
    } else if al[0].0 == a {
        Some(al[0].1)
    } else {
        alias_target(al.drop_first(), a)
    }
}

/// What the check finds wrong.
pub ghost enum QualifiedIssue {
    /// A reference to a retired builtin name.
    Removed { base: Seq<char>, modern: Seq<char>, span: Span },
    /// A qualified reference to a name its module (`module`, reached
    /// through the alias `ns` when `aliased`) does not export.
    NotExported { ns: Seq<char>, module: Seq<char>, local: Seq<char>, aliased: bool, span: Span },
    /// A user module with a reserved name.
    ReservedModule { name: Seq<char>, span: Span },
}

/// What is wrong with a reference to `raw` at `span`: `tk` are the names
/// the program defines or assigns, `sh` the lambda parameters in scope.
pub open spec fn ref_issue(
    raw: Seq<char>,
    span: Span,
    tk: Set<Seq<char>>,
    sh: Set<Seq<char>>,
    al: Seq<(Seq<char>, Seq<char>)>,
) -> Option<QualifiedIssue> {
    let base = spec_hygienic_base(raw);
    let taken = tk.contains(raw) || tk.contains(base);
    if sh.contains(base) || sh.contains(raw) {
        None
    } else if !taken && removed_modern(base) is Some {
        Some(QualifiedIssue::Removed { base, modern: removed_modern(base)->0, span })
    } else if base.len() < 2 || slash_from(base, 0) is None || taken {
        None
    } else {
        let p = slash_from(base, 0)->0;
        let ns = base.subrange(0, p);
        let local = base.subrange(p + 1, base.len() as int);
        let module = match alias_target(al, ns) {
            Some(m) => m,
            None => ns,
        };
        if exports(module, local) {
            None
        } else {
            Some(
                QualifiedIssue::NotExported {
                    ns,
                    module,
                    local,
                    aliased: alias_target(al, ns) is Some,
                    span,
                },
            )
        }
    }
}

/// A user module name in the reserved `kerf-` domain.
pub open spec fn reserved_module_name(name: Seq<char>) -> bool {
    name.len() >= 5 && name.subrange(0, 5) == "kerf-"@ && !allowed_modules().contains(name)
}

/// The first issue in `e`, in source order; a lambda's parameters shadow
/// inside its body.
pub open spec fn qualified_issue(
    e: CoreExpr,
    tk: Set<Seq<char>>,
    sh: Set<Seq<char>>,
    al: Seq<(Seq<char>, Seq<char>)>,
) -> Option<QualifiedIssue>
    decreases e,
{
    match e {
        CoreExpr::VarRef { name, span } => ref_issue(name@, span, tk, sh, al),
        CoreExpr::Module { name, body, span, .. } => if reserved_module_name(name@) {
            Some(QualifiedIssue::ReservedModule { name: name@, span })
        } else {
            qualified_issue_all(body@, tk, sh, al)
        },
        CoreExpr::Lambda { params, body, .. } => qualified_issue(
            *body,
            tk,
            sh.union(text_set(params@)),
            al,
        ),
        CoreExpr::App { fn_expr, args, .. } => match qualified_issue(*fn_expr, tk, sh, al) {
            Some(x) => Some(x),
            None => qualified_issue_all(args@, tk, sh, al),
        },
        CoreExpr::If { cond, then_branch, else_branch, .. } => match qualified_issue(
            *cond,
            tk,
            sh,
            al,
        ) {
            Some(x) => Some(x),
            None => match qualified_issue(*then_branch, tk, sh, al) {
                Some(x) => Some(x),
                None => qualified_issue(*else_branch, tk, sh, al),
            },
        },
        CoreExpr::SetBang { value, .. } => qualified_issue(*value, tk, sh, al),
        CoreExpr::Define { value, .. } => qualified_issue(*value, tk, sh, al),
        CoreExpr::Begin { body, .. } => qualified_issue_all(body@, tk, sh, al),
        CoreExpr::Perform { effect, .. } => qualified_issue(*effect, tk, sh, al),
        CoreExpr::Handle { handler_body, body, .. } => match qualified_issue(
            *handler_body,
            tk,
            sh,
            al,
        ) {
            Some(x) => Some(x),
            None => qualified_issue(*body, tk, sh, al),
        },
        _ => None,
    }
}

/// The first issue among `es`, one expression after another.
pub open spec fn qualified_issue_all(
    es: Seq<CoreExpr>,
    tk: Set<Seq<char>>,
    sh: Set<Seq<char>>,
    al: Seq<(Seq<char>, Seq<char>)>,
) -> Option<QualifiedIssue>
    decreases es,
{
    if es.len() == 0 {
        None
    } else {
        match qualified_issue_all(es.drop_last(), tk, sh, al) {
            Some(x) => Some(x),
            None => qualified_issue(es.last(), tk, sh, al),
        }
    }
}

/// The diagnostic of an issue.
pub open spec fn qualified_diagnostic(issue: QualifiedIssue, d: Diagnostic) -> bool {
    &&& d.severity == Severity::Error
    &&& d.children@.len() == 0
    &&& d.suggestions@.len() == 0
    &&& match issue {
        QualifiedIssue::Removed { base, modern, span } => {
            &&& d.code == Some(DiagnosticCode(REMOVED_NAME_CODE))
            &&& d.message@ == "「"@ + base + "」已于 v0.9 移除——现代名「"@ + modern
                + "」（20 §7 移除轮；限定名形 kerf 域亦可用）"@
            &&& d.primary_span == span
        },
        QualifiedIssue::NotExported { ns, module, local, aliased, span } => {
            &&& d.code == Some(DiagnosticCode(QUALIFIED_NOT_EXPORTED_CODE))
            &&& d.message@ == "「"@ + module + "」不导出「"@ + local
                + "」（限定名无回落——R-N3：仅查模块 export 面，不查全局/局部/其他模块"@ + (if aliased {
                "（别名 "@ + ns + " → kerf-"@ + module + "）"@
            } else {
                Seq::empty()
            }) + "）"@
            &&& d.primary_span == span
        },
        QualifiedIssue::ReservedModule { name, span } => {
            &&& d.code == Some(DiagnosticCode(RESERVED_DOMAIN_CODE))
            &&& d.message@ == "保留域违例：模块名「"@ + name
                + "」占用 kerf- 前缀（标准库保留域——22 §7；用户模块名请去前缀）"@
            &&& d.primary_span == span
        },
    }
}

/// A found diagnostic `r` is the one of issue `i`.
pub open spec fn reports(r: Option<Diagnostic>, i: Option<QualifiedIssue>) -> bool {
    match i {
        Some(issue) => r matches Some(d) && qualified_diagnostic(issue, d),
        None => r is None,
    }
}

/// The span of an issue.
pub open spec fn issue_span(i: QualifiedIssue) -> Span {
    match i {
        QualifiedIssue::Removed { span, .. } => span,
        QualifiedIssue::NotExported { span, .. } => span,
        QualifiedIssue::ReservedModule { span, .. } => span,
    }
}

// ---- executable pieces ----

/// The position of the first `/` in `t`.
fn find_slash(t: &Vec<char>) -> (r: Option<usize>)
    ensures
        match r {
            Some(p) => slash_from(t@, 0) == Some(p as int) && p < t@.len(),
            None => slash_from(t@, 0) is None,
        },
{
    proof {
        lemma_slash_from(t@, 0);
    }
    let mut i: usize = 0;
    while i < t.len()
        invariant
            i <= t@.len(),
            slash_from(t@, i as int) == slash_from(t@, 0),
        decreases t@.len() - i,
    {
        if t[i] == '/' {
            return Some(i);
        }
        i = i + 1;
    }
    None
}

/// The namespace alias `a` stands for, if it is an alias.
fn alias_of(face: &ImportFace, a: &String) -> (r: Option<String>)
    ensures
        match alias_target(text_pairs(face.aliases@), a@) {
            Some(m) => r matches Some(x) && x@ == m,
            None => r is None,
        },
{
    let ghost al = text_pairs(face.aliases@);
    let mut i: usize = 0;
    proof {
        assert(al.subrange(0, al.len() as int) =~= al);
    }
    while i < face.aliases.len()
        invariant
            al == text_pairs(face.aliases@),
            al.len() == face.aliases@.len(),
            i <= al.len(),
            alias_target(al.subrange(i as int, al.len() as int), a@) == alias_target(al, a@),
        decreases al.len() - i,
    {
        proof {
            assert(al.subrange(i as int, al.len() as int).drop_first() =~= al.subrange(
                i + 1,
                al.len() as int,
            ));
            assert(al[i as int] == (face.aliases@[i as int].0@, face.aliases@[i as int].1@));
        }
        if face.aliases[i].0 == *a {
            return Some(face.aliases[i].1.clone());
        }
        i = i + 1;
    }
    None
}

/// The diagnostic of a qualified name its module does not export.
fn not_exported_diag(ns: &str, module: &str, local: &str, aliased: bool, span: Span) -> (d: Diagnostic)
    ensures
        qualified_diagnostic(
            QualifiedIssue::NotExported { ns: ns@, module: module@, local: local@, aliased, span },
            d,
        ),
{
    let mut m = string_of("「");
    push_str(&mut m, module);
    push_str(&mut m, "」不导出「");
    push_str(&mut m, local);
    push_str(&mut m, "」（限定名无回落——R-N3：仅查模块 export 面，不查全局/局部/其他模块");
    if aliased {
        push_str(&mut m, "（别名 ");
        push_str(&mut m, ns);
        push_str(&mut m, " → kerf-");
        push_str(&mut m, module);
        push_str(&mut m, "）");
    }
    push_str(&mut m, "）");
    proof {
        let tail: Seq<char> = if aliased {
            "（别名 "@ + ns@ + " → kerf-"@ + module@ + "）"@
        } else {
            Seq::empty()
        };
        assert(m@ =~= "「"@ + module@ + "」不导出「"@ + local@
            + "」（限定名无回落——R-N3：仅查模块 export 面，不查全局/局部/其他模块"@ + tail + "）"@);
    }
    Diagnostic::error(Some(DiagnosticCode(QUALIFIED_NOT_EXPORTED_CODE)), m.as_str(), span)
}

/// The issue with a reference to `raw` at `span`.
fn ref_diag(
    raw: &String,
    span: Span,
    takeover: &Vec<String>,
    shadowed: &Vec<String>,
    face: &ImportFace,
) -> (r: Option<Diagnostic>)
    ensures
        reports(
            r,
            ref_issue(raw@, span, text_set(takeover@), text_set(shadowed@), text_pairs(face.aliases@)),
        ),
{
    let base = hygienic_base(raw.as_str());
    if holds(shadowed, &base) || holds(shadowed, raw) {
        return None;
    }
    let taken = holds(takeover, raw) || holds(takeover, &base);
    if !taken {
        match removed_builtin_modern(base.as_str()) {
            Some(modern) => {
                let mut m = string_of("「");
                push_str(&mut m, base.as_str());
                push_str(&mut m, "」已于 v0.9 移除——现代名「");
                push_str(&mut m, modern);
                push_str(&mut m, "」（20 §7 移除轮；限定名形 kerf 域亦可用）");
                return Some(
                    Diagnostic::error(Some(DiagnosticCode(REMOVED_NAME_CODE)), m.as_str(), span),
                );
            },
            None => {},
        }
    }
    let t = chars_of(base.as_str());
    if t.len() < 2 {
        return None;
    }
    let p = match find_slash(&t) {
        Some(p) => p,
        None => {
            return None;
        },
    };
    if taken {
        return None;
    }
    let ns = string_of_range(&t, 0, p);
    let local = string_of_range(&t, p + 1, t.len());
    let alias = alias_of(face, &ns);
    let aliased = alias.is_some();
    let module = match alias {
        Some(m) => m,
        None => string_of_range(&t, 0, p),
    };
    proof {
        let b = spec_hygienic_base(raw@);
        assert(base@ == b);
        assert(!text_set(takeover@).contains(raw@) && !text_set(takeover@).contains(b));
        assert(!text_set(shadowed@).contains(raw@) && !text_set(shadowed@).contains(b));
        assert(slash_from(b, 0) == Some(p as int));
        assert(ns@ == b.subrange(0, p as int));
        assert(local@ == b.subrange(p + 1, b.len() as int));
    }
    if is_exported(module.as_str(), local.as_str()) {
        None
    } else {
        Some(not_exported_diag(ns.as_str(), module.as_str(), local.as_str(), aliased, span))
    }
}

/// Whether a user module name is in the reserved `kerf-` domain.
fn is_reserved_module_name(name: &String) -> (b: bool)
    ensures
        b == reserved_module_name(name@),
{
    let t = chars_of(name.as_str());
    proof {
        reveal_strlit("kerf-");
    }
    if t.len() >= 5 && t[0] == 'k' && t[1] == 'e' && t[2] == 'r' && t[3] == 'f' && t[4] == '-' {
        proof {
            assert(t@.subrange(0, 5) =~= "kerf-"@);
        }
        !is_allowed_module(name.as_str())
    } else {
        proof {
            if t@.len() >= 5 && t@.subrange(0, 5) == "kerf-"@ {
                assert(t@.subrange(0, 5)[0] == 'k');
                assert(t@.subrange(0, 5)[1] == 'e');
                assert(t@.subrange(0, 5)[2] == 'r');
                assert(t@.subrange(0, 5)[3] == 'f');
                assert(t@.subrange(0, 5)[4] == '-');
            }
        }
        false
    }
}

/// `shadowed` extended by the parameters `params`.
fn with_params(shadowed: &Vec<String>, params: &Vec<String>) -> (v: Vec<String>)
    ensures
        text_set(v@) == text_set(shadowed@).union(text_set(params@)),
{
    let mut v: Vec<String> = Vec::new();
    let mut i: usize = 0;
    while i < shadowed.len()
        invariant
            i <= shadowed@.len(),
            forall|t: Seq<char>| #[trigger] holds_text(v@, t) == holds_text(shadowed@.subrange(0, i as int), t),
        decreases shadowed@.len() - i,
    {
        let ghost before = v@;
        let s = shadowed[i].clone();
        v.push(s);
        proof {
            assert(shadowed@.subrange(0, i + 1) =~= shadowed@.subrange(0, i as int).push(shadowed@[i as int]));
            assert forall|t: Seq<char>| #[trigger] holds_text(v@, t) == holds_text(shadowed@.subrange(0, i + 1), t) by {
                lemma_holds_push(before, s, t);
                lemma_holds_push(shadowed@.subrange(0, i as int), shadowed@[i as int], t);
            }
        }
        i = i + 1;
    }
    let ghost mid = v@;
    let mut j: usize = 0;
    while j < params.len()
        invariant
            j <= params@.len(),
            i == shadowed@.len(),
            forall|t: Seq<char>| #[trigger] holds_text(mid, t) == holds_text(shadowed@.subrange(0, i as int), t),
            forall|t: Seq<char>| #[trigger] holds_text(v@, t) == (holds_text(mid, t) || holds_text(params@.subrange(0, j as int), t)),
        decreases params@.len() - j,
    {
        let ghost before = v@;
        let s = params[j].clone();
        v.push(s);
        proof {
            assert(params@.subrange(0, j + 1) =~= params@.subrange(0, j as int).push(params@[j as int]));
            assert forall|t: Seq<char>| #[trigger] holds_text(v@, t) == (holds_text(mid, t) || holds_text(params@.subrange(0, j + 1), t)) by {
                lemma_holds_push(before, s, t);
                lemma_holds_push(params@.subrange(0, j as int), params@[j as int], t);
            }
        }
        j = j + 1;
    }
    proof {
        assert(shadowed@.subrange(0, i as int) =~= shadowed@);
        assert(params@.subrange(0, j as int) =~= params@);
        assert(text_set(v@) =~= text_set(shadowed@).union(text_set(params@)));
    }
    v
}

/// An issue in the first `i + 1` expressions, with none in the first `i`,
/// is the first issue of them all.
proof fn lemma_issue_tail(
    es: Seq<CoreExpr>,
    i: int,
    tk: Set<Seq<char>>,
    sh: Set<Seq<char>>,
    al: Seq<(Seq<char>, Seq<char>)>,
)
    requires
        0 <= i < es.len(),
        qualified_issue_all(es.subrange(0, i + 1), tk, sh, al) is Some,
    ensures
        qualified_issue_all(es, tk, sh, al) == qualified_issue_all(es.subrange(0, i + 1), tk, sh, al),
    decreases es.len() - i,
{
    if i + 1 < es.len() {
        let longer = es.subrange(0, i + 2);
        assert(longer.drop_last() =~= es.subrange(0, i + 1));
        lemma_issue_tail(es, i + 1, tk, sh, al);
    } else {
        assert(es.subrange(0, i + 1) =~= es);
    }
}

/// The first issue in `e`.
pub fn qualified_ref_diag(e: &CoreExpr, takeover: &Vec<String>, shadowed: &Vec<String>, face: &ImportFace) -> (r:
    Option<Diagnostic>)
    ensures
        reports(
            r,
            qualified_issue(*e, text_set(takeover@), text_set(shadowed@), text_pairs(face.aliases@)),
        ),
    decreases e,
{
    match e {
        CoreExpr::VarRef { name, span } => ref_diag(name, *span, takeover, shadowed, face),
        CoreExpr::Module { name, body, span, .. } => {
            if is_reserved_module_name(name) {
                let mut m = string_of("保留域违例：模块名「");
                push_str(&mut m, name.as_str());
                push_str(&mut m, "」占用 kerf- 前缀（标准库保留域——22 §7；用户模块名请去前缀）");
                Some(Diagnostic::error(Some(DiagnosticCode(RESERVED_DOMAIN_CODE)), m.as_str(), *span))
            } else {
                qualified_ref_seq(body, takeover, shadowed, face)
            }
        },
        CoreExpr::Lambda { params, body, .. } => {
            let inner = with_params(shadowed, params);
            qualified_ref_diag(body, takeover, &inner, face)
        },
        CoreExpr::App { fn_expr, args, .. } => {
            let r = qualified_ref_diag(fn_expr, takeover, shadowed, face);
            if r.is_some() {
                return r;
            }
            qualified_ref_seq(args, takeover, shadowed, face)
        },
        CoreExpr::If { cond, then_branch, else_branch, .. } => {
            let r = qualified_ref_diag(cond, takeover, shadowed, face);
            if r.is_some() {
                return r;
            }
            let r = qualified_ref_diag(then_branch, takeover, shadowed, face);
            if r.is_some() {
                return r;
            }
            qualified_ref_diag(else_branch, takeover, shadowed, face)
        },
        CoreExpr::SetBang { value, .. } => qualified_ref_diag(value, takeover, shadowed, face),
        CoreExpr::Define { value, .. } => qualified_ref_diag(value, takeover, shadowed, face),
        CoreExpr::Begin { body, .. } => qualified_ref_seq(body, takeover, shadowed, face),
        CoreExpr::Perform { effect, .. } => qualified_ref_diag(effect, takeover, shadowed, face),
        CoreExpr::Handle { handler_body, body, .. } => {
            let r = qualified_ref_diag(handler_body, takeover, shadowed, face);
            if r.is_some() {
                return r;
            }
            qualified_ref_diag(body, takeover, shadowed, face)
        },
        _ => None,
    }
}

/// The first issue among `es`.
pub fn qualified_ref_seq(es: &Vec<CoreExpr>, takeover: &Vec<String>, shadowed: &Vec<String>, face: &ImportFace) -> (r:
    Option<Diagnostic>)
    ensures
        reports(
            r,
            qualified_issue_all(es@, text_set(takeover@), text_set(shadowed@), text_pairs(face.aliases@)),
        ),
    decreases es,
{
    let ghost tk = text_set(takeover@);
    let ghost sh = text_set(shadowed@);
    let ghost al = text_pairs(face.aliases@);
    let mut i: usize = 0;
    proof {
        assert(es@.subrange(0, 0) =~= Seq::<CoreExpr>::empty());
    }
    while i < es.len()
        invariant
            tk == text_set(takeover@),
            sh == text_set(shadowed@),
            al == text_pairs(face.aliases@),
            i <= es@.len(),
            qualified_issue_all(es@.subrange(0, i as int), tk, sh, al) is None,
        decreases es@.len() - i,
    {
        proof {
            let next = es@.subrange(0, i + 1);
            assert(next.drop_last() =~= es@.subrange(0, i as int));
            assert(next.last() == es@[i as int]);
        }
        let r = qualified_ref_diag(&es[i], takeover, shadowed, face);
        if r.is_some() {
            proof {
                lemma_issue_tail(es@, i as int, tk, sh, al);
            }
            return r;
        }
        i = i + 1;
    }
    proof {
        assert(es@.subrange(0, i as int) =~= es@);
    }
    None
}

proof fn lemma_issue_placed(
    e: CoreExpr,
    tk: Set<Seq<char>>,
    sh: Set<Seq<char>>,
    al: Seq<(Seq<char>, Seq<char>)>,
    sm: SourceMap,
)
    requires
        placed(e, sm),
    ensures
        qualified_issue(e, tk, sh, al) matches Some(i) ==> sm.position_ok(
            issue_span(i).file_id,
            issue_span(i).start,
        ),
    decreases e,
{
    match e {
        CoreExpr::Module { body, .. } => lemma_issue_placed_all(body@, tk, sh, al, sm),
        CoreExpr::Lambda { params, body, .. } => lemma_issue_placed(
            *body,
            tk,
            sh.union(text_set(params@)),
            al,
            sm,
        ),
        CoreExpr::App { fn_expr, args, .. } => {
            lemma_issue_placed(*fn_expr, tk, sh, al, sm);
            lemma_issue_placed_all(args@, tk, sh, al, sm);
        },
        CoreExpr::If { cond, then_branch, else_branch, .. } => {
            lemma_issue_placed(*cond, tk, sh, al, sm);
            lemma_issue_placed(*then_branch, tk, sh, al, sm);
            lemma_issue_placed(*else_branch, tk, sh, al, sm);
        },
        CoreExpr::SetBang { value, .. } => lemma_issue_placed(*value, tk, sh, al, sm),
        CoreExpr::Define { value, .. } => lemma_issue_placed(*value, tk, sh, al, sm),
        CoreExpr::Begin { body, .. } => lemma_issue_placed_all(body@, tk, sh, al, sm),
        CoreExpr::Perform { effect, .. } => lemma_issue_placed(*effect, tk, sh, al, sm),
        CoreExpr::Handle { handler_body, body, .. } => {
            lemma_issue_placed(*handler_body, tk, sh, al, sm);
            lemma_issue_placed(*body, tk, sh, al, sm);
        },
        _ => {},
    }
}

proof fn lemma_issue_placed_all(
    es: Seq<CoreExpr>,
    tk: Set<Seq<char>>,
    sh: Set<Seq<char>>,
    al: Seq<(Seq<char>, Seq<char>)>,
    sm: SourceMap,
)
    requires
        placed_all(es, sm),
    ensures
        qualified_issue_all(es, tk, sh, al) matches Some(i) ==> sm.position_ok(
            issue_span(i).file_id,
            issue_span(i).start,
        ),
    decreases es,
{
    if es.len() > 0 {
        lemma_issue_placed_all(es.drop_last(), tk, sh, al, sm);
        lemma_issue_placed(es.last(), tk, sh, al, sm);
    }
}

/// The names a program takes over, as a set.
pub open spec fn takeover_set(core: Seq<CoreExpr>) -> Set<Seq<char>> {
    Set::new(|t: Seq<char>| taken_over(preorder_all(core), t))
}

/// The qualified-name rule on an expanded program: the first issue, in
/// program order, is a compile-stage error (E0021 retired name, E0014
/// not exported, E0015 reserved module name); names the program defines or
/// assigns anywhere are its own.
pub fn verify_qualified_refs(core: &Vec<CoreExpr>, face: &ImportFace, sm: &SourceMap) -> (r: Result<
    (),
    DriverError,
>)
    requires
        sm.wf(),
        placed_all(core@, *sm),
    ensures
        match qualified_issue_all(core@, takeover_set(core@), Set::empty(), text_pairs(face.aliases@)) {
            None => r is Ok,
            Some(i) => r matches Err(e) && qualified_diagnostic(i, e.diagnostic) && error_of(
                Stage::Compile,
                e.diagnostic,
                *sm,
                e,
            ),
        },
{
    let mut takeover: Vec<String> = Vec::new();
    collect_takeover_all(core, &mut takeover);
    let shadowed: Vec<String> = Vec::new();
    proof {
        assert(text_set(takeover@) =~= takeover_set(core@)) by {
            assert forall|t: Seq<char>| text_set(takeover@).contains(t) == takeover_set(core@).contains(t) by {
                assert(holds_text(takeover@, t) == (holds_text(Seq::<String>::empty(), t) || taken_over(preorder_all(core@), t)));
                assert(!holds_text(Seq::<String>::empty(), t));
            }
        }
        assert(text_set(shadowed@) =~= Set::<Seq<char>>::empty());
        lemma_issue_placed_all(core@, takeover_set(core@), Set::empty(), text_pairs(face.aliases@), *sm);
    }
    match qualified_ref_seq(core, &takeover, &shadowed, face) {
        None => Ok(()),
        Some(diag) => {
            let rendered = render_diagnostic(&diag, sm);
            Err(DriverError { stage: Stage::Compile, diagnostic: diag, rendered })
        },
    }
}

// ---- alias rewriting ----

/// The name a reference to `raw` gets: `ns/local`, whose namespace `ns`
/// (of the hygienic base) is an alias, becomes `module/local`; any other
/// name stays as it is.
pub open spec fn renamed(raw: Seq<char>, al: Seq<(Seq<char>, Seq<char>)>) -> Seq<char> {
    let base = spec_hygienic_base(raw);
    match slash_from(base, 0) {
        Some(p) => match alias_target(al, base.subrange(0, p)) {
            Some(m) => m + "/"@ + base.subrange(p + 1, base.len() as int),
            None => raw,
        },
        None => raw,
    }
}

/// `v` with every reference renamed.
pub open spec fn rewritten(v: CoreV, al: Seq<(Seq<char>, Seq<char>)>) -> CoreV
    decreases v,
{
    match v {
        CoreV::VarRef(name, span) => CoreV::VarRef(renamed(name, al), span),
        CoreV::Lambda(ps, body, span) => CoreV::Lambda(ps, Box::new(rewritten(*body, al)), span),
        CoreV::App(f, args, span) => CoreV::App(
            Box::new(rewritten(*f, al)),
            rewritten_all(args, al),
            span,
        ),
        CoreV::If(c, t, e, span) => CoreV::If(
            Box::new(rewritten(*c, al)),
            Box::new(rewritten(*t, al)),
            Box::new(rewritten(*e, al)),
            span,
        ),
        CoreV::SetBang(n, x, span) => CoreV::SetBang(n, Box::new(rewritten(*x, al)), span),
        CoreV::Define(n, x, span) => CoreV::Define(n, Box::new(rewritten(*x, al)), span),
        CoreV::Begin(body, span) => CoreV::Begin(rewritten_all(body, al), span),
        CoreV::Module(n, im, ex, body, span) => CoreV::Module(n, im, ex, rewritten_all(body, al), span),
        CoreV::Perform(x, span) => CoreV::Perform(Box::new(rewritten(*x, al)), span),
        CoreV::Handle(p, r, h, b, span) => CoreV::Handle(
            p,
            r,
            Box::new(rewritten(*h, al)),
            Box::new(rewritten(*b, al)),
            span,
        ),
        _ => v,
    }
}

/// Each of `vs` rewritten.
pub open spec fn rewritten_all(vs: Seq<CoreV>, al: Seq<(Seq<char>, Seq<char>)>) -> Seq<CoreV>
    decreases vs,
{
    if vs.len() == 0 {
        Seq::empty()
    } else {
        rewritten_all(vs.drop_last(), al).push(rewritten(vs.last(), al))
    }
}

/// A copy of a list of names.
fn copy_texts(v: &Vec<String>) -> (r: Vec<String>)
    ensures
        texts(r@) == texts(v@),
{
    let mut r: Vec<String> = Vec::new();
    let mut i: usize = 0;
    while i < v.len()
        invariant
            i <= v@.len(),
            texts(r@) == texts(v@.subrange(0, i as int)),
        decreases v@.len() - i,
    {
        let ghost before = r@;
        r.push(v[i].clone());
        proof {
            assert(texts(r@) =~= texts(before).push(v@[i as int]@));
            assert(texts(v@.subrange(0, i + 1)) =~= texts(v@.subrange(0, i as int)).push(v@[i as int]@));
        }
        i = i + 1;
    }
    proof {
        assert(v@.subrange(0, i as int) =~= v@);
    }
    r
}

/// A copy of a list of capabilities.
fn copy_caps(v: &Vec<Capability>) -> (r: Vec<Capability>)
    ensures
        r@ == v@,
{
    let mut r: Vec<Capability> = Vec::new();
    let mut i: usize = 0;
    while i < v.len()
        invariant
            i <= v@.len(),
            r@ == v@.subrange(0, i as int),
        decreases v@.len() - i,
    {
        r.push(v[i]);
        proof {
            assert(r@ =~= v@.subrange(0, i + 1));
        }
        i = i + 1;
    }
    proof {
        assert(v@.subrange(0, i as int) =~= v@);
    }
    r
}

/// The name a reference to `raw` gets.
fn rename(raw: &String, face: &ImportFace) -> (s: String)
    ensures
        s@ == renamed(raw@, text_pairs(face.aliases@)),
{
    let base = hygienic_base(raw.as_str());
    let t = chars_of(base.as_str());
    let n = t.len();
    let slash = find_slash(&t);
    match slash {
        Some(p) => {
            let ns = string_of_range(&t, 0, p);
            match alias_of(face, &ns) {
                Some(module) => {
                    let mut s = module;
                    push_char(&mut s, '/');
                    let local = string_of_range(&t, p + 1, n);
                    push_str(&mut s, local.as_str());
                    proof {
                        reveal_strlit("/");
                        assert(s@ =~= renamed(raw@, text_pairs(face.aliases@)));
                    }
                    s
                },
                None => raw.clone(),
            }
        },
        None => raw.clone(),
    }
}

/// `e` with every reference whose namespace is an alias renamed to the
/// aliased module's namespace (`str/append` becomes `string/append`).
pub fn rewrite_alias_expr(e: &CoreExpr, face: &ImportFace) -> (r: CoreExpr)
    ensures
        core_view(r) == rewritten(core_view(*e), text_pairs(face.aliases@)),
    decreases e,
{
    match e {
        CoreExpr::VarRef { name, span } => CoreExpr::VarRef { name: rename(name, face), span: *span },
        CoreExpr::Lambda { params, body, span } => CoreExpr::Lambda {
            params: copy_texts(params),
            body: Box::new(rewrite_alias_expr(body, face)),
            span: *span,
        },
        CoreExpr::App { fn_expr, args, span } => CoreExpr::App {
            fn_expr: Box::new(rewrite_alias_expr(fn_expr, face)),
            args: rewrite_alias_seq(args, face),
            span: *span,
        },
        CoreExpr::If { cond, then_branch, else_branch, span } => CoreExpr::If {
            cond: Box::new(rewrite_alias_expr(cond, face)),
            then_branch: Box::new(rewrite_alias_expr(then_branch, face)),
            else_branch: Box::new(rewrite_alias_expr(else_branch, face)),
            span: *span,
        },
        CoreExpr::SetBang { name, value, span } => CoreExpr::SetBang {
            name: name.clone(),
            value: Box::new(rewrite_alias_expr(value, face)),
            span: *span,
        },
        CoreExpr::Define { name, value, span } => CoreExpr::Define {
            name: name.clone(),
            value: Box::new(rewrite_alias_expr(value, face)),
            span: *span,
        },
        CoreExpr::Begin { body, span } => CoreExpr::Begin {
            body: rewrite_alias_seq(body, face),
            span: *span,
        },
        CoreExpr::Module { name, imports, exports, body, span } => CoreExpr::Module {
            name: name.clone(),
            imports: copy_texts(imports),
            exports: copy_texts(exports),
            body: rewrite_alias_seq(body, face),
            span: *span,
        },
        CoreExpr::Require { caps, span } => CoreExpr::Require { caps: copy_caps(caps), span: *span },
        CoreExpr::Literal { span } => CoreExpr::Literal { span: *span },
        CoreExpr::Perform { effect, span } => CoreExpr::Perform {
            effect: Box::new(rewrite_alias_expr(effect, face)),
            span: *span,
        },
        CoreExpr::Handle { payload_var, resume_var, handler_body, body, span } => CoreExpr::Handle {
            payload_var: payload_var.clone(),
            resume_var: resume_var.clone(),
            handler_body: Box::new(rewrite_alias_expr(handler_body, face)),
            body: Box::new(rewrite_alias_expr(body, face)),
            span: *span,
        },
    }
}

/// Each of `es` rewritten.
pub fn rewrite_alias_seq(es: &Vec<CoreExpr>, face: &ImportFace) -> (r: Vec<CoreExpr>)
    ensures
        core_views(r@) == rewritten_all(core_views(es@), text_pairs(face.aliases@)),
    decreases es,
{
    let ghost al = text_pairs(face.aliases@);
    let mut r: Vec<CoreExpr> = Vec::new();
    let mut i: usize = 0;
    proof {
        lemma_core_views_index(es@);
        assert(es@.subrange(0, 0) =~= Seq::<CoreExpr>::empty());
    }
    while i < es.len()
        invariant
            al == text_pairs(face.aliases@),
            i <= es@.len(),
            core_views(r@) == rewritten_all(core_views(es@.subrange(0, i as int)), al),
        decreases es@.len() - i,
    {
        let x = rewrite_alias_expr(&es[i], face);
        let ghost before = r@;
        r.push(x);
        proof {
            assert(r@.drop_last() =~= before);
            let pre = es@.subrange(0, i as int);
            let next = es@.subrange(0, i + 1);
            assert(next.drop_last() =~= pre);
            assert(next.last() == es@[i as int]);
            assert(core_views(next).drop_last() == core_views(pre));
        }
        i = i + 1;
    }
    proof {
        assert(es@.subrange(0, i as int) =~= es@);
    }
    r
}

/// Rewriting with no alias changes nothing.
pub proof fn lemma_rewrite_without_aliases(v: CoreV, al: Seq<(Seq<char>, Seq<char>)>)
    requires
        al.len() == 0,
    ensures
        rewritten(v, al) == v,
    decreases v,
{
    match v {
        CoreV::VarRef(name, span) => {
            let base = spec_hygienic_base(name);
            if let Some(p) = slash_from(base, 0) {
                assert(alias_target(al, base.subrange(0, p)) is None);
            }
        },
        CoreV::Lambda(ps, body, span) => lemma_rewrite_without_aliases(*body, al),
        CoreV::App(f, args, span) => {
            lemma_rewrite_without_aliases(*f, al);
            lemma_rewrite_all_without_aliases(args, al);
        },
        CoreV::If(c, t, e, span) => {
            lemma_rewrite_without_aliases(*c, al);
            lemma_rewrite_without_aliases(*t, al);
            lemma_rewrite_without_aliases(*e, al);
        },
        CoreV::SetBang(n, x, span) => lemma_rewrite_without_aliases(*x, al),
        CoreV::Define(n, x, span) => lemma_rewrite_without_aliases(*x, al),
        CoreV::Begin(body, span) => lemma_rewrite_all_without_aliases(body, al),
        CoreV::Module(n, im, ex, body, span) => lemma_rewrite_all_without_aliases(body, al),
        CoreV::Perform(x, span) => lemma_rewrite_without_aliases(*x, al),
        CoreV::Handle(p, r, h, b, span) => {
            lemma_rewrite_without_aliases(*h, al);
            lemma_rewrite_without_aliases(*b, al);
        },
        _ => {},
    }
}

/// Rewriting a sequence with no alias changes nothing.
pub proof fn lemma_rewrite_all_without_aliases(vs: Seq<CoreV>, al: Seq<(Seq<char>, Seq<char>)>)
    requires
        al.len() == 0,
    ensures
        rewritten_all(vs, al) == vs,
    decreases vs,
{
    if vs.len() > 0 {
        lemma_rewrite_all_without_aliases(vs.drop_last(), al);
        lemma_rewrite_without_aliases(vs.last(), al);
        assert(vs.drop_last().push(vs.last()) =~= vs);
    }
}

/// A program with every aliased reference renamed; without aliases the
/// program is returned as it is.
pub fn rewrite_alias_refs(core: Vec<CoreExpr>, face: &ImportFace) -> (r: Vec<CoreExpr>)
    ensures
        core_views(r@) == rewritten_all(core_views(core@), text_pairs(face.aliases@)),
{
    if face.aliases.len() == 0 {
        proof {
            lemma_rewrite_all_without_aliases(core_views(core@), text_pairs(face.aliases@));
        }
        return core;
    }
    rewrite_alias_seq(&core, face)
}

/// A qualified reference through an alias that the check accepts (one
/// neither shadowed nor the program's own name) is rewritten to
/// `module/local`, a name its module exports.
pub proof fn lemma_accepted_alias_reference(
    raw: Seq<char>,
    span: Span,
    tk: Set<Seq<char>>,
    sh: Set<Seq<char>>,
    al: Seq<(Seq<char>, Seq<char>)>,
)
    requires
        ref_issue(raw, span, tk, sh, al) is None,
        !sh.contains(raw),
        !sh.contains(spec_hygienic_base(raw)),
        !tk.contains(raw),
        !tk.contains(spec_hygienic_base(raw)),
        spec_hygienic_base(raw).len() >= 2,
        slash_from(spec_hygienic_base(raw), 0) is Some,
        alias_target(
            al,
            spec_hygienic_base(raw).subrange(0, slash_from(spec_hygienic_base(raw), 0)->0),
        ) is Some,
    ensures
        ({
            let base = spec_hygienic_base(raw);
            let p = slash_from(base, 0)->0;
            let module = alias_target(al, base.subrange(0, p))->0;
            let local = base.subrange(p + 1, base.len() as int);
            renamed(raw, al) == module + "/"@ + local && exports(module, local)
        }),
{
}

/// A reference to a name the program defines or assigns itself (raw or by
/// its hygienic base), or to a lambda parameter in scope, is never
/// reported.
pub proof fn lemma_own_or_local_name_never_flagged(
    raw: Seq<char>,
    span: Span,
    tk: Set<Seq<char>>,
    sh: Set<Seq<char>>,
    al: Seq<(Seq<char>, Seq<char>)>,
)
    requires
        tk.contains(raw) || tk.contains(spec_hygienic_base(raw)) || sh.contains(raw) || sh.contains(
            spec_hygienic_base(raw),
        ),
    ensures
        ref_issue(raw, span, tk, sh, al) is None,
{
}

} // verus!
