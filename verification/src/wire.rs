//! The wire form of expanded programs between the Rust pipeline and the
//! self-hosted expander and compiler, which run on the VM: a core
//! expression travels as a list `(tag start end expansion field...)` of VM
//! values.  This module holds those values as plain `Node`s, the expanded
//! program as `WireCore`, and the encoding and decoding between them.
use vstd::prelude::*;

use crate::core_expr::Capability;
use crate::span::Span;
use crate::text::{push_str, same_text, string_of};
use crate::span::FileId;

verus! {

/// A VM value, as the codec reads and writes it; `kind` is the VM's name of
/// the value's type (it only appears in error messages).
#[derive(Debug)]
pub struct Node {
    pub datum: NodeDatum,
    pub kind: String,
}

#[derive(Debug)]
pub enum NodeDatum {
    Sym(String),
    Int(i64),
    /// A float, by its bits.
    Float(u64),
    Str(String),
    Bool(bool),
    Nil,
    Pair(Box<Node>, Box<Node>),
    /// Any other value (a procedure, a box, ...).
    Other,
}

/// A literal of an expanded program (a float by its bits).
#[derive(Debug)]
pub enum Lit {
    Int(i64),
    Float(u64),
    Str(String),
    Bool(bool),
    Nil,
    Symbol(String),
    Pair(Box<Lit>, Box<Lit>),
}

/// An expanded expression as the self-hosted stages exchange it: names by
/// text, scope sets as lists of scope ids.
#[derive(Debug)]
pub enum WireCore {
    Literal { value: Lit, span: Span },
    VarRef { name: String, scopes: Vec<u32>, span: Span },
    App { fn_expr: Box<WireCore>, args: Vec<WireCore>, span: Span },
    If { cond: Box<WireCore>, then_branch: Box<WireCore>, else_branch: Box<WireCore>, span: Span },
    Lambda { params: Vec<String>, param_scopes: Vec<Vec<u32>>, body: Box<WireCore>, span: Span },
    SetBang { name: String, scopes: Vec<u32>, value: Box<WireCore>, span: Span },
    Define { name: String, value: Box<WireCore>, span: Span },
    Begin { body: Vec<WireCore>, span: Span },
    Module { name: String, imports: Vec<String>, exports: Vec<String>, body: Vec<WireCore>, span: Span },
    Require { caps: Vec<Capability>, span: Span },
}

// ---- views ----

pub ghost enum DV {
    Sym(Seq<char>),
    Int(i64),
    Float(u64),
    Str(Seq<char>),
    Bool(bool),
    Nil,
    Pair(Box<NV>, Box<NV>),
    Other,
}

/// The value of a node: its datum and its type name.
pub ghost struct NV {
    pub d: DV,
    pub t: Seq<char>,
}

pub open spec fn node_v(n: Node) -> NV
    decreases n,
{
    NV {
        d: match n.datum {
            NodeDatum::Sym(s) => DV::Sym(s@),
            NodeDatum::Int(i) => DV::Int(i),
            NodeDatum::Float(b) => DV::Float(b),
            NodeDatum::Str(s) => DV::Str(s@),
            NodeDatum::Bool(b) => DV::Bool(b),
            NodeDatum::Nil => DV::Nil,
            NodeDatum::Pair(a, b) => DV::Pair(Box::new(node_v(*a)), Box::new(node_v(*b))),
            NodeDatum::Other => DV::Other,
        },
        t: n.kind@,
    }
}

pub ghost enum LV {
    Int(i64),
    Float(u64),
    Str(Seq<char>),
    Bool(bool),
    Nil,
    Symbol(Seq<char>),
    Pair(Box<LV>, Box<LV>),
}

pub open spec fn lit_v(l: Lit) -> LV
    decreases l,
{
    match l {
        Lit::Int(i) => LV::Int(i),
        Lit::Float(b) => LV::Float(b),
        Lit::Str(s) => LV::Str(s@),
        Lit::Bool(b) => LV::Bool(b),
        Lit::Nil => LV::Nil,
        Lit::Symbol(s) => LV::Symbol(s@),
        Lit::Pair(a, b) => LV::Pair(Box::new(lit_v(*a)), Box::new(lit_v(*b))),
    }
}

pub ghost enum CV {
    Literal(LV, Span),
    VarRef(Seq<char>, Seq<u32>, Span),
    App(Box<CV>, Seq<CV>, Span),
    If(Box<CV>, Box<CV>, Box<CV>, Span),
    Lambda(Seq<Seq<char>>, Seq<Seq<u32>>, Box<CV>, Span),
    SetBang(Seq<char>, Seq<u32>, Box<CV>, Span),
    Define(Seq<char>, Box<CV>, Span),
    Begin(Seq<CV>, Span),
    Module(Seq<char>, Seq<Seq<char>>, Seq<Seq<char>>, Seq<CV>, Span),
    Require(Seq<Capability>, Span),
}

pub open spec fn texts_v(v: Seq<String>) -> Seq<Seq<char>> {
    Seq::new(v.len(), |i: int| v[i]@)
}

pub open spec fn scopes_v(v: Seq<Vec<u32>>) -> Seq<Seq<u32>> {
    Seq::new(v.len(), |i: int| v[i]@)
}

pub open spec fn core_v(e: WireCore) -> CV
    decreases e,
{
    match e {
        WireCore::Literal { value, span } => CV::Literal(lit_v(value), span),
        WireCore::VarRef { name, scopes, span } => CV::VarRef(name@, scopes@, span),
        WireCore::App { fn_expr, args, span } => CV::App(Box::new(core_v(*fn_expr)), cores_v(args@), span),
        WireCore::If { cond, then_branch, else_branch, span } => CV::If(
            Box::new(core_v(*cond)),
            Box::new(core_v(*then_branch)),
            Box::new(core_v(*else_branch)),
            span,
        ),
        WireCore::Lambda { params, param_scopes, body, span } => CV::Lambda(
            texts_v(params@),
            scopes_v(param_scopes@),
            Box::new(core_v(*body)),
            span,
        ),
        WireCore::SetBang { name, scopes, value, span } => CV::SetBang(name@, scopes@, Box::new(core_v(*value)), span),
        WireCore::Define { name, value, span } => CV::Define(name@, Box::new(core_v(*value)), span),
        WireCore::Begin { body, span } => CV::Begin(cores_v(body@), span),
        WireCore::Module { name, imports, exports, body, span } => CV::Module(
            name@,
            texts_v(imports@),
            texts_v(exports@),
            cores_v(body@),
            span,
        ),
        WireCore::Require { caps, span } => CV::Require(caps@, span),
    }
}

pub open spec fn cores_v(es: Seq<WireCore>) -> Seq<CV>
    decreases es,
{
    if es.len() == 0 {
        Seq::empty()
    } else {
        cores_v(es.drop_last()).push(core_v(es.last()))
    }
}

pub proof fn lemma_cores_v_index(es: Seq<WireCore>)
    ensures
        cores_v(es).len() == es.len(),
        forall|k: int| 0 <= k < es.len() ==> #[trigger] cores_v(es)[k] == core_v(es[k]),
    decreases es.len(),
{
    if es.len() > 0 {
        lemma_cores_v_index(es.drop_last());
    }
}


// ---- decoding: the specification ----

/// An error raised while reading the wire values.
pub open spec fn reader_err(m: Seq<char>) -> Seq<char> {
    "[bootstrap] 自举 Reader 内部错误："@ + m
}

/// An error raised while rebuilding the expanded program.
pub open spec fn expander_err(m: Seq<char>) -> Seq<char> {
    "[bootstrap-exp] 自举 Expander 内部错误："@ + m
}

/// The number of pairs along a node's chain of second components: the
/// length of the list it starts (items after an improper tail are not read).
pub open spec fn count(n: NV) -> nat
    decreases n,
{
    match n.d {
        DV::Pair(_, b) => 1 + count(*b),
        _ => 0,
    }
}

pub open spec fn sym_of(n: NV) -> Result<Seq<char>, Seq<char>> {
    match n.d {
        DV::Sym(s) => Ok(s),
        _ => Err(reader_err("期望 symbol 字段，实际 "@ + n.t)),
    }
}

pub open spec fn int_of(n: NV) -> Result<i64, Seq<char>> {
    match n.d {
        DV::Int(i) => Ok(i),
        _ => Err(reader_err("期望 int 字段，实际 "@ + n.t)),
    }
}

pub open spec fn str_of(n: NV) -> Result<Seq<char>, Seq<char>> {
    match n.d {
        DV::Str(s) => Ok(s),
        _ => Err(reader_err("期望 str 字段，实际 "@ + n.t)),
    }
}

/// A scope set: the list's items as integers, each truncated to 32 bits.
pub open spec fn ints_of(c: NV) -> Result<Seq<u32>, Seq<char>>
    decreases c,
{
    match c.d {
        DV::Pair(a, b) => match int_of(*a) {
            Err(m) => Err(m),
            Ok(i) => match ints_of(*b) {
                Err(m) => Err(m),
                Ok(r) => Ok(seq![i as u32] + r),
            },
        },
        _ => Ok(Seq::empty()),
    }
}

/// A list of names.
pub open spec fn strs_of(c: NV) -> Result<Seq<Seq<char>>, Seq<char>>
    decreases c,
{
    match c.d {
        DV::Pair(a, b) => match str_of(*a) {
            Err(m) => Err(m),
            Ok(s) => match strs_of(*b) {
                Err(m) => Err(m),
                Ok(r) => Ok(seq![s] + r),
            },
        },
        _ => Ok(Seq::empty()),
    }
}

/// A list of scope sets.
pub open spec fn scopesets_of(c: NV) -> Result<Seq<Seq<u32>>, Seq<char>>
    decreases c,
{
    match c.d {
        DV::Pair(a, b) => match ints_of(*a) {
            Err(m) => Err(m),
            Ok(s) => match scopesets_of(*b) {
                Err(m) => Err(m),
                Ok(r) => Ok(seq![s] + r),
            },
        },
        _ => Ok(Seq::empty()),
    }
}

/// A capability by its wire name.
pub open spec fn cap_named(s: Seq<char>) -> Result<Capability, Seq<char>> {
    if s == "read"@ {
        Ok(Capability::IoRead)
    } else if s == "write"@ {
        Ok(Capability::IoWrite)
    } else {
        Err(expander_err("未知能力项「"@ + s + "」"@))
    }
}

pub open spec fn caps_of(c: NV) -> Result<Seq<Capability>, Seq<char>>
    decreases c,
{
    match c.d {
        DV::Pair(a, b) => match str_of(*a) {
            Err(m) => Err(m),
            Ok(s) => match cap_named(s) {
                Err(m) => Err(m),
                Ok(k) => match caps_of(*b) {
                    Err(m) => Err(m),
                    Ok(r) => Ok(seq![k] + r),
                },
            },
        },
        _ => Ok(Seq::empty()),
    }
}

/// A literal value, read as it stands.
pub open spec fn lit_of(n: NV) -> Result<LV, Seq<char>>
    decreases n,
{
    match n.d {
        DV::Int(i) => Ok(LV::Int(i)),
        DV::Float(b) => Ok(LV::Float(b)),
        DV::Str(s) => Ok(LV::Str(s)),
        DV::Bool(b) => Ok(LV::Bool(b)),
        DV::Nil => Ok(LV::Nil),
        DV::Sym(s) => Ok(LV::Symbol(s)),
        DV::Pair(a, b) => match lit_of(*a) {
            Err(m) => Err(m),
            Ok(x) => match lit_of(*b) {
                Err(m) => Err(m),
                Ok(y) => Ok(LV::Pair(Box::new(x), Box::new(y))),
            },
        },
        DV::Other => Err(expander_err("不支持的字面量值 "@ + n.t)),
    }
}

pub open spec fn missing() -> Seq<char> {
    expander_err("core 节点字段缺失"@)
}

/// An expanded expression read from its wire list `(tag start end
/// expansion field...)`, its spans in file `f`.
pub open spec fn dec(n: NV, f: FileId) -> Result<CV, Seq<char>>
    decreases n, 2nat,
{
    if count(n) < 4 {
        Err(expander_err("core 节点字段数异常"@))
    } else {
        match n.d {
            DV::Pair(c0, r1) => match r1.d {
                DV::Pair(c1, r2) => match r2.d {
                    DV::Pair(c2, r3) => match r3.d {
                        DV::Pair(c3, rest) => match sym_of(*c0) {
                            Err(m) => Err(m),
                            Ok(tag) => match int_of(*c1) {
                                Err(m) => Err(m),
                                Ok(s) => match int_of(*c2) {
                                    Err(m) => Err(m),
                                    Ok(e) => match int_of(*c3) {
                                        Err(m) => Err(m),
                                        Ok(x) => dec_fields(
                                            tag,
                                            Span { file_id: f, start: s as u32, end: e as u32, expansion_id: x as u32 },
                                            *rest,
                                            f,
                                        ),
                                    },
                                },
                            },
                        },
                        _ => Err(expander_err("core 节点字段数异常"@)),
                    },
                    _ => Err(expander_err("core 节点字段数异常"@)),
                },
                _ => Err(expander_err("core 节点字段数异常"@)),
            },
            _ => Err(expander_err("core 节点字段数异常"@)),
        }
    }
}

/// The expressions of a list, in order; the first error stops the reading.
pub open spec fn decs(c: NV, f: FileId) -> Result<Seq<CV>, Seq<char>>
    decreases c, 0nat,
{
    match c.d {
        DV::Pair(a, b) => match dec(*a, f) {
            Err(m) => Err(m),
            Ok(x) => match decs(*b, f) {
                Err(m) => Err(m),
                Ok(r) => Ok(seq![x] + r),
            },
        },
        _ => Ok(Seq::empty()),
    }
}

/// The fields after the header, read by the node's tag.
pub open spec fn dec_fields(tag: Seq<char>, sp: Span, rest: NV, f: FileId) -> Result<CV, Seq<char>>
    decreases rest, 1nat,
{
    if tag == "lit"@ {
        match rest.d {
            DV::Pair(v, _) => match lit_of(*v) {
                Err(m) => Err(m),
                Ok(l) => Ok(CV::Literal(l, sp)),
            },
            _ => Err(expander_err("lit 缺值"@)),
        }
    } else if tag == "var"@ {
        match rest.d {
            DV::Pair(a, r) => match str_of(*a) {
                Err(m) => Err(m),
                Ok(name) => match r.d {
                    DV::Pair(b, _) => match ints_of(*b) {
                        Err(m) => Err(m),
                        Ok(sc) => Ok(CV::VarRef(name, sc, sp)),
                    },
                    _ => Err(missing()),
                },
            },
            _ => Err(missing()),
        }
    } else if tag == "app"@ {
        match rest.d {
            DV::Pair(a, r) => match dec(*a, f) {
                Err(m) => Err(m),
                Ok(fe) => match decs(*r, f) {
                    Err(m) => Err(m),
                    Ok(args) => Ok(CV::App(Box::new(fe), args, sp)),
                },
            },
            _ => Err(missing()),
        }
    } else if tag == "if"@ {
        if count(rest) != 3 {
            Err(expander_err("if 节点字段数异常"@))
        } else {
            match rest.d {
                DV::Pair(a, r1) => match r1.d {
                    DV::Pair(b, r2) => match r2.d {
                        DV::Pair(c, _) => match dec(*a, f) {
                            Err(m) => Err(m),
                            Ok(x) => match dec(*b, f) {
                                Err(m) => Err(m),
                                Ok(y) => match dec(*c, f) {
                                    Err(m) => Err(m),
                                    Ok(z) => Ok(CV::If(Box::new(x), Box::new(y), Box::new(z), sp)),
                                },
                            },
                        },
                        _ => Err(missing()),
                    },
                    _ => Err(missing()),
                },
                _ => Err(missing()),
            }
        }
    } else if tag == "lambda"@ {
        if count(rest) != 3 {
            Err(expander_err("lambda 节点字段数异常"@))
        } else {
            match rest.d {
                DV::Pair(a, r1) => match r1.d {
                    DV::Pair(b, r2) => match r2.d {
                        DV::Pair(c, _) => match strs_of(*a) {
                            Err(m) => Err(m),
                            Ok(ps) => match scopesets_of(*b) {
                                Err(m) => Err(m),
                                Ok(pss) => match dec(*c, f) {
                                    Err(m) => Err(m),
                                    Ok(body) => Ok(CV::Lambda(ps, pss, Box::new(body), sp)),
                                },
                            },
                        },
                        _ => Err(missing()),
                    },
                    _ => Err(missing()),
                },
                _ => Err(missing()),
            }
        }
    } else if tag == "set"@ {
        if count(rest) != 3 {
            Err(expander_err("set 节点字段数异常"@))
        } else {
            match rest.d {
                DV::Pair(a, r1) => match r1.d {
                    DV::Pair(b, r2) => match r2.d {
                        DV::Pair(c, _) => match str_of(*a) {
                            Err(m) => Err(m),
                            Ok(name) => match ints_of(*b) {
                                Err(m) => Err(m),
                                Ok(sc) => match dec(*c, f) {
                                    Err(m) => Err(m),
                                    Ok(v) => Ok(CV::SetBang(name, sc, Box::new(v), sp)),
                                },
                            },
                        },
                        _ => Err(missing()),
                    },
                    _ => Err(missing()),
                },
                _ => Err(missing()),
            }
        }
    } else if tag == "define"@ {
        if count(rest) != 2 {
            Err(expander_err("define 节点字段数异常"@))
        } else {
            match rest.d {
                DV::Pair(a, r1) => match r1.d {
                    DV::Pair(b, _) => match str_of(*a) {
                        Err(m) => Err(m),
                        Ok(name) => match dec(*b, f) {
                            Err(m) => Err(m),
                            Ok(v) => Ok(CV::Define(name, Box::new(v), sp)),
                        },
                    },
                    _ => Err(missing()),
                },
                _ => Err(missing()),
            }
        }
    } else if tag == "begin"@ {
        match decs(rest, f) {
            Err(m) => Err(m),
            Ok(body) => Ok(CV::Begin(body, sp)),
        }
    } else if tag == "module"@ {
        if count(rest) < 3 {
            Err(expander_err("module 节点字段数异常"@))
        } else {
            match rest.d {
                DV::Pair(a, r1) => match r1.d {
                    DV::Pair(b, r2) => match r2.d {
                        DV::Pair(c, r3) => match str_of(*a) {
                            Err(m) => Err(m),
                            Ok(name) => match strs_of(*b) {
                                Err(m) => Err(m),
                                Ok(imps) => match strs_of(*c) {
                                    Err(m) => Err(m),
                                    Ok(exps) => match decs(*r3, f) {
                                        Err(m) => Err(m),
                                        Ok(body) => Ok(CV::Module(name, imps, exps, body, sp)),
                                    },
                                },
                            },
                        },
                        _ => Err(missing()),
                    },
                    _ => Err(missing()),
                },
                _ => Err(missing()),
            }
        }
    } else if tag == "require"@ {
        match caps_of(rest) {
            Err(m) => Err(m),
            Ok(caps) => Ok(CV::Require(caps, sp)),
        }
    } else {
        Err(expander_err("未知 core 节点种类 '"@ + tag + "'"@))
    }
}


// ---- decoding ----

pub open spec fn txt_r(r: Result<String, String>) -> Result<Seq<char>, Seq<char>> {
    match r {
        Ok(x) => Ok(x@),
        Err(m) => Err(m@),
    }
}

pub open spec fn int_r(r: Result<i64, String>) -> Result<i64, Seq<char>> {
    match r {
        Ok(x) => Ok(x),
        Err(m) => Err(m@),
    }
}

pub open spec fn ints_r(r: Result<Vec<u32>, String>) -> Result<Seq<u32>, Seq<char>> {
    match r {
        Ok(x) => Ok(x@),
        Err(m) => Err(m@),
    }
}

pub open spec fn txts_r(r: Result<Vec<String>, String>) -> Result<Seq<Seq<char>>, Seq<char>> {
    match r {
        Ok(x) => Ok(texts_v(x@)),
        Err(m) => Err(m@),
    }
}

pub open spec fn scopes_r(r: Result<Vec<Vec<u32>>, String>) -> Result<Seq<Seq<u32>>, Seq<char>> {
    match r {
        Ok(x) => Ok(scopes_v(x@)),
        Err(m) => Err(m@),
    }
}

pub open spec fn caps_r(r: Result<Vec<Capability>, String>) -> Result<Seq<Capability>, Seq<char>> {
    match r {
        Ok(x) => Ok(x@),
        Err(m) => Err(m@),
    }
}

pub open spec fn lit_r(r: Result<Lit, String>) -> Result<LV, Seq<char>> {
    match r {
        Ok(x) => Ok(lit_v(x)),
        Err(m) => Err(m@),
    }
}

pub open spec fn core_r(r: Result<WireCore, String>) -> Result<CV, Seq<char>> {
    match r {
        Ok(x) => Ok(core_v(x)),
        Err(m) => Err(m@),
    }
}

pub open spec fn cores_r(r: Result<Vec<WireCore>, String>) -> Result<Seq<CV>, Seq<char>> {
    match r {
        Ok(x) => Ok(cores_v(x@)),
        Err(m) => Err(m@),
    }
}

fn reader_msg(what: &str, n: &Node) -> (s: String)
    ensures
        s@ == reader_err(what@ + n.kind@),
{
    let mut s = string_of("[bootstrap] 自举 Reader 内部错误：");
    push_str(&mut s, what);
    push_str(&mut s, n.kind.as_str());
    proof {
        assert(s@ =~= reader_err(what@ + n.kind@));
    }
    s
}

fn expander_msg(m: &str) -> (s: String)
    ensures
        s@ == expander_err(m@),
{
    let mut s = string_of("[bootstrap-exp] 自举 Expander 内部错误：");
    push_str(&mut s, m);
    s
}

fn expander_msg2(a: &str, x: &str) -> (s: String)
    ensures
        s@ == expander_err(a@ + x@),
{
    let mut s = string_of("[bootstrap-exp] 自举 Expander 内部错误：");
    push_str(&mut s, a);
    push_str(&mut s, x);
    proof {
        assert(s@ =~= expander_err(a@ + x@));
    }
    s
}

fn expander_msg3(a: &str, x: &str, b: &str) -> (s: String)
    ensures
        s@ == expander_err(a@ + x@ + b@),
{
    let mut s = string_of("[bootstrap-exp] 自举 Expander 内部错误：");
    push_str(&mut s, a);
    push_str(&mut s, x);
    push_str(&mut s, b);
    proof {
        assert(s@ =~= expander_err(a@ + x@ + b@));
    }
    s
}

/// Whether the node's list has at least `k` items.
fn count_at_least(n: &Node, k: usize) -> (r: bool)
    ensures
        r == (count(node_v(*n)) >= k),
    decreases k,
{
    if k == 0 {
        return true;
    }
    match &n.datum {
        NodeDatum::Pair(_, b) => count_at_least(b, k - 1),
        _ => false,
    }
}

/// Whether the node's list has exactly `k` items.
fn count_is(n: &Node, k: usize) -> (r: bool)
    requires
        k < usize::MAX,
    ensures
        r == (count(node_v(*n)) == k),
{
    count_at_least(n, k) && !count_at_least(n, k + 1)
}

fn sym_field(n: &Node) -> (r: Result<String, String>)
    ensures
        txt_r(r) == sym_of(node_v(*n)),
{
    match &n.datum {
        NodeDatum::Sym(s) => Ok(s.clone()),
        _ => Err(reader_msg("期望 symbol 字段，实际 ", n)),
    }
}

fn int_field(n: &Node) -> (r: Result<i64, String>)
    ensures
        int_r(r) == int_of(node_v(*n)),
{
    match &n.datum {
        NodeDatum::Int(i) => Ok(*i),
        _ => Err(reader_msg("期望 int 字段，实际 ", n)),
    }
}

fn str_field(n: &Node) -> (r: Result<String, String>)
    ensures
        txt_r(r) == str_of(node_v(*n)),
{
    match &n.datum {
        NodeDatum::Str(s) => Ok(s.clone()),
        _ => Err(reader_msg("期望 str 字段，实际 ", n)),
    }
}

fn scope_ids(c: &Node) -> (r: Result<Vec<u32>, String>)
    ensures
        ints_r(r) == ints_of(node_v(*c)),
    decreases c,
{
    match &c.datum {
        NodeDatum::Pair(a, b) => {
            let i = match int_field(a) {
                Err(m) => return Err(m),
                Ok(i) => i,
            };
            let mut rest = match scope_ids(b) {
                Err(m) => return Err(m),
                Ok(r) => r,
            };
            #[verifier::truncate]
            let id: u32 = i as u32;
            let ghost old_rest = rest@;
            rest.insert(0, id);
            proof {
                assert(rest@ =~= seq![i as u32] + old_rest);
            }
            Ok(rest)
        },
        _ => Ok(Vec::new()),
    }
}

fn name_list(c: &Node) -> (r: Result<Vec<String>, String>)
    ensures
        txts_r(r) == strs_of(node_v(*c)),
    decreases c,
{
    match &c.datum {
        NodeDatum::Pair(a, b) => {
            let s = match str_field(a) {
                Err(m) => return Err(m),
                Ok(s) => s,
            };
            let mut rest = match name_list(b) {
                Err(m) => return Err(m),
                Ok(r) => r,
            };
            let ghost old_rest = rest@;
            rest.insert(0, s);
            proof {
                assert(texts_v(rest@) =~= seq![s@] + texts_v(old_rest));
            }
            Ok(rest)
        },
        _ => {
            let v: Vec<String> = Vec::new();
            proof {
                assert(texts_v(v@) =~= Seq::<Seq<char>>::empty());
            }
            Ok(v)
        },
    }
}

fn scope_set_list(c: &Node) -> (r: Result<Vec<Vec<u32>>, String>)
    ensures
        scopes_r(r) == scopesets_of(node_v(*c)),
    decreases c,
{
    match &c.datum {
        NodeDatum::Pair(a, b) => {
            let s = match scope_ids(a) {
                Err(m) => return Err(m),
                Ok(s) => s,
            };
            let mut rest = match scope_set_list(b) {
                Err(m) => return Err(m),
                Ok(r) => r,
            };
            let ghost old_rest = rest@;
            rest.insert(0, s);
            proof {
                assert(scopes_v(rest@) =~= seq![s@] + scopes_v(old_rest));
            }
            Ok(rest)
        },
        _ => {
            let v: Vec<Vec<u32>> = Vec::new();
            proof {
                assert(scopes_v(v@) =~= Seq::<Seq<u32>>::empty());
            }
            Ok(v)
        },
    }
}

fn capability_list(c: &Node) -> (r: Result<Vec<Capability>, String>)
    ensures
        caps_r(r) == caps_of(node_v(*c)),
    decreases c,
{
    match &c.datum {
        NodeDatum::Pair(a, b) => {
            let s = match str_field(a) {
                Err(m) => return Err(m),
                Ok(s) => s,
            };
            let k = if same_text(s.as_str(), "read") {
                Capability::IoRead
            } else if same_text(s.as_str(), "write") {
                Capability::IoWrite
            } else {
                return Err(expander_msg3("未知能力项「", s.as_str(), "」"));
            };
            let mut rest = match capability_list(b) {
                Err(m) => return Err(m),
                Ok(r) => r,
            };
            let ghost old_rest = rest@;
            rest.insert(0, k);
            proof {
                assert(rest@ =~= seq![k] + old_rest);
            }
            Ok(rest)
        },
        _ => Ok(Vec::new()),
    }
}

fn literal_of(n: &Node) -> (r: Result<Lit, String>)
    ensures
        lit_r(r) == lit_of(node_v(*n)),
    decreases n,
{
    match &n.datum {
        NodeDatum::Int(i) => Ok(Lit::Int(*i)),
        NodeDatum::Float(b) => Ok(Lit::Float(*b)),
        NodeDatum::Str(s) => Ok(Lit::Str(s.clone())),
        NodeDatum::Bool(b) => Ok(Lit::Bool(*b)),
        NodeDatum::Nil => Ok(Lit::Nil),
        NodeDatum::Sym(s) => Ok(Lit::Symbol(s.clone())),
        NodeDatum::Pair(a, b) => {
            let x = match literal_of(a) {
                Err(m) => return Err(m),
                Ok(x) => x,
            };
            let y = match literal_of(b) {
                Err(m) => return Err(m),
                Ok(y) => y,
            };
            Ok(Lit::Pair(Box::new(x), Box::new(y)))
        },
        NodeDatum::Other => Err(expander_msg2("不支持的字面量值 ", n.kind.as_str())),
    }
}


/// Reads an expanded expression from its wire list `(tag start end
/// expansion field...)`, putting its spans in file `file_id`; the error is
/// the message of the first fault met, in reading order.
pub fn core_from_node(n: &Node, file_id: FileId) -> (r: Result<WireCore, String>)
    ensures
        core_r(r) == dec(node_v(*n), file_id),
    decreases n, 2nat,
{
    if !count_at_least(n, 4) {
        return Err(expander_msg("core 节点字段数异常"));
    }
    match &n.datum {
        NodeDatum::Pair(c0, r1) => match &r1.datum {
            NodeDatum::Pair(c1, r2) => match &r2.datum {
                NodeDatum::Pair(c2, r3) => match &r3.datum {
                    NodeDatum::Pair(c3, rest) => {
                        proof {
                            assert(node_v(*n).d == DV::Pair(Box::new(node_v(**c0)), Box::new(node_v(**r1))));
                            assert(node_v(**r1).d == DV::Pair(Box::new(node_v(**c1)), Box::new(node_v(**r2))));
                            assert(node_v(**r2).d == DV::Pair(Box::new(node_v(**c2)), Box::new(node_v(**r3))));
                            assert(node_v(**r3).d == DV::Pair(Box::new(node_v(**c3)), Box::new(node_v(**rest))));
                        }
                        let tag = match sym_field(c0) {
                            Err(m) => return Err(m),
                            Ok(t) => t,
                        };
                        let s = match int_field(c1) {
                            Err(m) => return Err(m),
                            Ok(v) => v,
                        };
                        let e = match int_field(c2) {
                            Err(m) => return Err(m),
                            Ok(v) => v,
                        };
                        let x = match int_field(c3) {
                            Err(m) => return Err(m),
                            Ok(v) => v,
                        };
                        #[verifier::truncate]
                        let start: u32 = s as u32;
                        #[verifier::truncate]
                        let end: u32 = e as u32;
                        #[verifier::truncate]
                        let expansion_id: u32 = x as u32;
                        let sp = Span { file_id, start, end, expansion_id };
                        core_fields(&tag, sp, rest, file_id)
                    },
                    _ => Err(expander_msg("core 节点字段数异常")),
                },
                _ => Err(expander_msg("core 节点字段数异常")),
            },
            _ => Err(expander_msg("core 节点字段数异常")),
        },
        _ => Err(expander_msg("core 节点字段数异常")),
    }
}

/// Reads the expressions of a list, in order.
pub fn core_list(c: &Node, file_id: FileId) -> (r: Result<Vec<WireCore>, String>)
    ensures
        cores_r(r) == decs(node_v(*c), file_id),
    decreases c, 0nat,
{
    match &c.datum {
        NodeDatum::Pair(a, b) => {
            let x = match core_from_node(a, file_id) {
                Err(m) => return Err(m),
                Ok(x) => x,
            };
            let mut rest = match core_list(b, file_id) {
                Err(m) => return Err(m),
                Ok(r) => r,
            };
            let ghost old_rest = rest@;
            let ghost xv = core_v(x);
            rest.insert(0, x);
            proof {
                lemma_cores_v_index(rest@);
                lemma_cores_v_index(old_rest);
                assert(cores_v(rest@) =~= seq![xv] + cores_v(old_rest));
            }
            Ok(rest)
        },
        _ => {
            let v: Vec<WireCore> = Vec::new();
            proof {
                assert(cores_v(v@) =~= Seq::<CV>::empty());
            }
            Ok(v)
        },
    }
}

fn missing_field() -> (s: String)
    ensures
        s@ == missing(),
{
    expander_msg("core 节点字段缺失")
}

/// Reads the fields that follow a node's header, by its tag.
#[verifier::rlimit(60)]
#[verifier::spinoff_prover]
fn core_fields(tag: &String, sp: Span, rest: &Node, f: FileId) -> (r: Result<WireCore, String>)
    ensures
        core_r(r) == dec_fields(tag@, sp, node_v(*rest), f),
    decreases rest, 1nat,
{
    let t = tag.as_str();
    if same_text(t, "lit") {
        match &rest.datum {
            NodeDatum::Pair(v, r) => {
                proof {
                    assert(node_v(*rest).d == DV::Pair(Box::new(node_v(**v)), Box::new(node_v(**r))));
                }
                match literal_of(v) {
                    Err(m) => Err(m),
                    Ok(l) => Ok(WireCore::Literal { value: l, span: sp }),
                }
            },
            _ => Err(expander_msg("lit 缺值")),
        }
    } else if same_text(t, "var") {
        match &rest.datum {
            NodeDatum::Pair(a, r) => {
                proof {
                    assert(node_v(*rest).d == DV::Pair(Box::new(node_v(**a)), Box::new(node_v(**r))));
                }
                match str_field(a) {
                    Err(m) => Err(m),
                    Ok(name) => match &r.datum {
                        NodeDatum::Pair(b, r2) => {
                            proof {
                                assert(node_v(**r).d == DV::Pair(Box::new(node_v(**b)), Box::new(node_v(**r2))));
                            }
                            match scope_ids(b) {
                                Err(m) => Err(m),
                                Ok(scopes) => Ok(WireCore::VarRef { name, scopes, span: sp }),
                            }
                        },
                        _ => Err(missing_field()),
                    },
                }
            },
            _ => Err(missing_field()),
        }
    } else if same_text(t, "app") {
        match &rest.datum {
            NodeDatum::Pair(a, r) => {
                proof {
                    assert(node_v(*rest).d == DV::Pair(Box::new(node_v(**a)), Box::new(node_v(**r))));
                }
                match core_from_node(a, f) {
                    Err(m) => Err(m),
                    Ok(fe) => match core_list(r, f) {
                        Err(m) => Err(m),
                        Ok(args) => Ok(WireCore::App { fn_expr: Box::new(fe), args, span: sp }),
                    },
                }
            },
            _ => Err(missing_field()),
        }
    } else if same_text(t, "if") {
        if !count_is(rest, 3) {
            return Err(expander_msg("if 节点字段数异常"));
        }
        match &rest.datum {
            NodeDatum::Pair(a, r1) => match &r1.datum {
                NodeDatum::Pair(b, r2) => match &r2.datum {
                    NodeDatum::Pair(c, r3) => {
                        proof {
                            assert(node_v(*rest).d == DV::Pair(Box::new(node_v(**a)), Box::new(node_v(**r1))));
                            assert(node_v(**r1).d == DV::Pair(Box::new(node_v(**b)), Box::new(node_v(**r2))));
                            assert(node_v(**r2).d == DV::Pair(Box::new(node_v(**c)), Box::new(node_v(**r3))));
                        }
                        let x = match core_from_node(a, f) {
                            Err(m) => return Err(m),
                            Ok(x) => x,
                        };
                        let y = match core_from_node(b, f) {
                            Err(m) => return Err(m),
                            Ok(y) => y,
                        };
                        let z = match core_from_node(c, f) {
                            Err(m) => return Err(m),
                            Ok(z) => z,
                        };
                        Ok(WireCore::If {
                            cond: Box::new(x),
                            then_branch: Box::new(y),
                            else_branch: Box::new(z),
                            span: sp,
                        })
                    },
                    _ => Err(missing_field()),
                },
                _ => Err(missing_field()),
            },
            _ => Err(missing_field()),
        }
    } else if same_text(t, "lambda") {
        if !count_is(rest, 3) {
            return Err(expander_msg("lambda 节点字段数异常"));
        }
        match &rest.datum {
            NodeDatum::Pair(a, r1) => match &r1.datum {
                NodeDatum::Pair(b, r2) => match &r2.datum {
                    NodeDatum::Pair(c, r3) => {
                        proof {
                            assert(node_v(*rest).d == DV::Pair(Box::new(node_v(**a)), Box::new(node_v(**r1))));
                            assert(node_v(**r1).d == DV::Pair(Box::new(node_v(**b)), Box::new(node_v(**r2))));
                            assert(node_v(**r2).d == DV::Pair(Box::new(node_v(**c)), Box::new(node_v(**r3))));
                        }
                        let params = match name_list(a) {
                            Err(m) => return Err(m),
                            Ok(p) => p,
                        };
                        let param_scopes = match scope_set_list(b) {
                            Err(m) => return Err(m),
                            Ok(p) => p,
                        };
                        let body = match core_from_node(c, f) {
                            Err(m) => return Err(m),
                            Ok(x) => x,
                        };
                        Ok(WireCore::Lambda { params, param_scopes, body: Box::new(body), span: sp })
                    },
                    _ => Err(missing_field()),
                },
                _ => Err(missing_field()),
            },
            _ => Err(missing_field()),
        }
    } else if same_text(t, "set") {
        if !count_is(rest, 3) {
            return Err(expander_msg("set 节点字段数异常"));
        }
        match &rest.datum {
            NodeDatum::Pair(a, r1) => match &r1.datum {
                NodeDatum::Pair(b, r2) => match &r2.datum {
                    NodeDatum::Pair(c, r3) => {
                        proof {
                            assert(node_v(*rest).d == DV::Pair(Box::new(node_v(**a)), Box::new(node_v(**r1))));
                            assert(node_v(**r1).d == DV::Pair(Box::new(node_v(**b)), Box::new(node_v(**r2))));
                            assert(node_v(**r2).d == DV::Pair(Box::new(node_v(**c)), Box::new(node_v(**r3))));
                        }
                        let name = match str_field(a) {
                            Err(m) => return Err(m),
                            Ok(x) => x,
                        };
                        let scopes = match scope_ids(b) {
                            Err(m) => return Err(m),
                            Ok(x) => x,
                        };
                        let value = match core_from_node(c, f) {
                            Err(m) => return Err(m),
                            Ok(x) => x,
                        };
                        Ok(WireCore::SetBang { name, scopes, value: Box::new(value), span: sp })
                    },
                    _ => Err(missing_field()),
                },
                _ => Err(missing_field()),
            },
            _ => Err(missing_field()),
        }
    } else if same_text(t, "define") {
        if !count_is(rest, 2) {
            return Err(expander_msg("define 节点字段数异常"));
        }
        match &rest.datum {
            NodeDatum::Pair(a, r1) => match &r1.datum {
                NodeDatum::Pair(b, r2) => {
                    proof {
                        assert(node_v(*rest).d == DV::Pair(Box::new(node_v(**a)), Box::new(node_v(**r1))));
                        assert(node_v(**r1).d == DV::Pair(Box::new(node_v(**b)), Box::new(node_v(**r2))));
                    }
                    let name = match str_field(a) {
                        Err(m) => return Err(m),
                        Ok(x) => x,
                    };
                    let value = match core_from_node(b, f) {
                        Err(m) => return Err(m),
                        Ok(x) => x,
                    };
                    Ok(WireCore::Define { name, value: Box::new(value), span: sp })
                },
                _ => Err(missing_field()),
            },
            _ => Err(missing_field()),
        }
    } else if same_text(t, "begin") {
        match core_list(rest, f) {
            Err(m) => Err(m),
            Ok(body) => Ok(WireCore::Begin { body, span: sp }),
        }
    } else if same_text(t, "module") {
        if !count_at_least(rest, 3) {
            return Err(expander_msg("module 节点字段数异常"));
        }
        match &rest.datum {
            NodeDatum::Pair(a, r1) => match &r1.datum {
                NodeDatum::Pair(b, r2) => match &r2.datum {
                    NodeDatum::Pair(c, r3) => {
                        proof {
                            assert(node_v(*rest).d == DV::Pair(Box::new(node_v(**a)), Box::new(node_v(**r1))));
                            assert(node_v(**r1).d == DV::Pair(Box::new(node_v(**b)), Box::new(node_v(**r2))));
                            assert(node_v(**r2).d == DV::Pair(Box::new(node_v(**c)), Box::new(node_v(**r3))));
                        }
                        let name = match str_field(a) {
                            Err(m) => return Err(m),
                            Ok(x) => x,
                        };
                        let imports = match name_list(b) {
                            Err(m) => return Err(m),
                            Ok(x) => x,
                        };
                        let exports = match name_list(c) {
                            Err(m) => return Err(m),
                            Ok(x) => x,
                        };
                        let body = match core_list(r3, f) {
                            Err(m) => return Err(m),
                            Ok(x) => x,
                        };
                        Ok(WireCore::Module { name, imports, exports, body, span: sp })
                    },
                    _ => Err(missing_field()),
                },
                _ => Err(missing_field()),
            },
            _ => Err(missing_field()),
        }
    } else if same_text(t, "require") {
        match capability_list(rest) {
            Err(m) => Err(m),
            Ok(caps) => Ok(WireCore::Require { caps, span: sp }),
        }
    } else {
        Err(expander_msg3("未知 core 节点种类 '", t, "'"))
    }
}


// ---- encoding: the specification ----

/// The values that the encoder makes carry no type name.
pub open spec fn plain(d: DV) -> NV {
    NV { d, t: Seq::empty() }
}

pub open spec fn nil_v() -> NV {
    plain(DV::Nil)
}

pub open spec fn cons(a: NV, b: NV) -> NV {
    plain(DV::Pair(Box::new(a), Box::new(b)))
}

/// A node's header: its tag, then its span's start, end and expansion.
pub open spec fn header(tag: Seq<char>, sp: Span, rest: NV) -> NV {
    cons(
        plain(DV::Sym(tag)),
        cons(
            plain(DV::Int(sp.start as i64)),
            cons(plain(DV::Int(sp.end as i64)), cons(plain(DV::Int(sp.expansion_id as i64)), rest)),
        ),
    )
}

pub open spec fn int_list(s: Seq<u32>) -> NV
    decreases s.len(),
{
    if s.len() == 0 {
        nil_v()
    } else {
        cons(plain(DV::Int(s[0] as i64)), int_list(s.drop_first()))
    }
}

pub open spec fn str_list(s: Seq<Seq<char>>) -> NV
    decreases s.len(),
{
    if s.len() == 0 {
        nil_v()
    } else {
        cons(plain(DV::Str(s[0])), str_list(s.drop_first()))
    }
}

pub open spec fn scopes_list(s: Seq<Seq<u32>>) -> NV
    decreases s.len(),
{
    if s.len() == 0 {
        nil_v()
    } else {
        cons(int_list(s[0]), scopes_list(s.drop_first()))
    }
}

pub open spec fn cap_name(c: Capability) -> Seq<char> {
    match c {
        Capability::IoRead => "read"@,
        Capability::IoWrite => "write"@,
    }
}

pub open spec fn cap_list(s: Seq<Capability>) -> NV
    decreases s.len(),
{
    if s.len() == 0 {
        nil_v()
    } else {
        cons(plain(DV::Str(cap_name(s[0]))), cap_list(s.drop_first()))
    }
}

/// A literal as the compiler reads it: a list tagged by the literal's kind.
pub open spec fn lit_node(l: LV) -> NV
    decreases l,
{
    match l {
        LV::Int(i) => cons(plain(DV::Sym("int"@)), cons(plain(DV::Int(i)), nil_v())),
        LV::Float(b) => cons(plain(DV::Sym("float"@)), cons(plain(DV::Float(b)), nil_v())),
        LV::Str(s) => cons(plain(DV::Sym("str"@)), cons(plain(DV::Str(s)), nil_v())),
        LV::Bool(b) => cons(plain(DV::Sym(if b { "true"@ } else { "false"@ })), nil_v()),
        LV::Nil => cons(plain(DV::Sym("nil"@)), nil_v()),
        LV::Symbol(s) => cons(plain(DV::Sym("sym"@)), cons(plain(DV::Str(s)), nil_v())),
        LV::Pair(a, b) => cons(plain(DV::Sym("pair"@)), cons(lit_node(*a), cons(lit_node(*b), nil_v()))),
    }
}

/// The wire list of an expanded expression.
pub open spec fn enc(e: CV) -> NV
    decreases e,
{
    match e {
        CV::Literal(l, sp) => header("lit"@, sp, cons(lit_node(l), nil_v())),
        CV::VarRef(n, sc, sp) => header("var"@, sp, cons(plain(DV::Str(n)), cons(int_list(sc), nil_v()))),
        CV::App(fe, args, sp) => header("app"@, sp, cons(enc(*fe), enc_list(args))),
        CV::If(c, t, x, sp) => header("if"@, sp, cons(enc(*c), cons(enc(*t), cons(enc(*x), nil_v())))),
        CV::Lambda(ps, pss, body, sp) => header(
            "lambda"@,
            sp,
            cons(str_list(ps), cons(scopes_list(pss), cons(enc(*body), nil_v()))),
        ),
        CV::SetBang(n, sc, v, sp) => header(
            "set"@,
            sp,
            cons(plain(DV::Str(n)), cons(int_list(sc), cons(enc(*v), nil_v()))),
        ),
        CV::Define(n, v, sp) => header("define"@, sp, cons(plain(DV::Str(n)), cons(enc(*v), nil_v()))),
        CV::Begin(body, sp) => header("begin"@, sp, enc_list(body)),
        CV::Module(n, im, ex, body, sp) => header(
            "module"@,
            sp,
            cons(plain(DV::Str(n)), cons(str_list(im), cons(str_list(ex), enc_list(body)))),
        ),
        CV::Require(caps, sp) => header("require"@, sp, cap_list(caps)),
    }
}

/// The wire lists of expressions, as one list.
pub open spec fn enc_list(s: Seq<CV>) -> NV
    decreases s,
{
    if s.len() == 0 {
        nil_v()
    } else {
        proof {
            assert(decreases_to!(s => s.subrange(1, s.len() as int)));
        }
        cons(enc(s[0]), enc_list(s.subrange(1, s.len() as int)))
    }
}


// ---- encoding ----

fn plain_node(d: NodeDatum) -> (n: Node)
    ensures
        n.datum == d,
        n.kind@ == Seq::<char>::empty(),
{
    Node { datum: d, kind: String::new() }
}

fn nil_node() -> (n: Node)
    ensures
        node_v(n) == nil_v(),
{
    plain_node(NodeDatum::Nil)
}

fn cons_node(a: Node, b: Node) -> (n: Node)
    ensures
        node_v(n) == cons(node_v(a), node_v(b)),
{
    plain_node(NodeDatum::Pair(Box::new(a), Box::new(b)))
}

fn sym_node(s: &str) -> (n: Node)
    ensures
        node_v(n) == plain(DV::Sym(s@)),
{
    plain_node(NodeDatum::Sym(string_of(s)))
}

fn int_node(i: i64) -> (n: Node)
    ensures
        node_v(n) == plain(DV::Int(i)),
{
    plain_node(NodeDatum::Int(i))
}

fn str_node(s: &str) -> (n: Node)
    ensures
        node_v(n) == plain(DV::Str(s@)),
{
    plain_node(NodeDatum::Str(string_of(s)))
}

fn header_node(tag: &str, sp: Span, rest: Node) -> (n: Node)
    ensures
        node_v(n) == header(tag@, sp, node_v(rest)),
{
    let x = cons_node(int_node(sp.expansion_id as i64), rest);
    let e = cons_node(int_node(sp.end as i64), x);
    let s = cons_node(int_node(sp.start as i64), e);
    cons_node(sym_node(tag), s)
}

fn int_list_node(v: &Vec<u32>, i: usize) -> (n: Node)
    requires
        i <= v.len(),
    ensures
        node_v(n) == int_list(v@.subrange(i as int, v.len() as int)),
    decreases v.len() - i,
{
    if i == v.len() {
        return nil_node();
    }
    let rest = int_list_node(v, i + 1);
    proof {
        assert(v@.subrange(i as int, v.len() as int).drop_first() =~= v@.subrange(i + 1, v.len() as int));
    }
    cons_node(int_node(v[i] as i64), rest)
}

fn str_list_node(v: &Vec<String>, i: usize) -> (n: Node)
    requires
        i <= v.len(),
    ensures
        node_v(n) == str_list(texts_v(v@).subrange(i as int, v.len() as int)),
    decreases v.len() - i,
{
    if i == v.len() {
        return nil_node();
    }
    let rest = str_list_node(v, i + 1);
    proof {
        assert(texts_v(v@).subrange(i as int, v.len() as int).drop_first() =~= texts_v(v@).subrange(
            i + 1,
            v.len() as int,
        ));
    }
    cons_node(str_node(v[i].as_str()), rest)
}

fn scopes_list_node(v: &Vec<Vec<u32>>, i: usize) -> (n: Node)
    requires
        i <= v.len(),
    ensures
        node_v(n) == scopes_list(scopes_v(v@).subrange(i as int, v.len() as int)),
    decreases v.len() - i,
{
    if i == v.len() {
        return nil_node();
    }
    let rest = scopes_list_node(v, i + 1);
    let head = int_list_node(&v[i], 0);
    proof {
        assert(scopes_v(v@).subrange(i as int, v.len() as int).drop_first() =~= scopes_v(v@).subrange(
            i + 1,
            v.len() as int,
        ));
        assert(v@[i as int]@.subrange(0, v@[i as int]@.len() as int) =~= v@[i as int]@);
    }
    cons_node(head, rest)
}

fn cap_list_node(v: &Vec<Capability>, i: usize) -> (n: Node)
    requires
        i <= v.len(),
    ensures
        node_v(n) == cap_list(v@.subrange(i as int, v.len() as int)),
    decreases v.len() - i,
{
    if i == v.len() {
        return nil_node();
    }
    let rest = cap_list_node(v, i + 1);
    proof {
        assert(v@.subrange(i as int, v.len() as int).drop_first() =~= v@.subrange(i + 1, v.len() as int));
    }
    let name = match v[i] {
        Capability::IoRead => str_node("read"),
        Capability::IoWrite => str_node("write"),
    };
    cons_node(name, rest)
}

/// A literal as the compiler reads it.
pub fn literal_node(l: &Lit) -> (n: Node)
    ensures
        node_v(n) == lit_node(lit_v(*l)),
    decreases l,
{
    match l {
        Lit::Int(i) => cons_node(sym_node("int"), cons_node(int_node(*i), nil_node())),
        Lit::Float(b) => cons_node(sym_node("float"), cons_node(plain_node(NodeDatum::Float(*b)), nil_node())),
        Lit::Str(s) => cons_node(sym_node("str"), cons_node(str_node(s.as_str()), nil_node())),
        Lit::Bool(b) => {
            if *b {
                cons_node(sym_node("true"), nil_node())
            } else {
                cons_node(sym_node("false"), nil_node())
            }
        },
        Lit::Nil => cons_node(sym_node("nil"), nil_node()),
        Lit::Symbol(s) => cons_node(sym_node("sym"), cons_node(str_node(s.as_str()), nil_node())),
        Lit::Pair(a, b) => {
            let x = literal_node(a);
            let y = literal_node(b);
            cons_node(sym_node("pair"), cons_node(x, cons_node(y, nil_node())))
        },
    }
}

/// Writes an expanded expression as its wire list, for the compiler.
pub fn core_to_node(e: &WireCore) -> (n: Node)
    ensures
        node_v(n) == enc(core_v(*e)),
    decreases e, 0int,
{
    match e {
        WireCore::Literal { value, span } => header_node("lit", *span, cons_node(literal_node(value), nil_node())),
        WireCore::VarRef { name, scopes, span } => {
            let sc = int_list_node(scopes, 0);
            proof {
                assert(scopes@.subrange(0, scopes.len() as int) =~= scopes@);
            }
            header_node("var", *span, cons_node(str_node(name.as_str()), cons_node(sc, nil_node())))
        },
        WireCore::App { fn_expr, args, span } => {
            let fe = core_to_node(fn_expr);
            let rest = core_list_node(args, 0);
            proof {
                lemma_cores_v_index(args@);
                assert(cores_v(args@).subrange(0, args.len() as int) =~= cores_v(args@));
            }
            header_node("app", *span, cons_node(fe, rest))
        },
        WireCore::If { cond, then_branch, else_branch, span } => {
            let c = core_to_node(cond);
            let t = core_to_node(then_branch);
            let x = core_to_node(else_branch);
            header_node("if", *span, cons_node(c, cons_node(t, cons_node(x, nil_node()))))
        },
        WireCore::Lambda { params, param_scopes, body, span } => {
            let ps = str_list_node(params, 0);
            let pss = scopes_list_node(param_scopes, 0);
            let b = core_to_node(body);
            proof {
                assert(texts_v(params@).subrange(0, params.len() as int) =~= texts_v(params@));
                assert(scopes_v(param_scopes@).subrange(0, param_scopes.len() as int) =~= scopes_v(
                    param_scopes@,
                ));
            }
            header_node("lambda", *span, cons_node(ps, cons_node(pss, cons_node(b, nil_node()))))
        },
        WireCore::SetBang { name, scopes, value, span } => {
            let sc = int_list_node(scopes, 0);
            let v = core_to_node(value);
            proof {
                assert(scopes@.subrange(0, scopes.len() as int) =~= scopes@);
            }
            header_node(
                "set",
                *span,
                cons_node(str_node(name.as_str()), cons_node(sc, cons_node(v, nil_node()))),
            )
        },
        WireCore::Define { name, value, span } => {
            let v = core_to_node(value);
            header_node("define", *span, cons_node(str_node(name.as_str()), cons_node(v, nil_node())))
        },
        WireCore::Begin { body, span } => {
            let rest = core_list_node(body, 0);
            proof {
                lemma_cores_v_index(body@);
                assert(cores_v(body@).subrange(0, body.len() as int) =~= cores_v(body@));
            }
            header_node("begin", *span, rest)
        },
        WireCore::Module { name, imports, exports, body, span } => {
            let im = str_list_node(imports, 0);
            let ex = str_list_node(exports, 0);
            let rest = core_list_node(body, 0);
            proof {
                lemma_cores_v_index(body@);
                assert(cores_v(body@).subrange(0, body.len() as int) =~= cores_v(body@));
                assert(texts_v(imports@).subrange(0, imports.len() as int) =~= texts_v(imports@));
                assert(texts_v(exports@).subrange(0, exports.len() as int) =~= texts_v(exports@));
            }
            header_node(
                "module",
                *span,
                cons_node(str_node(name.as_str()), cons_node(im, cons_node(ex, rest))),
            )
        },
        WireCore::Require { caps, span } => {
            let rest = cap_list_node(caps, 0);
            proof {
                assert(caps@.subrange(0, caps.len() as int) =~= caps@);
            }
            header_node("require", *span, rest)
        },
    }
}

/// The wire lists of the expressions from `i` on, as one list.
fn core_list_node(v: &Vec<WireCore>, i: usize) -> (n: Node)
    requires
        i <= v.len(),
    ensures
        node_v(n) == enc_list(cores_v(v@).subrange(i as int, v.len() as int)),
    decreases v, v.len() - i,
{
    proof {
        lemma_cores_v_index(v@);
    }
    if i == v.len() {
        return nil_node();
    }
    let head = core_to_node(&v[i]);
    let rest = core_list_node(v, i + 1);
    proof {
        let s = cores_v(v@).subrange(i as int, v.len() as int);
        assert(s.subrange(1, s.len() as int) =~= cores_v(v@).subrange(i + 1, v.len() as int));
        assert(s[0] == core_v(v@[i as int]));
    }
    cons_node(head, rest)
}


// ---- reading back what was written ----

/// An expression that the wire form carries back unchanged: one with no
/// literal (the compiler's literals are tagged lists, the expander's are
/// raw values) and all of whose spans lie in file `f`.
pub open spec fn wire_exact(e: CV, f: FileId) -> bool
    decreases e,
{
    match e {
        CV::Literal(_, _) => false,
        CV::VarRef(_, _, sp) => sp.file_id == f,
        CV::App(fe, args, sp) => sp.file_id == f && wire_exact(*fe, f) && wire_exact_all(args, f),
        CV::If(c, t, x, sp) => sp.file_id == f && wire_exact(*c, f) && wire_exact(*t, f) && wire_exact(*x, f),
        CV::Lambda(_, _, body, sp) => sp.file_id == f && wire_exact(*body, f),
        CV::SetBang(_, _, v, sp) => sp.file_id == f && wire_exact(*v, f),
        CV::Define(_, v, sp) => sp.file_id == f && wire_exact(*v, f),
        CV::Begin(body, sp) => sp.file_id == f && wire_exact_all(body, f),
        CV::Module(_, _, _, body, sp) => sp.file_id == f && wire_exact_all(body, f),
        CV::Require(_, sp) => sp.file_id == f,
    }
}

pub open spec fn wire_exact_all(s: Seq<CV>, f: FileId) -> bool
    decreases s,
{
    if s.len() == 0 {
        true
    } else {
        proof {
            assert(decreases_to!(s => s.subrange(1, s.len() as int)));
        }
        wire_exact(s[0], f) && wire_exact_all(s.subrange(1, s.len() as int), f)
    }
}

proof fn lemma_ints_back(s: Seq<u32>)
    ensures
        ints_of(int_list(s)) == Ok::<Seq<u32>, Seq<char>>(s),
    decreases s.len(),
{
    if s.len() > 0 {
        lemma_ints_back(s.drop_first());
        assert(seq![(s[0] as i64) as u32] + s.drop_first() =~= s);
    } else {
        assert(s =~= Seq::<u32>::empty());
    }
}

proof fn lemma_strs_back(s: Seq<Seq<char>>)
    ensures
        strs_of(str_list(s)) == Ok::<Seq<Seq<char>>, Seq<char>>(s),
    decreases s.len(),
{
    if s.len() > 0 {
        lemma_strs_back(s.drop_first());
        assert(seq![s[0]] + s.drop_first() =~= s);
    } else {
        assert(s =~= Seq::<Seq<char>>::empty());
    }
}

proof fn lemma_scopes_back(s: Seq<Seq<u32>>)
    ensures
        scopesets_of(scopes_list(s)) == Ok::<Seq<Seq<u32>>, Seq<char>>(s),
    decreases s.len(),
{
    if s.len() > 0 {
        lemma_ints_back(s[0]);
        lemma_scopes_back(s.drop_first());
        assert(seq![s[0]] + s.drop_first() =~= s);
    } else {
        assert(s =~= Seq::<Seq<u32>>::empty());
    }
}

proof fn lemma_caps_back(s: Seq<Capability>)
    ensures
        caps_of(cap_list(s)) == Ok::<Seq<Capability>, Seq<char>>(s),
    decreases s.len(),
{
    reveal_strlit("read");
    reveal_strlit("write");
    if s.len() > 0 {
        lemma_caps_back(s.drop_first());
        assert("read"@.len() == 4);
        assert("write"@.len() == 5);
        assert(cap_named(cap_name(s[0])) == Ok::<Capability, Seq<char>>(s[0]));
        assert(seq![s[0]] + s.drop_first() =~= s);
    } else {
        assert(s =~= Seq::<Capability>::empty());
    }
}

proof fn lemma_tags_differ()
    ensures
        "lit"@ != "var"@,
        "lit"@ != "app"@,
        "lit"@ != "if"@,
        "lit"@ != "lambda"@,
        "lit"@ != "set"@,
        "lit"@ != "define"@,
        "lit"@ != "begin"@,
        "lit"@ != "module"@,
        "lit"@ != "require"@,
        "var"@ != "app"@,
        "var"@ != "if"@,
        "var"@ != "lambda"@,
        "var"@ != "set"@,
        "var"@ != "define"@,
        "var"@ != "begin"@,
        "var"@ != "module"@,
        "var"@ != "require"@,
        "app"@ != "if"@,
        "app"@ != "lambda"@,
        "app"@ != "set"@,
        "app"@ != "define"@,
        "app"@ != "begin"@,
        "app"@ != "module"@,
        "app"@ != "require"@,
        "if"@ != "lambda"@,
        "if"@ != "set"@,
        "if"@ != "define"@,
        "if"@ != "begin"@,
        "if"@ != "module"@,
        "if"@ != "require"@,
        "lambda"@ != "set"@,
        "lambda"@ != "define"@,
        "lambda"@ != "begin"@,
        "lambda"@ != "module"@,
        "lambda"@ != "require"@,
        "set"@ != "define"@,
        "set"@ != "begin"@,
        "set"@ != "module"@,
        "set"@ != "require"@,
        "define"@ != "begin"@,
        "define"@ != "module"@,
        "define"@ != "require"@,
        "begin"@ != "module"@,
        "begin"@ != "require"@,
        "module"@ != "require"@,
{
    reveal_strlit("lit");
    reveal_strlit("var");
    reveal_strlit("app");
    reveal_strlit("if");
    reveal_strlit("lambda");
    reveal_strlit("set");
    reveal_strlit("define");
    reveal_strlit("begin");
    reveal_strlit("module");
    reveal_strlit("require");
    assert("lit"@.len() == 3 && "lit"@[0] == 'l');
    assert("var"@.len() == 3 && "var"@[0] == 'v');
    assert("app"@.len() == 3 && "app"@[0] == 'a');
    assert("set"@.len() == 3 && "set"@[0] == 's');
    assert("if"@.len() == 2);
    assert("lambda"@.len() == 6 && "lambda"@[0] == 'l');
    assert("define"@.len() == 6 && "define"@[0] == 'd');
    assert("module"@.len() == 6 && "module"@[0] == 'm');
    assert("begin"@.len() == 5);
    assert("require"@.len() == 7);
}

proof fn lemma_header_back(tag: Seq<char>, sp: Span, rest: NV, f: FileId)
    requires
        sp.file_id == f,
    ensures
        dec(header(tag, sp, rest), f) == dec_fields(tag, sp, rest, f),
{
    let x = cons(plain(DV::Int(sp.expansion_id as i64)), rest);
    let e = cons(plain(DV::Int(sp.end as i64)), x);
    let s = cons(plain(DV::Int(sp.start as i64)), e);
    let h = cons(plain(DV::Sym(tag)), s);
    assert(h == header(tag, sp, rest));
    assert(count(x) == 1 + count(rest));
    assert(count(e) == 1 + count(x));
    assert(count(s) == 1 + count(e));
    assert(count(h) == 1 + count(s));
    let back = Span {
        file_id: f,
        start: (sp.start as i64) as u32,
        end: (sp.end as i64) as u32,
        expansion_id: (sp.expansion_id as i64) as u32,
    };
    assert(back == sp);
}

proof fn lemma_count_cons(a: NV, b: NV)
    ensures
        count(cons(a, b)) == 1 + count(b),
        count(nil_v()) == 0,
{
}

proof fn lemma_back_var(n: Seq<char>, sc: Seq<u32>, sp: Span, f: FileId)
    requires
        sp.file_id == f,
    ensures
        dec(enc(CV::VarRef(n, sc, sp)), f) == Ok::<CV, Seq<char>>(CV::VarRef(n, sc, sp)),
{
    lemma_tags_differ();
    lemma_ints_back(sc);
    lemma_header_back("var"@, sp, cons(plain(DV::Str(n)), cons(int_list(sc), nil_v())), f);
}

proof fn lemma_back_app(fe: CV, args: Seq<CV>, sp: Span, f: FileId)
    requires
        sp.file_id == f,
        dec(enc(fe), f) == Ok::<CV, Seq<char>>(fe),
        decs(enc_list(args), f) == Ok::<Seq<CV>, Seq<char>>(args),
    ensures
        dec(enc(CV::App(Box::new(fe), args, sp)), f) == Ok::<CV, Seq<char>>(CV::App(Box::new(fe), args, sp)),
{
    lemma_tags_differ();
    lemma_header_back("app"@, sp, cons(enc(fe), enc_list(args)), f);
}

proof fn lemma_back_if(c: CV, t: CV, x: CV, sp: Span, f: FileId)
    requires
        sp.file_id == f,
        dec(enc(c), f) == Ok::<CV, Seq<char>>(c),
        dec(enc(t), f) == Ok::<CV, Seq<char>>(t),
        dec(enc(x), f) == Ok::<CV, Seq<char>>(x),
    ensures
        dec(enc(CV::If(Box::new(c), Box::new(t), Box::new(x), sp)), f) == Ok::<CV, Seq<char>>(
            CV::If(Box::new(c), Box::new(t), Box::new(x), sp),
        ),
{
    lemma_tags_differ();
    let r2 = cons(enc(x), nil_v());
    let r1 = cons(enc(t), r2);
    let rest = cons(enc(c), r1);
    lemma_count_cons(enc(x), nil_v());
    lemma_count_cons(enc(t), r2);
    lemma_count_cons(enc(c), r1);
    lemma_header_back("if"@, sp, rest, f);
}

proof fn lemma_back_lambda(ps: Seq<Seq<char>>, pss: Seq<Seq<u32>>, body: CV, sp: Span, f: FileId)
    requires
        sp.file_id == f,
        dec(enc(body), f) == Ok::<CV, Seq<char>>(body),
    ensures
        dec(enc(CV::Lambda(ps, pss, Box::new(body), sp)), f) == Ok::<CV, Seq<char>>(
            CV::Lambda(ps, pss, Box::new(body), sp),
        ),
{
    lemma_tags_differ();
    lemma_strs_back(ps);
    lemma_scopes_back(pss);
    let r2 = cons(enc(body), nil_v());
    let r1 = cons(scopes_list(pss), r2);
    let rest = cons(str_list(ps), r1);
    lemma_count_cons(enc(body), nil_v());
    lemma_count_cons(scopes_list(pss), r2);
    lemma_count_cons(str_list(ps), r1);
    lemma_header_back("lambda"@, sp, rest, f);
}

proof fn lemma_back_set(n: Seq<char>, sc: Seq<u32>, v: CV, sp: Span, f: FileId)
    requires
        sp.file_id == f,
        dec(enc(v), f) == Ok::<CV, Seq<char>>(v),
    ensures
        dec(enc(CV::SetBang(n, sc, Box::new(v), sp)), f) == Ok::<CV, Seq<char>>(
            CV::SetBang(n, sc, Box::new(v), sp),
        ),
{
    lemma_tags_differ();
    lemma_ints_back(sc);
    let r2 = cons(enc(v), nil_v());
    let r1 = cons(int_list(sc), r2);
    let rest = cons(plain(DV::Str(n)), r1);
    lemma_count_cons(enc(v), nil_v());
    lemma_count_cons(int_list(sc), r2);
    lemma_count_cons(plain(DV::Str(n)), r1);
    lemma_header_back("set"@, sp, rest, f);
}

proof fn lemma_back_define(n: Seq<char>, v: CV, sp: Span, f: FileId)
    requires
        sp.file_id == f,
        dec(enc(v), f) == Ok::<CV, Seq<char>>(v),
    ensures
        dec(enc(CV::Define(n, Box::new(v), sp)), f) == Ok::<CV, Seq<char>>(CV::Define(n, Box::new(v), sp)),
{
    lemma_tags_differ();
    let r1 = cons(enc(v), nil_v());
    let rest = cons(plain(DV::Str(n)), r1);
    lemma_count_cons(enc(v), nil_v());
    lemma_count_cons(plain(DV::Str(n)), r1);
    lemma_header_back("define"@, sp, rest, f);
}

proof fn lemma_back_begin(body: Seq<CV>, sp: Span, f: FileId)
    requires
        sp.file_id == f,
        decs(enc_list(body), f) == Ok::<Seq<CV>, Seq<char>>(body),
    ensures
        dec(enc(CV::Begin(body, sp)), f) == Ok::<CV, Seq<char>>(CV::Begin(body, sp)),
{
    lemma_tags_differ();
    lemma_header_back("begin"@, sp, enc_list(body), f);
}

proof fn lemma_back_module(
    n: Seq<char>,
    im: Seq<Seq<char>>,
    ex: Seq<Seq<char>>,
    body: Seq<CV>,
    sp: Span,
    f: FileId,
)
    requires
        sp.file_id == f,
        decs(enc_list(body), f) == Ok::<Seq<CV>, Seq<char>>(body),
    ensures
        dec(enc(CV::Module(n, im, ex, body, sp)), f) == Ok::<CV, Seq<char>>(CV::Module(n, im, ex, body, sp)),
{
    lemma_tags_differ();
    lemma_strs_back(im);
    lemma_strs_back(ex);
    let r2 = cons(str_list(ex), enc_list(body));
    let r1 = cons(str_list(im), r2);
    let rest = cons(plain(DV::Str(n)), r1);
    lemma_count_cons(str_list(ex), enc_list(body));
    lemma_count_cons(str_list(im), r2);
    lemma_count_cons(plain(DV::Str(n)), r1);
    lemma_header_back("module"@, sp, rest, f);
}

proof fn lemma_back_require(caps: Seq<Capability>, sp: Span, f: FileId)
    requires
        sp.file_id == f,
    ensures
        dec(enc(CV::Require(caps, sp)), f) == Ok::<CV, Seq<char>>(CV::Require(caps, sp)),
{
    lemma_tags_differ();
    lemma_caps_back(caps);
    lemma_header_back("require"@, sp, cap_list(caps), f);
}

/// Reading back what `core_to_node` wrote gives the expression that was
/// written, for every expression without literals whose spans lie in the
/// file that the reading is told.
pub proof fn lemma_wire_round_trip(e: CV, f: FileId)
    requires
        wire_exact(e, f),
    ensures
        dec(enc(e), f) == Ok::<CV, Seq<char>>(e),
    decreases e,
{
    match e {
        CV::Literal(_, _) => {},
        CV::VarRef(n, sc, sp) => lemma_back_var(n, sc, sp, f),
        CV::App(fe, args, sp) => {
            lemma_wire_round_trip(*fe, f);
            lemma_wire_round_trip_all(args, f);
            lemma_back_app(*fe, args, sp, f);
        },
        CV::If(c, t, x, sp) => {
            lemma_wire_round_trip(*c, f);
            lemma_wire_round_trip(*t, f);
            lemma_wire_round_trip(*x, f);
            lemma_back_if(*c, *t, *x, sp, f);
        },
        CV::Lambda(ps, pss, body, sp) => {
            lemma_wire_round_trip(*body, f);
            lemma_back_lambda(ps, pss, *body, sp, f);
        },
        CV::SetBang(n, sc, v, sp) => {
            lemma_wire_round_trip(*v, f);
            lemma_back_set(n, sc, *v, sp, f);
        },
        CV::Define(n, v, sp) => {
            lemma_wire_round_trip(*v, f);
            lemma_back_define(n, *v, sp, f);
        },
        CV::Begin(body, sp) => {
            lemma_wire_round_trip_all(body, f);
            lemma_back_begin(body, sp, f);
        },
        CV::Module(n, im, ex, body, sp) => {
            lemma_wire_round_trip_all(body, f);
            lemma_back_module(n, im, ex, body, sp, f);
        },
        CV::Require(caps, sp) => lemma_back_require(caps, sp, f),
    }
}

/// The same for a list of expressions.
pub proof fn lemma_wire_round_trip_all(s: Seq<CV>, f: FileId)
    requires
        wire_exact_all(s, f),
    ensures
        decs(enc_list(s), f) == Ok::<Seq<CV>, Seq<char>>(s),
    decreases s,
{
    if s.len() > 0 {
        assert(decreases_to!(s => s.subrange(1, s.len() as int)));
        lemma_wire_round_trip(s[0], f);
        lemma_wire_round_trip_all(s.subrange(1, s.len() as int), f);
        assert(seq![s[0]] + s.subrange(1, s.len() as int) =~= s);
    } else {
        assert(s =~= Seq::<CV>::empty());
    }
}

} // verus!
