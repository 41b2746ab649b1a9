//! Phase separation: the module registry and its declare / visit /
//! instantiate life cycle.
//!
//! Phase 1 (expansion) code only produces phase 0 (runtime) code; a module
//! is visited (its transformers loaded, imports first) before it is
//! instantiated (its body run).
use vstd::prelude::*;
use vstd::set_lib::*;

use crate::symbol::Symbol;
use crate::text::{dec, push_char, push_dec, push_str};

verus! {

/// A phase level.
#[derive(Debug, Clone, Copy, PartialEq, Eq, Structural, Hash, PartialOrd, Ord)]
pub enum PhaseLevel {
    /// Phase 0: run time.
    Runtime,
    /// Phase 1: expansion time.
    Expand,
}

impl PhaseLevel {
    /// The phase number (0 for run time, 1 for expansion time).
    pub fn as_u32(self) -> (n: u32)
        ensures
            n == (match self {
                PhaseLevel::Runtime => 0u32,
                PhaseLevel::Expand => 1u32,
            }),
    {
        match self {
            PhaseLevel::Runtime => 0,
            PhaseLevel::Expand => 1,
        }
    }
}

/// A declared module.
#[derive(Debug, Clone)]
pub struct ModuleEntry {
    pub name: Symbol,
    pub imports: Vec<Symbol>,
    pub exports: Vec<Symbol>,
    /// Its phase 1 part has been run.
    pub visited: bool,
    /// Its phase 0 body has been run.
    pub instantiated: bool,
}

/// The module registry.
#[derive(Debug, Clone)]
pub struct ModuleRegistry {
    entries: Vec<ModuleEntry>,
}

impl View for ModuleRegistry {
    type V = Seq<ModuleEntry>;

    closed spec fn view(&self) -> Seq<ModuleEntry> {
        self.entries@
    }
}

/// Module `m` is declared.
pub open spec fn declared(es: Seq<ModuleEntry>, m: Symbol) -> bool {
    exists|i: int| 0 <= i < es.len() && es[i].name == m
}

/// The position of the entry of `m` (meaningful when `m` is declared).
pub open spec fn index_of(es: Seq<ModuleEntry>, m: Symbol) -> int {
    choose|i: int| 0 <= i < es.len() && es[i].name == m
}

/// Module `m` is declared and visited.
pub open spec fn visited_in(es: Seq<ModuleEntry>, m: Symbol) -> bool {
    declared(es, m) && es[index_of(es, m)].visited
}

/// The imports of `m` (meaningful when `m` is declared).
pub open spec fn imports_in(es: Seq<ModuleEntry>, m: Symbol) -> Seq<Symbol> {
    es[index_of(es, m)].imports@
}

/// The exports of `m` (meaningful when `m` is declared).
pub open spec fn exports_in(es: Seq<ModuleEntry>, m: Symbol) -> Seq<Symbol> {
    es[index_of(es, m)].exports@
}

/// No two entries share a name.
pub open spec fn names_distinct(es: Seq<ModuleEntry>) -> bool {
    forall|i: int, j: int| 0 <= i < es.len() && 0 <= j < es.len() && i != j ==> es[i].name != es[j].name
}

/// A path through modules that were not yet visited: each module but the
/// last is declared and unvisited in `es` and imports the next one.
#[verifier::opaque]
pub open spec fn open_path(es: Seq<ModuleEntry>, q: Seq<Symbol>) -> bool {
    &&& q.len() >= 1
    &&& forall|j: int|
        0 <= j < q.len() - 1 ==> declared(es, #[trigger] q[j]) && !visited_in(es, q[j])
            && imports_in(es, q[j]).contains(q[j + 1])
}

/// The path ends at an undeclared module, or returns to one of its own
/// modules (a dependency cycle).
pub open spec fn bad_end(es: Seq<ModuleEntry>, q: Seq<Symbol>) -> bool {
    ||| !declared(es, q.last())
    ||| exists|i: int| 0 <= i < q.len() - 1 && q[i] == q.last()
}

/// The message for an undeclared module.
pub open spec fn undeclared_message(m: Symbol) -> Seq<char> {
    "未声明的模块（Symbol "@ + dec(m.0 as nat) + "）"@
}

/// `"Symbol(a) → Symbol(b) → ..."` for the modules of `c`.
pub open spec fn join_symbols(c: Seq<Symbol>) -> Seq<char>
    decreases c.len(),
{
    if c.len() == 0 {
        Seq::empty()
    } else if c.len() == 1 {
        "Symbol("@ + dec(c[0].0 as nat) + ")"@
    } else {
        join_symbols(c.drop_last()) + " → "@ + "Symbol("@ + dec(c.last().0 as nat) + ")"@
    }
}

/// The message for the dependency cycle `c` (first module repeated last).
pub open spec fn cycle_message(c: Seq<Symbol>) -> Seq<char> {
    "模块循环依赖："@ + join_symbols(c)
}

/// `msg` reports a failed visit from `root`: it names the undeclared
/// module or the cycle at the end of an open path from `root`.
pub open spec fn visit_failure(es: Seq<ModuleEntry>, root: Symbol, msg: Seq<char>) -> bool {
    exists|q: Seq<Symbol>|
        #![trigger open_path(es, q)]
        q[0] == root && open_path(es, q) && {
            ||| !declared(es, q.last()) && msg == undeclared_message(q.last())
            ||| exists|i: int|
                0 <= i < q.len() - 1 && q[i] == q.last() && msg == cycle_message(
                    q.subrange(i, q.len() as int),
                )
        }
}

/// Module `m` lies on an open path from `root`: visiting `root` visits it.
pub open spec fn reaches(es: Seq<ModuleEntry>, root: Symbol, m: Symbol) -> bool {
    exists|q: Seq<Symbol>| #![trigger open_path(es, q)] q[0] == root && open_path(es, q) && q.last() == m
}

/// Visiting `root` must fail: some open path from it reaches an undeclared
/// module or closes a cycle.
pub open spec fn visit_fails(es: Seq<ModuleEntry>, root: Symbol) -> bool {
    exists|q: Seq<Symbol>| #![trigger open_path(es, q)] q[0] == root && open_path(es, q) && bad_end(es, q)
}

/// `new` differs from `old` only in visited flags, which only get set.
pub open spec fn only_visits(old: Seq<ModuleEntry>, new: Seq<ModuleEntry>) -> bool {
    &&& new.len() == old.len()
    &&& forall|i: int|
        0 <= i < old.len() ==> {
            &&& (#[trigger] new[i]).name == old[i].name
            &&& new[i].imports@ == old[i].imports@
            &&& new[i].exports@ == old[i].exports@
            &&& new[i].instantiated == old[i].instantiated
            &&& (old[i].visited ==> new[i].visited)
        }
}

/// The declared, unvisited modules that are not on `path`.
pub open spec fn pending(es: Seq<ModuleEntry>, path: Seq<Symbol>) -> Set<int> {
    Set::new(|i: int| 0 <= i < es.len() && !es[i].visited && !path.contains(es[i].name))
}

/// Appending the entry of a new module keeps what is known of the modules
/// declared before, and the new module is known by its entry.
pub proof fn lemma_push_entry(old: Seq<ModuleEntry>, new: Seq<ModuleEntry>, name: Symbol)
    requires
        new.len() == old.len() + 1,
        new.subrange(0, old.len() as int) == old,
        new.last().name == name,
        names_distinct(new),
    ensures
        declared(new, name),
        imports_in(new, name) == new.last().imports@,
        exports_in(new, name) == new.last().exports@,
        visited_in(new, name) == new.last().visited,
        forall|n: Symbol| declared(old, n) ==> #[trigger] imports_in(new, n) == imports_in(old, n),
        forall|n: Symbol| declared(old, n) ==> #[trigger] exports_in(new, n) == exports_in(old, n),
        forall|n: Symbol| declared(old, n) ==> #[trigger] visited_in(new, n) == visited_in(old, n),
{
    lemma_index_of(new, new.len() - 1);
    assert forall|n: Symbol| #[trigger] declared(old, n) implies index_of(new, n) == index_of(old, n)
        && declared(new, n) by {
        let i = index_of(old, n);
        assert(new.subrange(0, old.len() as int)[i] == new[i]);
        lemma_index_of(new, i);
    }
}

/// A declared module that imports nothing can always be visited.
pub proof fn lemma_no_imports_visits(es: Seq<ModuleEntry>, n: Symbol)
    requires
        declared(es, n),
        imports_in(es, n) == Seq::<Symbol>::empty(),
    ensures
        !visit_fails(es, n),
{
    reveal(open_path);
    assert forall|q: Seq<Symbol>| q[0] == n && open_path(es, q) implies !bad_end(es, q) by {
        if q.len() >= 2 {
            assert(imports_in(es, q[0]).contains(q[1]));
        }
    }
}

/// Two registries that agree on which modules are declared, and on the
/// visited flag and imports of each of them.
pub open spec fn same_modules(a: Seq<ModuleEntry>, b: Seq<ModuleEntry>) -> bool {
    &&& forall|n: Symbol| #[trigger] declared(a, n) == declared(b, n)
    &&& forall|n: Symbol|
        #![trigger visited_in(a, n)]
        #![trigger visited_in(b, n)]
        declared(a, n) ==> visited_in(a, n) == visited_in(b, n)
    &&& forall|n: Symbol|
        #![trigger imports_in(a, n)]
        #![trigger imports_in(b, n)]
        declared(a, n) ==> imports_in(a, n) == imports_in(b, n)
}

/// Visits depend only on the declared modules, their flags and imports:
/// registries that agree on those fail on the same modules, with the same
/// possible messages.
pub proof fn lemma_same_modules_visit(a: Seq<ModuleEntry>, b: Seq<ModuleEntry>)
    requires
        same_modules(a, b),
    ensures
        forall|m: Symbol| #[trigger] visit_fails(a, m) == visit_fails(b, m),
        forall|m: Symbol, msg: Seq<char>| #[trigger] visit_failure(a, m, msg) == visit_failure(b, m, msg),
{
    reveal(open_path);
    assert forall|q: Seq<Symbol>| #[trigger] open_path(a, q) == open_path(b, q) by {
        if open_path(a, q) {
            assert forall|j: int| 0 <= j < q.len() - 1 implies declared(b, #[trigger] q[j]) && !visited_in(b, q[j])
                && imports_in(b, q[j]).contains(q[j + 1]) by {
                assert(declared(a, q[j]));
                assert(visited_in(a, q[j]) == visited_in(b, q[j]));
                assert(imports_in(a, q[j]) == imports_in(b, q[j]));
            }
        }
        if open_path(b, q) {
            assert forall|j: int| 0 <= j < q.len() - 1 implies declared(a, #[trigger] q[j]) && !visited_in(a, q[j])
                && imports_in(a, q[j]).contains(q[j + 1]) by {
                assert(declared(b, q[j]));
                assert(declared(a, q[j]));
                assert(visited_in(a, q[j]) == visited_in(b, q[j]));
                assert(imports_in(a, q[j]) == imports_in(b, q[j]));
            }
        }
    }
    assert forall|q: Seq<Symbol>| #[trigger] bad_end(a, q) == bad_end(b, q) by {
        assert(declared(a, q.last()) == declared(b, q.last()));
    }
    assert forall|m: Symbol| #[trigger] visit_fails(a, m) == visit_fails(b, m) by {
        if visit_fails(a, m) {
            let q = choose|q: Seq<Symbol>| #![trigger open_path(a, q)] q[0] == m && open_path(a, q) && bad_end(a, q);
            assert(open_path(b, q) && bad_end(b, q));
        }
        if visit_fails(b, m) {
            let q = choose|q: Seq<Symbol>| #![trigger open_path(b, q)] q[0] == m && open_path(b, q) && bad_end(b, q);
            assert(open_path(a, q) && bad_end(a, q));
        }
    }
    assert forall|m: Symbol, msg: Seq<char>| #[trigger] visit_failure(a, m, msg) == visit_failure(b, m, msg) by {
        if visit_failure(a, m, msg) {
            let q = choose|q: Seq<Symbol>|
                #![trigger open_path(a, q)]
                q[0] == m && open_path(a, q) && {
                    ||| !declared(a, q.last()) && msg == undeclared_message(q.last())
                    ||| exists|i: int|
                        0 <= i < q.len() - 1 && q[i] == q.last() && msg == cycle_message(q.subrange(i, q.len() as int))
                };
            assert(open_path(b, q));
            assert(declared(a, q.last()) == declared(b, q.last()));
        }
        if visit_failure(b, m, msg) {
            let q = choose|q: Seq<Symbol>|
                #![trigger open_path(b, q)]
                q[0] == m && open_path(b, q) && {
                    ||| !declared(b, q.last()) && msg == undeclared_message(q.last())
                    ||| exists|i: int|
                        0 <= i < q.len() - 1 && q[i] == q.last() && msg == cycle_message(q.subrange(i, q.len() as int))
                };
            assert(open_path(a, q));
            assert(declared(a, q.last()) == declared(b, q.last()));
        }
    }
}

/// A module that imports itself, not yet visited, cannot be visited: the
/// import closes a cycle.
pub proof fn lemma_self_import_fails(es: Seq<ModuleEntry>, m: Symbol)
    requires
        declared(es, m),
        !visited_in(es, m),
        imports_in(es, m).contains(m),
    ensures
        visit_fails(es, m),
{
    reveal(open_path);
    let q = seq![m, m];
    assert(open_path(es, q));
    assert(bad_end(es, q));
}

/// Two modules that import each other, neither visited yet, cannot be
/// visited from either of them.
pub proof fn lemma_mutual_imports_fail(es: Seq<ModuleEntry>, a: Symbol, b: Symbol)
    requires
        declared(es, a),
        declared(es, b),
        !visited_in(es, a),
        !visited_in(es, b),
        imports_in(es, a).contains(b),
        imports_in(es, b).contains(a),
    ensures
        visit_fails(es, a),
        visit_fails(es, b),
{
    reveal(open_path);
    let q = seq![a, b, a];
    assert(open_path(es, q));
    assert(q[0] == q.last());
    assert(bad_end(es, q));
    let p = seq![b, a, b];
    assert(open_path(es, p));
    assert(p[0] == p.last());
    assert(bad_end(es, p));
}

/// A shared dependency is no cycle: when `d` imports `b` and `c`, both of
/// them import `a`, `a` imports nothing and none is visited yet, visiting
/// `d` succeeds.
pub proof fn lemma_diamond_visits(es: Seq<ModuleEntry>, a: Symbol, b: Symbol, c: Symbol, d: Symbol)
    requires
        declared(es, a),
        declared(es, b),
        declared(es, c),
        declared(es, d),
        !visited_in(es, a),
        !visited_in(es, b),
        !visited_in(es, c),
        !visited_in(es, d),
        imports_in(es, d) == seq![b, c],
        imports_in(es, b) == seq![a],
        imports_in(es, c) == seq![a],
        imports_in(es, a) == Seq::<Symbol>::empty(),
        a != b,
        a != c,
        a != d,
        b != d,
        c != d,
    ensures
        !visit_fails(es, d),
{
    reveal(open_path);
    assert forall|q: Seq<Symbol>| q[0] == d && open_path(es, q) implies !bad_end(es, q) by {
        if q.len() >= 2 {
            assert(imports_in(es, q[0]).contains(q[1]));
            assert(q[1] == b || q[1] == c);
        }
        if q.len() >= 3 {
            assert(imports_in(es, q[1]).contains(q[2]));
            assert(q[2] == a);
        }
        if q.len() >= 4 {
            assert(imports_in(es, q[2]).contains(q[3]));
        }
    }
}

/// With distinct names, the entry of `m` is the one that bears its name.
pub proof fn lemma_index_of(es: Seq<ModuleEntry>, i: int)
    requires
        names_distinct(es),
        0 <= i < es.len(),
    ensures
        index_of(es, es[i].name) == i,
{
    let m = es[i].name;
    assert(declared(es, m));
}

/// Visiting changes only visited flags: the modules, their indices,
/// imports and exports stay, and visited modules stay visited.
pub proof fn lemma_only_visits_keeps(old: Seq<ModuleEntry>, new: Seq<ModuleEntry>, m: Symbol)
    requires
        names_distinct(old),
        only_visits(old, new),
    ensures
        names_distinct(new),
        declared(new, m) == declared(old, m),
        declared(old, m) ==> index_of(new, m) == index_of(old, m),
        declared(old, m) ==> imports_in(new, m) == imports_in(old, m),
        declared(old, m) ==> exports_in(new, m) == exports_in(old, m),
        visited_in(old, m) ==> visited_in(new, m),
{
    if declared(old, m) {
        let i = index_of(old, m);
        assert(new[i].name == m);
        lemma_index_of(new, i);
    }
    if declared(new, m) {
        let i = index_of(new, m);
        assert(old[i].name == m);
    }
}

proof fn lemma_only_visits_trans(a: Seq<ModuleEntry>, b: Seq<ModuleEntry>, c: Seq<ModuleEntry>)
    requires
        only_visits(a, b),
        only_visits(b, c),
    ensures
        only_visits(a, c),
{
    assert forall|i: int| 0 <= i < a.len() implies {
        &&& (#[trigger] c[i]).name == a[i].name
        &&& c[i].imports@ == a[i].imports@
        &&& c[i].exports@ == a[i].exports@
        &&& c[i].instantiated == a[i].instantiated
        &&& (a[i].visited ==> c[i].visited)
    } by {
        assert(b[i].name == a[i].name);
    }
}

proof fn lemma_only_visits_refl(a: Seq<ModuleEntry>)
    ensures
        only_visits(a, a),
{
}

/// Names are distinct, a visited module's imports are all declared and
/// visited, and an instantiated module has been visited.
pub open spec fn registry_wf(es: Seq<ModuleEntry>) -> bool {
    &&& names_distinct(es)
    &&& forall|i: int, d: Symbol|
        #![trigger es[i].imports@.contains(d)]
        0 <= i < es.len() && es[i].visited && es[i].imports@.contains(d) ==> visited_in(es, d)
    &&& forall|i: int| 0 <= i < es.len() && (#[trigger] es[i]).instantiated ==> es[i].visited
}

/// Stamps order the modules visited since `es0` after their imports.
#[verifier::opaque]
pub open spec fn stamps_ok(
    es0: Seq<ModuleEntry>,
    es: Seq<ModuleEntry>,
    st: Map<Symbol, nat>,
    cnt: nat,
) -> bool {
    forall|m: Symbol|
        #![trigger visited_in(es, m)]
        visited_in(es, m) && !visited_in(es0, m) ==> {
            &&& st.contains_key(m)
            &&& st[m] < cnt
            &&& forall|d: Symbol|
                #![trigger imports_in(es, m).contains(d)]
                imports_in(es, m).contains(d) ==> visited_in(es0, d) || (st.contains_key(d)
                    && st[d] < st[m])
        }
}

/// Along a path of modules visited since `es0`, stamps strictly decrease.
proof fn lemma_stamps_decrease(
    es0: Seq<ModuleEntry>,
    es: Seq<ModuleEntry>,
    st: Map<Symbol, nat>,
    cnt: nat,
    q: Seq<Symbol>,
    i: int,
    j: int,
)
    requires
        names_distinct(es0),
        only_visits(es0, es),
        stamps_ok(es0, es, st, cnt),
        open_path(es0, q),
        0 <= i <= j < q.len(),
        forall|k: int| 0 <= k < q.len() ==> #[trigger] visited_in(es, q[k]),
        forall|k: int| i <= k < q.len() ==> !visited_in(es0, #[trigger] q[k]),
    ensures
        st.contains_key(q[j]) && st.contains_key(q[i]) && st[q[j]] + (j - i) <= st[q[i]],
    decreases j - i,
{
    reveal(open_path);
    reveal(stamps_ok);
    assert(visited_in(es, q[i]));
    assert(!visited_in(es0, q[i]));
    if j > i {
        lemma_stamps_decrease(es0, es, st, cnt, q, i, j - 1);
        let m = q[j - 1];
        assert(visited_in(es, m));
        assert(!visited_in(es0, m));
        lemma_only_visits_keeps(es0, es, m);
        assert(imports_in(es0, m).contains(q[j]));
        assert(imports_in(es, m).contains(q[j]));
        assert(!visited_in(es0, q[j]));
    }
}

impl ModuleRegistry {
    /// The registry's invariant: names are distinct, a visited module's
    /// imports are all declared and visited, and an instantiated module has
    /// been visited.
    pub open spec fn wf(&self) -> bool {
        registry_wf(self@)
    }

    /// An empty registry.
    pub fn new() -> (r: ModuleRegistry)
        ensures
            r.wf(),
            r@.len() == 0,
    {
        ModuleRegistry { entries: Vec::new() }
    }

    fn find_index(&self, name: Symbol) -> (k: Option<usize>)
        requires
            names_distinct(self@),
        ensures
            match k {
                Some(i) => i < self@.len() && self@[i as int].name == name && index_of(self@, name)
                    == i,
                None => !declared(self@, name),
            },
    {
        let mut i: usize = 0;
        while i < self.entries.len()
            invariant
                0 <= i <= self@.len(),
                self@ == self.entries@,
                names_distinct(self@),
                forall|j: int| 0 <= j < i ==> self@[j].name != name,
            decreases self@.len() - i,
        {
            if self.entries[i].name == name {
                proof {
                    lemma_index_of(self@, i as int);
                }
                return Some(i);
            }
            i = i + 1;
        }
        None
    }

    /// The entry of module `name`, if declared.
    pub fn find(&self, name: Symbol) -> (e: Option<&ModuleEntry>)
        requires
            self.wf(),
        ensures
            declared(self@, name) ==> e == Some(&self@[index_of(self@, name)]),
            !declared(self@, name) ==> e.is_none(),
    {
        match self.find_index(name) {
            Some(i) => Some(&self.entries[i]),
            None => None,
        }
    }

    /// Every entry, in declaration order.
    pub fn entries(&self) -> (s: &[ModuleEntry])
        ensures
            s@ == self@,
    {
        self.entries.as_slice()
    }

    /// Declares a module; declaring a name twice is an error that changes
    /// nothing.
    pub fn declare(&mut self, name: Symbol, imports: Vec<Symbol>, exports: Vec<Symbol>) -> (res:
        Result<(), String>)
        requires
            old(self).wf(),
        ensures
            final(self).wf(),
            declared(old(self)@, name) ==> {
                &&& res is Err
                &&& res->Err_0@ == "模块重复声明（Symbol "@ + dec(name.0 as nat) + "）"@
                &&& final(self)@ == old(self)@
            },
            !declared(old(self)@, name) ==> {
                &&& res is Ok
                &&& final(self)@.len() == old(self)@.len() + 1
                &&& final(self)@.subrange(0, old(self)@.len() as int) == old(self)@
                &&& final(self)@.last().name == name
                &&& final(self)@.last().imports@ == imports@
                &&& final(self)@.last().exports@ == exports@
                &&& !final(self)@.last().visited
                &&& !final(self)@.last().instantiated
            },
    {
        match self.find_index(name) {
            Some(_) => {
                let mut msg = String::new();
                push_str(&mut msg, "模块重复声明（Symbol ");
                push_dec(&mut msg, name.0 as u64);
                push_str(&mut msg, "）");
                Err(msg)
            },
            None => {
                let ghost old_es = self@;
                self.entries.push(
                    ModuleEntry { name, imports, exports, visited: false, instantiated: false },
                );
                proof {
                    let es = self@;
                    assert(es.subrange(0, old_es.len() as int) =~= old_es);
                    assert forall|i: int, d: Symbol|
                        0 <= i < es.len() && es[i].visited && #[trigger] es[i].imports@.contains(
                            d,
                        ) implies visited_in(es, d) by {
                        assert(es[i] == old_es[i]);
                        assert(visited_in(old_es, d));
                        let k = index_of(old_es, d);
                        assert(es[k] == old_es[k]);
                        lemma_index_of(es, k);
                    }
                }
                Ok(())
            },
        }
    }

    /// Runs the phase 1 part of module `name`: its imports are visited
    /// first (transitively); a module already visited is not visited again,
    /// so shared dependencies are fine.  The visit fails exactly when an
    /// open path from `name` reaches an undeclared module or closes an
    /// import cycle; modules whose visit completed before the failure stay
    /// visited.
    pub fn visit(&mut self, name: Symbol) -> (res: Result<(), String>)
        requires
            old(self).wf(),
        ensures
            final(self).wf(),
            only_visits(old(self)@, final(self)@),
            res is Ok <==> !visit_fails(old(self)@, name),
            res is Ok ==> visited_in(final(self)@, name),
            res is Ok ==> forall|m: Symbol|
                #[trigger] reaches(old(self)@, name, m) ==> visited_in(final(self)@, m),
            res is Err ==> visit_failure(old(self)@, name, res->Err_0@),
            visited_in(old(self)@, name) ==> res is Ok && final(self)@ == old(self)@,
    {
        let ghost es0 = self@;
        let mut path: Vec<Symbol> = Vec::new();
        proof {
            reveal(stamps_ok);
            reveal(open_path);
            assert(path@.push(name) =~= seq![name]);
        }
        let (res, Ghost(st)) = self.visit_inner(
            name,
            &mut path,
            Ghost(es0),
            Ghost(name),
            Ghost((Map::empty(), 0nat)),
        );
        proof {
            if res is Ok {
                lemma_visit_ok_not_fails(es0, self@, name, st.0, st.1);
                assert forall|m: Symbol| #[trigger] reaches(es0, name, m) implies visited_in(self@, m) by {
                    let q = choose|q: Seq<Symbol>|
                        #![trigger open_path(es0, q)]
                        q[0] == name && open_path(es0, q) && q.last() == m;
                    reveal(open_path);
                    lemma_path_visited(es0, self@, q, q.len() - 1);
                }
            } else {
                let msg = res->Err_0@;
                let q = choose|q: Seq<Symbol>|
                    #![trigger open_path(es0, q)]
                    q[0] == name && open_path(es0, q) && {
                        ||| !declared(es0, q.last()) && msg == undeclared_message(q.last())
                        ||| exists|i: int|
                            0 <= i < q.len() - 1 && q[i] == q.last() && msg == cycle_message(
                                q.subrange(i, q.len() as int),
                            )
                    };
                assert(bad_end(es0, q));
            }
        }
        res
    }

    #[verifier::spinoff_prover]
    #[verifier::rlimit(60)]
    /// The visit of `name`, reached along `path` (the modules being
    /// visited, outermost first) from `root`.
    fn visit_inner(
        &mut self,
        name: Symbol,
        path: &mut Vec<Symbol>,
        Ghost(es0): Ghost<Seq<ModuleEntry>>,
        Ghost(root): Ghost<Symbol>,
        Ghost(st): Ghost<(Map<Symbol, nat>, nat)>,
    ) -> (out: (Result<(), String>, Ghost<(Map<Symbol, nat>, nat)>))
        requires
            old(self).wf(),
            names_distinct(es0),
            only_visits(es0, old(self)@),
            stamps_ok(es0, old(self)@, st.0, st.1),
            old(path)@.len() == 0 ==> name == root,
            old(path)@.len() > 0 ==> old(path)@[0] == root,
            old(path)@.len() > 0 ==> imports_in(old(self)@, old(path)@.last()).contains(name),
            open_path(es0, old(path)@.push(name)),
            forall|k: int|
                0 <= k < old(path)@.len() ==> declared(old(self)@, #[trigger] old(path)@[k])
                    && !visited_in(old(self)@, old(path)@[k]),
        ensures
            final(self).wf(),
            only_visits(old(self)@, final(self)@),
            stamps_ok(es0, final(self)@, out.1@.0, out.1@.1),
            final(path)@ == old(path)@,
            forall|k: int|
                0 <= k < old(path)@.len() ==> !visited_in(final(self)@, #[trigger] old(path)@[k]),
            out.0 is Ok ==> visited_in(final(self)@, name),
            out.0 is Err ==> visit_failure(es0, root, out.0->Err_0@),
            visited_in(old(self)@, name) ==> out.0 is Ok && final(self)@ == old(self)@,
        decreases pending(old(self)@, old(path)@).len(),
    {
        let ghost es_in = self@;
        let ghost q = path@.push(name);
        let idx = match self.find_index(name) {
            Some(i) => i,
            None => {
                let mut msg = String::new();
                push_str(&mut msg, "未声明的模块（Symbol ");
                push_dec(&mut msg, name.0 as u64);
                push_str(&mut msg, "）");
                proof {
                    lemma_only_visits_keeps(es0, es_in, name);
                    assert(q[0] == root);
                    assert(q.last() == name);
                    assert(open_path(es0, q));
                }
                return (Err(msg), Ghost(st));
            },
        };
        if self.entries[idx].visited {
            return (Ok(()), Ghost(st));
        }
        // a module already on the path closes a cycle
        let mut pos: usize = 0;
        while pos < path.len()
            invariant
                0 <= pos <= path@.len(),
                forall|k: int| 0 <= k < pos ==> path@[k] != name,
                q == path@.push(name),
                path@ == old(path)@,
                q[0] == root,
                open_path(es0, q),
                self.wf(),
                self@ == old(self)@,
                stamps_ok(es0, self@, st.0, st.1),
                forall|k: int|
                    0 <= k < old(path)@.len() ==> !visited_in(self@, #[trigger] old(path)@[k]),
            decreases path@.len() - pos,
        {
            if path[pos] == name {
                let mut msg = String::new();
                push_str(&mut msg, "模块循环依赖：");
                let ghost c = q.subrange(pos as int, q.len() as int);
                let mut k: usize = pos;
                proof {
                    assert(c.subrange(0, 0) =~= Seq::<Symbol>::empty());
                }
                while k < path.len()
                    invariant
                        pos <= k <= path@.len(),
                        q == path@.push(name),
                        c == q.subrange(pos as int, q.len() as int),
                        msg@ == "模块循环依赖："@ + join_symbols(c.subrange(0, k - pos)),
                        path@ == old(path)@,
                        self.wf(),
                        self@ == old(self)@,
                        stamps_ok(es0, self@, st.0, st.1),
                        forall|kk: int|
                            0 <= kk < old(path)@.len() ==> !visited_in(self@, #[trigger] old(path)@[kk]),
                    decreases path@.len() - k,
                {
                    if k > pos {
                        push_str(&mut msg, " → ");
                    }
                    push_str(&mut msg, "Symbol(");
                    push_dec(&mut msg, path[k].0 as u64);
                    push_char(&mut msg, ')');
                    proof {
                        reveal_strlit(")");
                        let cc = c.subrange(0, k + 1 - pos);
                        assert(cc.drop_last() =~= c.subrange(0, k - pos));
                        assert(cc.last() == path@[k as int]);
                        if k == pos {
                            assert(c.subrange(0, 0) =~= Seq::<Symbol>::empty());
                        }
                    }
                    k = k + 1;
                }
                if k > pos {
                    push_str(&mut msg, " → ");
                }
                push_str(&mut msg, "Symbol(");
                push_dec(&mut msg, name.0 as u64);
                push_char(&mut msg, ')');
                proof {
                    reveal_strlit(")");
                    assert(c.subrange(0, c.len() as int) =~= c);
                    assert(c.drop_last() =~= c.subrange(0, k - pos));
                    assert(c.last() == name);
                    assert(c.len() >= 2);
                    assert(q[pos as int] == q.last());
                    assert(open_path(es0, q));
                    assert(msg@ == cycle_message(c));
                    assert(0 <= pos < q.len() - 1 && q[pos as int] == q.last() && msg@ == cycle_message(q.subrange(pos as int, q.len() as int)));
                    assert(visit_failure(es0, root, msg@));
                }
                return (Err(msg), Ghost(st));
            }
            pos = pos + 1;
        }
        // visit the imports first
        let mut deps: Vec<Symbol> = Vec::new();
        let mut j: usize = 0;
        while j < self.entries[idx].imports.len()
            invariant
                0 <= j <= self@[idx as int].imports@.len(),
                idx < self@.len(),
                deps@ == self@[idx as int].imports@.subrange(0, j as int),
            decreases self@[idx as int].imports@.len() - j,
        {
            deps.push(self.entries[idx].imports[j]);
            j = j + 1;
            proof {
                assert(deps@ =~= self@[idx as int].imports@.subrange(0, j as int));
            }
        }
        proof {
            assert(deps@ =~= self@[idx as int].imports@);
            lemma_only_visits_keeps(es0, es_in, name);
        }
        path.push(name);
        let ghost mut cur = st;
        let mut i: usize = 0;
        while i < deps.len()
            invariant
                self.wf(),
                names_distinct(es0),
                only_visits(es0, es_in),
                only_visits(es_in, self@),
                stamps_ok(es0, self@, cur.0, cur.1),
                path@ == q,
                q == old(path)@.push(name),
                q[0] == root,
                idx < self@.len(),
                index_of(es_in, name) == idx,
                self@[idx as int].name == name,
                !self@[idx as int].visited,
                deps@ == es_in[idx as int].imports@,
                0 <= i <= deps@.len(),
                forall|k: int| 0 <= k < i ==> visited_in(self@, #[trigger] deps@[k]),
                forall|k: int|
                    0 <= k < q.len() ==> declared(self@, #[trigger] q[k]) && !visited_in(
                        self@,
                        q[k],
                    ),
                open_path(es0, q),
                es_in == old(self)@,
                !old(path)@.contains(name),
                forall|k: int| 0 <= k < old(path)@.len() ==> #[trigger] old(path)@[k] != name,
            decreases deps@.len() - i,
        {
            let dep = deps[i];
            let ghost es_before = self@;
            proof {
                assert(es_in[idx as int].imports@.contains(dep)) by {
                    assert(deps@[i as int] == dep);
                }
                lemma_dep_before(es0, es_in, es_before, old(path)@, name, idx as int, dep);
            }
            let (r, Ghost(next)) = self.visit_inner(dep, path, Ghost(es0), Ghost(root), Ghost(cur));
            proof {
                cur = next;
                lemma_dep_after(es0, es_in, es_before, self@, q, deps@, i as int, idx as int, name);
            }
            match r {
                Ok(()) => {},
                Err(e) => {
                    path.pop();
                    proof {
                        assert(path@ =~= old(path)@);
                        assert forall|k: int| 0 <= k < old(path)@.len() implies !visited_in(
                            self@,
                            #[trigger] old(path)@[k],
                        ) by {
                            assert(q[k] == old(path)@[k]);
                        }
                    }
                    return (Err(e), Ghost(cur));
                },
            }
            i = i + 1;
        }
        path.pop();
        proof {
            assert(path@ =~= old(path)@);
        }
        let ghost es_pre = self@;
        self.entries[idx].visited = true;
        proof {
            let es = self@;
            assert(es == es_pre.update(idx as int, ModuleEntry { visited: true, ..es_pre[idx as int] }));
            let (m0, c0) = cur;
            assert forall|d: Symbol| es_pre[idx as int].imports@.contains(d) implies visited_in(es_pre, d) by {
                let k = choose|k: int| 0 <= k < deps@.len() && deps@[k] == d;
                assert(visited_in(es_pre, deps@[k]));
            }
            lemma_only_visits_keeps(es0, es_in, name);
            lemma_only_visits_trans(es0, es_in, es_pre);
            lemma_mark_visited(es0, es_in, es_pre, es, idx as int, name, m0, c0, old(path)@);
            cur = (m0.insert(name, c0), c0 + 1);
        }
        (Ok(()), Ghost(cur))
    }

    /// Runs the phase 0 body of `name`, which must have been visited.
    pub fn instantiate(&mut self, name: Symbol) -> (res: Result<(), String>)
        requires
            old(self).wf(),
        ensures
            final(self).wf(),
            !declared(old(self)@, name) ==> res is Err && res->Err_0@ == undeclared_message(name)
                && final(self)@ == old(self)@,
            declared(old(self)@, name) && !visited_in(old(self)@, name) ==> res is Err
                && res->Err_0@ == "模块（Symbol "@ + dec(name.0 as nat)
                + "）未 visit 即 instantiate——相位违规"@ && final(self)@ == old(self)@,
            visited_in(old(self)@, name) ==> res is Ok && final(self)@ == old(self)@.update(
                index_of(old(self)@, name),
                ModuleEntry { instantiated: true, ..old(self)@[index_of(old(self)@, name)] },
            ),
    {
        match self.find_index(name) {
            None => {
                let mut msg = String::new();
                push_str(&mut msg, "未声明的模块（Symbol ");
                push_dec(&mut msg, name.0 as u64);
                push_str(&mut msg, "）");
                Err(msg)
            },
            Some(i) => {
                if !self.entries[i].visited {
                    let mut msg = String::new();
                    push_str(&mut msg, "模块（Symbol ");
                    push_dec(&mut msg, name.0 as u64);
                    push_str(&mut msg, "）未 visit 即 instantiate——相位违规");
                    return Err(msg);
                }
                let ghost old_es = self@;
                self.entries[i].instantiated = true;
                proof {
                    let es = self@;
                    assert(es =~= old_es.update(
                        i as int,
                        ModuleEntry { instantiated: true, ..old_es[i as int] },
                    ));
                    assert forall|k: int, d: Symbol|
                        0 <= k < es.len() && es[k].visited && #[trigger] es[k].imports@.contains(d)
                            implies visited_in(es, d) by {
                        assert(old_es[k].visited);
                        let kd = index_of(old_es, d);
                        assert(es[kd].name == d);
                        lemma_index_of(es, kd);
                    }
                    assert(names_distinct(es)) by {
                        assert forall|a: int, b: int|
                            0 <= a < es.len() && 0 <= b < es.len() && a != b implies es[a].name
                            != es[b].name by {
                            assert(es[a].name == old_es[a].name);
                            assert(es[b].name == old_es[b].name);
                        }
                    }
                }
                Ok(())
            },
        }
    }

    /// Number of declared modules not yet instantiated.
    pub fn pending_instantiations(&self) -> (n: usize)
        ensures
            n == self@.filter(|e: ModuleEntry| !e.instantiated).len(),
    {
        let mut n: usize = 0;
        let mut i: usize = 0;
        while i < self.entries.len()
            invariant
                0 <= i <= self@.len(),
                self@ == self.entries@,
                n == self@.subrange(0, i as int).filter(|e: ModuleEntry| !e.instantiated).len(),
                n <= i,
            decreases self@.len() - i,
        {
            proof {
                let s = self@.subrange(0, i + 1);
                assert(s.drop_last() =~= self@.subrange(0, i as int));
                reveal_with_fuel(Seq::<ModuleEntry>::filter, 1);
            }
            if !self.entries[i].instantiated {
                n = n + 1;
            }
            i = i + 1;
        }
        proof {
            assert(self@.subrange(0, i as int) =~= self@);
        }
        n
    }
}

impl Default for ModuleRegistry {
    fn default() -> (r: ModuleRegistry)
        ensures
            r.wf(),
            r@.len() == 0,
    {
        ModuleRegistry::new()
    }
}

/// Marking module `name` (entry `idx`) visited once all its imports are
/// visited keeps the invariant, stamps it after its imports, and leaves the
/// other modules as they were.
proof fn lemma_mark_visited(
    es0: Seq<ModuleEntry>,
    es_in: Seq<ModuleEntry>,
    es_pre: Seq<ModuleEntry>,
    es: Seq<ModuleEntry>,
    idx: int,
    name: Symbol,
    m0: Map<Symbol, nat>,
    c0: nat,
    p: Seq<Symbol>,
)
    requires
        names_distinct(es0),
        only_visits(es0, es_pre),
        only_visits(es_in, es_pre),
        registry_wf(es_pre),
        0 <= idx < es_pre.len(),
        es_pre[idx].name == name,
        !es_pre[idx].visited,
        !visited_in(es0, name),
        es == es_pre.update(idx, ModuleEntry { visited: true, ..es_pre[idx] }),
        forall|d: Symbol| es_pre[idx].imports@.contains(d) ==> visited_in(es_pre, d),
        stamps_ok(es0, es_pre, m0, c0),
        forall|k: int| 0 <= k < p.len() ==> #[trigger] p[k] != name,
        forall|k: int| 0 <= k < p.len() ==> !visited_in(es_pre, #[trigger] p[k]),
    ensures
        registry_wf(es),
        only_visits(es_pre, es),
        only_visits(es_in, es),
        visited_in(es, name),
        stamps_ok(es0, es, m0.insert(name, c0), c0 + 1),
        forall|k: int| 0 <= k < p.len() ==> !visited_in(es, #[trigger] p[k]),
{
    reveal(stamps_ok);
    lemma_index_of(es_pre, idx);
    assert(only_visits(es_pre, es));
    lemma_only_visits_trans(es_in, es_pre, es);
    lemma_only_visits_keeps(es_pre, es, name);
    assert forall|m: Symbol| declared(es_pre, m) && m != name implies (visited_in(es, m)
        == visited_in(es_pre, m) && imports_in(es, m) == imports_in(es_pre, m)) by {
        lemma_only_visits_keeps(es_pre, es, m);
        assert(index_of(es_pre, m) != idx);
    }
    assert forall|i: int, d: Symbol|
        0 <= i < es.len() && es[i].visited && #[trigger] es[i].imports@.contains(d) implies visited_in(
        es,
        d,
    ) by {
        if i == idx {
            assert(visited_in(es_pre, d));
        } else {
            assert(es[i] == es_pre[i]);
            assert(visited_in(es_pre, d));
        }
        lemma_only_visits_keeps(es_pre, es, d);
    }
    assert forall|i: int| 0 <= i < es.len() && (#[trigger] es[i]).instantiated implies es[i].visited by {
        if i != idx {
            assert(es[i] == es_pre[i]);
        }
    }
    let st = m0.insert(name, c0);
    assert forall|m: Symbol| #[trigger] visited_in(es, m) && !visited_in(es0, m) implies {
        &&& st.contains_key(m)
        &&& st[m] < c0 + 1
        &&& forall|d: Symbol|
            #![trigger imports_in(es, m).contains(d)]
            imports_in(es, m).contains(d) ==> visited_in(es0, d) || (st.contains_key(d) && st[d]
                < st[m])
    } by {
        if m == name {
            assert forall|d: Symbol| #[trigger] imports_in(es, m).contains(d) implies visited_in(es0, d)
                || (st.contains_key(d) && st[d] < st[m]) by {
                assert(imports_in(es, m) == es_pre[idx].imports@);
                assert(visited_in(es_pre, d));
                if d == name {
                    assert(false);
                }
                assert(visited_in(es_pre, d));
            }
        } else {
            assert(visited_in(es_pre, m));
            assert forall|d: Symbol| #[trigger] imports_in(es, m).contains(d) implies visited_in(es0, d)
                || (st.contains_key(d) && st[d] < st[m]) by {
                assert(imports_in(es_pre, m).contains(d));
                let i = index_of(es_pre, m);
                assert(es_pre[i].imports@.contains(d));
                assert(visited_in(es_pre, d));
                if d == name {
                    assert(false);
                }
            }
        }
    }
    assert forall|k: int| 0 <= k < p.len() implies !visited_in(es, #[trigger] p[k]) by {
        if declared(es_pre, p[k]) {
            assert(p[k] != name);
        } else {
            lemma_only_visits_keeps(es_pre, es, p[k]);
        }
    }
}

/// A completed visit leaves no open path from its module that reaches an
/// undeclared module or closes a cycle: the whole path is visited, and a
/// cycle of newly visited modules would need ever-decreasing stamps.
proof fn lemma_visit_ok_not_fails(
    es0: Seq<ModuleEntry>,
    es: Seq<ModuleEntry>,
    name: Symbol,
    st: Map<Symbol, nat>,
    cnt: nat,
)
    requires
        names_distinct(es0),
        registry_wf(es),
        only_visits(es0, es),
        stamps_ok(es0, es, st, cnt),
        visited_in(es, name),
    ensures
        !visit_fails(es0, name),
{
    reveal(open_path);
    if visit_fails(es0, name) {
        let q = choose|q: Seq<Symbol>|
            #![trigger open_path(es0, q)]
            q[0] == name && open_path(es0, q) && bad_end(es0, q);
        assert forall|k: int| 0 <= k < q.len() implies #[trigger] visited_in(es, q[k]) by {
            lemma_path_visited(es0, es, q, k);
        }
        lemma_only_visits_keeps(es0, es, q.last());
        assert(visited_in(es, q[q.len() - 1]));
        assert(declared(es0, q.last()));
        let i = choose|i: int| 0 <= i < q.len() - 1 && q[i] == q.last();
        assert forall|k: int| i <= k < q.len() implies !visited_in(es0, #[trigger] q[k]) by {
            if k == q.len() - 1 {
                assert(q[k] == q[i]);
            }
        }
        lemma_stamps_decrease(es0, es, st, cnt, q, i, q.len() - 1);
        assert(false);
    }
}

/// Every module along an open path from a visited module is visited, in
/// a registry whose visited modules have visited imports.
proof fn lemma_path_visited(es0: Seq<ModuleEntry>, es: Seq<ModuleEntry>, q: Seq<Symbol>, k: int)
    requires
        names_distinct(es0),
        only_visits(es0, es),
        open_path(es0, q),
        visited_in(es, q[0]),
        registry_wf(es),
        0 <= k < q.len(),
    ensures
        visited_in(es, q[k]),
    decreases k,
{
    reveal(open_path);
    if k > 0 {
        lemma_path_visited(es0, es, q, k - 1);
        let m = q[k - 1];
        lemma_only_visits_keeps(es0, es, m);
        assert(imports_in(es0, m).contains(q[k]));
        let i = index_of(es, m);
        assert(es[i].imports@.contains(q[k]));
    }
}

proof fn lemma_pending_shrinks(
    es_in: Seq<ModuleEntry>,
    es: Seq<ModuleEntry>,
    path: Seq<Symbol>,
    name: Symbol,
    idx: int,
)
    requires
        only_visits(es_in, es),
        0 <= idx < es.len(),
        es_in[idx].name == name,
        !es[idx].visited,
        !path.contains(name),
    ensures
        pending(es, path.push(name)).len() < pending(es_in, path).len(),
        pending(es, path.push(name)).finite(),
{
    let a = pending(es, path.push(name));
    let b = pending(es_in, path);
    lemma_int_range(0, es_in.len() as int);
    assert(b.subset_of(set_int_range(0, es_in.len() as int)));
    lemma_len_subset(b, set_int_range(0, es_in.len() as int));
    assert(a.subset_of(b.remove(idx))) by {
        assert forall|i: int| a.contains(i) implies b.remove(idx).contains(i) by {
            assert(!es[i].visited);
            assert(!es_in[i].visited);
            assert(es[i].name == es_in[i].name);
            if i == idx {
                assert(path.push(name).contains(name)) by {
                    assert(path.push(name)[path.len() as int] == name);
                }
            }
            if path.contains(es_in[i].name) {
                let k = choose|k: int| 0 <= k < path.len() && path[k] == es_in[i].name;
                assert(path.push(name)[k] == es_in[i].name);
            }
        }
    }
    assert(b.contains(idx)) by {
        assert(!es_in[idx].visited);
    }
    lemma_len_subset(a, b.remove(idx));
}

/// Before visiting import `dep` of `name`: the path extended by `dep` is
/// still open, and fewer unvisited modules lie off the path.
proof fn lemma_dep_before(
    es0: Seq<ModuleEntry>,
    es_in: Seq<ModuleEntry>,
    es: Seq<ModuleEntry>,
    p: Seq<Symbol>,
    name: Symbol,
    idx: int,
    dep: Symbol,
)
    requires
        names_distinct(es0),
        only_visits(es0, es_in),
        only_visits(es_in, es),
        registry_wf(es),
        0 <= idx < es.len(),
        es[idx].name == name,
        !es[idx].visited,
        es_in[idx].imports@.contains(dep),
        open_path(es0, p.push(name)),
        !p.contains(name),
    ensures
        only_visits(es0, es),
        imports_in(es, p.push(name).last()).contains(dep),
        open_path(es0, p.push(name).push(dep)),
        pending(es, p.push(name)).len() < pending(es_in, p).len(),
{
    reveal(open_path);
    let q = p.push(name);
    lemma_only_visits_trans(es0, es_in, es);
    assert(es_in[idx].name == name) by {
        assert(es[idx].name == es_in[idx].name);
    }
    lemma_index_of(es, idx);
    assert(es[idx].imports@ == es_in[idx].imports@);
    assert(q.last() == name);
    lemma_only_visits_keeps(es0, es, name);
    let qq = q.push(dep);
    assert forall|jj: int| 0 <= jj < qq.len() - 1 implies declared(es0, #[trigger] qq[jj])
        && !visited_in(es0, qq[jj]) && imports_in(es0, qq[jj]).contains(qq[jj + 1]) by {
        if jj < q.len() - 1 {
            assert(qq[jj] == q[jj] && qq[jj + 1] == q[jj + 1]);
        } else {
            assert(qq[jj] == name);
            assert(qq[jj + 1] == dep);
            assert(q[jj] == name);
            assert(declared(es, name));
            assert(!visited_in(es, name));
            assert(!visited_in(es0, name));
        }
    }
    lemma_pending_shrinks(es_in, es, p, name, idx);
}

/// After visiting an import of `name` successfully or not: the changes are
/// only visits, and the modules on the path, `name` among them, are still
/// unvisited.
proof fn lemma_dep_after(
    es0: Seq<ModuleEntry>,
    es_in: Seq<ModuleEntry>,
    es_before: Seq<ModuleEntry>,
    es: Seq<ModuleEntry>,
    q: Seq<Symbol>,
    deps: Seq<Symbol>,
    i: int,
    idx: int,
    name: Symbol,
)
    requires
        registry_wf(es_before),
        only_visits(es_in, es_before),
        only_visits(es_before, es),
        0 <= i,
        forall|k: int| 0 <= k < i ==> visited_in(es_before, #[trigger] deps[k]),
        forall|k: int| 0 <= k < q.len() ==> declared(es_before, #[trigger] q[k]),
        forall|k: int| 0 <= k < q.len() ==> !visited_in(es, #[trigger] q[k]),
        q.len() > 0,
        q.last() == name,
        0 <= idx < es_before.len(),
        es_before[idx].name == name,
    ensures
        only_visits(es_in, es),
        forall|k: int| 0 <= k < i ==> visited_in(es, #[trigger] deps[k]),
        forall|k: int|
            0 <= k < q.len() ==> declared(es, #[trigger] q[k]) && !visited_in(es, q[k]),
        es[idx].name == name,
        !es[idx].visited,
{
    lemma_only_visits_trans(es_in, es_before, es);
    assert forall|k: int| 0 <= k < i implies visited_in(es, #[trigger] deps[k]) by {
        lemma_only_visits_keeps(es_before, es, deps[k]);
    }
    assert forall|k: int| 0 <= k < q.len() implies declared(es, #[trigger] q[k]) && !visited_in(
        es,
        q[k],
    ) by {
        lemma_only_visits_keeps(es_before, es, q[k]);
    }
    lemma_index_of(es_before, idx);
    lemma_only_visits_keeps(es_before, es, name);
    assert(!visited_in(es, q[q.len() - 1]));
}

} // verus!
