//! The string and character builtins of the runtime, on plain text.
//! Positions and lengths count characters.
use vstd::prelude::*;

use crate::text::{chars_of, dec, dec_int, push_dec, push_dec_i64, push_str, string_of, string_of_range};

verus! {

/// The number of characters of `s`.
pub fn string_length(s: &str) -> (n: usize)
    ensures
        n == s@.len(),
{
    chars_of(s).len()
}

/// The message for substring bounds outside the text.
pub open spec fn substring_bounds_message(start: i64, end: i64, len: nat) -> Seq<char> {
    "string-substring 索引越界："@ + dec_int(start as int) + ".."@ + dec_int(end as int) + "（长度 "@ + dec(len)
        + "）"@
}

/// The characters of `s` from `start` up to `end`, or the bounds error
/// when `0 <= start <= end <= length` fails.
pub fn string_substring(s: &str, start: i64, end: i64) -> (r: Result<String, String>)
    ensures
        0 <= start <= end <= s@.len() ==> (r matches Ok(t) && t@ == s@.subrange(start as int, end as int)),
        !(0 <= start <= end <= s@.len()) ==> (r matches Err(m) && m@ == substring_bounds_message(
            start,
            end,
            s@.len(),
        )),
{
    let cs = chars_of(s);
    let len = cs.len();
    if start < 0 || end < start || end as i128 > len as i128 {
        let mut m = string_of("string-substring 索引越界：");
        push_dec_i64(&mut m, start);
        push_str(&mut m, "..");
        push_dec_i64(&mut m, end);
        push_str(&mut m, "（长度 ");
        push_dec(&mut m, len as u64);
        push_str(&mut m, "）");
        proof {
            assert(m@ =~= substring_bounds_message(start, end, s@.len()));
        }
        return Err(m);
    }
    Ok(string_of_range(&cs, start as usize, end as usize))
}

/// `t` occurs in `s` starting at character `i`.
pub open spec fn occurs_at(s: Seq<char>, t: Seq<char>, i: int) -> bool {
    0 <= i && i + t.len() <= s.len() && s.subrange(i, i + t.len()) == t
}

/// The first position, from `i` on, at which `t` occurs in `s`.
pub open spec fn first_occurrence_from(s: Seq<char>, t: Seq<char>, i: int) -> Option<int>
    decreases s.len() + 1 - i,
{
    if i < 0 || i + t.len() > s.len() {
        None
    } else if occurs_at(s, t, i) {
        Some(i)
    } else {
        first_occurrence_from(s, t, i + 1)
    }
}

fn occurs_at_exec(s: &Vec<char>, t: &Vec<char>, i: usize) -> (b: bool)
    requires
        i + t@.len() <= s@.len(),
    ensures
        b == occurs_at(s@, t@, i as int),
{
    let n = s.len();
    let mut k: usize = 0;
    while k < t.len()
        invariant
            k <= t@.len(),
            n == s@.len(),
            i + t@.len() <= s@.len(),
            forall|j: int| 0 <= j < k ==> s@[i + j] == t@[j],
        decreases t@.len() - k,
    {
        if s[i + k] != t[k] {
            proof {
                assert(s@.subrange(i as int, i + t@.len())[k as int] != t@[k as int]);
            }
            return false;
        }
        k = k + 1;
    }
    proof {
        assert(s@.subrange(i as int, i + t@.len()) =~= t@);
    }
    true
}

/// The position of the first occurrence of `sub` in `s`, if any.
pub fn string_index_of(s: &str, sub: &str) -> (r: Option<usize>)
    ensures
        r == match first_occurrence_from(s@, sub@, 0) {
            Some(i) => Some(i as usize),
            None => None::<usize>,
        },
        r matches Some(i) ==> i <= s@.len(),
{
    let cs = chars_of(s);
    let ts = chars_of(sub);
    if ts.len() > cs.len() {
        return None;
    }
    let last = cs.len() - ts.len();
    let mut i: usize = 0;
    loop
        invariant
            last + ts@.len() == cs@.len(),
            cs@ == s@,
            ts@ == sub@,
            i <= last,
            first_occurrence_from(s@, sub@, 0) == first_occurrence_from(s@, sub@, i as int),
        decreases last - i,
    {
        if occurs_at_exec(&cs, &ts, i) {
            return Some(i);
        }
        if i == last {
            return None;
        }
        i = i + 1;
    }
}

/// Whether `sub` occurs somewhere in `s`.
pub fn string_contains(s: &str, sub: &str) -> (b: bool)
    ensures
        b == (exists|i: int| #[trigger] occurs_at(s@, sub@, i)),
{
    let r = string_index_of(s, sub);
    proof {
        lemma_first_occurrence(s@, sub@, 0);
    }
    r.is_some()
}

proof fn lemma_first_occurrence(s: Seq<char>, t: Seq<char>, i: int)
    requires
        0 <= i,
    ensures
        first_occurrence_from(s, t, i) matches Some(j) ==> occurs_at(s, t, j),
        first_occurrence_from(s, t, i) is None ==> forall|j: int| i <= j ==> !#[trigger] occurs_at(s, t, j),
    decreases s.len() + 1 - i,
{
    if i + t.len() <= s.len() && !occurs_at(s, t, i) {
        lemma_first_occurrence(s, t, i + 1);
    }
}

/// Whether `s` starts with `pre`.
pub fn string_starts_with(s: &str, pre: &str) -> (b: bool)
    ensures
        b == occurs_at(s@, pre@, 0),
{
    let cs = chars_of(s);
    let ps = chars_of(pre);
    if ps.len() > cs.len() {
        return false;
    }
    occurs_at_exec(&cs, &ps, 0)
}

/// Whether `s` ends with `suf`.
pub fn string_ends_with(s: &str, suf: &str) -> (b: bool)
    ensures
        b == occurs_at(s@, suf@, s@.len() - suf@.len()),
{
    let cs = chars_of(s);
    let ps = chars_of(suf);
    if ps.len() > cs.len() {
        return false;
    }
    occurs_at_exec(&cs, &ps, cs.len() - ps.len())
}

/// The character of a one-character text, or `None`.
pub fn single_char(s: &str) -> (c: Option<char>)
    ensures
        c == (if s@.len() == 1 {
            Some(s@[0])
        } else {
            None::<char>
        }),
{
    let cs = chars_of(s);
    if cs.len() == 1 {
        Some(cs[0])
    } else {
        None
    }
}

} // verus!
