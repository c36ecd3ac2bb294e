//! Final names: the display name of a key, and how a name that is already
//! taken is told apart.
//!
//! A key shows as the text after its last `__`, or as the whole key where it
//! has no `__` or nothing follows it. Keys are named in the order of the
//! table. A key gets its display name if no earlier name equals it. Otherwise
//! it gets the display name, a `_` and the text before that last `__`; while
//! that is taken too, one more `_` is appended.

use vstd::prelude::*;
use crate::text::{chars_of, contains_text, deep};

verus! {

/// Whether a `__` starts at position `i` of `key`.
pub open spec fn separator_at(key: Seq<char>, i: int) -> bool {
    0 <= i && i + 1 < key.len() && key[i] == '_' && key[i + 1] == '_'
}

/// The last position at or before `i` where a `__` starts, or -1.
pub open spec fn separator_upto(key: Seq<char>, i: int) -> int
    decreases i + 1,
{
    if i < 0 {
        -1
    } else if separator_at(key, i) {
        i
    } else {
        separator_upto(key, i - 1)
    }
}

/// Where the display name of `key` starts.
pub open spec fn display_start(key: Seq<char>) -> int {
    let s = separator_upto(key, key.len() - 2);
    if s >= 0 && s + 2 < key.len() {
        s + 2
    } else {
        0
    }
}

/// The display name of `key`.
pub open spec fn display_of(key: Seq<char>) -> Seq<char> {
    key.skip(display_start(key))
}

/// The namespace of `key`: what stands before the `__` that separates it
/// from the display name; empty where the display name is the whole key.
pub open spec fn namespace_of(key: Seq<char>) -> Seq<char> {
    if display_start(key) == 0 {
        Seq::empty()
    } else {
        key.take(display_start(key) - 2)
    }
}

/// The name tried second for `key`: display name, `_`, namespace.
pub open spec fn qualified_of(key: Seq<char>) -> Seq<char> {
    display_of(key).push('_') + namespace_of(key)
}

/// The length of the longest text in `used`.
pub open spec fn longest(used: Seq<Seq<char>>) -> nat
    decreases used.len(),
{
    if used.len() == 0 {
        0
    } else if used.last().len() > longest(used.drop_last()) {
        used.last().len()
    } else {
        longest(used.drop_last())
    }
}

/// No text in `used` is longer than `longest(used)`.
pub proof fn lemma_longest(used: Seq<Seq<char>>, name: Seq<char>)
    requires
        used.contains(name),
    ensures
        name.len() <= longest(used),
    decreases used.len(),
{
    if used.last() != name {
        let i = choose|i: int| 0 <= i < used.len() && used[i] == name;
        assert(used.drop_last()[i] == name);
        lemma_longest(used.drop_last(), name);
    }
}

/// The first of `candidate`, `candidate_`, `candidate__`, ... that is not in
/// `used`.
pub open spec fn fresh(used: Seq<Seq<char>>, candidate: Seq<char>) -> Seq<char>
    decreases longest(used) + 1 - candidate.len(),
    via fresh_decreases
{
    if used.contains(candidate) {
        fresh(used, candidate.push('_'))
    } else {
        candidate
    }
}

#[via_fn]
proof fn fresh_decreases(used: Seq<Seq<char>>, candidate: Seq<char>) {
    if used.contains(candidate) {
        lemma_longest(used, candidate);
    }
}

/// A fresh name is not among the used ones.
pub proof fn lemma_fresh(used: Seq<Seq<char>>, candidate: Seq<char>)
    ensures
        !used.contains(fresh(used, candidate)),
    decreases longest(used) + 1 - candidate.len(),
{
    if used.contains(candidate) {
        lemma_longest(used, candidate);
        lemma_fresh(used, candidate.push('_'));
    }
}

/// The final name of `key` where the names in `used` are taken.
pub open spec fn assign(used: Seq<Seq<char>>, key: Seq<char>) -> Seq<char> {
    if used.contains(display_of(key)) {
        fresh(used, qualified_of(key))
    } else {
        display_of(key)
    }
}

/// The final names of the first `n` keys of `keys`, in the order of the keys.
pub open spec fn names_upto(keys: Seq<Seq<char>>, n: int) -> Seq<Seq<char>>
    decreases n,
{
    if n <= 0 {
        Seq::empty()
    } else {
        let earlier = names_upto(keys, n - 1);
        earlier.push(assign(earlier, keys[n - 1]))
    }
}

/// The final names of `keys`, in the order of the keys.
pub open spec fn final_names(keys: Seq<Seq<char>>) -> Seq<Seq<char>> {
    names_upto(keys, keys.len() as int)
}

/// There is one final name for each key, and no final name is given twice.
pub proof fn lemma_names_upto(keys: Seq<Seq<char>>, n: int)
    requires
        0 <= n <= keys.len(),
    ensures
        names_upto(keys, n).len() == n,
        names_upto(keys, n).no_duplicates(),
    decreases n,
{
    if n > 0 {
        lemma_names_upto(keys, n - 1);
        lemma_fresh(names_upto(keys, n - 1), qualified_of(keys[n - 1]));
    }
}

/// The final names depend on the keys before them only: they are those of
/// the shorter table, followed by the names of the later keys.
pub proof fn lemma_names_prefix(keys: Seq<Seq<char>>, n: int, m: int)
    requires
        0 <= n <= m <= keys.len(),
    ensures
        names_upto(keys, n) == names_upto(keys, m).take(n),
    decreases m,
{
    lemma_names_upto(keys, n);
    lemma_names_upto(keys, m);
    if n < m {
        lemma_names_prefix(keys, n, m - 1);
        lemma_names_upto(keys, m - 1);
        assert(names_upto(keys, m).take(n) =~= names_upto(keys, m - 1).take(n));
    } else {
        assert(names_upto(keys, m).take(n) =~= names_upto(keys, n));
    }
}

/// Where the display name of `key` starts, counted in characters.
fn find_display_start(key: &Vec<char>) -> (r: usize)
    ensures
        r == display_start(key@),
        r <= key.len(),
{
    if key.len() < 2 {
        assert(separator_upto(key@, key.len() - 2) == -1) by {
            reveal_with_fuel(separator_upto, 2);
        }
        return 0;
    }
    let mut i: usize = key.len() - 1;
    while i > 0
        invariant
            i < key.len(),
            separator_upto(key@, key.len() - 2) == separator_upto(key@, i - 1),
        decreases i,
    {
        if key[i - 1] == '_' && key[i] == '_' {
            assert(separator_at(key@, i - 1));
            if i + 1 < key.len() {
                return i + 1;
            } else {
                return 0;
            }
        }
        i -= 1;
    }
    0
}

/// The display name of `key`.
pub fn display_name(key: &str) -> (r: String)
    ensures
        r@ == display_of(key@),
{
    let chars = chars_of(key);
    let start = find_display_start(&chars);
    let r = String::from_str(key.substring_char(start, chars.len()));
    assert(r@ =~= display_of(key@));
    r
}

/// The name tried for `key` where its display name is taken.
pub fn qualified_name(key: &str) -> (r: String)
    ensures
        r@ == qualified_of(key@),
{
    let chars = chars_of(key);
    let start = find_display_start(&chars);
    let mut r = String::from_str(key.substring_char(start, chars.len()));
    r.append("_");
    if start > 0 {
        r.append(key.substring_char(0, start - 2));
    }
    proof {
        reveal_strlit("_");
        assert("_"@ =~= seq!['_']);
        assert(r@ =~= qualified_of(key@));
    }
    r
}

/// The first of `candidate`, `candidate_`, ... that `used` does not hold.
pub fn fresh_name(used: &Vec<String>, candidate: String) -> (r: String)
    ensures
        r@ == fresh(deep(used@), candidate@),
        !deep(used@).contains(r@),
{
    let mut name = candidate;
    while contains_text(used, name.as_str())
        invariant
            fresh(deep(used@), name@) == fresh(deep(used@), candidate@),
        decreases longest(deep(used@)) + 1 - name@.len(),
    {
        proof {
            lemma_longest(deep(used@), name@);
            reveal_strlit("_");
            assert(name@ + "_"@ =~= name@.push('_'));
        }
        name.append("_");
    }
    name
}

/// The final name of `key` where the names in `used` are taken.
pub fn assign_name(used: &Vec<String>, key: &str) -> (r: String)
    ensures
        r@ == assign(deep(used@), key@),
        !deep(used@).contains(r@),
{
    let display = display_name(key);
    if contains_text(used, display.as_str()) {
        fresh_name(used, qualified_name(key))
    } else {
        display
    }
}

} // verus!
