//! Byte-level scanning: substring matching and searching within a line.

use vstd::prelude::*;

verus! {

/// Whether `pat` occurs in `t` starting exactly at index `i`.
pub open spec fn match_at(t: Seq<u8>, i: int, pat: Seq<u8>) -> bool {
    0 <= i && i + pat.len() <= t.len() && t.subrange(i, i + pat.len()) == pat
}

/// The least index `j >= from` with `t[j] == b`, if any.
pub open spec fn find_byte(t: Seq<u8>, b: u8, from: int) -> Option<int>
    decreases t.len() - from,
{
    if from < 0 || from >= t.len() {
        None
    } else if t[from] == b {
        Some(from)
    } else {
        find_byte(t, b, from + 1)
    }
}

/// The least index `j >= from` at which `pat` occurs in `t`, if any.
pub open spec fn find_pat(t: Seq<u8>, pat: Seq<u8>, from: int) -> Option<int>
    decreases t.len() - from,
{
    if from < 0 || from + pat.len() > t.len() {
        None
    } else if pat.len() == 0 {
        Some(from)
    } else if match_at(t, from, pat) {
        Some(from)
    } else {
        find_pat(t, pat, from + 1)
    }
}

/// A byte that may be part of a word: an ASCII letter, digit or underscore.
pub open spec fn is_word_byte(b: u8) -> bool {
    (97 <= b && b <= 122) || (65 <= b && b <= 90) || (48 <= b && b <= 57) || b == 95
}

/// The length of the longest run of word bytes in `t` starting at `from`.
pub open spec fn word_run(t: Seq<u8>, from: int) -> int
    decreases t.len() - from,
{
    if from < 0 || from >= t.len() || !is_word_byte(t[from]) {
        0
    } else {
        1 + word_run(t, from + 1)
    }
}

/// What `find_byte` returns: the first occurrence of `b` at or after `from`,
/// or nothing when no such occurrence exists.
pub proof fn lemma_find_byte_spec(t: Seq<u8>, b: u8, from: int)
    requires
        0 <= from,
    ensures
        match find_byte(t, b, from) {
            Some(j) => from <= j < t.len() && t[j] == b && (forall|k: int|
                from <= k < j ==> t[k] != b),
            None => forall|k: int| from <= k < t.len() ==> t[k] != b,
        },
    decreases t.len() - from,
{
    if from >= t.len() {
    } else if t[from] == b {
    } else {
        lemma_find_byte_spec(t, b, from + 1);
    }
}

/// What `find_pat` returns for a nonempty pattern: the first index at or after
/// `from` where the pattern occurs, or nothing when it occurs nowhere.
pub proof fn lemma_find_pat_spec(t: Seq<u8>, pat: Seq<u8>, from: int)
    requires
        0 <= from,
        pat.len() > 0,
    ensures
        match find_pat(t, pat, from) {
            Some(j) => from <= j && j + pat.len() <= t.len() && match_at(t, j, pat) && (forall|
                k: int,
            |
                from <= k < j ==> !match_at(t, k, pat)),
            None => forall|k: int| from <= k ==> !match_at(t, k, pat),
        },
    decreases t.len() - from,
{
    if from + pat.len() > t.len() {
    } else if match_at(t, from, pat) {
    } else {
        lemma_find_pat_spec(t, pat, from + 1);
    }
}

/// Bounds of `word_run`: it stays within the sequence, covers only word bytes,
/// and is maximal.
pub proof fn lemma_word_run_spec(t: Seq<u8>, from: int)
    requires
        0 <= from <= t.len(),
    ensures
        0 <= word_run(t, from),
        from + word_run(t, from) <= t.len(),
        forall|k: int| from <= k < from + word_run(t, from) ==> is_word_byte(t[k]),
        from + word_run(t, from) == t.len() || !is_word_byte(t[from + word_run(t, from)]),
    decreases t.len() - from,
{
    if from < t.len() && is_word_byte(t[from]) {
        lemma_word_run_spec(t, from + 1);
    }
}

/// Whether two byte slices hold the same bytes.
#[verifier::loop_isolation(false)]
pub fn bytes_eq(a: &[u8], b: &[u8]) -> (r: bool)
    ensures
        r == (a@ == b@),
{
    if a.len() != b.len() {
        return false;
    }
    let mut i: usize = 0;
    while i < a.len()
        invariant
            a@.len() == b@.len(),
            i <= a@.len(),
            forall|k: int| 0 <= k < i ==> a@[k] == b@[k],
        decreases a@.len() - i,
    {
        if a[i] != b[i] {
            return false;
        }
        i = i + 1;
    }
    proof {
        assert(a@ =~= b@);
    }
    true
}

/// Whether a byte vector contains a byte.
#[verifier::loop_isolation(false)]
pub fn contains_byte(v: &Vec<u8>, b: u8) -> (r: bool)
    ensures
        r == v@.contains(b),
{
    let mut i: usize = 0;
    while i < v.len()
        invariant
            i <= v@.len(),
            forall|k: int| 0 <= k < i ==> v@[k] != b,
        decreases v@.len() - i,
    {
        if v[i] == b {
            assert(v@[i as int] == b);
            return true;
        }
        i = i + 1;
    }
    false
}

/// Executable form of [`match_at`].
#[verifier::loop_isolation(false)]
pub fn match_at_exec(t: &[u8], i: usize, pat: &[u8]) -> (r: bool)
    ensures
        r == match_at(t@, i as int, pat@),
{
    if pat.len() > t.len() || i > t.len() - pat.len() {
        return false;
    }
    let mut k: usize = 0;
    while k < pat.len()
        invariant
            i + pat@.len() <= t@.len(),
            k <= pat@.len(),
            forall|j: int| 0 <= j < k ==> t@[i + j] == pat@[j],
        decreases pat@.len() - k,
    {
        if t[i + k] != pat[k] {
            proof {
                assert(t@.subrange(i as int, i + pat@.len())[k as int] == t@[i + k]);
            }
            return false;
        }
        k = k + 1;
    }
    proof {
        assert(t@.subrange(i as int, i + pat@.len()) =~= pat@);
    }
    true
}

/// Executable form of [`find_byte`].
#[verifier::loop_isolation(false)]
pub fn find_byte_exec(t: &[u8], b: u8, from: usize) -> (r: Option<usize>)
    ensures
        match r {
            Some(j) => find_byte(t@, b, from as int) == Some(j as int),
            None => find_byte(t@, b, from as int) is None,
        },
{
    let mut i: usize = from;
    while i < t.len()
        invariant
            from <= i,
            find_byte(t@, b, from as int) == find_byte(t@, b, i as int),
        decreases t@.len() - i,
    {
        if t[i] == b {
            return Some(i);
        }
        i = i + 1;
    }
    None
}

/// Executable form of [`find_pat`] for a nonempty pattern.
#[verifier::loop_isolation(false)]
pub fn find_pat_exec(t: &[u8], pat: &[u8], from: usize) -> (r: Option<usize>)
    requires
        pat@.len() > 0,
    ensures
        match r {
            Some(j) => find_pat(t@, pat@, from as int) == Some(j as int),
            None => find_pat(t@, pat@, from as int) is None,
        },
{
    let mut i: usize = from;
    while i < t.len()
        invariant
            pat@.len() > 0,
            from <= i,
            find_pat(t@, pat@, from as int) == find_pat(t@, pat@, i as int),
        decreases t@.len() - i,
    {
        if match_at_exec(t, i, pat) {
            return Some(i);
        }
        i = i + 1;
    }
    None
}

/// Executable form of [`is_word_byte`].
pub fn is_word_byte_exec(b: u8) -> (r: bool)
    ensures
        r == is_word_byte(b),
{
    (97 <= b && b <= 122) || (65 <= b && b <= 90) || (48 <= b && b <= 57) || b == 95
}

/// Executable form of [`word_run`].
#[verifier::loop_isolation(false)]
pub fn word_run_exec(t: &[u8], from: usize) -> (r: usize)
    requires
        from <= t@.len(),
    ensures
        r as int == word_run(t@, from as int),
        from + r <= t@.len(),
{
    let mut i: usize = from;
    while i < t.len() && is_word_byte_exec(t[i])
        invariant
            from <= i <= t@.len(),
            word_run(t@, from as int) == i - from + word_run(t@, i as int),
        decreases t@.len() - i,
    {
        i = i + 1;
    }
    i - from
}

} // verus!
