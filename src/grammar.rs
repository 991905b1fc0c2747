//! The textual micro-syntax: where a declaration or a reference starts and ends.

use vstd::prelude::*;

verus! {

/// `w` occurs in `t` at `i`.
pub open spec fn has_at(t: Seq<char>, i: int, w: Seq<char>) -> bool {
    0 <= i && i + w.len() <= t.len() && t.subrange(i, i + w.len()) == w
}

/// The first index from `k` on that holds `close`, where no line break comes
/// before it; else -1. This is how far a bracketed group reaches.
pub open spec fn find_close(t: Seq<char>, k: int, close: char) -> int
    decreases t.len() - k,
{
    if k < 0 || k >= t.len() {
        -1
    } else if t[k] == close {
        k
    } else if t[k] == '\n' {
        -1
    } else {
        find_close(t, k + 1, close)
    }
}

pub proof fn lemma_find_close(t: Seq<char>, k: int, close: char)
    ensures
        find_close(t, k, close) == -1 || (k <= find_close(t, k, close) < t.len() && t[find_close(
            t,
            k,
            close,
        )] == close),
    decreases t.len() - k,
{
    if 0 <= k < t.len() && t[k] != close && t[k] != '\n' {
        lemma_find_close(t, k + 1, close);
    }
}

/// The first index from `k` on where `}}` starts, where no line break comes
/// before it; else -1.
pub open spec fn find_double_close(t: Seq<char>, k: int) -> int
    decreases t.len() - k,
{
    if k < 0 || k + 1 >= t.len() {
        -1
    } else if t[k] == '}' && t[k + 1] == '}' {
        k
    } else if t[k] == '\n' {
        -1
    } else {
        find_double_close(t, k + 1)
    }
}

pub proof fn lemma_find_double_close(t: Seq<char>, k: int)
    ensures
        find_double_close(t, k) == -1 || (k <= find_double_close(t, k) && find_double_close(t, k)
            + 1 < t.len()),
    decreases t.len() - k,
{
    if 0 <= k && k + 1 < t.len() && !(t[k] == '}' && t[k + 1] == '}') && t[k] != '\n' {
        lemma_find_double_close(t, k + 1);
    }
}

/// Whether `w` occurs in `t` at `i`.
pub fn matches_at(t: &Vec<char>, i: usize, w: &Vec<char>) -> (r: bool)
    ensures
        r == has_at(t@, i as int, w@),
{
    if i > t.len() || t.len() - i < w.len() {
        return false;
    }
    let mut q: usize = 0;
    while q < w.len()
        invariant
            i + w.len() <= t.len(),
            q <= w.len(),
            forall|p: int| 0 <= p < q ==> t@[i + p] == w@[p],
        decreases w.len() - q,
    {
        if t[i + q] != w[q] {
            assert(t@.subrange(i as int, i + w.len())[q as int] != w@[q as int]);
            return false;
        }
        q += 1;
    }
    assert(t@.subrange(i as int, i + w.len()) =~= w@);
    true
}

/// Where the group opened before `k` is closed by `close`, as `find_close` says.
pub fn find_close_exec(t: &Vec<char>, k: usize, close: char) -> (r: Option<usize>)
    ensures
        r matches Some(x) ==> find_close(t@, k as int, close) == x as int,
        r is None ==> find_close(t@, k as int, close) == -1,
{
    let mut q: usize = k;
    while q < t.len()
        invariant
            k <= q,
            find_close(t@, k as int, close) == find_close(t@, q as int, close),
        decreases t.len() - q,
    {
        if t[q] == close {
            return Some(q);
        }
        if t[q] == '\n' {
            return None;
        }
        q += 1;
    }
    None
}

/// Where `}}` closes the group, as `find_double_close` says.
pub fn find_double_close_exec(t: &Vec<char>, k: usize) -> (r: Option<usize>)
    ensures
        r matches Some(x) ==> find_double_close(t@, k as int) == x as int,
        r is None ==> find_double_close(t@, k as int) == -1,
{
    let mut q: usize = k;
    while q < t.len() && t.len() - q > 1
        invariant
            k <= q,
            find_double_close(t@, k as int) == find_double_close(t@, q as int),
        decreases t.len() - q,
    {
        if t[q] == '}' && t[q + 1] == '}' {
            return Some(q);
        }
        if t[q] == '\n' {
            return None;
        }
        q += 1;
    }
    None
}

/// The characters of `t` from `a` up to `b`.
pub fn slice_chars(t: &Vec<char>, a: usize, b: usize) -> (r: Vec<char>)
    requires
        a <= b <= t.len(),
    ensures
        r@ == t@.subrange(a as int, b as int),
{
    let mut r: Vec<char> = Vec::new();
    let mut q: usize = a;
    while q < b
        invariant
            a <= q <= b <= t.len(),
            r@ == t@.subrange(a as int, q as int),
        decreases b - q,
    {
        r.push(t[q]);
        q += 1;
        assert(r@ =~= t@.subrange(a as int, q as int));
    }
    r
}

} // verus!
