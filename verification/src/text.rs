use vstd::prelude::*;

verus! {

/// Relies on `str::chars`: the iterator yields exactly the characters of the
/// string, in order.
#[verifier::external_body]
pub fn chars_of(s: &str) -> (v: Vec<char>)
    ensures
        v@ == s@,
{
    s.chars().collect()
}

/// Relies on `String`'s `FromIterator<char>`: the collected string consists of
/// exactly the iterated characters, in order.
#[verifier::external_body]
pub fn string_of(v: &Vec<char>) -> (s: String)
    ensures
        s@ == v@,
{
    v.iter().collect()
}

/// The character sequences held by a sequence of vectors, in order.
pub open spec fn views_of(ls: Seq<Vec<char>>) -> Seq<Seq<char>> {
    ls.map_values(|l: Vec<char>| l@)
}

/// The character sequences held by a sequence of strings, in order.
pub open spec fn str_views(ss: Seq<String>) -> Seq<Seq<char>> {
    ss.map_values(|s: String| s@)
}

/// The needle `n` occurs in `h` starting at position `i`.
pub open spec fn contains_at(h: Seq<char>, n: Seq<char>, i: int) -> bool {
    0 <= i && i + n.len() <= h.len() && h.subrange(i, i + n.len()) == n
}

/// The needle `n` occurs somewhere in `h`.
pub open spec fn contains_seq(h: Seq<char>, n: Seq<char>) -> bool {
    exists|i: int| contains_at(h, n, i)
}

pub(crate) fn window_eq(h: &Vec<char>, n: &Vec<char>, start: usize) -> (r: bool)
    requires
        start + n@.len() <= h@.len(),
    ensures
        r == contains_at(h@, n@, start as int),
{
    let n_len: usize = n.len();
    let h_len: usize = h.len();
    let mut j: usize = 0;
    while j < n_len
        invariant
            n_len == n@.len(),
            h_len == h@.len(),
            start + n@.len() <= h@.len(),
            j <= n@.len(),
            forall|k: int| 0 <= k < j ==> h@[start + k] == n@[k],
        decreases n@.len() - j,
    {
        if h[start + j] != n[j] {
            proof {
                assert(h@.subrange(start as int, start + n@.len())[j as int] == h@[start + j]);
            }
            return false;
        }
        j += 1;
    }
    proof {
        assert(h@.subrange(start as int, start + n@.len()) =~= n@);
    }
    true
}

/// Substring search: decides whether `n` occurs anywhere in `h`.
pub fn contains_sub(h: &Vec<char>, n: &Vec<char>) -> (r: bool)
    ensures
        r == contains_seq(h@, n@),
{
    if n.len() == 0 {
        proof {
            assert(h@.subrange(0, 0) =~= n@);
            assert(contains_at(h@, n@, 0));
        }
        return true;
    }
    if n.len() > h.len() {
        proof {
            assert forall|i: int| !contains_at(h@, n@, i) by {}
        }
        return false;
    }
    let h_len: usize = h.len();
    let bound: usize = h_len - n.len();
    let mut i: usize = 0;
    while i <= bound
        invariant
            h_len == h@.len(),
            1 <= n@.len() <= h@.len(),
            bound == h@.len() - n@.len(),
            i <= bound + 1,
            forall|k: int| 0 <= k < i ==> !contains_at(h@, n@, k),
        decreases bound + 1 - i,
    {
        if window_eq(h, n, i) {
            return true;
        }
        i += 1;
    }
    proof {
        assert forall|k: int| !contains_at(h@, n@, k) by {
            if 0 <= k <= bound {
                assert(!contains_at(h@, n@, k));
            }
        }
    }
    false
}

/// Substring search over string slices.
pub fn str_contains(h: &str, n: &str) -> (r: bool)
    ensures
        r == contains_seq(h@, n@),
{
    let hv = chars_of(h);
    let nv = chars_of(n);
    contains_sub(&hv, &nv)
}

} // verus!
