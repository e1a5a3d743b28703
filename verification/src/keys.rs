//! The key grammar and the relations between key paths.
//!
//! A key is an ASCII text path of one or more non-empty segments, each
//! introduced by `/`. Keys are validated locally, before any native call.

use vstd::prelude::*;

verus! {

/// A character a key may hold: ASCII, and not the NUL terminator that the
/// boundary strings end with.
pub open spec fn is_key_char(c: char) -> bool {
    1 <= c as int <= 127
}

/// The key grammar: starts with `/`, no segment is empty (no `//` and no
/// trailing `/`), not the bare root, every character ASCII and non-NUL.
pub open spec fn valid_key(s: Seq<char>) -> bool {
    &&& s.len() >= 2
    &&& s[0] == '/'
    &&& forall|i: int| 0 <= i < s.len() ==> is_key_char(#[trigger] s[i])
    &&& forall|i: int|
        0 <= i < s.len() && #[trigger] s[i] == '/' ==> i + 1 < s.len() && s[i + 1] != '/'
}

/// Decides the key grammar.
pub fn check_key(key: &str) -> (r: bool)
    ensures
        r == valid_key(key@),
{
    let n = key.unicode_len();
    if n < 2 {
        return false;
    }
    if key.get_char(0) != '/' {
        return false;
    }
    let mut i: usize = 0;
    while i < n
        invariant
            0 <= i <= n,
            n == key@.len(),
            2 <= n,
            key@[0] == '/',
            forall|j: int| 0 <= j < i ==> is_key_char(#[trigger] key@[j]),
            forall|j: int|
                0 <= j < i && #[trigger] key@[j] == '/' ==> j + 1 < n && key@[j + 1] != '/',
        decreases n - i,
    {
        let c = key.get_char(i);
        let u = c as u32;
        if u < 1 || u > 127 {
            return false;
        }
        if c == '/' {
            if i + 1 >= n {
                return false;
            }
            if key.get_char(i + 1) == '/' {
                return false;
            }
        }
        i = i + 1;
    }
    true
}

/// The index of the last `/` in `s`, or `-1` when there is none.
pub open spec fn last_slash_index(s: Seq<char>) -> int
    decreases s.len(),
{
    if s.len() == 0 {
        -1
    } else if s[s.len() - 1] == '/' {
        s.len() - 1
    } else {
        last_slash_index(s.drop_last())
    }
}

/// The direct parent of a key path: everything before the last `/`. The
/// parent of a top-level key is the empty root path.
pub open spec fn parent_key(s: Seq<char>) -> Seq<char> {
    s.take(last_slash_index(s))
}

/// The last `/` is exactly the one that no later `/` follows.
proof fn lemma_last_slash_characterization(s: Seq<char>, j: int)
    requires
        0 <= j < s.len(),
        s[j] == '/',
        forall|k: int| j < k < s.len() ==> s[k] != '/',
    ensures
        last_slash_index(s) == j,
    decreases s.len(),
{
    if s.len() - 1 == j {
    } else {
        lemma_last_slash_characterization(s.drop_last(), j);
    }
}

/// `last_slash_index` stays within the bounds of `s`.
proof fn lemma_last_slash_bounds(s: Seq<char>)
    ensures
        -1 <= last_slash_index(s) < s.len(),
    decreases s.len(),
{
    if s.len() > 0 && s[s.len() - 1] != '/' {
        lemma_last_slash_bounds(s.drop_last());
    }
}

/// A valid key has a `/`, and never as its last character.
proof fn lemma_valid_key_last_slash(s: Seq<char>)
    requires
        valid_key(s),
    ensures
        0 <= last_slash_index(s) < s.len() - 1,
        s[last_slash_index(s)] == '/',
        forall|k: int| last_slash_index(s) < k < s.len() ==> s[k] != '/',
{
    lemma_last_slash_bounds(s);
    if last_slash_index(s) == -1 {
        lemma_no_slash_characterization(s);
        assert(s[0] != '/');
        assert(false);
    }
    lemma_last_slash_hits(s);
    lemma_last_slash_after(s);
    let j = last_slash_index(s);
    assert(s[j] == '/');
    assert(j + 1 < s.len());
}

/// When `last_slash_index` reports none, no character is a `/`.
proof fn lemma_no_slash_characterization(s: Seq<char>)
    requires
        last_slash_index(s) == -1,
    ensures
        forall|k: int| 0 <= k < s.len() ==> s[k] != '/',
    decreases s.len(),
{
    if s.len() > 0 {
        lemma_no_slash_characterization(s.drop_last());
        assert forall|k: int| 0 <= k < s.len() implies s[k] != '/' by {
            if k < s.len() - 1 {
                assert(s.drop_last()[k] != '/');
            }
        }
    }
}

/// Whatever `last_slash_index` reports points at a `/`.
proof fn lemma_last_slash_hits(s: Seq<char>)
    requires
        last_slash_index(s) >= 0,
    ensures
        last_slash_index(s) < s.len(),
        s[last_slash_index(s)] == '/',
    decreases s.len(),
{
    if s.len() > 0 && s[s.len() - 1] != '/' {
        lemma_last_slash_hits(s.drop_last());
    }
}

/// No `/` follows the one that `last_slash_index` reports.
proof fn lemma_last_slash_after(s: Seq<char>)
    ensures
        forall|k: int| last_slash_index(s) < k < s.len() ==> s[k] != '/',
    decreases s.len(),
{
    if s.len() > 0 {
        lemma_last_slash_after(s.drop_last());
        if s[s.len() - 1] == '/' {
        } else {
            lemma_last_slash_bounds(s.drop_last());
            assert forall|k: int| last_slash_index(s) < k < s.len() implies s[k] != '/' by {
                if k < s.len() - 1 {
                    assert(s.drop_last()[k] == s[k]);
                    assert(s.drop_last()[k] != '/');
                }
            }
        }
    }
}

/// The position of the last `/` of a key, which always has one.
fn find_last_slash(key: &str) -> (r: usize)
    requires
        valid_key(key@),
    ensures
        r == last_slash_index(key@),
{
    proof {
        lemma_valid_key_last_slash(key@);
    }
    let n = key.unicode_len();
    let mut j: usize = n;
    loop
        invariant
            0 < j <= n,
            n == key@.len(),
            valid_key(key@),
            forall|k: int| j <= k < n ==> key@[k] != '/',
        decreases j,
    {
        j = j - 1;
        if key.get_char(j) == '/' {
            proof {
                lemma_last_slash_characterization(key@, j as int);
            }
            return j;
        }
        if j == 0 {
            proof {
                lemma_valid_key_last_slash(key@);
                assert(false);
            }
            return 0;
        }
    }
}

/// The direct parent path of a key; empty for a top-level key.
pub fn parent_of(key: &str) -> (r: String)
    requires
        valid_key(key@),
    ensures
        r@ == parent_key(key@),
{
    proof {
        lemma_valid_key_last_slash(key@);
    }
    let j = find_last_slash(key);
    let p = key.substring_char(0, j);
    p.to_owned()
}

/// `d` lies strictly below `k` in the key tree, at any depth.
pub open spec fn is_strict_descendant(d: Seq<char>, k: Seq<char>) -> bool {
    &&& d.len() > k.len()
    &&& d.take(k.len() as int) == k
    &&& d[k.len() as int] == '/'
}

/// `d` is a direct child of `k`: strictly below, with a single further
/// segment.
pub open spec fn is_direct_child(d: Seq<char>, k: Seq<char>) -> bool {
    &&& is_strict_descendant(d, k)
    &&& forall|j: int| k.len() + 1 <= j < d.len() ==> d[j] != '/'
}

/// Decides string equality.
pub fn str_eq(a: &str, b: &str) -> (r: bool)
    ensures
        r == (a@ == b@),
{
    let na = a.unicode_len();
    let nb = b.unicode_len();
    if na != nb {
        return false;
    }
    let mut i: usize = 0;
    while i < na
        invariant
            0 <= i <= na,
            na == a@.len(),
            na == b@.len(),
            forall|j: int| 0 <= j < i ==> a@[j] == b@[j],
        decreases na - i,
    {
        if a.get_char(i) != b.get_char(i) {
            return false;
        }
        i = i + 1;
    }
    proof {
        assert(a@ =~= b@);
    }
    true
}

/// Decides whether `d` lies strictly below `k`.
pub fn is_descendant(d: &str, k: &str) -> (r: bool)
    ensures
        r == is_strict_descendant(d@, k@),
{
    let nd = d.unicode_len();
    let nk = k.unicode_len();
    if nd <= nk {
        return false;
    }
    if d.get_char(nk) != '/' {
        return false;
    }
    let mut i: usize = 0;
    while i < nk
        invariant
            0 <= i <= nk,
            nd == d@.len(),
            nk == k@.len(),
            nd > nk,
            forall|j: int| 0 <= j < i ==> d@[j] == k@[j],
        decreases nk - i,
    {
        if d.get_char(i) != k.get_char(i) {
            proof {
                assert(d@.take(nk as int)[i as int] != k@[i as int]);
            }
            return false;
        }
        i = i + 1;
    }
    proof {
        assert(d@.take(nk as int) =~= k@);
    }
    true
}

/// Decides whether `d` is a direct child of `k`.
pub fn is_child(d: &str, k: &str) -> (r: bool)
    ensures
        r == is_direct_child(d@, k@),
{
    if !is_descendant(d, k) {
        return false;
    }
    let nd = d.unicode_len();
    let nk = k.unicode_len();
    let mut i: usize = nk + 1;
    while i < nd
        invariant
            nk + 1 <= i <= nd,
            nd == d@.len(),
            nk == k@.len(),
            is_strict_descendant(d@, k@),
            forall|j: int| nk + 1 <= j < i ==> d@[j] != '/',
        decreases nd - i,
    {
        if d.get_char(i) == '/' {
            return false;
        }
        i = i + 1;
    }
    true
}

} // verus!
