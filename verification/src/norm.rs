//! Path normalization and splitting.
//!
//! Paths are compared case-insensitively and the two separators `/` and `\`
//! are treated as equivalent: both facts are captured by a single byte-wise
//! normalization that lowercases ASCII letters and maps `\` to `/`.

use vstd::prelude::*;

verus! {

/// Is this byte one of the two accepted path separators, `/` or `\`?
pub open spec fn is_sep(b: u8) -> bool {
    b == 0x2f || b == 0x5c
}

/// Byte-wise normalization: `\` becomes `/`, ASCII upper case becomes lower
/// case, every other byte is kept.
pub open spec fn norm_byte(b: u8) -> u8 {
    if b == 0x5c {
        0x2f
    } else if 0x41 <= b && b <= 0x5a {
        (b + 0x20) as u8
    } else {
        b
    }
}

/// The normalized form of a path: `norm_byte` applied to every byte.
pub open spec fn norm(s: Seq<u8>) -> Seq<u8> {
    s.map_values(|b: u8| norm_byte(b))
}

/// Does the byte sequence contain an embedded NUL?
pub open spec fn has_nul(s: Seq<u8>) -> bool {
    exists|i: int| 0 <= i < s.len() && s[i] == 0
}

/// Normalizing is idempotent, so an already-normalized query matches itself.
pub proof fn lemma_norm_idempotent(s: Seq<u8>)
    ensures
        norm(norm(s)) == norm(s),
{
    assert forall|i: int| 0 <= i < s.len() implies norm(norm(s))[i] == norm(s)[i] by {
        assert(norm(s)[i] == norm_byte(s[i]));
    }
    assert(norm(norm(s)) =~= norm(s));
}

/// Normalization never introduces a NUL: a NUL-free path stays NUL-free,
/// so every normalized path is still a valid platform string.
pub proof fn lemma_norm_preserves_no_nul(s: Seq<u8>)
    requires
        !has_nul(s),
    ensures
        !has_nul(norm(s)),
{
    assert forall|i: int| 0 <= i < norm(s).len() implies norm(s)[i] != 0 by {
        assert(s[i] != 0);
        assert(norm(s)[i] == norm_byte(s[i]));
    }
}

/// Executable form of `norm_byte`.
pub fn norm_byte_exec(b: u8) -> (r: u8)
    ensures
        r == norm_byte(b),
{
    if b == 0x5c {
        0x2f
    } else if 0x41 <= b && b <= 0x5a {
        b + 0x20
    } else {
        b
    }
}

/// Normalize a whole path.
pub fn normalize(s: &[u8]) -> (r: Vec<u8>)
    ensures
        r@ == norm(s@),
{
    let mut r: Vec<u8> = Vec::new();
    let mut i: usize = 0;
    while i < s.len()
        invariant
            i <= s.len(),
            r@ == norm(s@).take(i as int),
        decreases s.len() - i,
    {
        r.push(norm_byte_exec(s[i]));
        proof {
            assert(norm(s@).take(i + 1) =~= norm(s@).take(i as int).push(norm_byte(s@[i as int])));
        }
        i = i + 1;
    }
    proof {
        assert(norm(s@).take(s@.len() as int) =~= norm(s@));
    }
    r
}

/// Do two byte sequences normalize to the same path?
pub fn norm_eq(a: &[u8], b: &[u8]) -> (r: bool)
    ensures
        r == (norm(a@) == norm(b@)),
{
    if a.len() != b.len() {
        proof {
            assert(norm(a@).len() != norm(b@).len());
        }
        return false;
    }
    let mut i: usize = 0;
    while i < a.len()
        invariant
            i <= a.len(),
            a@.len() == b@.len(),
            forall|k: int| 0 <= k < i ==> norm(a@)[k] == norm(b@)[k],
        decreases a.len() - i,
    {
        if norm_byte_exec(a[i]) != norm_byte_exec(b[i]) {
            proof {
                assert(norm(a@)[i as int] != norm(b@)[i as int]);
            }
            return false;
        }
        i = i + 1;
    }
    proof {
        assert(norm(a@) =~= norm(b@));
    }
    true
}

/// Does the byte sequence contain an embedded NUL?
pub fn contains_nul(s: &[u8]) -> (r: bool)
    ensures
        r == has_nul(s@),
{
    let mut i: usize = 0;
    while i < s.len()
        invariant
            i <= s.len(),
            forall|k: int| 0 <= k < i ==> s@[k] != 0,
        decreases s.len() - i,
    {
        if s[i] == 0 {
            return true;
        }
        i = i + 1;
    }
    false
}

/// The index at which the final path component (the name) begins: right
/// after the last separator, or 0 when the path has no separator.
pub open spec fn name_start(s: Seq<u8>) -> int
    decreases s.len(),
{
    if s.len() == 0 {
        0
    } else if is_sep(s[s.len() - 1]) {
        s.len() as int
    } else {
        name_start(s.drop_last())
    }
}

pub proof fn lemma_name_start_bounds(s: Seq<u8>)
    ensures
        0 <= name_start(s) <= s.len(),
    decreases s.len(),
{
    if s.len() != 0 && !is_sep(s[s.len() - 1]) {
        lemma_name_start_bounds(s.drop_last());
    }
}

/// `name_start` is the unique index with no separator at or after it and a
/// separator (or the path's start) just before it.
pub proof fn lemma_name_start_at(s: Seq<u8>, j: int)
    requires
        0 <= j <= s.len(),
        forall|k: int| j <= k < s.len() ==> !is_sep(s[k]),
        j == 0 || is_sep(s[j - 1]),
    ensures
        name_start(s) == j,
    decreases s.len(),
{
    if s.len() == 0 {
    } else if is_sep(s[s.len() - 1]) {
        assert(j == s.len());
    } else {
        assert(j < s.len() || !is_sep(s[j - 1]));
        assert(j <= s.len() - 1);
        lemma_name_start_at(s.drop_last(), j);
    }
}

/// The directory part of a path: everything before the last separator
/// (empty when there is none).
pub open spec fn dir_part(s: Seq<u8>) -> Seq<u8> {
    let n = name_start(s);
    if n > 0 {
        s.subrange(0, n - 1)
    } else {
        Seq::empty()
    }
}

/// The name part of a path: everything after the last separator.
pub open spec fn name_part(s: Seq<u8>) -> Seq<u8> {
    s.subrange(name_start(s), s.len() as int)
}

/// Find where the final path component begins.
pub fn split_path(s: &[u8]) -> (r: usize)
    ensures
        r == name_start(s@),
{
    let mut j: usize = s.len();
    while j > 0
        invariant
            j <= s.len(),
            forall|k: int| j <= k < s@.len() ==> !is_sep(s@[k]),
        decreases j,
    {
        let b = s[j - 1];
        if b == 0x2f || b == 0x5c {
            proof {
                lemma_name_start_at(s@, j as int);
            }
            return j;
        }
        j = j - 1;
    }
    proof {
        lemma_name_start_at(s@, 0);
    }
    0
}

} // verus!
