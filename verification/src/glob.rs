//! Classic `*` / `?` wildcard matching against one directory level of a
//! path, compared case-insensitively under the byte normalization of
//! `crate::norm`.

use vstd::prelude::*;

use crate::norm::norm_byte;
use crate::norm::norm_byte_exec;

verus! {

/// Does the wildcard pattern `p` match the name `s`? `*` matches any run of
/// bytes (possibly empty), `?` matches exactly one byte, and every other
/// pattern byte matches a single name byte up to normalization.
pub open spec fn glob_match(p: Seq<u8>, s: Seq<u8>) -> bool
    decreases p.len() + s.len(),
{
    if p.len() == 0 {
        s.len() == 0
    } else if p[0] == 0x2a {
        glob_match(p.skip(1), s) || (s.len() > 0 && glob_match(p, s.skip(1)))
    } else if p[0] == 0x3f {
        s.len() > 0 && glob_match(p.skip(1), s.skip(1))
    } else {
        s.len() > 0 && norm_byte(p[0]) == norm_byte(s[0]) && glob_match(p.skip(1), s.skip(1))
    }
}

fn glob_match_at(p: &[u8], s: &[u8], pi: usize, si: usize) -> (r: bool)
    requires
        pi <= p.len(),
        si <= s.len(),
    ensures
        r == glob_match(p@.skip(pi as int), s@.skip(si as int)),
    decreases p@.len() - pi + s@.len() - si,
{
    let ghost pr = p@.skip(pi as int);
    let ghost sr = s@.skip(si as int);
    if pi == p.len() {
        si == s.len()
    } else {
        proof {
            assert(pr[0] == p@[pi as int]);
            assert(pr.skip(1) =~= p@.skip(pi + 1));
            if si < s.len() {
                assert(sr[0] == s@[si as int]);
                assert(sr.skip(1) =~= s@.skip(si + 1));
            }
        }
        let pb = p[pi];
        if pb == 0x2a {
            if glob_match_at(p, s, pi + 1, si) {
                true
            } else if si < s.len() {
                glob_match_at(p, s, pi, si + 1)
            } else {
                false
            }
        } else if si == s.len() {
            false
        } else if pb == 0x3f {
            glob_match_at(p, s, pi + 1, si + 1)
        } else {
            norm_byte_exec(pb) == norm_byte_exec(s[si]) && glob_match_at(p, s, pi + 1, si + 1)
        }
    }
}

/// Executable wildcard match.
pub fn glob_matches(p: &[u8], s: &[u8]) -> (r: bool)
    ensures
        r == glob_match(p@, s@),
{
    proof {
        assert(p@.skip(0) =~= p@);
        assert(s@.skip(0) =~= s@);
    }
    glob_match_at(p, s, 0, 0)
}

} // verus!
