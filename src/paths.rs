//! Resolution of the relative paths that requests name: `%20` decoded to a
//! space, and no path let out of the data directory.

use vstd::prelude::*;
use crate::text::{split, split_on, views};

verus! {

pub const PERCENT: u8 = 37;

pub const DIGIT_TWO: u8 = 50;

pub const DIGIT_ZERO: u8 = 48;

pub const SPACE: u8 = 32;

pub const SLASH: u8 = 47;

pub const DOT: u8 = 46;

/// `%20` starts at `i` in `s`.
pub open spec fn escape_at(s: Seq<u8>, i: int) -> bool {
    0 <= i && i + 2 < s.len() && s[i] == PERCENT && s[i + 1] == DIGIT_TWO && s[i + 2] == DIGIT_ZERO
}

/// `s` with each `%20` replaced by a space, scanning from the left.
pub open spec fn decode_spaces(s: Seq<u8>) -> Seq<u8>
    decreases s.len(),
{
    if s.len() == 0 {
        s
    } else if escape_at(s, 0) {
        seq![SPACE] + decode_spaces(s.skip(3))
    } else {
        seq![s[0]] + decode_spaces(s.skip(1))
    }
}

/// The component `..`, which goes up one directory.
pub open spec fn is_parent(c: Seq<u8>) -> bool {
    c == seq![DOT, DOT]
}

/// An empty component or `.`, which stays where it is.
pub open spec fn is_current(c: Seq<u8>) -> bool {
    c.len() == 0 || c == seq![DOT]
}

/// How many directories below the start the components `cs` lead.
pub open spec fn depth(cs: Seq<Seq<u8>>) -> int
    decreases cs.len(),
{
    if cs.len() == 0 {
        0
    } else if is_parent(cs.last()) {
        depth(cs.drop_last()) - 1
    } else if is_current(cs.last()) {
        depth(cs.drop_last())
    } else {
        depth(cs.drop_last()) + 1
    }
}

/// Walking the components `cs` never goes above the start.
pub open spec fn stays_below(cs: Seq<Seq<u8>>) -> bool
    decreases cs.len(),
{
    cs.len() == 0 || (stays_below(cs.drop_last()) && depth(cs) >= 0)
}

/// The relative path `p` names a place inside the directory it is joined
/// to: it does not start at the root and its `..` never climb above it.
pub open spec fn within(p: Seq<u8>) -> bool {
    !(p.len() > 0 && p[0] == SLASH) && stays_below(split(p, SLASH))
}

/// A path that would leave the data directory.
#[derive(Clone, Copy, Debug, PartialEq, Eq, Structural)]
pub enum PathError {
    Escapes,
}

/// `s` with each `%20` replaced by a space.
pub fn decode_spaces_in(s: &[u8]) -> (r: Vec<u8>)
    ensures
        r@ == decode_spaces(s@),
{
    let mut out: Vec<u8> = Vec::new();
    let mut i: usize = 0;
    let n = s.len();
    assert(s@.skip(0) == s@);
    assert(out@ + s@ == s@);
    while i < n
        invariant
            n == s@.len(),
            i <= n,
            decode_spaces(s@) == out@ + decode_spaces(s@.skip(i as int)),
        decreases n - i,
    {
        let ghost rest = s@.skip(i as int);
        if n - i > 2 && s[i] == PERCENT && s[i + 1] == DIGIT_TWO && s[i + 2] == DIGIT_ZERO {
            assert(escape_at(rest, 0));
            assert(rest.skip(3) == s@.skip(i + 3));
            out.push(SPACE);
            assert(decode_spaces(s@) == out@ + decode_spaces(s@.skip(i + 3)));
            i = i + 3;
        } else {
            assert(!escape_at(rest, 0));
            assert(rest.skip(1) == s@.skip(i + 1));
            assert(rest[0] == s@[i as int]);
            out.push(s[i]);
            assert(decode_spaces(s@) == out@ + decode_spaces(s@.skip(i + 1)));
            i = i + 1;
        }
    }
    assert(s@.skip(n as int) == Seq::<u8>::empty());
    assert(out@ + Seq::<u8>::empty() == out@);
    out
}

/// Whether the relative path `p` stays inside the directory it is joined to.
pub fn is_within(p: &[u8]) -> (r: bool)
    ensures
        r == within(p@),
{
    if p.len() > 0 && p[0] == SLASH {
        return false;
    }
    let cs = split_on(p, SLASH);
    let ghost comps = views(cs@);
    let mut d: usize = 0;
    let mut i: usize = 0;
    while i < cs.len()
        invariant
            comps == views(cs@),
            comps == split(p@, SLASH),
            i <= comps.len(),
            d <= i,
            d == depth(comps.take(i as int)),
            stays_below(comps.take(i as int)),
        decreases comps.len() - i,
    {
        let c = &cs[i];
        let ghost pre = comps.take(i + 1);
        assert(pre.drop_last() == comps.take(i as int));
        assert(pre.last() == c@);
        if c.len() == 2 && c[0] == DOT && c[1] == DOT {
            assert(is_parent(c@)) by {
                assert(c@ =~= seq![DOT, DOT]);
            }
            if d == 0 {
                assert(!stays_below(pre));
                assert(!stays_below(comps)) by {
                    if stays_below(comps) {
                        lemma_stays_below_prefix(comps, i + 1);
                    }
                }
                return false;
            }
            d = d - 1;
        } else if c.len() == 0 || (c.len() == 1 && c[0] == DOT) {
            assert(is_current(c@)) by {
                if c.len() == 1 {
                    assert(c@ =~= seq![DOT]);
                }
            }
            assert(!is_parent(c@));
        } else {
            assert(!is_parent(c@)) by {
                if is_parent(c@) {
                    assert(c@.len() == 2 && c@[0] == DOT && c@[1] == DOT);
                }
            }
            assert(!is_current(c@)) by {
                if is_current(c@) && c@.len() == 1 {
                    assert(c@[0] == DOT);
                }
            }
            d = d + 1;
        }
        i = i + 1;
    }
    assert(comps.take(i as int) == comps);
    true
}

proof fn lemma_stays_below_prefix(cs: Seq<Seq<u8>>, k: int)
    requires
        0 <= k <= cs.len(),
        stays_below(cs),
    ensures
        stays_below(cs.take(k)),
    decreases cs.len() - k,
{
    if k < cs.len() {
        assert(cs.drop_last().take(k) == cs.take(k));
        lemma_stays_below_prefix(cs.drop_last(), k);
    } else {
        assert(cs.take(k) == cs);
    }
}

/// The relative path `rel` of a request, `%20` decoded, where it stays
/// inside the data directory.
pub fn resolve_relative(rel: &[u8]) -> (r: Result<Vec<u8>, PathError>)
    ensures
        match r {
            Ok(p) => within(decode_spaces(rel@)) && p@ == decode_spaces(rel@),
            Err(e) => !within(decode_spaces(rel@)) && e == PathError::Escapes,
        },
{
    let decoded = decode_spaces_in(rel);
    if is_within(decoded.as_slice()) {
        Ok(decoded)
    } else {
        Err(PathError::Escapes)
    }
}

/// The root of file `file` in dataset `dataset`, relative to the data
/// directory: both names `%20` decoded and joined by `/`, where the result
/// stays inside the data directory.
pub fn resolve_root(dataset: &[u8], file: &[u8]) -> (r: Result<Vec<u8>, PathError>)
    ensures
        ({
            let p = decode_spaces(dataset@).push(SLASH) + decode_spaces(file@);
            match r {
                Ok(q) => within(p) && q@ == p,
                Err(e) => !within(p) && e == PathError::Escapes,
            }
        }),
{
    let mut path = decode_spaces_in(dataset);
    path.push(SLASH);
    let f = decode_spaces_in(file);
    let mut i: usize = 0;
    let ghost head = path@;
    while i < f.len()
        invariant
            i <= f@.len(),
            path@ == head + f@.take(i as int),
        decreases f@.len() - i,
    {
        path.push(f[i]);
        assert(f@.take(i + 1) == f@.take(i as int).push(f@[i as int]));
        i = i + 1;
    }
    assert(f@.take(i as int) == f@);
    if is_within(path.as_slice()) {
        Ok(path)
    } else {
        Err(PathError::Escapes)
    }
}

} // verus!
