//! The hierarchical location primitive: a byte path with a recorded base
//! anchor.
//!
//! Paths are plain byte strings whose segments are separated by `/`.  The
//! base marks where a virtual hierarchy (a search, an archive) was rooted;
//! it never takes part in equality, which compares paths alone.

use crate::scan::eq_bytes;
use vstd::prelude::*;
use vstd::slice::{slice_subrange, slice_to_vec};

verus! {

/// The path with its trailing separators dropped (a pure run of separators,
/// the root included, collapses to the empty sequence).
pub open spec fn drop_trailing_seps(p: Seq<u8>) -> Seq<u8>
    decreases p.len(),
{
    if p.len() > 0 && p.last() == 47 {
        drop_trailing_seps(p.drop_last())
    } else {
        p
    }
}

/// Index of the last separator of a path, if any.
pub open spec fn last_sep(p: Seq<u8>) -> Option<int>
    decreases p.len(),
{
    if p.len() == 0 {
        None
    } else if p.last() == 47 {
        Some(p.len() - 1)
    } else {
        last_sep(p.drop_last())
    }
}

/// Parent of a path: trailing separators are dropped, then everything from
/// the last separator on is cut away; the parent of a first-level absolute
/// entry is the root.  A root, an empty path and a bare name have none.
pub open spec fn parent_of(p: Seq<u8>) -> Option<Seq<u8>> {
    let q = drop_trailing_seps(p);
    if q.len() == 0 {
        None
    } else {
        match last_sep(q) {
            None => None,
            Some(i) => if i == 0 {
                Some(q.take(1))
            } else {
                Some(q.take(i))
            },
        }
    }
}

/// Parent of a path, or the empty path where there is none.
pub open spec fn parent_or_empty(p: Seq<u8>) -> Seq<u8> {
    match parent_of(p) {
        Some(q) => q,
        None => Seq::empty(),
    }
}

/// Join of a path and a relative part: an absolute part replaces the path,
/// an empty part leaves it alone, anything else is appended behind exactly
/// one separator.
pub open spec fn join_of(p: Seq<u8>, r: Seq<u8>) -> Seq<u8> {
    if r.len() == 0 {
        p
    } else if r[0] == 47 {
        r
    } else if p.len() == 0 {
        r
    } else if p.last() == 47 {
        p + r
    } else {
        p + seq![47u8] + r
    }
}

/// The part of `path` below the directory prefix `base`, if `base` is one.
pub open spec fn strip_base(path: Seq<u8>, base: Seq<u8>) -> Option<Seq<u8>> {
    if base.len() == 0 {
        Some(path)
    } else if path.len() < base.len() {
        None
    } else if path.take(base.len() as int) != base {
        None
    } else if path.len() == base.len() {
        Some(Seq::empty())
    } else if base.last() == 47 {
        Some(path.skip(base.len() as int))
    } else if path[base.len() as int] == 47 {
        Some(path.skip(base.len() as int + 1))
    } else {
        None
    }
}

/// The last segment of a path (its name), trailing separators ignored.
pub open spec fn last_seg_of(p: Seq<u8>) -> Seq<u8> {
    let q = drop_trailing_seps(p);
    match last_sep(q) {
        None => q,
        Some(i) => q.skip(i + 1),
    }
}

/// The stable local identifier of a location: the path relative to the
/// base where the base is a directory prefix, the bare name otherwise.
pub open spec fn urn_of(path: Seq<u8>, base: Seq<u8>) -> Seq<u8> {
    match strip_base(path, base) {
        Some(r) => r,
        None => last_seg_of(path),
    }
}

/// Where the last separator sits, no later byte is one; where there is
/// none, no byte is one.
pub proof fn lemma_last_sep_char(p: Seq<u8>)
    ensures
        (match last_sep(p) {
            Some(i) => 0 <= i < p.len() && p[i] == 47 && forall|j: int|
                i < j < p.len() ==> p[j] != 47,
            None => forall|j: int| 0 <= j < p.len() ==> p[j] != 47,
        }),
    decreases p.len(),
{
    if p.len() == 0 {
    } else if p.last() == 47 {
    } else {
        lemma_last_sep_char(p.drop_last());
        let d = p.drop_last();
        match last_sep(p) {
            Some(i) => {
                assert(p[i] == d[i]);
                assert forall|j: int| i < j < p.len() implies p[j] != 47 by {
                    if j < p.len() - 1 {
                        assert(d[j] != 47);
                    }
                }
            },
            None => {
                assert forall|j: int| 0 <= j < p.len() implies p[j] != 47 by {
                    if j < p.len() - 1 {
                        assert(d[j] != 47);
                    }
                }
            },
        }
    }
}

/// A separator with none after it is the last one.
pub proof fn lemma_last_sep_is(p: Seq<u8>, i: int)
    requires
        0 <= i < p.len(),
        p[i] == 47,
        forall|j: int| i < j < p.len() ==> p[j] != 47,
    ensures
        last_sep(p) == Some(i),
    decreases p.len(),
{
    if p.last() == 47 {
        if i < p.len() - 1 {
            assert(p[p.len() - 1] != 47);
        }
    } else {
        assert(i < p.len() - 1);
        lemma_last_sep_is(p.drop_last(), i);
    }
}

/// Dropping trailing separators keeps a separator-free tail intact.
pub proof fn lemma_drop_trailing_at(p: Seq<u8>, e: int)
    requires
        0 <= e <= p.len(),
        forall|j: int| e <= j < p.len() ==> p[j] == 47,
        e > 0 ==> p[e - 1] != 47,
    ensures
        drop_trailing_seps(p) == p.take(e),
    decreases p.len(),
{
    if e == p.len() {
        if p.len() > 0 {
            assert(p.last() != 47);
        }
        assert(p.take(e) =~= p);
    } else {
        assert(p.last() == 47);
        lemma_drop_trailing_at(p.drop_last(), e);
        assert(p.drop_last().take(e) =~= p.take(e));
    }
}

/// Appending one separator-free, non-empty segment and walking back up
/// returns the original path, for a normalized path (no trailing separator
/// unless it is the root itself).
pub proof fn lemma_join_then_parent(p: Seq<u8>, seg: Seq<u8>)
    requires
        p.len() > 0,
        seg.len() > 0,
        forall|k: int| 0 <= k < seg.len() ==> seg[k] != 47,
        p.last() == 47 ==> p =~= seq![47u8],
    ensures
        parent_of(join_of(p, seg)) == Some(p),
{
    let j = join_of(p, seg);
    assert(seg[0] != 47);
    if p.last() == 47 {
        assert(j == p + seg);
        assert(j.len() == 1 + seg.len());
        assert(j.last() == seg.last());
        assert(drop_trailing_seps(j) == j);
        assert(j[0] == 47);
        assert forall|k: int| 0 < k < j.len() implies j[k] != 47 by {
            assert(j[k] == seg[k - 1]);
        }
        lemma_last_sep_is(j, 0);
        assert(j.take(1) =~= p);
    } else {
        assert(j == p + seq![47u8] + seg);
        assert(j.len() == p.len() + 1 + seg.len());
        assert(j.last() == seg.last());
        assert(drop_trailing_seps(j) == j);
        assert(j[p.len() as int] == 47);
        assert forall|k: int| p.len() < k < j.len() implies j[k] != 47 by {
            assert(j[k] == seg[k - p.len() - 1]);
        }
        lemma_last_sep_is(j, p.len() as int);
        assert(j.take(p.len() as int) =~= p);
    }
}

/// Index of the end of the path once trailing separators are dropped.
fn stripped_end(p: &[u8]) -> (e: usize)
    ensures
        0 <= e <= p@.len(),
        drop_trailing_seps(p@) == p@.take(e as int),
{
    let mut e: usize = p.len();
    while e > 0 && p[e - 1] == 47
        invariant
            0 <= e <= p@.len(),
            forall|j: int| e <= j < p@.len() ==> p@[j] == 47,
        decreases e,
    {
        e -= 1;
    }
    proof {
        lemma_drop_trailing_at(p@, e as int);
    }
    e
}

/// Index of the last separator strictly before `e`, if any.
fn last_sep_before(p: &[u8], e: usize) -> (r: Option<usize>)
    requires
        e <= p@.len(),
    ensures
        (match r {
            Some(i) => last_sep(p@.take(e as int)) == Some(i as int) && i < e,
            None => last_sep(p@.take(e as int)) is None,
        }),
{
    let ghost q = p@.take(e as int);
    let mut i: usize = e;
    loop
        invariant
            0 <= i <= e <= p@.len(),
            q == p@.take(e as int),
            forall|j: int| i <= j < e ==> p@[j] != 47,
        decreases i,
    {
        if i == 0 {
            proof {
                lemma_last_sep_char(q);
                if last_sep(q) is Some {
                    let k = last_sep(q)->Some_0;
                    assert(q[k] == p@[k]);
                }
            }
            return None;
        }
        i -= 1;
        if p[i] == 47 {
            proof {
                assert forall|j: int| i < j < q.len() implies q[j] != 47 by {
                    assert(q[j] == p@[j]);
                }
                assert(q[i as int] == p@[i as int]);
                lemma_last_sep_is(q, i as int);
            }
            return Some(i);
        }
    }
}

/// Parent of a path as a fresh vector, if the path has one.
pub fn parent_bytes(p: &[u8]) -> (r: Option<Vec<u8>>)
    ensures
        (match r {
            Some(v) => parent_of(p@) == Some(v@),
            None => parent_of(p@) is None,
        }),
{
    let e = stripped_end(p);
    if e == 0 {
        assert(drop_trailing_seps(p@).len() == 0);
        return None;
    }
    match last_sep_before(p, e) {
        None => None,
        Some(i) => {
            let cut = if i == 0 {
                1
            } else {
                i
            };
            let v = slice_to_vec(slice_subrange(p, 0, cut));
            proof {
                let q = p@.take(e as int);
                if i == 0 {
                    assert(q.take(1) =~= p@.subrange(0, 1));
                } else {
                    assert(q.take(i as int) =~= p@.subrange(0, i as int));
                }
            }
            Some(v)
        },
    }
}

/// Join of a path and a relative part, as a fresh vector.
pub fn join_bytes(p: &[u8], r: &[u8]) -> (res: Vec<u8>)
    ensures
        res@ == join_of(p@, r@),
{
    if r.len() == 0 {
        return slice_to_vec(p);
    }
    if r[0] == 47 {
        return slice_to_vec(r);
    }
    if p.len() == 0 {
        return slice_to_vec(r);
    }
    let mut v = slice_to_vec(p);
    if p[p.len() - 1] != 47 {
        v.push(47);
        let mut rv = slice_to_vec(r);
        v.append(&mut rv);
        proof {
            assert(v@ =~= p@ + seq![47u8] + r@);
        }
        v
    } else {
        let mut rv = slice_to_vec(r);
        v.append(&mut rv);
        proof {
            assert(v@ =~= p@ + r@);
        }
        v
    }
}

/// Last segment of the sub-path `p[..e]`, trailing separators already cut.
fn last_seg_from(p: &[u8], e: usize) -> (r: Vec<u8>)
    requires
        e <= p@.len(),
        drop_trailing_seps(p@) == p@.take(e as int),
    ensures
        r@ == last_seg_of(p@),
{
    match last_sep_before(p, e) {
        None => {
            let v = slice_to_vec(slice_subrange(p, 0, e));
            proof {
                assert(p@.take(e as int) =~= p@.subrange(0, e as int));
            }
            v
        },
        Some(i) => {
            let v = slice_to_vec(slice_subrange(p, i + 1, e));
            proof {
                assert(p@.take(e as int).skip(i + 1) =~= p@.subrange(i + 1, e as int));
            }
            v
        },
    }
}

/// A location: a byte path and the base anchor its hierarchy is rooted at.
#[derive(Debug)]
pub struct Loc {
    /// The full path of the location.
    pub path: Vec<u8>,
    /// The anchor: for a plain location its parent, for a location inside
    /// a virtual hierarchy the path the hierarchy was rooted at.
    pub base: Vec<u8>,
}

impl Loc {
    /// Wraps a bare path; the base anchor is its parent, or empty.
    pub fn from_path(path: Vec<u8>) -> (r: Loc)
        ensures
            r.path@ == path@,
            r.base@ == parent_or_empty(path@),
    {
        let base = match parent_bytes(path.as_slice()) {
            Some(v) => v,
            None => Vec::new(),
        };
        Loc { path, base }
    }

    /// Wraps a path with an explicitly recorded base anchor.
    pub fn with_base(base: Vec<u8>, path: Vec<u8>) -> (r: Loc)
        ensures
            r.path@ == path@,
            r.base@ == base@,
    {
        Loc { path, base }
    }

    /// The stable local identifier: the path relative to the base where the
    /// base is a directory prefix of it, the bare name otherwise.
    pub fn urn_owned(&self) -> (r: Vec<u8>)
        ensures
            r@ == urn_of(self.path@, self.base@),
    {
        if self.base.len() == 0 {
            return slice_to_vec(self.path.as_slice());
        }
        if self.path.len() >= self.base.len() {
            let pre = slice_subrange(self.path.as_slice(), 0, self.base.len());
            if eq_bytes(pre, self.base.as_slice()) {
                if self.path.len() == self.base.len() {
                    return Vec::new();
                }
                if self.base[self.base.len() - 1] == 47 {
                    return slice_to_vec(
                        slice_subrange(self.path.as_slice(), self.base.len(), self.path.len()),
                    );
                }
                if self.path[self.base.len()] == 47 {
                    return slice_to_vec(
                        slice_subrange(self.path.as_slice(), self.base.len() + 1, self.path.len()),
                    );
                }
            }
        }
        let e = stripped_end(self.path.as_slice());
        last_seg_from(self.path.as_slice(), e)
    }
}

} // verus!
