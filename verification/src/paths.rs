//! Byte-string paths, sets of paths, relative paths inside a timeline
//! directory, and the reserved temp-file suffix.
//!
//! Paths are kept as plain byte strings so that every set operation the sync
//! engine performs on them can be stated over `Seq<u8>` and `Set<Seq<u8>>`.

use vstd::prelude::*;

verus! {

/// The path separator byte, `/`.
pub const SEP: u8 = 47;

/// Compares two byte strings.
pub fn bytes_eq(a: &Vec<u8>, b: &Vec<u8>) -> (r: bool)
    ensures
        r == (a@ == b@),
{
    if a.len() != b.len() {
        proof {
            if a@ == b@ {
                assert(a@.len() == b@.len());
            }
        }
        return false;
    }
    let mut i: usize = 0;
    while i < a.len()
        invariant
            a.len() == b.len(),
            i <= a.len(),
            forall|j: int| 0 <= j < i ==> a@[j] == b@[j],
        decreases a.len() - i,
    {
        if a[i] != b[i] {
            proof {
                if a@ == b@ {
                    assert(a@[i as int] == b@[i as int]);
                }
            }
            return false;
        }
        i += 1;
    }
    proof {
        assert(a@ =~= b@);
    }
    true
}

/// Joins a directory path and a file name with a separator.
pub fn join_path(dir: &Vec<u8>, name: &Vec<u8>) -> (r: Vec<u8>)
    ensures
        r@ == dir@ + seq![SEP] + name@,
{
    let mut r: Vec<u8> = Vec::new();
    r.extend_from_slice(dir.as_slice());
    r.push(SEP);
    r.extend_from_slice(name.as_slice());
    proof {
        assert(r@ =~= dir@ + seq![SEP] + name@);
    }
    r
}

/// A finite set of byte-string paths, stored without duplicates.
///
/// Its view is the mathematical set of the stored byte strings.
#[derive(Debug)]
pub struct PathSet {
    pub paths: Vec<Vec<u8>>,
}

impl View for PathSet {
    type V = Set<Seq<u8>>;

    open spec fn view(&self) -> Set<Seq<u8>> {
        Set::new(|s: Seq<u8>| exists|i: int| 0 <= i < self.paths@.len() && self.paths@[i]@ == s)
    }
}

impl PathSet {
    /// No two stored entries hold the same byte string.
    pub open spec fn wf(self) -> bool {
        forall|i: int, j: int|
            0 <= i < j < self.paths@.len() ==> self.paths@[i]@ != self.paths@[j]@
    }

    pub fn new() -> (r: PathSet)
        ensures
            r.wf(),
            r@ =~= Set::<Seq<u8>>::empty(),
            r.spec_len() == 0,
    {
        PathSet { paths: Vec::new() }
    }

    /// How many distinct paths the set holds.
    pub fn len(&self) -> (r: usize)
        ensures
            r == self.paths@.len(),
            (r == 0) == (self@ =~= Set::<Seq<u8>>::empty()),
    {
        proof {
            if self.paths@.len() > 0 {
                assert(self@.contains(self.paths@[0]@));
            }
        }
        self.paths.len()
    }

    pub fn is_empty(&self) -> (r: bool)
        ensures
            r == (self@ =~= Set::<Seq<u8>>::empty()),
    {
        self.len() == 0
    }

    /// The stored path at position `i`; positions enumerate the set.
    pub fn get(&self, i: usize) -> (r: &Vec<u8>)
        requires
            i < self.spec_len(),
        ensures
            self@.contains(r@),
            r@ == self.paths@[i as int]@,
    {
        &self.paths[i]
    }

    pub open spec fn spec_len(self) -> nat {
        self.paths@.len()
    }

    pub fn contains(&self, p: &Vec<u8>) -> (r: bool)
        ensures
            r == self@.contains(p@),
    {
        let mut i: usize = 0;
        while i < self.paths.len()
            invariant
                i <= self.paths@.len(),
                forall|j: int| 0 <= j < i ==> self.paths@[j]@ != p@,
            decreases self.paths@.len() - i,
        {
            if bytes_eq(&self.paths[i], p) {
                return true;
            }
            i += 1;
        }
        false
    }

    /// Adds a path; a path already present stays as it is.
    pub fn insert(&mut self, p: Vec<u8>)
        requires
            old(self).wf(),
        ensures
            final(self).wf(),
            final(self)@ =~= old(self)@.insert(p@),
    {
        if !self.contains(&p) {
            let ghost pre = self.paths@;
            let ghost pv = p@;
            self.paths.push(p);
            proof {
                assert forall|i: int, j: int|
                    0 <= i < j < self.paths@.len() implies self.paths@[i]@ != self.paths@[j]@ by {
                    if j < pre.len() {
                    } else {
                        assert(self.paths@[j]@ == pv);
                        if self.paths@[i]@ == pv {
                            assert(pre[i]@ == pv);
                            assert(old(self)@.contains(pv));
                        }
                    }
                }
                assert forall|s: Seq<u8>| self@.contains(s) implies old(self)@.insert(
                    pv,
                ).contains(s) by {
                    let k = choose|k: int|
                        0 <= k < self.paths@.len() && self.paths@[k]@ == s;
                    if k < pre.len() {
                        assert(pre[k]@ == s);
                        assert(old(self)@.contains(s));
                    } else {
                        assert(s == pv);
                    }
                }
                assert forall|s: Seq<u8>| old(self)@.insert(pv).contains(s) implies self@.contains(
                    s,
                ) by {
                    if s == pv {
                        assert(self.paths@[pre.len() as int]@ == s);
                    } else {
                        let k = choose|k: int| 0 <= k < pre.len() && pre[k]@ == s;
                        assert(self.paths@[k]@ == s);
                    }
                }
            }
        } else {
            proof {
                assert(self@ =~= self@.insert(p@));
            }
        }
    }

    /// Removes a path; removing an absent path changes nothing.
    pub fn remove(&mut self, p: &Vec<u8>)
        requires
            old(self).wf(),
        ensures
            final(self).wf(),
            final(self)@ =~= old(self)@.remove(p@),
    {
        let mut i: usize = 0;
        while i < self.paths.len()
            invariant
                self.wf(),
                self == old(self),
                i <= self.paths@.len(),
                forall|j: int| 0 <= j < i ==> self.paths@[j]@ != p@,
            decreases self.paths@.len() - i,
        {
            if bytes_eq(&self.paths[i], p) {
                let ghost pre = self.paths@;
                self.paths.remove(i);
                proof {
                    assert(self.paths@ =~= pre.subrange(0, i as int) + pre.subrange(
                        i + 1,
                        pre.len() as int,
                    ));
                    assert forall|s: Seq<u8>| self@.contains(s) implies old(
                        self,
                    )@.remove(p@).contains(s) by {
                        let k = choose|k: int|
                            0 <= k < self.paths@.len() && self.paths@[k]@ == s;
                        if k < i {
                            assert(pre[k]@ == s);
                        } else {
                            assert(pre[k + 1]@ == s);
                        }
                    }
                    assert forall|s: Seq<u8>| old(self)@.remove(p@).contains(s) implies self@.contains(
                        s,
                    ) by {
                        let k = choose|k: int| 0 <= k < pre.len() && pre[k]@ == s;
                        if k < i {
                            assert(self.paths@[k]@ == s);
                        } else {
                            assert(k != i);
                            assert(self.paths@[k - 1]@ == s);
                        }
                    }
                }
                return ;
            }
            i += 1;
        }
        proof {
            assert(self@ =~= old(self)@.remove(p@));
        }
    }

    /// The paths of `self` that are not in `other`.
    pub fn difference(&self, other: &PathSet) -> (r: PathSet)
        requires
            self.wf(),
        ensures
            r.wf(),
            r@ =~= self@.difference(other@),
    {
        let mut r = PathSet::new();
        let mut i: usize = 0;
        while i < self.paths.len()
            invariant
                self.wf(),
                r.wf(),
                i <= self.paths@.len(),
                r@ =~= Set::new(
                    |s: Seq<u8>|
                        exists|j: int|
                            0 <= j < i && self.paths@[j]@ == s && !other@.contains(s),
                ),
            decreases self.paths@.len() - i,
        {
            let ghost pre = r@;
            if !other.contains(&self.paths[i]) {
                let p = self.paths[i].clone();
                proof {
                    assert(p@ == self.paths@[i as int]@);
                }
                r.insert(p);
            }
            i += 1;
            proof {
                assert(r@ =~= Set::new(
                    |s: Seq<u8>|
                        exists|j: int|
                            0 <= j < i && self.paths@[j]@ == s && !other@.contains(s),
                ));
            }
        }
        proof {
            assert(r@ =~= self@.difference(other@));
        }
        r
    }

    /// Adds every path of `other` to `self`.
    pub fn union_with(&mut self, other: &PathSet)
        requires
            old(self).wf(),
        ensures
            final(self).wf(),
            final(self)@ =~= old(self)@ + other@,
    {
        let mut i: usize = 0;
        while i < other.paths.len()
            invariant
                self.wf(),
                i <= other.paths@.len(),
                self@ =~= old(self)@ + Set::new(
                    |s: Seq<u8>|
                        exists|j: int| 0 <= j < i && other.paths@[j]@ == s,
                ),
            decreases other.paths@.len() - i,
        {
            let p = other.paths[i].clone();
            proof {
                assert(p@ == other.paths@[i as int]@);
            }
            self.insert(p);
            i += 1;
            proof {
                assert(self@ =~= old(self)@ + Set::new(
                    |s: Seq<u8>|
                        exists|j: int| 0 <= j < i && other.paths@[j]@ == s,
                ));
            }
        }
        proof {
            assert(self@ =~= old(self)@ + other@);
        }
    }
}

impl Clone for PathSet {
    fn clone(&self) -> (r: Self)
        ensures
            r@ == self@,
            r.wf() == self.wf(),
    {
        let mut paths: Vec<Vec<u8>> = Vec::new();
        let mut i: usize = 0;
        while i < self.paths.len()
            invariant
                i <= self.paths@.len(),
                paths@.len() == i,
                forall|j: int| 0 <= j < i ==> paths@[j]@ == self.paths@[j]@,
            decreases self.paths@.len() - i,
        {
            paths.push(self.paths[i].clone());
            i += 1;
        }
        let r = PathSet { paths };
        proof {
            assert forall|s: Seq<u8>| r@.contains(s) implies self@.contains(s) by {
                let k = choose|k: int| 0 <= k < r.paths@.len() && r.paths@[k]@ == s;
                assert(self.paths@[k]@ == s);
            }
            assert forall|s: Seq<u8>| self@.contains(s) implies r@.contains(s) by {
                let k = choose|k: int| 0 <= k < self.paths@.len() && self.paths@[k]@ == s;
                assert(r.paths@[k]@ == s);
            }
            assert(r@ =~= self@);
            if self.wf() {
                assert forall|a: int, b: int|
                    0 <= a < b < r.paths@.len() implies r.paths@[a]@ != r.paths@[b]@ by {
                    assert(self.paths@[a]@ != self.paths@[b]@);
                }
                assert(r.wf());
            } else {
                let (a, b) = choose|a: int, b: int|
                    0 <= a < b < self.paths@.len() && self.paths@[a]@ == self.paths@[b]@;
                assert(r.paths@[a]@ == r.paths@[b]@);
                assert(!r.wf());
            }
        }
        r
    }
}

/// The byte `.`.
pub const DOT: u8 = 46;

/// A `..` path component starts at `i` when it is delimited by separators or
/// the ends of the path.
pub open spec fn dotdot_at(s: Seq<u8>, i: int) -> bool {
    &&& 0 <= i
    &&& i + 2 <= s.len()
    &&& (i == 0 || s[i - 1] == SEP)
    &&& s[i] == DOT
    &&& s[i + 1] == DOT
    &&& (i + 2 == s.len() || s[i + 2] == SEP)
}

/// A truly relative path: non-empty, no absolute root, no `..` component.
pub open spec fn valid_relative(s: Seq<u8>) -> bool {
    &&& s.len() > 0
    &&& s[0] != SEP
    &&& forall|i: int| !dotdot_at(s, i)
}

/// `path` names an entry inside the directory `base`: it is `base`, a
/// separator, and a valid relative remainder.
pub open spec fn strips_to(base: Seq<u8>, path: Seq<u8>, rest: Seq<u8>) -> bool {
    &&& path.len() > base.len() + 1
    &&& path.subrange(0, base.len() as int) == base
    &&& path[base.len() as int] == SEP
    &&& rest == path.subrange(base.len() + 1 as int, path.len() as int)
    &&& valid_relative(rest)
}

/// A path relative to a timeline directory, as stored in an index part.
#[derive(Debug)]
pub struct RelativePath {
    pub bytes: Vec<u8>,
}

impl RelativePath {
    pub open spec fn wf(self) -> bool {
        valid_relative(self.bytes@)
    }

    /// Checks that `rest` is a truly relative path.
    pub fn check_relative(rest: &Vec<u8>) -> (r: bool)
        ensures
            r == valid_relative(rest@),
    {
        if rest.len() == 0 {
            return false;
        }
        if rest[0] == SEP {
            return false;
        }
        let n = rest.len();
        let mut i: usize = 0;
        while i < n
            invariant
                n == rest@.len(),
                i <= n,
                rest@.len() > 0,
                rest@[0] != SEP,
                forall|j: int| j < i ==> !dotdot_at(rest@, j),
            decreases n - i,
        {
            let starts = i == 0 || rest[i - 1] == SEP;
            let has_dots = n - i >= 2 && rest[i] == DOT && rest[i + 1] == DOT;
            let ends = n - i == 2 || (n - i > 2 && rest[i + 2] == SEP);
            if starts && has_dots && ends {
                proof {
                    assert(dotdot_at(rest@, i as int));
                }
                return false;
            }
            proof {
                assert(!dotdot_at(rest@, i as int));
            }
            i += 1;
        }
        proof {
            assert forall|j: int| !dotdot_at(rest@, j) by {}
        }
        true
    }

    /// Strips the directory `base` off `path`; fails when `path` does not
    /// lie inside `base` or the remainder is not truly relative.
    pub fn new(base: &Vec<u8>, path: &Vec<u8>) -> (r: Option<RelativePath>)
        ensures
            match r {
                Some(rp) => strips_to(base@, path@, rp.bytes@) && rp.wf(),
                None => forall|rest: Seq<u8>| !strips_to(base@, path@, rest),
            },
    {
        if path.len() <= base.len() || path.len() - base.len() <= 1 {
            return None;
        }
        let mut i: usize = 0;
        while i < base.len()
            invariant
                path@.len() > base@.len() + 1,
                i <= base@.len(),
                forall|j: int| 0 <= j < i ==> path@[j] == base@[j],
            decreases base.len() - i,
        {
            if path[i] != base[i] {
                proof {
                    assert forall|rest: Seq<u8>| !strips_to(base@, path@, rest) by {
                        if path@.subrange(0, base@.len() as int) == base@ {
                            assert(path@.subrange(0, base@.len() as int)[i as int] == base@[i as int]);
                        }
                    }
                }
                return None;
            }
            i += 1;
        }
        if path[base.len()] != SEP {
            return None;
        }
        let mut rest: Vec<u8> = Vec::new();
        let mut j: usize = base.len() + 1;
        while j < path.len()
            invariant
                path@.len() > base@.len() + 1,
                base@.len() + 1 <= j <= path@.len(),
                rest@.len() == j - (base@.len() + 1),
                forall|k: int| 0 <= k < rest@.len() ==> rest@[k] == path@[base@.len() + 1 + k],
            decreases path.len() - j,
        {
            rest.push(path[j]);
            j += 1;
        }
        proof {
            assert(rest@ =~= path@.subrange(base@.len() + 1 as int, path@.len() as int));
            assert(path@.subrange(0, base@.len() as int) =~= base@);
        }
        if Self::check_relative(&rest) {
            Some(RelativePath { bytes: rest })
        } else {
            proof {
                assert forall|r2: Seq<u8>| !strips_to(base@, path@, r2) by {
                    if r2 == path@.subrange(base@.len() + 1 as int, path@.len() as int) {
                        assert(!valid_relative(r2));
                    }
                }
            }
            None
        }
    }

    /// The full local path of this entry under the directory `base`.
    pub fn as_local_path(&self, base: &Vec<u8>) -> (r: Vec<u8>)
        ensures
            r@ == base@ + seq![SEP] + self.bytes@,
    {
        join_path(base, &self.bytes)
    }
}

impl Clone for RelativePath {
    fn clone(&self) -> (r: Self)
        ensures
            r.bytes@ == self.bytes@,
    {
        RelativePath { bytes: self.bytes.clone() }
    }
}

impl PartialEq for RelativePath {
    fn eq(&self, other: &Self) -> (r: bool) {
        bytes_eq(&self.bytes, &other.bytes)
    }
}

impl vstd::std_specs::cmp::PartialEqSpecImpl for RelativePath {
    open spec fn obeys_eq_spec() -> bool {
        true
    }

    open spec fn eq_spec(&self, other: &Self) -> bool {
        self.bytes@ == other.bytes@
    }
}

/// The reserved suffix of temp files: `.___temp`. Any file whose name ends
/// with it is recoverable garbage and is removed on startup.
pub open spec fn temp_suffix() -> Seq<u8> {
    seq![DOT, 95u8, 95u8, 95u8, 116u8, 101u8, 109u8, 112u8]
}

/// The destination path with the reserved temp suffix appended; layer bytes
/// are streamed here before the durable rename.
pub fn temp_path(dst: &Vec<u8>) -> (r: Vec<u8>)
    ensures
        r@ == dst@ + temp_suffix(),
{
    let mut r: Vec<u8> = Vec::new();
    r.extend_from_slice(dst.as_slice());
    r.push(DOT);
    r.push(95);
    r.push(95);
    r.push(95);
    r.push(116);
    r.push(101);
    r.push(109);
    r.push(112);
    proof {
        assert(r@ =~= dst@ + temp_suffix());
    }
    r
}

/// Whether a file name carries the reserved temp suffix, and so must be
/// deleted by startup recovery.
pub fn is_temp_file(name: &Vec<u8>) -> (r: bool)
    ensures
        r == (name@.len() >= 8 && name@.subrange(
            name@.len() - 8,
            name@.len() as int,
        ) == temp_suffix()),
{
    if name.len() < 8 {
        return false;
    }
    let base = name.len() - 8;
    let r = name[base] == DOT && name[base + 1] == 95 && name[base + 2] == 95 && name[base + 3]
        == 95 && name[base + 4] == 116 && name[base + 5] == 101 && name[base + 6] == 109
        && name[base + 7] == 112;
    proof {
        let tail = name@.subrange(name@.len() - 8, name@.len() as int);
        if r {
            assert(tail =~= temp_suffix());
        } else {
            if tail == temp_suffix() {
                assert(tail[0] == DOT && tail[1] == 95 && tail[2] == 95 && tail[3] == 95
                    && tail[4] == 116 && tail[5] == 101 && tail[6] == 109 && tail[7] == 112);
            }
        }
    }
    r
}

} // verus!
