//! The inode table: a bidirectional mapping between the 64-bit nodeids the
//! guest kernel sees and the backend paths the storage operator consumes,
//! with reference counts driven by Lookup and Forget.
//!
//! Nodeid 1 is the root, always present and never forgotten. Fresh nodeids
//! come from a monotonically increasing counter and are never reused within
//! a server lifetime.

use vstd::prelude::*;
use vstd::pervasive::VecAdditionalExecFns;

use crate::bytesutil::{clone_bytes, eq_bytes};
use crate::error::ErrorKind;

verus! {

/// The nodeid of the root directory, fixed by the FUSE protocol.
pub const ROOT_NODEID: u64 = 1;

/// One live entry of the table.
#[derive(Debug)]
pub struct Inode {
    /// The 64-bit identifier the guest kernel uses for this entry.
    pub nodeid: u64,
    /// The backend path the entry resolves to. Directory paths end with a
    /// '/' byte; file paths do not.
    pub path: Vec<u8>,
    /// Whether the entry names a directory.
    pub is_dir: bool,
    /// The number of lookup replies not yet matched by Forget decrements.
    pub refcount: u64,
}

/// The backend path of the root directory: a single '/' byte.
pub open spec fn spec_root_path() -> Seq<u8> {
    seq![47u8]
}

/// Whether some entry of `s` carries nodeid `id`.
pub open spec fn spec_contains_id(s: Seq<Inode>, id: u64) -> bool {
    exists|i: int| 0 <= i < s.len() && s[i].nodeid == id
}

/// The index of the entry of `s` carrying nodeid `id`.
pub open spec fn spec_idx_of(s: Seq<Inode>, id: u64) -> int {
    choose|i: int| 0 <= i < s.len() && s[i].nodeid == id
}

/// The entry of `s` carrying nodeid `id`.
pub open spec fn spec_inode_of(s: Seq<Inode>, id: u64) -> Inode {
    s[spec_idx_of(s, id)]
}

/// Whether some entry of `s` resolves to path `p`.
pub open spec fn spec_contains_path(s: Seq<Inode>, p: Seq<u8>) -> bool {
    exists|i: int| 0 <= i < s.len() && s[i].path@ == p
}

/// The index of the entry of `s` resolving to path `p`.
pub open spec fn spec_idx_of_path(s: Seq<Inode>, p: Seq<u8>) -> int {
    choose|i: int| 0 <= i < s.len() && s[i].path@ == p
}

/// No two entries of `s` share a nodeid.
pub open spec fn spec_unique_ids(s: Seq<Inode>) -> bool {
    forall|i: int, j: int|
        0 <= i < j < s.len() ==> (#[trigger] s[i]).nodeid != (#[trigger] s[j]).nodeid
}

/// No two entries of `s` share a path.
pub open spec fn spec_unique_paths(s: Seq<Inode>) -> bool {
    forall|i: int, j: int|
        0 <= i < j < s.len() ==> (#[trigger] s[i]).path@ != (#[trigger] s[j]).path@
}

/// What Forget does to the entries: the root and unknown nodeids are left
/// alone; otherwise the refcount drops by `n`, and the entry disappears when
/// `n` drains it.
pub open spec fn spec_forget_tr(s: Seq<Inode>, id: u64, n: u64) -> Seq<Inode> {
    if id == ROOT_NODEID || !spec_contains_id(s, id) {
        s
    } else {
        let i = spec_idx_of(s, id);
        let e = s[i];
        if n >= e.refcount {
            s.remove(i)
        } else {
            s.update(i, Inode { refcount: (e.refcount - n) as u64, ..e })
        }
    }
}

/// What a Lookup of an already-present path does to the entries: the
/// refcount of its entry rises by one (it stays put at the top of its
/// range).
pub open spec fn spec_ref_tr(s: Seq<Inode>, p: Seq<u8>) -> Seq<Inode> {
    if !spec_contains_path(s, p) {
        s
    } else {
        let i = spec_idx_of_path(s, p);
        let e = s[i];
        let rc = if e.refcount < u64::MAX {
            (e.refcount + 1) as u64
        } else {
            e.refcount
        };
        s.update(i, Inode { refcount: rc, ..e })
    }
}

/// The inode table of one mounted filesystem instance.
pub struct InodeTable {
    /// The live entries. Entry 0 is always the root.
    pub entries: Vec<Inode>,
    /// The next nodeid to hand out; it only grows.
    pub next_nodeid: u64,
}

impl InodeTable {
    /// Well-formedness: the root sits at entry 0, every nodeid lies below
    /// the allocation counter, and nodeids and paths are unique.
    pub open spec fn wf(self) -> bool {
        &&& self.entries@.len() >= 1
        &&& self.entries@[0].nodeid == ROOT_NODEID
        &&& self.entries@[0].path@ == spec_root_path()
        &&& self.entries@[0].is_dir
        &&& self.next_nodeid >= 2
        &&& forall|i: int|
            0 <= i < self.entries@.len() ==> ROOT_NODEID <= (
            #[trigger] self.entries@[i]).nodeid < self.next_nodeid
        &&& spec_unique_ids(self.entries@)
        &&& spec_unique_paths(self.entries@)
    }

    /// A fresh table holding only the root directory.
    pub fn new() -> (r: InodeTable)
        ensures
            r.wf(),
            r.entries@.len() == 1,
            r.next_nodeid == 2,
    {
        let mut path: Vec<u8> = Vec::new();
        path.push(47);
        let root = Inode { nodeid: ROOT_NODEID, path, is_dir: true, refcount: 1 };
        let mut entries: Vec<Inode> = Vec::new();
        entries.push(root);
        assert(entries@[0].path@ =~= spec_root_path());
        InodeTable { entries, next_nodeid: 2 }
    }

    /// How many entries are live, the root included.
    pub fn len(&self) -> (r: usize)
        ensures
            r == self.entries@.len(),
    {
        self.entries.len()
    }

    /// The index of the entry carrying `nodeid`, if one is live.
    fn find_id(&self, nodeid: u64) -> (r: Option<usize>)
        ensures
            r matches Some(i) ==> i < self.entries@.len() && self.entries@[i as int].nodeid
                == nodeid,
            r is None ==> !spec_contains_id(self.entries@, nodeid),
    {
        let mut i: usize = 0;
        while i < self.entries.len()
            invariant
                i <= self.entries@.len(),
                forall|j: int| 0 <= j < i ==> (#[trigger] self.entries@[j]).nodeid != nodeid,
            decreases self.entries@.len() - i,
        {
            if self.entries[i].nodeid == nodeid {
                return Some(i);
            }
            i = i + 1;
        }
        None
    }

    /// The index of the entry resolving to `path`, if one is live.
    fn find_path(&self, path: &[u8]) -> (r: Option<usize>)
        ensures
            r matches Some(i) ==> i < self.entries@.len() && self.entries@[i as int].path@
                == path@,
            r is None ==> !spec_contains_path(self.entries@, path@),
    {
        let mut i: usize = 0;
        while i < self.entries.len()
            invariant
                i <= self.entries@.len(),
                forall|j: int| 0 <= j < i ==> (#[trigger] self.entries@[j]).path@ != path@,
            decreases self.entries@.len() - i,
        {
            if eq_bytes(self.entries[i].path.as_slice(), path) {
                return Some(i);
            }
            i = i + 1;
        }
        None
    }

    /// The live entry carrying `nodeid`, or `NotFound` when the guest names
    /// a nodeid that was never handed out or was already forgotten.
    pub fn get(&self, nodeid: u64) -> (r: Result<&Inode, ErrorKind>)
        requires
            self.wf(),
        ensures
            r matches Ok(ino) ==> spec_contains_id(self.entries@, nodeid) && *ino
                == spec_inode_of(self.entries@, nodeid),
            r matches Err(e) ==> !spec_contains_id(self.entries@, nodeid) && e
                == ErrorKind::NotFound,
    {
        match self.find_id(nodeid) {
            Some(i) => {
                proof {
                    lemma_idx_of_found(self.entries@, nodeid, i as int);
                }
                Ok(&self.entries[i])
            },
            None => Err(ErrorKind::NotFound),
        }
    }

    /// The backend path of `nodeid`, or `NotFound`.
    pub fn path_of(&self, nodeid: u64) -> (r: Result<Vec<u8>, ErrorKind>)
        requires
            self.wf(),
        ensures
            r matches Ok(p) ==> spec_contains_id(self.entries@, nodeid) && p@ == spec_inode_of(
                self.entries@,
                nodeid,
            ).path@,
            r matches Err(e) ==> !spec_contains_id(self.entries@, nodeid) && e
                == ErrorKind::NotFound,
    {
        match self.find_id(nodeid) {
            Some(i) => {
                proof {
                    lemma_idx_of_found(self.entries@, nodeid, i as int);
                }
                Ok(clone_bytes(&self.entries[i].path))
            },
            None => Err(ErrorKind::NotFound),
        }
    }

    /// The nodeid resolving to `path`, if one is live.
    pub fn find_by_path(&self, path: &[u8]) -> (r: Option<u64>)
        requires
            self.wf(),
        ensures
            r matches Some(id) ==> spec_contains_path(self.entries@, path@) && spec_contains_id(
                self.entries@,
                id,
            ) && spec_inode_of(self.entries@, id).path@ == path@,
            r is None ==> !spec_contains_path(self.entries@, path@),
    {
        match self.find_path(path) {
            Some(i) => {
                let id = self.entries[i].nodeid;
                proof {
                    lemma_idx_of_found(self.entries@, id, i as int);
                }
                Some(id)
            },
            None => None,
        }
    }

    /// Records a successful lookup of `path`: a live entry has its refcount
    /// raised by one and keeps its nodeid; otherwise a fresh entry is
    /// allocated under the next nodeid with refcount 1. Fails only when the
    /// nodeid space is exhausted.
    pub fn insert_or_ref(&mut self, path: Vec<u8>, is_dir: bool) -> (r: Result<u64, ErrorKind>)
        requires
            old(self).wf(),
        ensures
            final(self).wf(),
            spec_contains_path(old(self).entries@, path@) ==> {
                &&& r == Ok::<u64, ErrorKind>(
                    old(self).entries@[spec_idx_of_path(old(self).entries@, path@)].nodeid,
                )
                &&& final(self).entries@ == spec_ref_tr(old(self).entries@, path@)
                &&& final(self).next_nodeid == old(self).next_nodeid
            },
            !spec_contains_path(old(self).entries@, path@) && old(self).next_nodeid < u64::MAX
                ==> {
                &&& r == Ok::<u64, ErrorKind>(old(self).next_nodeid)
                &&& final(self).entries@ == old(self).entries@.push(
                    final(self).entries@.last(),
                )
                &&& final(self).entries@.last().nodeid == old(self).next_nodeid
                &&& final(self).entries@.last().path == path
                &&& final(self).entries@.last().is_dir == is_dir
                &&& final(self).entries@.last().refcount == 1
                &&& final(self).next_nodeid == old(self).next_nodeid + 1
            },
            !spec_contains_path(old(self).entries@, path@) && old(self).next_nodeid == u64::MAX
                ==> r == Err::<u64, ErrorKind>(ErrorKind::Protocol) && *final(self) == *old(
                self,
            ),
    {
        match self.find_path(path.as_slice()) {
            Some(i) => {
                proof {
                    lemma_path_idx_of_found(self.entries@, path@, i as int);
                }
                let ghost pre = self.entries@;
                let id = self.entries[i].nodeid;
                let rc = self.entries[i].refcount;
                let new_rc: u64 = if rc < u64::MAX {
                    rc + 1
                } else {
                    rc
                };
                let e = &mut self.entries[i];
                e.refcount = new_rc;
                assert(self.entries@ =~= spec_ref_tr(pre, path@));
                assert(self.wf()) by {
                    assert(forall|j: int|
                        0 <= j < self.entries@.len() && j != i ==> self.entries@[j] == pre[j]);
                }
                Ok(id)
            },
            None => {
                if self.next_nodeid == u64::MAX {
                    return Err(ErrorKind::Protocol);
                }
                let id = self.next_nodeid;
                let ino = Inode { nodeid: id, path, is_dir, refcount: 1 };
                self.entries.push(ino);
                self.next_nodeid = self.next_nodeid + 1;
                assert(self.wf()) by {
                    let s = self.entries@;
                    let n = s.len() - 1;
                    assert(forall|j: int| 0 <= j < n ==> s[j] == old(self).entries@[j]);
                }
                Ok(id)
            },
        }
    }

    /// Applies a Forget: drops `nlookup` references from `nodeid` and
    /// removes the entry when the count drains. Forgetting the root or an
    /// unknown nodeid is a no-op.
    pub fn forget(&mut self, nodeid: u64, nlookup: u64)
        requires
            old(self).wf(),
        ensures
            final(self).wf(),
            final(self).entries@ == spec_forget_tr(old(self).entries@, nodeid, nlookup),
            final(self).next_nodeid == old(self).next_nodeid,
    {
        if nodeid == ROOT_NODEID {
            return ;
        }
        match self.find_id(nodeid) {
            Some(i) => {
                proof {
                    lemma_idx_of_found(self.entries@, nodeid, i as int);
                }
                let ghost pre = self.entries@;
                let rc = self.entries[i].refcount;
                if nlookup >= rc {
                    self.entries.remove(i);
                    proof {
                        lemma_remove_keeps_wf(pre, i as int);
                        assert(self.entries@ =~= spec_forget_tr(pre, nodeid, nlookup));
                    }
                } else {
                    let e = &mut self.entries[i];
                    e.refcount = rc - nlookup;
                    assert(self.entries@ =~= spec_forget_tr(pre, nodeid, nlookup));
                    assert(self.wf()) by {
                        assert(forall|j: int|
                            0 <= j < self.entries@.len() && j != i ==> self.entries@[j] == pre[j]);
                    }
                }
            },
            None => {},
        }
    }

    /// Removes the mapping for `path` after a successful Unlink. The root
    /// mapping is never removed. Open handles that still name the removed
    /// path stay valid until they are released.
    pub fn remove_path(&mut self, path: &[u8]) -> (removed: bool)
        requires
            old(self).wf(),
        ensures
            final(self).wf(),
            final(self).next_nodeid == old(self).next_nodeid,
            spec_contains_path(old(self).entries@, path@) && path@ != spec_root_path() ==> removed
                && final(self).entries@ == old(self).entries@.remove(
                spec_idx_of_path(old(self).entries@, path@),
            ),
            !(spec_contains_path(old(self).entries@, path@) && path@ != spec_root_path())
                ==> !removed && *final(self) == *old(self),
    {
        match self.find_path(path) {
            Some(i) => {
                proof {
                    lemma_path_idx_of_found(self.entries@, path@, i as int);
                }
                if i == 0 {
                    assert(path@ == spec_root_path());
                    return false;
                }
                let ghost pre = self.entries@;
                self.entries.remove(i);
                proof {
                    lemma_remove_keeps_wf(pre, i as int);
                    assert(pre[0].path@ == spec_root_path());
                }
                true
            },
            None => false,
        }
    }
}

/// In a table with unique nodeids, the index found by a scan is the index
/// the specification speaks of.
pub proof fn lemma_idx_of_found(s: Seq<Inode>, id: u64, i: int)
    requires
        spec_unique_ids(s),
        0 <= i < s.len(),
        s[i].nodeid == id,
    ensures
        spec_contains_id(s, id),
        spec_idx_of(s, id) == i,
{
    assert(spec_contains_id(s, id));
    let j = spec_idx_of(s, id);
    assert(0 <= j < s.len() && s[j].nodeid == id);
    if i < j {
        assert(s[i].nodeid != s[j].nodeid);
    } else if j < i {
        assert(s[j].nodeid != s[i].nodeid);
    }
}

/// In a table with unique paths, the index found by a scan is the index the
/// specification speaks of.
proof fn lemma_path_idx_of_found(s: Seq<Inode>, p: Seq<u8>, i: int)
    requires
        spec_unique_paths(s),
        0 <= i < s.len(),
        s[i].path@ == p,
    ensures
        spec_contains_path(s, p),
        spec_idx_of_path(s, p) == i,
{
    assert(spec_contains_path(s, p));
    let j = spec_idx_of_path(s, p);
    assert(0 <= j < s.len() && s[j].path@ == p);
    if i < j {
        assert(s[i].path@ != s[j].path@);
    } else if j < i {
        assert(s[j].path@ != s[i].path@);
    }
}

/// Removing an entry other than the root keeps the table well-formed in the
/// sense of the sequence-level invariants.
proof fn lemma_remove_keeps_wf(s: Seq<Inode>, i: int)
    requires
        0 < i < s.len(),
        spec_unique_ids(s),
        spec_unique_paths(s),
    ensures
        spec_unique_ids(s.remove(i)),
        spec_unique_paths(s.remove(i)),
        s.remove(i)[0] == s[0],
        forall|k: int|
            0 <= k < s.remove(i).len() ==> exists|j: int|
                0 <= j < s.len() && #[trigger] s.remove(i)[k] == s[j],
    {
    let t = s.remove(i);
    assert forall|k: int| 0 <= k < t.len() implies exists|j: int|
        0 <= j < s.len() && #[trigger] t[k] == s[j] by {
        if k < i {
            assert(t[k] == s[k]);
        } else {
            assert(t[k] == s[k + 1]);
        }
    }
    assert forall|a: int, b: int| 0 <= a < b < t.len() implies (#[trigger] t[a]).nodeid != (
    #[trigger] t[b]).nodeid by {
        let a2 = if a < i {
            a
        } else {
            a + 1
        };
        let b2 = if b < i {
            b
        } else {
            b + 1
        };
        assert(t[a] == s[a2] && t[b] == s[b2]);
        assert(s[a2].nodeid != s[b2].nodeid);
    }
    assert forall|a: int, b: int| 0 <= a < b < t.len() implies (#[trigger] t[a]).path@ != (
    #[trigger] t[b]).path@ by {
        let a2 = if a < i {
            a
        } else {
            a + 1
        };
        let b2 = if b < i {
            b
        } else {
            b + 1
        };
        assert(t[a] == s[a2] && t[b] == s[b2]);
        assert(s[a2].path@ != s[b2].path@);
    }
}

/// `k` repeated lookups of path `p`: the refcount transition applied `k`
/// times.
pub open spec fn spec_ref_n(s: Seq<Inode>, p: Seq<u8>, k: nat) -> Seq<Inode>
    decreases k,
{
    if k == 0 {
        s
    } else {
        spec_ref_tr(spec_ref_n(s, p, (k - 1) as nat), p)
    }
}

/// Repeated lookups of a freshly inserted entry only raise its refcount: the
/// rest of the table never moves.
proof fn lemma_ref_n_on_fresh(s: Seq<Inode>, x: Inode, k: nat)
    requires
        spec_unique_paths(s),
        !spec_contains_path(s, x.path@),
        x.refcount + k <= u64::MAX,
        x.refcount >= 1,
    ensures
        spec_ref_n(s.push(x), x.path@, k) == s.push(
            Inode { refcount: (x.refcount + k) as u64, ..x },
        ),
    decreases k,
{
    let p = x.path@;
    if k == 0 {
        assert(s.push(x) =~= s.push(Inode { refcount: (x.refcount + 0) as u64, ..x }));
    } else {
        lemma_ref_n_on_fresh(s, x, (k - 1) as nat);
        let xk = Inode { refcount: (x.refcount + k - 1) as u64, ..x };
        let sk = s.push(xk);
        assert(spec_ref_n(s.push(x), p, k) == spec_ref_tr(sk, p));
        assert(spec_unique_paths(sk)) by {
            assert forall|a: int, b: int| 0 <= a < b < sk.len() implies (#[trigger] sk[a]).path@
                != (#[trigger] sk[b]).path@ by {
                if b < s.len() {
                    assert(sk[a] == s[a] && sk[b] == s[b]);
                } else {
                    assert(sk[a] == s[a] && sk[b] == xk);
                    if s[a].path@ == p {
                        assert(spec_contains_path(s, p));
                    }
                }
            }
        }
        assert(sk[s.len() as int].path@ == p);
        lemma_path_idx_of_found(sk, p, s.len() as int);
        let xk1 = Inode { refcount: (x.refcount + k) as u64, ..x };
        assert(spec_ref_tr(sk, p) =~= s.push(xk1));
    }
}

/// Matched Lookup/Forget sequences drain the table back to exactly its
/// previous entries: after an entry is created by a lookup of a fresh path,
/// raised by `k` further lookups, and forgotten with the matching count
/// `k + 1`, the table is what it was before the first lookup.
pub proof fn lemma_matched_lookups_drain(s: Seq<Inode>, x: Inode, k: nat)
    requires
        spec_unique_ids(s),
        spec_unique_paths(s),
        !spec_contains_id(s, x.nodeid),
        !spec_contains_path(s, x.path@),
        x.nodeid != ROOT_NODEID,
        x.refcount == 1,
        k + 1 <= u64::MAX,
    ensures
        spec_forget_tr(spec_ref_n(s.push(x), x.path@, k), x.nodeid, (k + 1) as u64) == s,
{
    lemma_ref_n_on_fresh(s, x, k);
    let xk = Inode { refcount: (1 + k) as u64, ..x };
    lemma_insert_fresh_then_forget(s, xk, (k + 1) as u64);
}

/// Inserting a fresh inode and then forgetting it with its whole lookup
/// count returns the table to exactly its previous entries: the inductive
/// step of the law that matched Lookup/Forget sequences drain the table back
/// to its initial size.
pub proof fn lemma_insert_fresh_then_forget(s: Seq<Inode>, x: Inode, n: u64)
    requires
        !spec_contains_id(s, x.nodeid),
        x.nodeid != ROOT_NODEID,
        n >= x.refcount,
    ensures
        spec_forget_tr(s.push(x), x.nodeid, n) == s,
{
    let s2 = s.push(x);
    assert(s2[s.len() as int].nodeid == x.nodeid);
    assert(spec_contains_id(s2, x.nodeid));
    let i = spec_idx_of(s2, x.nodeid);
    assert(0 <= i < s2.len() && s2[i].nodeid == x.nodeid);
    if i < s.len() {
        assert(s[i] == s2[i]);
        assert(spec_contains_id(s, x.nodeid));
    }
    assert(i == s.len());
    assert(s2.remove(i) =~= s);
}

/// Looking an already-present path up (which raises its refcount by one) and
/// then forgetting one reference of its nodeid leaves the table exactly as
/// it was: the inductive step of the drain law for re-lookups.
pub proof fn lemma_ref_then_forget(s: Seq<Inode>, i: int)
    requires
        spec_unique_ids(s),
        spec_unique_paths(s),
        0 <= i < s.len(),
        s[i].nodeid != ROOT_NODEID,
        1 <= s[i].refcount < u64::MAX,
    ensures
        spec_forget_tr(spec_ref_tr(s, s[i].path@), s[i].nodeid, 1) == s,
{
    let p = s[i].path@;
    let id = s[i].nodeid;
    lemma_path_idx_of_found(s, p, i);
    let s2 = spec_ref_tr(s, p);
    assert(s2 == s.update(i, Inode { refcount: (s[i].refcount + 1) as u64, ..s[i] }));
    assert(s2[i].nodeid == id);
    assert(forall|j: int| 0 <= j < s.len() && j != i ==> s2[j] == s[j]);
    assert forall|a: int, b: int| 0 <= a < b < s2.len() implies (#[trigger] s2[a]).nodeid != (
    #[trigger] s2[b]).nodeid by {
        assert(s2[a].nodeid == s[a].nodeid && s2[b].nodeid == s[b].nodeid);
    }
    lemma_idx_of_found(s2, id, i);
    assert(spec_forget_tr(s2, id, 1) == s2.update(i, Inode { refcount: s[i].refcount, ..s2[i] }));
    assert(s2.update(i, Inode { refcount: s[i].refcount, ..s2[i] }) =~= s);
}

/// A Forget of one nodeid never disturbs another live inode: its entry stays
/// live and keeps its fields, so a nodeid handed out by Lookup or Create
/// stays resolvable until its own count drains.
pub proof fn lemma_forget_preserves_other(s: Seq<Inode>, id: u64, n: u64, other: u64)
    requires
        spec_unique_ids(s),
        spec_contains_id(s, other),
        other != id,
    ensures
        spec_contains_id(spec_forget_tr(s, id, n), other),
        spec_inode_of(spec_forget_tr(s, id, n), other) == spec_inode_of(s, other),
{
    let t = spec_forget_tr(s, id, n);
    let k = spec_idx_of(s, other);
    assert(0 <= k < s.len() && s[k].nodeid == other);
    if id == ROOT_NODEID || !spec_contains_id(s, id) {
        lemma_idx_of_found(s, other, k);
    } else {
        let i = spec_idx_of(s, id);
        assert(0 <= i < s.len() && s[i].nodeid == id);
        lemma_idx_of_found(s, id, i);
        assert(i != k);
        if n >= s[i].refcount {
            lemma_remove_ids_unique(s, i);
            if k < i {
                assert(t[k] == s[k]);
                lemma_idx_of_found(t, other, k);
            } else {
                assert(t[k - 1] == s[k]);
                lemma_idx_of_found(t, other, k - 1);
            }
        } else {
            assert(t == s.update(i, Inode { refcount: (s[i].refcount - n) as u64, ..s[i] }));
            assert(t[k] == s[k]);
            assert forall|a: int, b: int| 0 <= a < b < t.len() implies (#[trigger] t[a]).nodeid
                != (#[trigger] t[b]).nodeid by {
                assert(t[a].nodeid == s[a].nodeid && t[b].nodeid == s[b].nodeid);
            }
            lemma_idx_of_found(t, other, k);
        }
    }
}

/// Removing any one entry keeps the remaining nodeids unique.
proof fn lemma_remove_ids_unique(s: Seq<Inode>, i: int)
    requires
        0 <= i < s.len(),
        spec_unique_ids(s),
    ensures
        spec_unique_ids(s.remove(i)),
{
    let t = s.remove(i);
    assert forall|a: int, b: int| 0 <= a < b < t.len() implies (#[trigger] t[a]).nodeid != (
    #[trigger] t[b]).nodeid by {
        let a2 = if a < i {
            a
        } else {
            a + 1
        };
        let b2 = if b < i {
            b
        } else {
            b + 1
        };
        assert(t[a] == s[a2] && t[b] == s[b2]);
        assert(s[a2].nodeid != s[b2].nodeid);
    }
}

/// A partial Forget (one that does not drain the refcount) keeps the inode
/// resolvable under the same path, with the count lowered by exactly `n`.
pub proof fn lemma_partial_forget_keeps(s: Seq<Inode>, id: u64, n: u64)
    requires
        spec_unique_ids(s),
        spec_contains_id(s, id),
        id != ROOT_NODEID,
        n < spec_inode_of(s, id).refcount,
    ensures
        spec_contains_id(spec_forget_tr(s, id, n), id),
        spec_inode_of(spec_forget_tr(s, id, n), id).path@ == spec_inode_of(s, id).path@,
        spec_inode_of(spec_forget_tr(s, id, n), id).refcount == spec_inode_of(s, id).refcount
            - n,
{
    let i = spec_idx_of(s, id);
    assert(0 <= i < s.len() && s[i].nodeid == id);
    let t = spec_forget_tr(s, id, n);
    assert(t == s.update(i, Inode { refcount: (s[i].refcount - n) as u64, ..s[i] }));
    assert(t[i].nodeid == id);
    assert forall|a: int, b: int| 0 <= a < b < t.len() implies (#[trigger] t[a]).nodeid != (
    #[trigger] t[b]).nodeid by {
        assert(t[a].nodeid == s[a].nodeid && t[b].nodeid == s[b].nodeid);
    }
    lemma_idx_of_found(t, id, i);
}

} // verus!
