//! The boundary with the backing storage operator: the narrow capability the
//! core consumes, and a verified in-memory operator.
//!
//! The core is polymorphic over storage: every concrete driver (a local
//! disk, an object store, a key-value store) sits behind the `Storage`
//! trait, whose abstract state is a map from paths to objects. Directory
//! keys carry a trailing '/'; file keys do not. `MemStorage` is the
//! in-process implementation, verified against the same contracts that any
//! driver is held to.

use vstd::prelude::*;
use vstd::slice::slice_subrange;

use crate::bytesutil::{copy_slice, eq_bytes};
use crate::error::ErrorKind;

verus! {

/// The abstract state of one stored object.
pub struct StorageObject {
    /// The object's bytes; empty for directories.
    pub data: Seq<u8>,
    /// Whether the key names a directory.
    pub is_dir: bool,
    /// Last-modified time as whole seconds and nanoseconds, where the
    /// backend knows one.
    pub modified: Option<(u64, u32)>,
}

/// Backend metadata as a handler consumes it: the input of the attribute
/// synthesizer.
#[derive(Clone, Copy, Debug, PartialEq, Eq, Structural)]
pub struct Metadata {
    /// Object length in bytes.
    pub length: u64,
    /// Whether the key names a directory.
    pub is_dir: bool,
    /// Whether a last-modified time is known.
    pub has_modified: bool,
    /// Last-modified whole seconds, 0 when unknown.
    pub modified_sec: u64,
    /// Last-modified nanoseconds, 0 when unknown.
    pub modified_nsec: u32,
}

/// The metadata that describes `obj`.
pub open spec fn spec_meta_of(obj: StorageObject) -> Metadata {
    Metadata {
        length: obj.data.len() as u64,
        is_dir: obj.is_dir,
        has_modified: obj.modified is Some,
        modified_sec: match obj.modified {
            Some(t) => t.0,
            None => 0u64,
        },
        modified_nsec: match obj.modified {
            Some(t) => t.1,
            None => 0u32,
        },
    }
}

/// The key a stat of `p` answers from: the exact key when it is present,
/// else the directory key `p` + '/', else nothing.
pub open spec fn spec_stat_key(objs: Map<Seq<u8>, StorageObject>, p: Seq<u8>) -> Option<Seq<u8>> {
    if objs.contains_key(p) {
        Some(p)
    } else if objs.contains_key(p + seq![47u8]) {
        Some(p + seq![47u8])
    } else {
        None
    }
}

/// Whether key `k` lies strictly under directory prefix `p`.
pub open spec fn spec_under_prefix(k: Seq<u8>, p: Seq<u8>) -> bool {
    k.len() > p.len() && k.subrange(0, p.len() as int) == p
}

/// A listing `v` of the objects under directory prefix `p` is complete:
/// every stored key under the prefix appears among the returned names.
pub open spec fn spec_list_complete(
    objs: Map<Seq<u8>, StorageObject>,
    p: Seq<u8>,
    v: Seq<(Vec<u8>, Metadata)>,
) -> bool {
    forall|k: Seq<u8>|
        #[trigger] objs.contains_key(k) && spec_under_prefix(k, p) ==> exists|i: int|
            0 <= i < v.len() && p + (#[trigger] v[i]).0@ == k
}

/// An error kind a storage operation may surface.
pub open spec fn spec_storage_err(e: ErrorKind) -> bool {
    e == ErrorKind::NotFound || e == ErrorKind::PermissionDenied || e == ErrorKind::Protocol
}

/// The narrow capability the core consumes. The abstract state is
/// `objects()`, a map from backend paths to objects; `inv` is whatever
/// internal consistency the driver maintains. An operation may always
/// surface `PermissionDenied` or `Protocol` (an unclassified failure), but
/// whenever one reports success or `NotFound`, the contract ties that
/// outcome to the abstract state.
pub trait Storage: Sized {
    /// The driver's internal consistency.
    spec fn inv(&self) -> bool;

    /// The abstract state: every stored object under its path.
    spec fn objects(&self) -> Map<Seq<u8>, StorageObject>;

    /// Stats `path`: metadata of the object under the exact key, or under
    /// the directory key `path` + '/'.
    fn stat(&self, path: &[u8]) -> (r: Result<Metadata, ErrorKind>)
        requires
            self.inv(),
        ensures
            r matches Ok(m) ==> spec_stat_key(self.objects(), path@) matches Some(k) && m
                == spec_meta_of(self.objects()[k]),
            r matches Err(e) ==> spec_storage_err(e) && (e == ErrorKind::NotFound
                ==> spec_stat_key(self.objects(), path@) is None),
    ;

    /// Reads up to `size` bytes of the object at `path` starting at byte
    /// `offset`. Reads past the end return no bytes; short reads are
    /// permitted.
    fn read(&self, path: &[u8], offset: u64, size: u32) -> (r: Result<Vec<u8>, ErrorKind>)
        requires
            self.inv(),
        ensures
            r matches Ok(b) ==> self.objects().contains_key(path@) && {
                let data = self.objects()[path@].data;
                &&& b@.len() <= size
                &&& offset <= data.len() ==> offset + b@.len() <= data.len() && b@
                    == data.subrange(offset as int, offset + b@.len())
                &&& offset > data.len() ==> b@.len() == 0
            },
            r matches Err(e) ==> spec_storage_err(e) && (e == ErrorKind::NotFound
                ==> !self.objects().contains_key(path@)),
    ;

    /// Overwrites or creates the object at `path` with exactly `data`.
    fn write(&mut self, path: &[u8], data: &[u8]) -> (r: Result<(), ErrorKind>)
        requires
            old(self).inv(),
        ensures
            final(self).inv(),
            r matches Ok(u) ==> {
                &&& final(self).objects() == old(self).objects().insert(
                    path@,
                    final(self).objects()[path@],
                )
                &&& final(self).objects()[path@].data == data@
                &&& !final(self).objects()[path@].is_dir
            },
            r matches Err(e) ==> spec_storage_err(e) && final(self).objects() == old(
                self,
            ).objects(),
    ;

    /// Deletes the object at `path`; afterwards the key is absent. A driver
    /// may report a missing key as `NotFound` (the core remaps it) or
    /// silently succeed.
    fn delete(&mut self, path: &[u8]) -> (r: Result<(), ErrorKind>)
        requires
            old(self).inv(),
        ensures
            final(self).inv(),
            r matches Ok(u) ==> final(self).objects() == old(self).objects().remove(path@),
            r matches Err(e) ==> spec_storage_err(e) && final(self).objects() == old(
                self,
            ).objects() && (e == ErrorKind::NotFound ==> !old(self).objects().contains_key(
                path@,
            )),
    ;

    /// Lists the entries under the directory key `path`: each returned name,
    /// appended to `path`, is a stored key with the returned metadata; every
    /// stored key under the prefix appears, and appears once.
    fn list(&self, path: &[u8]) -> (r: Result<Vec<(Vec<u8>, Metadata)>, ErrorKind>)
        requires
            self.inv(),
        ensures
            r matches Ok(v) ==> forall|i: int|
                0 <= i < v@.len() ==> self.objects().contains_key(
                    path@ + (#[trigger] v@[i]).0@,
                ) && v@[i].1 == spec_meta_of(self.objects()[path@ + v@[i].0@]),
            r matches Ok(v) ==> spec_list_complete(self.objects(), path@, v@),
            r matches Ok(v) ==> forall|i: int, j: int|
                0 <= i < j < v@.len() ==> (#[trigger] v@[i]).0@ != (#[trigger] v@[j]).0@,
            r matches Err(e) ==> spec_storage_err(e),
    ;

    /// Creates the directory key `path` (which carries its trailing '/').
    fn create_dir(&mut self, path: &[u8]) -> (r: Result<(), ErrorKind>)
        requires
            old(self).inv(),
        ensures
            final(self).inv(),
            r matches Ok(u) ==> {
                &&& final(self).objects() == old(self).objects().insert(
                    path@,
                    final(self).objects()[path@],
                )
                &&& final(self).objects()[path@].is_dir
                &&& final(self).objects()[path@].data.len() == 0
            },
            r matches Err(e) ==> spec_storage_err(e) && final(self).objects() == old(
                self,
            ).objects(),
    ;

    /// Moves the object at `from` to `to`, replacing anything at `to`.
    fn rename(&mut self, from: &[u8], to: &[u8]) -> (r: Result<(), ErrorKind>)
        requires
            old(self).inv(),
        ensures
            final(self).inv(),
            r matches Ok(u) ==> old(self).objects().contains_key(from@) && final(self).objects()
                == old(self).objects().remove(from@).insert(to@, old(self).objects()[from@]),
            r matches Err(e) ==> spec_storage_err(e) && final(self).objects() == old(
                self,
            ).objects() && (e == ErrorKind::NotFound ==> !old(self).objects().contains_key(
                from@,
            )),
    ;
}

/// One object as the in-memory operator stores it.
pub struct StoredObject {
    /// The backend key.
    pub path: Vec<u8>,
    /// The object's bytes; empty for directories.
    pub data: Vec<u8>,
    /// Whether the key names a directory.
    pub is_dir: bool,
    /// Whether a last-modified time is recorded.
    pub has_modified: bool,
    /// Last-modified whole seconds.
    pub modified_sec: u64,
    /// Last-modified nanoseconds.
    pub modified_nsec: u32,
}

/// The abstract object a stored one denotes.
pub open spec fn spec_obj_of(o: StoredObject) -> StorageObject {
    StorageObject {
        data: o.data@,
        is_dir: o.is_dir,
        modified: if o.has_modified {
            Some((o.modified_sec, o.modified_nsec))
        } else {
            None
        },
    }
}

/// Whether some stored object of `s` sits under key `p`.
pub open spec fn spec_has_key(s: Seq<StoredObject>, p: Seq<u8>) -> bool {
    exists|i: int| 0 <= i < s.len() && s[i].path@ == p
}

/// The index of the stored object of `s` under key `p`.
pub open spec fn spec_key_idx(s: Seq<StoredObject>, p: Seq<u8>) -> int {
    choose|i: int| 0 <= i < s.len() && s[i].path@ == p
}

/// No two stored objects of `s` share a key.
pub open spec fn spec_unique_keys(s: Seq<StoredObject>) -> bool {
    forall|i: int, j: int|
        0 <= i < j < s.len() ==> (#[trigger] s[i]).path@ != (#[trigger] s[j]).path@
}

/// The map denoted by a store's entries.
pub open spec fn spec_objs_of(s: Seq<StoredObject>) -> Map<Seq<u8>, StorageObject> {
    Map::new(|p: Seq<u8>| spec_has_key(s, p), |p: Seq<u8>| spec_obj_of(s[spec_key_idx(s, p)]))
}

/// The in-memory storage operator: a flat store of objects under unique
/// keys, holding the root directory from the start. It answers every
/// operation deterministically and never surfaces `PermissionDenied` or
/// `Protocol`.
pub struct MemStorage {
    /// The stored objects, with pairwise distinct keys.
    pub items: Vec<StoredObject>,
}

impl MemStorage {
    /// A fresh store holding only the root directory "/".
    pub fn new() -> (r: MemStorage)
        ensures
            r.inv(),
            r.objects().contains_key(seq![47u8]),
            r.objects()[seq![47u8]].is_dir,
            r.objects().dom() =~= set![seq![47u8]],
    {
        let mut path: Vec<u8> = Vec::new();
        path.push(47);
        let root = StoredObject {
            path,
            data: Vec::new(),
            is_dir: true,
            has_modified: false,
            modified_sec: 0,
            modified_nsec: 0,
        };
        let mut items: Vec<StoredObject> = Vec::new();
        items.push(root);
        let r = MemStorage { items };
        proof {
            assert(r.items@[0].path@ =~= seq![47u8]);
            assert(spec_has_key(r.items@, seq![47u8]));
            assert forall|p: Seq<u8>| r.objects().dom().contains(p) implies set![
                seq![47u8],
            ].contains(p) by {
                let i = spec_key_idx(r.items@, p);
                assert(0 <= i < 1 && r.items@[i].path@ == p);
            }
        }
        r
    }

    /// The index of the stored object under key `path`, if one is present.
    fn find_key(&self, path: &[u8]) -> (r: Option<usize>)
        ensures
            r matches Some(i) ==> i < self.items@.len() && self.items@[i as int].path@ == path@,
            r is None ==> !spec_has_key(self.items@, path@),
    {
        let mut i: usize = 0;
        while i < self.items.len()
            invariant
                i <= self.items@.len(),
                forall|j: int| 0 <= j < i ==> (#[trigger] self.items@[j]).path@ != path@,
            decreases self.items@.len() - i,
        {
            if eq_bytes(self.items[i].path.as_slice(), path) {
                return Some(i);
            }
            i = i + 1;
        }
        None
    }

    /// Stores `data` (or a directory mark) under `path` with the given
    /// last-modified time, replacing whatever the key held. Tests and hosts
    /// use it to seed the store.
    pub fn put(
        &mut self,
        path: &[u8],
        data: Vec<u8>,
        is_dir: bool,
        has_modified: bool,
        modified_sec: u64,
        modified_nsec: u32,
    )
        requires
            old(self).inv(),
        ensures
            final(self).inv(),
            final(self).objects() == old(self).objects().insert(
                path@,
                StorageObject {
                    data: data@,
                    is_dir: is_dir,
                    modified: if has_modified {
                        Some((modified_sec, modified_nsec))
                    } else {
                        None
                    },
                },
            ),
    {
        let ghost pre = self.items@;
        let obj = StoredObject {
            path: copy_slice(path),
            data,
            is_dir,
            has_modified,
            modified_sec,
            modified_nsec,
        };
        match self.find_key(path) {
            Some(i) => {
                proof {
                    lemma_key_idx_found(pre, path@, i as int);
                }
                let e = &mut self.items[i];
                *e = obj;
                proof {
                    lemma_update_same_key(pre, self.items@, i as int);
                }
            },
            None => {
                self.items.push(obj);
                proof {
                    lemma_push_fresh_key(pre, self.items@);
                }
            },
        }
    }

    /// The scan behind the storage listing, stated against the denoted map:
    /// sound, complete under the prefix, and free of repeats.
    #[verifier::rlimit(100)]
    #[verifier::spinoff_prover]
    fn list_scan(&self, path: &[u8]) -> (out: Vec<(Vec<u8>, Metadata)>)
        requires
            spec_unique_keys(self.items@),
        ensures
            forall|k: int|
                0 <= k < out@.len() ==> self.objects().contains_key(
                    path@ + (#[trigger] out@[k]).0@,
                ) && out@[k].1 == spec_meta_of(self.objects()[path@ + out@[k].0@]),
            spec_list_complete(self.objects(), path@, out@),
            forall|a: int, b: int|
                0 <= a < b < out@.len() ==> (#[trigger] out@[a]).0@ != (#[trigger] out@[b]).0@,
    {
        let mut out: Vec<(Vec<u8>, Metadata)> = Vec::new();
        // the index of the stored object each output entry came from
        let ghost mut srcs: Seq<int> = Seq::empty();
        let mut i: usize = 0;
        while i < self.items.len()
            invariant
                spec_unique_keys(self.items@),
                i <= self.items@.len(),
                srcs.len() == out@.len(),
                forall|k: int|
                    0 <= k < out@.len() ==> 0 <= #[trigger] srcs[k] < i && path@ + out@[k].0@
                        == self.items@[srcs[k]].path@ && out@[k].1 == spec_meta_of(
                        spec_obj_of(self.items@[srcs[k]]),
                    ),
                forall|a: int, b: int| 0 <= a < b < srcs.len() ==> #[trigger] srcs[a] < #[trigger] srcs[b],
                forall|j: int|
                    0 <= j < i && spec_under_prefix((#[trigger] self.items@[j]).path@, path@)
                        ==> exists|k: int|
                        0 <= k < out@.len() && path@ + (#[trigger] out@[k]).0@
                            == self.items@[j].path@,
            decreases self.items@.len() - i,
        {
            let it = &self.items[i];
            if it.path.len() > path.len() && starts_with(it.path.as_slice(), path) {
                let name = copy_slice(
                    slice_subrange(it.path.as_slice(), path.len(), it.path.len()),
                );
                let meta = meta_of_stored(it);
                proof {
                    assert(path@ + name@ =~= it.path@);
                }
                let ghost pre_out = out@;
                out.push((name, meta));
                proof {
                    srcs = srcs.push(i as int);
                    let n = pre_out.len() as int;
                    assert(path@ + out@[n].0@ == self.items@[i as int].path@);
                    assert forall|j: int|
                        0 <= j < i + 1 && spec_under_prefix(
                            (#[trigger] self.items@[j]).path@,
                            path@,
                        ) implies exists|k: int|
                        0 <= k < out@.len() && path@ + (#[trigger] out@[k]).0@
                            == self.items@[j].path@ by {
                        if j == i {
                            assert(path@ + out@[n].0@ == self.items@[j].path@);
                        } else {
                            assert(exists|k: int|
                                0 <= k < pre_out.len() && path@ + pre_out[k].0@
                                    == self.items@[j].path@);
                            let k = choose|k: int|
                                0 <= k < pre_out.len() && path@ + pre_out[k].0@
                                    == self.items@[j].path@;
                            assert(path@ + out@[k].0@ == self.items@[j].path@);
                        }
                    }
                }
            } else {
                proof {
                    assert(!spec_under_prefix(self.items@[i as int].path@, path@));
                }
            }
            i = i + 1;
        }
        proof {
            lemma_list_report(self.items@, path@, out@, srcs);
            assert forall|k: int|
                0 <= k < out@.len() implies self.objects().contains_key(
                path@ + (#[trigger] out@[k]).0@,
            ) && out@[k].1 == spec_meta_of(self.objects()[path@ + out@[k].0@]) by {
                assert(spec_objs_of(self.items@).contains_key(path@ + out@[k].0@));
            }
            assert forall|k: Seq<u8>|
                #[trigger] self.objects().contains_key(k) && spec_under_prefix(k, path@)
                    implies exists|idx: int|
                0 <= idx < out@.len() && path@ + (#[trigger] out@[idx]).0@ == k by {
                assert(spec_objs_of(self.items@).contains_key(k));
            }
            assert(spec_list_complete(self.objects(), path@, out@));
        }
        out
    }
}

/// A listing assembled by scanning the store — each entry tied to a distinct
/// source object, in scan order, with nothing under the prefix skipped — is
/// sound, complete and free of repeats against the denoted map.
proof fn lemma_list_report(
    items: Seq<StoredObject>,
    path: Seq<u8>,
    out: Seq<(Vec<u8>, Metadata)>,
    srcs: Seq<int>,
)
    requires
        spec_unique_keys(items),
        srcs.len() == out.len(),
        forall|k: int|
            0 <= k < out.len() ==> 0 <= #[trigger] srcs[k] < items.len() && path + out[k].0@
                == items[srcs[k]].path@ && out[k].1 == spec_meta_of(
                spec_obj_of(items[srcs[k]]),
            ),
        forall|a: int, b: int| 0 <= a < b < srcs.len() ==> #[trigger] srcs[a] < #[trigger] srcs[b],
        forall|j: int|
            0 <= j < items.len() && spec_under_prefix((#[trigger] items[j]).path@, path)
                ==> exists|k: int|
                0 <= k < out.len() && path + (#[trigger] out[k]).0@ == items[j].path@,
    ensures
        forall|k: int|
            0 <= k < out.len() ==> spec_objs_of(items).contains_key(
                path + (#[trigger] out[k]).0@,
            ) && out[k].1 == spec_meta_of(spec_objs_of(items)[path + out[k].0@]),
        forall|k: Seq<u8>|
            #[trigger] spec_objs_of(items).contains_key(k) && spec_under_prefix(k, path)
                ==> exists|i: int| 0 <= i < out.len() && path + (#[trigger] out[i]).0@ == k,
        forall|a: int, b: int|
            0 <= a < b < out.len() ==> (#[trigger] out[a]).0@ != (#[trigger] out[b]).0@,
{
    assert forall|k: int|
        0 <= k < out.len() implies spec_objs_of(items).contains_key(
        path + (#[trigger] out[k]).0@,
    ) && out[k].1 == spec_meta_of(spec_objs_of(items)[path + out[k].0@]) by {
        let j = srcs[k];
        lemma_key_idx_found(items, items[j].path@, j);
    }
    assert forall|a: int, b: int| 0 <= a < b < out.len() implies (#[trigger] out[a]).0@ != (
    #[trigger] out[b]).0@ by {
        let ja = srcs[a];
        let jb = srcs[b];
        assert(ja < jb);
        if out[a].0@ == out[b].0@ {
            assert(items[ja].path@ == items[jb].path@);
            assert(items[ja].path@ != items[jb].path@);
        }
    }
    assert forall|k: Seq<u8>|
        #[trigger] spec_objs_of(items).contains_key(k) && spec_under_prefix(k, path)
            implies exists|i: int| 0 <= i < out.len() && path + (#[trigger] out[i]).0@ == k by {
        let j = spec_key_idx(items, k);
        assert(0 <= j < items.len() && items[j].path@ == k);
        assert(spec_under_prefix(items[j].path@, path));
        assert(exists|kk: int| 0 <= kk < out.len() && path + out[kk].0@ == items[j].path@);
        let kk = choose|kk: int| 0 <= kk < out.len() && path + out[kk].0@ == items[j].path@;
        assert(path + out[kk].0@ == k);
    }


}

/// With unique keys, the index a scan finds is the index the specification
/// speaks of.
proof fn lemma_key_idx_found(s: Seq<StoredObject>, p: Seq<u8>, i: int)
    requires
        spec_unique_keys(s),
        0 <= i < s.len(),
        s[i].path@ == p,
    ensures
        spec_has_key(s, p),
        spec_key_idx(s, p) == i,
{
    assert(spec_has_key(s, p));
    let j = spec_key_idx(s, p);
    assert(0 <= j < s.len() && s[j].path@ == p);
    if i < j {
        assert(s[i].path@ != s[j].path@);
    } else if j < i {
        assert(s[j].path@ != s[i].path@);
    }
}

/// Replacing the object at index `i` without changing its key turns the
/// denoted map into an insert at that key.
proof fn lemma_update_same_key(pre: Seq<StoredObject>, post: Seq<StoredObject>, i: int)
    requires
        spec_unique_keys(pre),
        0 <= i < pre.len(),
        post.len() == pre.len(),
        post[i].path@ == pre[i].path@,
        forall|j: int| 0 <= j < pre.len() && j != i ==> post[j] == pre[j],
    ensures
        spec_unique_keys(post),
        spec_objs_of(post) == spec_objs_of(pre).insert(pre[i].path@, spec_obj_of(post[i])),
{
    let p = pre[i].path@;
    assert forall|a: int, b: int| 0 <= a < b < post.len() implies (#[trigger] post[a]).path@ != (
    #[trigger] post[b]).path@ by {
        assert(post[a].path@ == pre[a].path@ && post[b].path@ == pre[b].path@);
    }
    let m1 = spec_objs_of(post);
    let m2 = spec_objs_of(pre).insert(p, spec_obj_of(post[i]));
    assert forall|q: Seq<u8>| m1.dom().contains(q) <==> m2.dom().contains(q) by {
        if spec_has_key(post, q) {
            let k = spec_key_idx(post, q);
            assert(0 <= k < post.len() && post[k].path@ == q);
            assert(pre[k].path@ == q);
            assert(spec_has_key(pre, q));
        }
        if spec_has_key(pre, q) {
            let k = spec_key_idx(pre, q);
            assert(0 <= k < pre.len() && pre[k].path@ == q);
            assert(post[k].path@ == q);
            assert(spec_has_key(post, q));
        }
    }
    assert forall|q: Seq<u8>| m1.dom().contains(q) implies m1[q] == m2[q] by {
        let k = spec_key_idx(post, q);
        assert(0 <= k < post.len() && post[k].path@ == q);
        lemma_key_idx_found(post, q, k);
        if q == p {
            assert(k == i) by {
                if k != i {
                    assert(pre[k].path@ == q);
                    lemma_key_idx_found(pre, q, k);
                    assert(pre[i].path@ == p);
                    lemma_key_idx_found(pre, p, i);
                }
            }
        } else {
            assert(k != i);
            assert(pre[k].path@ == q);
            lemma_key_idx_found(pre, q, k);
        }
    }
    assert(m1 =~= m2);
}

/// Appending an object under a key the store does not hold turns the
/// denoted map into an insert at that key.
proof fn lemma_push_fresh_key(pre: Seq<StoredObject>, post: Seq<StoredObject>)
    requires
        spec_unique_keys(pre),
        post.len() == pre.len() + 1,
        forall|j: int| 0 <= j < pre.len() ==> post[j] == pre[j],
        !spec_has_key(pre, post[pre.len() as int].path@),
    ensures
        spec_unique_keys(post),
        spec_objs_of(post) == spec_objs_of(pre).insert(
            post[pre.len() as int].path@,
            spec_obj_of(post[pre.len() as int]),
        ),
{
    let n = pre.len() as int;
    let p = post[n].path@;
    assert forall|a: int, b: int| 0 <= a < b < post.len() implies (#[trigger] post[a]).path@ != (
    #[trigger] post[b]).path@ by {
        if b < n {
            assert(post[a].path@ == pre[a].path@ && post[b].path@ == pre[b].path@);
        } else {
            assert(b == n);
            assert(post[a] == pre[a]);
            if post[a].path@ == p {
                assert(spec_has_key(pre, p));
            }
        }
    }
    let m1 = spec_objs_of(post);
    let m2 = spec_objs_of(pre).insert(p, spec_obj_of(post[n]));
    assert forall|q: Seq<u8>| m1.dom().contains(q) <==> m2.dom().contains(q) by {
        if spec_has_key(post, q) {
            let k = spec_key_idx(post, q);
            assert(0 <= k < post.len() && post[k].path@ == q);
            if k < n {
                assert(pre[k].path@ == q);
                assert(spec_has_key(pre, q));
            }
        }
        if spec_has_key(pre, q) {
            let k = spec_key_idx(pre, q);
            assert(0 <= k < pre.len() && pre[k].path@ == q);
            assert(post[k].path@ == q);
            assert(spec_has_key(post, q));
        }
    }
    assert forall|q: Seq<u8>| m1.dom().contains(q) implies m1[q] == m2[q] by {
        let k = spec_key_idx(post, q);
        assert(0 <= k < post.len() && post[k].path@ == q);
        lemma_key_idx_found(post, q, k);
        if q == p {
            assert(k == n) by {
                if k < n {
                    assert(pre[k].path@ == p);
                    assert(spec_has_key(pre, p));
                }
            }
        } else {
            assert(k < n);
            assert(pre[k].path@ == q);
            lemma_key_idx_found(pre, q, k);
        }
    }
    assert(m1 =~= m2);
}

/// Removing the object at index `i` turns the denoted map into a remove of
/// its key.
proof fn lemma_remove_key(pre: Seq<StoredObject>, i: int)
    requires
        spec_unique_keys(pre),
        0 <= i < pre.len(),
    ensures
        spec_unique_keys(pre.remove(i)),
        spec_objs_of(pre.remove(i)) == spec_objs_of(pre).remove(pre[i].path@),
{
    let post = pre.remove(i);
    let p = pre[i].path@;
    assert forall|a: int, b: int| 0 <= a < b < post.len() implies (#[trigger] post[a]).path@ != (
    #[trigger] post[b]).path@ by {
        let a2 = if a < i {
            a
        } else {
            a + 1
        };
        let b2 = if b < i {
            b
        } else {
            b + 1
        };
        assert(post[a] == pre[a2] && post[b] == pre[b2]);
        assert(pre[a2].path@ != pre[b2].path@);
    }
    let m1 = spec_objs_of(post);
    let m2 = spec_objs_of(pre).remove(p);
    assert forall|q: Seq<u8>| m1.dom().contains(q) <==> m2.dom().contains(q) by {
        if spec_has_key(post, q) {
            let k = spec_key_idx(post, q);
            assert(0 <= k < post.len() && post[k].path@ == q);
            let k2 = if k < i {
                k
            } else {
                k + 1
            };
            assert(post[k] == pre[k2]);
            assert(spec_has_key(pre, q));
            if q == p {
                lemma_key_idx_found(pre, p, i);
                lemma_key_idx_found(pre, q, k2);
            }
        }
        if spec_has_key(pre, q) && q != p {
            let k = spec_key_idx(pre, q);
            assert(0 <= k < pre.len() && pre[k].path@ == q);
            assert(k != i);
            if k < i {
                assert(post[k] == pre[k]);
            } else {
                assert(post[k - 1] == pre[k]);
            }
            assert(spec_has_key(post, q));
        }
    }
    assert forall|q: Seq<u8>| m1.dom().contains(q) implies m1[q] == m2[q] by {
        let k = spec_key_idx(post, q);
        assert(0 <= k < post.len() && post[k].path@ == q);
        lemma_key_idx_found(post, q, k);
        let k2 = if k < i {
            k
        } else {
            k + 1
        };
        assert(post[k] == pre[k2]);
        lemma_key_idx_found(pre, q, k2);
    }
    assert(m1 =~= m2);
}

/// The metadata of one stored object.
fn meta_of_stored(o: &StoredObject) -> (m: Metadata)
    ensures
        m == spec_meta_of(spec_obj_of(*o)),
{
    Metadata {
        length: o.data.len() as u64,
        is_dir: o.is_dir,
        has_modified: o.has_modified,
        modified_sec: if o.has_modified {
            o.modified_sec
        } else {
            0
        },
        modified_nsec: if o.has_modified {
            o.modified_nsec
        } else {
            0
        },
    }
}

/// Whether `s` begins with `prefix`.
fn starts_with(s: &[u8], prefix: &[u8]) -> (r: bool)
    ensures
        r == (s@.len() >= prefix@.len() && s@.subrange(0, prefix@.len() as int) == prefix@),
{
    if s.len() < prefix.len() {
        return false;
    }
    let mut i: usize = 0;
    while i < prefix.len()
        invariant
            s@.len() >= prefix@.len(),
            i <= prefix@.len(),
            forall|j: int| 0 <= j < i ==> s@[j] == prefix@[j],
        decreases prefix@.len() - i,
    {
        if s[i] != prefix[i] {
            assert(s@.subrange(0, prefix@.len() as int)[i as int] != prefix@[i as int]);
            return false;
        }
        i = i + 1;
    }
    assert(s@.subrange(0, prefix@.len() as int) =~= prefix@);
    true
}

impl Storage for MemStorage {
    /// Keys are pairwise distinct.
    open spec fn inv(&self) -> bool {
        spec_unique_keys(self.items@)
    }

    open spec fn objects(&self) -> Map<Seq<u8>, StorageObject> {
        spec_objs_of(self.items@)
    }

    fn stat(&self, path: &[u8]) -> (r: Result<Metadata, ErrorKind>)
        ensures
            r is Ok <==> spec_stat_key(self.objects(), path@) is Some,
    {
        match self.find_key(path) {
            Some(i) => {
                proof {
                    lemma_key_idx_found(self.items@, path@, i as int);
                }
                Ok(meta_of_stored(&self.items[i]))
            },
            None => {
                let mut p2 = copy_slice(path);
                p2.push(47);
                assert(p2@ =~= path@ + seq![47u8]);
                match self.find_key(p2.as_slice()) {
                    Some(i) => {
                        proof {
                            lemma_key_idx_found(self.items@, p2@, i as int);
                        }
                        Ok(meta_of_stored(&self.items[i]))
                    },
                    None => Err(ErrorKind::NotFound),
                }
            },
        }
    }

    fn read(&self, path: &[u8], offset: u64, size: u32) -> (r: Result<Vec<u8>, ErrorKind>)
        ensures
            r is Ok <==> self.objects().contains_key(path@),
            r matches Ok(b) ==> ({
                let data = self.objects()[path@].data;
                offset <= data.len() ==> b@ == data.subrange(
                    offset as int,
                    if offset + size <= data.len() {
                        offset + size
                    } else {
                        data.len() as int
                    },
                )
            }),
    {
        match self.find_key(path) {
            Some(i) => {
                proof {
                    lemma_key_idx_found(self.items@, path@, i as int);
                }
                let data = &self.items[i].data;
                let n = data.len();
                if offset >= n as u64 {
                    let empty: Vec<u8> = Vec::new();
                    return Ok(empty);
                }
                let avail: u64 = (n as u64) - offset;
                let take: u64 = if (size as u64) < avail {
                    size as u64
                } else {
                    avail
                };
                let start: usize = offset as usize;
                let take_us: usize = take as usize;
                let mut out: Vec<u8> = Vec::new();
                assert(offset + take <= n as u64);
                assert(start + take_us <= n);
                let mut j: usize = 0;
                while j < take_us
                    invariant
                        data@.len() <= usize::MAX,
                        start + take_us <= data@.len(),
                        j <= take_us,
                        out@ == data@.subrange(start as int, start + j),
                    decreases take_us - j,
                {
                    out.push(data[start + j]);
                    assert(out@ =~= data@.subrange(start as int, start + j + 1));
                    j = j + 1;
                }
                Ok(out)
            },
            None => Err(ErrorKind::NotFound),
        }
    }

    fn write(&mut self, path: &[u8], data: &[u8]) -> (r: Result<(), ErrorKind>)
        ensures
            r is Ok,
    {
        let ghost pre = self.items@;
        match self.find_key(path) {
            Some(i) => {
                proof {
                    lemma_key_idx_found(pre, path@, i as int);
                }
                let e = &mut self.items[i];
                e.data = copy_slice(data);
                e.is_dir = false;
                e.has_modified = false;
                e.modified_sec = 0;
                e.modified_nsec = 0;
                proof {
                    lemma_update_same_key(pre, self.items@, i as int);
                }
                Ok(())
            },
            None => {
                let obj = StoredObject {
                    path: copy_slice(path),
                    data: copy_slice(data),
                    is_dir: false,
                    has_modified: false,
                    modified_sec: 0,
                    modified_nsec: 0,
                };
                self.items.push(obj);
                proof {
                    lemma_push_fresh_key(pre, self.items@);
                }
                Ok(())
            },
        }
    }

    fn delete(&mut self, path: &[u8]) -> (r: Result<(), ErrorKind>)
        ensures
            r is Ok <==> old(self).objects().contains_key(path@),
    {
        let ghost pre = self.items@;
        match self.find_key(path) {
            Some(i) => {
                proof {
                    lemma_key_idx_found(pre, path@, i as int);
                }
                self.items.remove(i);
                proof {
                    lemma_remove_key(pre, i as int);
                }
                Ok(())
            },
            None => Err(ErrorKind::NotFound),
        }
    }

    #[verifier::rlimit(100)]
    #[verifier::spinoff_prover]
    fn list(&self, path: &[u8]) -> (r: Result<Vec<(Vec<u8>, Metadata)>, ErrorKind>) {
        Ok(self.list_scan(path))
    }

    fn create_dir(&mut self, path: &[u8]) -> (r: Result<(), ErrorKind>)
        ensures
            r is Ok,
    {
        let ghost pre = self.items@;
        match self.find_key(path) {
            Some(i) => {
                proof {
                    lemma_key_idx_found(pre, path@, i as int);
                }
                let e = &mut self.items[i];
                e.data = Vec::new();
                e.is_dir = true;
                e.has_modified = false;
                e.modified_sec = 0;
                e.modified_nsec = 0;
                proof {
                    lemma_update_same_key(pre, self.items@, i as int);
                }
                Ok(())
            },
            None => {
                let obj = StoredObject {
                    path: copy_slice(path),
                    data: Vec::new(),
                    is_dir: true,
                    has_modified: false,
                    modified_sec: 0,
                    modified_nsec: 0,
                };
                self.items.push(obj);
                proof {
                    lemma_push_fresh_key(pre, self.items@);
                }
                Ok(())
            },
        }
    }

    fn rename(&mut self, from: &[u8], to: &[u8]) -> (r: Result<(), ErrorKind>)
        ensures
            r is Ok <==> old(self).objects().contains_key(from@),
    {
        let ghost pre = self.items@;
        match self.find_key(from) {
            Some(i) => {
                proof {
                    lemma_key_idx_found(pre, from@, i as int);
                }
                let obj = self.items.remove(i);
                proof {
                    lemma_remove_key(pre, i as int);
                }
                let ghost mid = self.items@;
                match self.find_key(to) {
                    Some(j) => {
                        proof {
                            lemma_key_idx_found(mid, to@, j as int);
                        }
                        self.items.remove(j);
                        proof {
                            lemma_remove_key(mid, j as int);
                        }
                    },
                    None => {},
                }
                let ghost mid2 = self.items@;
                let StoredObject {
                    path: _,
                    data,
                    is_dir,
                    has_modified,
                    modified_sec,
                    modified_nsec,
                } = obj;
                let moved = StoredObject {
                    path: copy_slice(to),
                    data,
                    is_dir,
                    has_modified,
                    modified_sec,
                    modified_nsec,
                };
                self.items.push(moved);
                proof {
                    assert(!spec_has_key(mid2, to@)) by {
                        if spec_has_key(mid2, to@) {
                            let k = spec_key_idx(mid2, to@);
                            assert(0 <= k < mid2.len() && mid2[k].path@ == to@);
                            assert(spec_objs_of(mid2).contains_key(to@));
                        }
                    }
                    lemma_push_fresh_key(mid2, self.items@);
                    assert(self.objects() =~= spec_objs_of(pre).remove(from@).insert(
                        to@,
                        spec_objs_of(pre)[from@],
                    ));
                }
                Ok(())
            },
            None => Err(ErrorKind::NotFound),
        }
    }
}

} // verus!
