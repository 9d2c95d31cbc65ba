//! The handle table: a mapping from the 64-bit file handles handed out by
//! Open and Create to the state of the open stream behind each.
//!
//! A reader handle only names the path its range reads go to. A writer
//! handle buffers the bytes accepted so far (its pending data) together with
//! the running write offset; Flush commits a snapshot of the pending bytes
//! to the backend and Release commits them once more and destroys the
//! handle. Handles are numbered from 1 by a counter that never reuses a
//! value; 0 is reserved as "no handle".

use vstd::prelude::*;
use vstd::pervasive::VecAdditionalExecFns;

use crate::error::ErrorKind;
use crate::bytesutil::{clone_bytes, eq_bytes};

verus! {

/// Whether a handle was opened for reading or for writing.
#[derive(Clone, Copy, Debug, PartialEq, Eq, Structural)]
pub enum HandleMode {
    Read,
    Write,
}

/// The state of one open file handle.
#[derive(Debug)]
pub struct Handle {
    /// The identifier the guest uses in Read/Write/Release requests.
    pub fh: u64,
    /// The nodeid the handle was opened under.
    pub nodeid: u64,
    /// The backend path the stream reads from or writes to.
    pub path: Vec<u8>,
    /// Reader or writer.
    pub mode: HandleMode,
    /// The open flags the guest passed.
    pub flags: u32,
    /// For writers, the running write offset: the count of bytes accepted so
    /// far. Readers keep it at 0.
    pub offset: u64,
    /// For writers, the bytes accepted so far and not yet handed to the
    /// backend by Release. Flush commits a snapshot without clearing it.
    pub pending: Vec<u8>,
}

impl Handle {
    /// A handle's internal consistency: a writer's running offset counts
    /// exactly its pending bytes, and a reader carries none.
    pub open spec fn wf(self) -> bool {
        &&& self.fh >= 1
        &&& self.offset == self.pending@.len()
        &&& self.mode == HandleMode::Read ==> self.pending@.len() == 0
    }
}

/// Whether some handle of `s` carries identifier `fh`.
pub open spec fn spec_contains_fh(s: Seq<Handle>, fh: u64) -> bool {
    exists|i: int| 0 <= i < s.len() && s[i].fh == fh
}

/// The index of the handle of `s` carrying identifier `fh`.
pub open spec fn spec_hidx_of(s: Seq<Handle>, fh: u64) -> int {
    choose|i: int| 0 <= i < s.len() && s[i].fh == fh
}

/// The handle of `s` carrying identifier `fh`.
pub open spec fn spec_handle_of(s: Seq<Handle>, fh: u64) -> Handle {
    s[spec_hidx_of(s, fh)]
}

/// No two handles of `s` share an identifier.
pub open spec fn spec_unique_fhs(s: Seq<Handle>) -> bool {
    forall|i: int, j: int| 0 <= i < j < s.len() ==> (#[trigger] s[i]).fh != (#[trigger] s[j]).fh
}

/// At most one live handle holds the write stream for a given path.
pub open spec fn spec_one_writer_per_path(s: Seq<Handle>) -> bool {
    forall|i: int, j: int|
        0 <= i < j < s.len() && (#[trigger] s[i]).mode == HandleMode::Write && (
        #[trigger] s[j]).mode == HandleMode::Write ==> s[i].path@ != s[j].path@
}

/// Whether some live handle of `s` writes to path `p`.
pub open spec fn spec_writer_on_path(s: Seq<Handle>, p: Seq<u8>) -> bool {
    exists|i: int| 0 <= i < s.len() && (#[trigger] s[i]).mode == HandleMode::Write && s[i].path@ == p
}

/// The handle table of one mounted filesystem instance.
pub struct HandleTable {
    /// The live handles.
    pub handles: Vec<Handle>,
    /// The next handle identifier to hand out; it only grows. 0 is never
    /// handed out.
    pub next_fh: u64,
}

impl HandleTable {
    /// Well-formedness: identifiers are unique, below the counter and never
    /// 0, each handle is internally consistent, and no path has two live
    /// writers.
    pub open spec fn wf(self) -> bool {
        &&& self.next_fh >= 1
        &&& forall|i: int|
            0 <= i < self.handles@.len() ==> (#[trigger] self.handles@[i]).wf()
                && self.handles@[i].fh < self.next_fh
        &&& spec_unique_fhs(self.handles@)
        &&& spec_one_writer_per_path(self.handles@)
    }

    /// A fresh table with no open handles; the first handle will be 1.
    pub fn new() -> (r: HandleTable)
        ensures
            r.wf(),
            r.handles@.len() == 0,
            r.next_fh == 1,
    {
        HandleTable { handles: Vec::new(), next_fh: 1 }
    }

    /// How many handles are live.
    pub fn len(&self) -> (r: usize)
        ensures
            r == self.handles@.len(),
    {
        self.handles.len()
    }

    /// The index of the handle carrying `fh`, if one is live.
    fn find_fh(&self, fh: u64) -> (r: Option<usize>)
        ensures
            r matches Some(i) ==> i < self.handles@.len() && self.handles@[i as int].fh == fh,
            r is None ==> !spec_contains_fh(self.handles@, fh),
    {
        let mut i: usize = 0;
        while i < self.handles.len()
            invariant
                i <= self.handles@.len(),
                forall|j: int| 0 <= j < i ==> (#[trigger] self.handles@[j]).fh != fh,
            decreases self.handles@.len() - i,
        {
            if self.handles[i].fh == fh {
                return Some(i);
            }
            i = i + 1;
        }
        None
    }

    /// Whether a live writer already holds the write stream for `path`.
    fn has_writer_on(&self, path: &[u8]) -> (r: bool)
        ensures
            r == spec_writer_on_path(self.handles@, path@),
    {
        let mut i: usize = 0;
        while i < self.handles.len()
            invariant
                i <= self.handles@.len(),
                forall|j: int|
                    0 <= j < i ==> !((#[trigger] self.handles@[j]).mode == HandleMode::Write
                        && self.handles@[j].path@ == path@),
            decreases self.handles@.len() - i,
        {
            let h = &self.handles[i];
            if matches!(h.mode, HandleMode::Write) && eq_bytes(h.path.as_slice(), path) {
                return true;
            }
            i = i + 1;
        }
        false
    }

    /// The live handle carrying `fh`, or `BadFileDescriptor` when the guest
    /// names a handle that was never handed out or was already released.
    pub fn get(&self, fh: u64) -> (r: Result<&Handle, ErrorKind>)
        requires
            self.wf(),
        ensures
            r matches Ok(h) ==> spec_contains_fh(self.handles@, fh) && *h == spec_handle_of(
                self.handles@,
                fh,
            ),
            r matches Err(e) ==> !spec_contains_fh(self.handles@, fh) && e
                == ErrorKind::BadFileDescriptor,
    {
        match self.find_fh(fh) {
            Some(i) => {
                proof {
                    lemma_hidx_of_found(self.handles@, fh, i as int);
                }
                Ok(&self.handles[i])
            },
            None => Err(ErrorKind::BadFileDescriptor),
        }
    }

    /// Opens a reader handle on `path` and returns its fresh identifier.
    /// Fails only when the handle space is exhausted.
    pub fn open_read(&mut self, nodeid: u64, path: Vec<u8>, flags: u32) -> (r: Result<
        u64,
        ErrorKind,
    >)
        requires
            old(self).wf(),
        ensures
            final(self).wf(),
            old(self).next_fh < u64::MAX ==> {
                &&& r == Ok::<u64, ErrorKind>(old(self).next_fh)
                &&& final(self).handles@ == old(self).handles@.push(final(self).handles@.last())
                &&& final(self).handles@.last().fh == old(self).next_fh
                &&& final(self).handles@.last().nodeid == nodeid
                &&& final(self).handles@.last().path == path
                &&& final(self).handles@.last().mode == HandleMode::Read
                &&& final(self).handles@.last().flags == flags
                &&& final(self).handles@.last().offset == 0
                &&& final(self).next_fh == old(self).next_fh + 1
            },
            old(self).next_fh == u64::MAX ==> r == Err::<u64, ErrorKind>(ErrorKind::Protocol)
                && *final(self) == *old(self),
    {
        if self.next_fh == u64::MAX {
            return Err(ErrorKind::Protocol);
        }
        let fh = self.next_fh;
        let h = Handle {
            fh,
            nodeid,
            path,
            mode: HandleMode::Read,
            flags,
            offset: 0,
            pending: Vec::new(),
        };
        self.handles.push(h);
        self.next_fh = self.next_fh + 1;
        assert(self.wf()) by {
            let s = self.handles@;
            let n = s.len() - 1;
            assert(forall|j: int| 0 <= j < n ==> s[j] == old(self).handles@[j]);
        }
        Ok(fh)
    }

    /// Opens the writer handle on `path` and returns its fresh identifier.
    /// The write stream is exclusive: while another live handle writes to the
    /// same path the open is refused with `PermissionDenied`. Fails with
    /// `Protocol` when the handle space is exhausted.
    pub fn open_write(&mut self, nodeid: u64, path: Vec<u8>, flags: u32) -> (r: Result<
        u64,
        ErrorKind,
    >)
        requires
            old(self).wf(),
        ensures
            final(self).wf(),
            spec_writer_on_path(old(self).handles@, path@) ==> r == Err::<u64, ErrorKind>(
                ErrorKind::PermissionDenied,
            ) && *final(self) == *old(self),
            !spec_writer_on_path(old(self).handles@, path@) && old(self).next_fh < u64::MAX
                ==> {
                &&& r == Ok::<u64, ErrorKind>(old(self).next_fh)
                &&& final(self).handles@ == old(self).handles@.push(final(self).handles@.last())
                &&& final(self).handles@.last().fh == old(self).next_fh
                &&& final(self).handles@.last().nodeid == nodeid
                &&& final(self).handles@.last().path == path
                &&& final(self).handles@.last().mode == HandleMode::Write
                &&& final(self).handles@.last().flags == flags
                &&& final(self).handles@.last().offset == 0
                &&& final(self).handles@.last().pending@.len() == 0
                &&& final(self).next_fh == old(self).next_fh + 1
            },
            !spec_writer_on_path(old(self).handles@, path@) && old(self).next_fh == u64::MAX
                ==> r == Err::<u64, ErrorKind>(ErrorKind::Protocol) && *final(self) == *old(
                self,
            ),
    {
        if self.has_writer_on(path.as_slice()) {
            return Err(ErrorKind::PermissionDenied);
        }
        if self.next_fh == u64::MAX {
            return Err(ErrorKind::Protocol);
        }
        let fh = self.next_fh;
        let h = Handle {
            fh,
            nodeid,
            path,
            mode: HandleMode::Write,
            flags,
            offset: 0,
            pending: Vec::new(),
        };
        self.handles.push(h);
        self.next_fh = self.next_fh + 1;
        assert(self.wf()) by {
            let s = self.handles@;
            let n = s.len() - 1;
            assert(forall|j: int| 0 <= j < n ==> s[j] == old(self).handles@[j]);
        }
        Ok(fh)
    }

    /// Accepts a Write on handle `fh`. The bytes are taken only when the
    /// handle is a writer and `offset` equals its running offset (writes are
    /// append-only); then the pending data grows by exactly `data` and the
    /// running offset by its length. An unknown or read handle yields
    /// `BadFileDescriptor`; an out-of-order offset yields `InvalidArgument`.
    pub fn write_at(&mut self, fh: u64, offset: u64, data: &[u8]) -> (r: Result<u32, ErrorKind>)
        requires
            old(self).wf(),
            data@.len() <= u32::MAX,
        ensures
            final(self).wf(),
            final(self).next_fh == old(self).next_fh,
            !spec_contains_fh(old(self).handles@, fh) ==> r == Err::<u32, ErrorKind>(
                ErrorKind::BadFileDescriptor,
            ) && *final(self) == *old(self),
            spec_contains_fh(old(self).handles@, fh) && spec_handle_of(old(self).handles@, fh).mode
                == HandleMode::Read ==> r == Err::<u32, ErrorKind>(ErrorKind::BadFileDescriptor)
                && *final(self) == *old(self),
            spec_contains_fh(old(self).handles@, fh) && spec_handle_of(old(self).handles@, fh).mode
                == HandleMode::Write && offset != spec_handle_of(old(self).handles@, fh).offset
                ==> r == Err::<u32, ErrorKind>(ErrorKind::InvalidArgument) && *final(self) == *old(
                self,
            ),
            spec_contains_fh(old(self).handles@, fh) && spec_handle_of(old(self).handles@, fh).mode
                == HandleMode::Write && offset == spec_handle_of(old(self).handles@, fh).offset
                && offset + data@.len() <= u64::MAX ==> {
                &&& r == Ok::<u32, ErrorKind>(data@.len() as u32)
                &&& final(self).handles@ == old(self).handles@.update(
                    spec_hidx_of(old(self).handles@, fh),
                    final(self).handles@[spec_hidx_of(old(self).handles@, fh)],
                )
                &&& final(self).handles@[spec_hidx_of(old(self).handles@, fh)].pending@
                    == spec_handle_of(old(self).handles@, fh).pending@ + data@
                &&& final(self).handles@[spec_hidx_of(old(self).handles@, fh)].offset == offset
                    + data@.len()
                &&& final(self).handles@[spec_hidx_of(old(self).handles@, fh)].fh == fh
                &&& final(self).handles@[spec_hidx_of(old(self).handles@, fh)].nodeid
                    == spec_handle_of(old(self).handles@, fh).nodeid
                &&& final(self).handles@[spec_hidx_of(old(self).handles@, fh)].path
                    == spec_handle_of(old(self).handles@, fh).path
                &&& final(self).handles@[spec_hidx_of(old(self).handles@, fh)].mode
                    == HandleMode::Write
            },
            spec_contains_fh(old(self).handles@, fh) && spec_handle_of(old(self).handles@, fh).mode
                == HandleMode::Write && offset == spec_handle_of(old(self).handles@, fh).offset
                && offset + data@.len() > u64::MAX ==> r == Err::<u32, ErrorKind>(
                ErrorKind::InvalidArgument,
            ) && *final(self) == *old(self),
    {
        match self.find_fh(fh) {
            Some(i) => {
                proof {
                    lemma_hidx_of_found(self.handles@, fh, i as int);
                }
                let ghost pre = self.handles@;
                let is_writer = matches!(self.handles[i].mode, HandleMode::Write);
                if !is_writer {
                    return Err(ErrorKind::BadFileDescriptor);
                }
                if offset != self.handles[i].offset {
                    return Err(ErrorKind::InvalidArgument);
                }
                let n = data.len();
                if offset > u64::MAX - (n as u64) {
                    return Err(ErrorKind::InvalidArgument);
                }
                let h = &mut self.handles[i];
                h.pending.extend_from_slice(data);
                h.offset = offset + (n as u64);
                assert(self.handles@ =~= pre.update(
                    i as int,
                    self.handles@[i as int],
                ));
                assert(self.wf()) by {
                    assert(forall|j: int|
                        0 <= j < self.handles@.len() && j != i ==> self.handles@[j] == pre[j]);
                }
                Ok(n as u32)
            },
            None => Err(ErrorKind::BadFileDescriptor),
        }
    }

    /// A snapshot of the pending bytes and the path of writer handle `fh`,
    /// for a Flush to commit. Readers and unknown handles are reported as
    /// such; the table itself never changes.
    pub fn pending_snapshot(&self, fh: u64) -> (r: Result<(Vec<u8>, Vec<u8>), ErrorKind>)
        requires
            self.wf(),
        ensures
            r matches Ok(pp) ==> spec_contains_fh(self.handles@, fh) && spec_handle_of(
                self.handles@,
                fh,
            ).mode == HandleMode::Write && pp.0@ == spec_handle_of(self.handles@, fh).path@
                && pp.1@ == spec_handle_of(self.handles@, fh).pending@,
            r matches Err(e) ==> e == ErrorKind::BadFileDescriptor && (!spec_contains_fh(
                self.handles@,
                fh,
            ) || spec_handle_of(self.handles@, fh).mode == HandleMode::Read),
    {
        match self.find_fh(fh) {
            Some(i) => {
                proof {
                    lemma_hidx_of_found(self.handles@, fh, i as int);
                }
                let h = &self.handles[i];
                if matches!(h.mode, HandleMode::Write) {
                    Ok((clone_bytes(&h.path), clone_bytes(&h.pending)))
                } else {
                    Err(ErrorKind::BadFileDescriptor)
                }
            },
            None => Err(ErrorKind::BadFileDescriptor),
        }
    }

    /// Destroys handle `fh` and hands its final state back so the caller can
    /// commit a writer's pending bytes. Releasing an unknown handle is not an
    /// error: the table is simply left unchanged and `None` returned.
    pub fn release(&mut self, fh: u64) -> (r: Option<Handle>)
        requires
            old(self).wf(),
        ensures
            final(self).wf(),
            final(self).next_fh == old(self).next_fh,
            spec_contains_fh(old(self).handles@, fh) ==> r == Some(
                spec_handle_of(old(self).handles@, fh),
            ) && final(self).handles@ == old(self).handles@.remove(
                spec_hidx_of(old(self).handles@, fh),
            ),
            !spec_contains_fh(old(self).handles@, fh) ==> r is None && *final(self) == *old(self),
            !spec_contains_fh(final(self).handles@, fh),
    {
        match self.find_fh(fh) {
            Some(i) => {
                proof {
                    lemma_hidx_of_found(self.handles@, fh, i as int);
                }
                let ghost pre = self.handles@;
                let h = self.handles.remove(i);
                proof {
                    lemma_handle_remove_keeps_wf(pre, i as int);
                    assert forall|k: int|
                        0 <= k < self.handles@.len() implies (#[trigger] self.handles@[k]).wf()
                        && self.handles@[k].fh < self.next_fh by {
                        if k < i {
                            assert(self.handles@[k] == pre[k]);
                        } else {
                            assert(self.handles@[k] == pre[k + 1]);
                        }
                    }
                    if spec_contains_fh(self.handles@, fh) {
                        let j = spec_hidx_of(self.handles@, fh);
                        assert(0 <= j < self.handles@.len() && self.handles@[j].fh == fh);
                        if j < i {
                            assert(pre[j].fh == fh);
                            assert(pre[j].fh != pre[i as int].fh);
                        } else {
                            assert(pre[j + 1].fh == fh);
                            assert(pre[i as int].fh != pre[j + 1].fh);
                        }
                    }
                }
                Some(h)
            },
            None => None,
        }
    }

    /// Destroys every live handle; the Destroy opcode invalidates them all.
    pub fn invalidate_all(&mut self)
        requires
            old(self).wf(),
        ensures
            final(self).wf(),
            final(self).handles@.len() == 0,
            final(self).next_fh == old(self).next_fh,
    {
        self.handles.clear();
    }
}

/// In a table with unique identifiers, the index found by a scan is the
/// index the specification speaks of.
pub proof fn lemma_hidx_of_found(s: Seq<Handle>, fh: u64, i: int)
    requires
        spec_unique_fhs(s),
        0 <= i < s.len(),
        s[i].fh == fh,
    ensures
        spec_contains_fh(s, fh),
        spec_hidx_of(s, fh) == i,
{
    assert(spec_contains_fh(s, fh));
    let j = spec_hidx_of(s, fh);
    assert(0 <= j < s.len() && s[j].fh == fh);
    if i < j {
        assert(s[i].fh != s[j].fh);
    } else if j < i {
        assert(s[j].fh != s[i].fh);
    }
}

/// Removing any one handle keeps identifiers unique and paths
/// single-writer.
proof fn lemma_handle_remove_keeps_wf(s: Seq<Handle>, i: int)
    requires
        0 <= i < s.len(),
        spec_unique_fhs(s),
        spec_one_writer_per_path(s),
    ensures
        spec_unique_fhs(s.remove(i)),
        spec_one_writer_per_path(s.remove(i)),
{
    let t = s.remove(i);
    assert forall|a: int, b: int| 0 <= a < b < t.len() implies (#[trigger] t[a]).fh != (
    #[trigger] t[b]).fh by {
        let a2 = if a < i {
            a
        } else {
            a + 1
        };
        let b2 = if b < i {
            b
        } else {
            b + 1
        };
        assert(t[a] == s[a2] && t[b] == s[b2]);
        assert(s[a2].fh != s[b2].fh);
    }
    assert forall|a: int, b: int|
        0 <= a < b < t.len() && (#[trigger] t[a]).mode == HandleMode::Write && (
        #[trigger] t[b]).mode == HandleMode::Write implies t[a].path@ != t[b].path@ by {
        let a2 = if a < i {
            a
        } else {
            a + 1
        };
        let b2 = if b < i {
            b
        } else {
            b + 1
        };
        assert(t[a] == s[a2] && t[b] == s[b2]);
    }
}

} // verus!
