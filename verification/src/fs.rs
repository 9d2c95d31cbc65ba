//! The filesystem state machine: the per-opcode handlers. Each one consumes
//! a decoded request, combines the inode table, the handle table and the
//! storage operator, and produces the record (or bytes) of the reply body.
//!
//! The handlers know nothing of the wire: the dispatcher decodes the request
//! around them and encodes what they return. Neither do they check the
//! session phase (before Init, after Destroy): the dispatcher does.

use vstd::prelude::*;

use crate::attr::spec_attr_of;
use crate::attr::synthesize_attr;
use crate::bytesutil::{clone_bytes, concat_bytes, contains_byte};
use crate::error::ErrorKind;
use crate::handle::{spec_contains_fh, spec_handle_of, HandleMode, HandleTable};
use crate::inode::{
    spec_contains_id, spec_contains_path, spec_idx_of_path, spec_inode_of, spec_root_path,
    InodeTable,
};
use crate::messages::{AttrOut, CreateIn, EntryOut, InitIn, InitOut, OpenIn, OpenOut, SetattrIn,
    WriteIn, WriteOut};
use crate::storage::{spec_meta_of, spec_stat_key, Metadata, Storage};

verus! {

/// The protocol major version the server supports.
pub const SUPPORTED_MAJOR: u32 = 7;

/// The protocol minor version the server supports; lower client minors are
/// below the version floor.
pub const SUPPORTED_MINOR: u32 = 32;

/// The mask of InitIn flags the server supports: none.
pub const SUPPORTED_INIT_FLAGS: u32 = 0;

/// Largest write size advertised in the Init reply: 1 MiB.
pub const MAX_WRITE: u32 = 1048576;

/// Number of request pages advertised in the Init reply.
pub const MAX_PAGES: u16 = 256;

/// The bit of `SetattrIn.valid` that marks a size change.
pub const SETATTR_SIZE_BIT: u32 = 8;

/// The bit of open flags asking for write-only access.
pub const OPEN_WRITE_BIT: u32 = 1;

/// The bit of open flags asking for read-write access.
pub const OPEN_RDWR_BIT: u32 = 2;

/// The bit of create flags asking for exclusive creation.
pub const CREATE_EXCL_BIT: u32 = 128;

/// A valid entry name: non-empty, without '/', and neither "." nor "..".
pub open spec fn spec_valid_name(name: Seq<u8>) -> bool {
    &&& name.len() > 0
    &&& !name.contains(47u8)
    &&& name != seq![46u8]
    &&& name != seq![46u8, 46u8]
}

/// The backend path of entry `name` under a directory whose path is
/// `parent_path` (which carries its trailing '/').
pub open spec fn spec_child_base(parent_path: Seq<u8>, name: Seq<u8>) -> Seq<u8> {
    parent_path + name
}

/// The path stored for an inode: directories carry a trailing '/'.
pub open spec fn spec_inode_path(base: Seq<u8>, is_dir: bool) -> Seq<u8> {
    if is_dir {
        base + seq![47u8]
    } else {
        base
    }
}

/// The Init reply negotiated for request `arg`: the version is the client's
/// capped at 7.32, the readahead is echoed, the flags are cut to the
/// supported mask (none), and the fixed limits are advertised.
pub open spec fn spec_init_reply(arg: InitIn) -> InitOut {
    InitOut {
        major: SUPPORTED_MAJOR,
        minor: if arg.major == SUPPORTED_MAJOR && arg.minor < SUPPORTED_MINOR {
            arg.minor
        } else {
            SUPPORTED_MINOR
        },
        max_readahead: arg.max_readahead,
        flags: 0u32,
        max_background: 0u16,
        congestion_threshold: 0u16,
        max_write: MAX_WRITE,
        time_gran: 1u32,
        max_pages: MAX_PAGES,
        map_alignment: 0u16,
        flags2: 0u32,
        unused: [0u32, 0u32, 0u32, 0u32, 0u32, 0u32, 0u32],
    }
}

/// The EntryOut record for nodeid `id` with metadata `m`: generation 0, both
/// validities 1 second, and the synthesized attributes.
pub open spec fn spec_entry_reply(id: u64, m: Metadata) -> EntryOut {
    EntryOut {
        nodeid: id,
        generation: 0u64,
        entry_valid: 1u64,
        attr_valid: 1u64,
        entry_valid_nsec: 0u32,
        attr_valid_nsec: 0u32,
        attr: spec_attr_of(id, m),
    }
}

/// The AttrOut record for nodeid `id` with metadata `m`: validity 1 second
/// and the synthesized attributes.
pub open spec fn spec_attr_reply(id: u64, m: Metadata) -> AttrOut {
    AttrOut { attr_valid: 1u64, attr_valid_nsec: 0u32, dummy: 0u32, attr: spec_attr_of(id, m) }
}

/// The metadata of a freshly created, empty file whose modified time is not
/// known yet.
pub open spec fn spec_fresh_file_meta() -> Metadata {
    Metadata {
        length: 0u64,
        is_dir: false,
        has_modified: false,
        modified_sec: 0u64,
        modified_nsec: 0u32,
    }
}

/// Whether `name` may stand as an entry name.
pub fn valid_name(name: &[u8]) -> (r: bool)
    ensures
        r == spec_valid_name(name@),
{
    if name.len() == 0 {
        return false;
    }
    if contains_byte(name, 47) {
        return false;
    }
    if name.len() == 1 && name[0] == 46 {
        assert(name@ =~= seq![46u8]);
        return false;
    }
    if name.len() == 2 && name[0] == 46 && name[1] == 46 {
        assert(name@ =~= seq![46u8, 46u8]);
        return false;
    }
    assert(name@ != seq![46u8] && name@ != seq![46u8, 46u8]) by {
        if name@ == seq![46u8] {
            assert(name@.len() == 1 && name@[0] == 46u8);
        }
        if name@ == seq![46u8, 46u8] {
            assert(name@.len() == 2 && name@[0] == 46u8 && name@[1] == 46u8);
        }
    }
    true
}

/// The filesystem state of one mounted instance: its two tables and the
/// session phase.
pub struct Filesystem {
    /// The nodeid-to-path mapping.
    pub itab: InodeTable,
    /// The open-handle states.
    pub htab: HandleTable,
    /// Whether an Init was accepted; the dispatcher refuses other opcodes
    /// before one.
    pub initialized: bool,
    /// Whether Destroy was served; the dispatcher answers everything after
    /// it with `NotConnected`.
    pub destroyed: bool,
}

impl Filesystem {
    /// Both tables are well-formed.
    pub open spec fn wf(self) -> bool {
        &&& self.itab.wf()
        &&& self.htab.wf()
    }

    /// A fresh filesystem: only the root inode, no handles, not yet
    /// initialized.
    pub fn new() -> (r: Filesystem)
        ensures
            r.wf(),
            r.itab.entries@.len() == 1,
            r.htab.handles@.len() == 0,
            !r.initialized,
            !r.destroyed,
    {
        Filesystem {
            itab: InodeTable::new(),
            htab: HandleTable::new(),
            initialized: false,
            destroyed: false,
        }
    }

    /// Serves Init: rejects clients below the 7.32 version floor with the
    /// protocol-mismatch error, otherwise negotiates the capped version and
    /// marks the session initialized. Later Inits are accepted idempotently.
    pub fn do_init(&mut self, arg: InitIn) -> (r: Result<InitOut, ErrorKind>)
        requires
            old(self).wf(),
        ensures
            final(self).wf(),
            final(self).itab == old(self).itab,
            final(self).htab == old(self).htab,
            final(self).destroyed == old(self).destroyed,
            arg.major < SUPPORTED_MAJOR || (arg.major == SUPPORTED_MAJOR && arg.minor
                < SUPPORTED_MINOR) ==> r == Err::<InitOut, ErrorKind>(
                ErrorKind::ProtocolNotSupported,
            ) && final(self).initialized == old(self).initialized,
            !(arg.major < SUPPORTED_MAJOR || (arg.major == SUPPORTED_MAJOR && arg.minor
                < SUPPORTED_MINOR)) ==> r == Ok::<InitOut, ErrorKind>(spec_init_reply(arg))
                && final(self).initialized,
    {
        if arg.major < SUPPORTED_MAJOR || (arg.major == SUPPORTED_MAJOR && arg.minor
            < SUPPORTED_MINOR) {
            return Err(ErrorKind::ProtocolNotSupported);
        }
        let minor: u32 = if arg.major == SUPPORTED_MAJOR && arg.minor < SUPPORTED_MINOR {
            arg.minor
        } else {
            SUPPORTED_MINOR
        };
        self.initialized = true;
        proof {
            let f = arg.flags;
            assert(f & 0u32 == 0u32) by (bit_vector);
        }
        Ok(
            InitOut {
                major: SUPPORTED_MAJOR,
                minor,
                max_readahead: arg.max_readahead,
                flags: arg.flags & SUPPORTED_INIT_FLAGS,
                max_background: 0,
                congestion_threshold: 0,
                max_write: MAX_WRITE,
                time_gran: 1,
                max_pages: MAX_PAGES,
                map_alignment: 0,
                flags2: 0,
                unused: [0, 0, 0, 0, 0, 0, 0],
            },
        )
    }

    /// Serves Destroy: invalidates every handle and closes the session. The
    /// reply has no body; the dispatcher answers every later request with
    /// `NotConnected`.
    pub fn do_destroy(&mut self)
        requires
            old(self).wf(),
        ensures
            final(self).wf(),
            final(self).itab == old(self).itab,
            final(self).htab.handles@.len() == 0,
            final(self).initialized == old(self).initialized,
            final(self).destroyed,
    {
        self.htab.invalidate_all();
        self.destroyed = true;
    }

    /// Serves Forget: drops `nlookup` references from `nodeid`. Forget has
    /// no reply, not even a header.
    pub fn do_forget(&mut self, nodeid: u64, nlookup: u64)
        requires
            old(self).wf(),
        ensures
            final(self).wf(),
            final(self).itab.entries@ == crate::inode::spec_forget_tr(
                old(self).itab.entries@,
                nodeid,
                nlookup,
            ),
            final(self).itab.next_nodeid == old(self).itab.next_nodeid,
            final(self).htab == old(self).htab,
            final(self).initialized == old(self).initialized,
            final(self).destroyed == old(self).destroyed,
    {
        self.itab.forget(nodeid, nlookup);
    }

    /// Serves Lookup: resolves `name` under the directory `parent`, stats
    /// the backend, and on success refs or inserts the inode and returns the
    /// entry. A malformed name is `InvalidArgument`; an unknown parent or an
    /// absent child is `NotFound`; a file parent is `NotADirectory`. The
    /// handle table is never touched, and a failed lookup never pollutes the
    /// inode table.
    pub fn do_lookup<S: Storage>(&mut self, store: &S, parent: u64, name: &[u8]) -> (r: Result<
        EntryOut,
        ErrorKind,
    >)
        requires
            old(self).wf(),
            store.inv(),
        ensures
            final(self).wf(),
            final(self).htab == old(self).htab,
            final(self).initialized == old(self).initialized,
            final(self).destroyed == old(self).destroyed,
            r is Err ==> final(self).itab == old(self).itab,
            !spec_valid_name(name@) ==> r == Err::<EntryOut, ErrorKind>(
                ErrorKind::InvalidArgument,
            ),
            spec_valid_name(name@) && !spec_contains_id(old(self).itab.entries@, parent) ==> r
                == Err::<EntryOut, ErrorKind>(ErrorKind::NotFound),
            spec_valid_name(name@) && spec_contains_id(old(self).itab.entries@, parent)
                && !spec_inode_of(old(self).itab.entries@, parent).is_dir ==> r == Err::<
                EntryOut,
                ErrorKind,
            >(ErrorKind::NotADirectory),
            spec_valid_name(name@) && spec_contains_id(old(self).itab.entries@, parent)
                && spec_inode_of(old(self).itab.entries@, parent).is_dir ==> {
                let base = spec_child_base(
                    spec_inode_of(old(self).itab.entries@, parent).path@,
                    name@,
                );
                &&& r == Err::<EntryOut, ErrorKind>(ErrorKind::NotFound) ==> spec_stat_key(
                    store.objects(),
                    base,
                ) is None
                &&& r matches Err(e) ==> crate::storage::spec_storage_err(e)
                &&& r matches Ok(e) ==> spec_stat_key(store.objects(), base) matches Some(k) && {
                    let m = spec_meta_of(store.objects()[k]);
                    let p = spec_inode_path(base, m.is_dir);
                    &&& e == spec_entry_reply(e.nodeid, m)
                    &&& spec_contains_path(old(self).itab.entries@, p) ==> {
                        &&& e.nodeid == old(self).itab.entries@[spec_idx_of_path(
                            old(self).itab.entries@,
                            p,
                        )].nodeid
                        &&& final(self).itab.entries@ == crate::inode::spec_ref_tr(
                            old(self).itab.entries@,
                            p,
                        )
                        &&& final(self).itab.next_nodeid == old(self).itab.next_nodeid
                    }
                    &&& !spec_contains_path(old(self).itab.entries@, p) ==> {
                        &&& e.nodeid == old(self).itab.next_nodeid
                        &&& final(self).itab.entries@ == old(self).itab.entries@.push(
                            final(self).itab.entries@.last(),
                        )
                        &&& final(self).itab.entries@.last().nodeid == e.nodeid
                        &&& final(self).itab.entries@.last().path@ == p
                        &&& final(self).itab.entries@.last().is_dir == m.is_dir
                        &&& final(self).itab.entries@.last().refcount == 1
                        &&& final(self).itab.next_nodeid == old(self).itab.next_nodeid + 1
                    }
                }
            },
    {
        if !valid_name(name) {
            return Err(ErrorKind::InvalidArgument);
        }
        let (parent_path, parent_is_dir) = match self.itab.get(parent) {
            Ok(ino) => (clone_bytes(&ino.path), ino.is_dir),
            Err(e) => { return Err(e) },
        };
        if !parent_is_dir {
            return Err(ErrorKind::NotADirectory);
        }
        let base = concat_bytes(parent_path.as_slice(), name);
        let meta = match store.stat(base.as_slice()) {
            Ok(m) => m,
            Err(e) => { return Err(e) },
        };
        let path = if meta.is_dir {
            let mut p = base;
            p.push(47);
            assert(p@ =~= spec_inode_path(
                spec_child_base(spec_inode_of(old(self).itab.entries@, parent).path@, name@),
                true,
            ));
            p
        } else {
            base
        };
        let id = match self.itab.insert_or_ref(path, meta.is_dir) {
            Ok(id) => id,
            Err(e) => { return Err(e) },
        };
        Ok(
            EntryOut {
                nodeid: id,
                generation: 0,
                entry_valid: 1,
                attr_valid: 1,
                entry_valid_nsec: 0,
                attr_valid_nsec: 0,
                attr: synthesize_attr(id, meta),
            },
        )
    }

    /// Serves Getattr: stats the inode's path and returns the synthesized
    /// attributes. An unknown nodeid is `NotFound`.
    pub fn do_getattr<S: Storage>(&self, store: &S, nodeid: u64) -> (r: Result<
        AttrOut,
        ErrorKind,
    >)
        requires
            self.wf(),
            store.inv(),
        ensures
            !spec_contains_id(self.itab.entries@, nodeid) ==> r == Err::<AttrOut, ErrorKind>(
                ErrorKind::NotFound,
            ),
            spec_contains_id(self.itab.entries@, nodeid) ==> {
                let p = spec_inode_of(self.itab.entries@, nodeid).path@;
                &&& r == Err::<AttrOut, ErrorKind>(ErrorKind::NotFound) ==> spec_stat_key(
                    store.objects(),
                    p,
                ) is None
                &&& r matches Err(e) ==> crate::storage::spec_storage_err(e)
                &&& r matches Ok(a) ==> spec_stat_key(store.objects(), p) matches Some(k) && a
                    == spec_attr_reply(nodeid, spec_meta_of(store.objects()[k]))
            },
    {
        let path = match self.itab.path_of(nodeid) {
            Ok(p) => p,
            Err(e) => { return Err(e) },
        };
        let meta = match store.stat(path.as_slice()) {
            Ok(m) => m,
            Err(e) => { return Err(e) },
        };
        Ok(
            AttrOut {
                attr_valid: 1,
                attr_valid_nsec: 0,
                dummy: 0,
                attr: synthesize_attr(nodeid, meta),
            },
        )
    }

    /// Serves Setattr: only a truncation to size 0 of a file is honored (the
    /// backend object is rewritten empty); every other field of the record
    /// is silently ignored. Returns the attributes as Getattr would after
    /// the operation. A refused truncation keeps the backend's
    /// `PermissionDenied`; any other rewrite failure collapses to `Protocol`
    /// (EIO).
    pub fn do_setattr<S: Storage>(&self, store: &mut S, nodeid: u64, arg: SetattrIn) -> (r:
        Result<AttrOut, ErrorKind>)
        requires
            self.wf(),
            old(store).inv(),
        ensures
            final(store).inv(),
            !spec_contains_id(self.itab.entries@, nodeid) ==> r == Err::<AttrOut, ErrorKind>(
                ErrorKind::NotFound,
            ) && final(store).objects() == old(store).objects(),
            spec_contains_id(self.itab.entries@, nodeid) ==> {
                let ino = spec_inode_of(self.itab.entries@, nodeid);
                let truncating = arg.valid & SETATTR_SIZE_BIT != 0 && arg.size == 0
                    && !ino.is_dir;
                &&& !truncating ==> final(store).objects() == old(store).objects()
                &&& truncating && r is Ok ==> final(store).objects() == old(store).objects().insert(ino.path@, final(store).objects()[ino.path@]) && final(store).objects()[ino.path@].data.len() == 0 && !final(store).objects()[
                    ino.path@
                ].is_dir
                &&& r matches Ok(a) ==> spec_stat_key(final(store).objects(), ino.path@)
                    matches Some(k) && a == spec_attr_reply(
                    nodeid,
                    spec_meta_of(final(store).objects()[k]),
                )
                &&& r == Err::<AttrOut, ErrorKind>(ErrorKind::NotFound) ==> spec_stat_key(
                    final(store).objects(),
                    ino.path@,
                ) is None
                &&& r matches Err(e) ==> crate::storage::spec_storage_err(e)
            },
    {
        let (path, is_dir) = match self.itab.get(nodeid) {
            Ok(ino) => (clone_bytes(&ino.path), ino.is_dir),
            Err(e) => { return Err(e) },
        };
        if arg.valid & SETATTR_SIZE_BIT != 0 && arg.size == 0 && !is_dir {
            let empty: Vec<u8> = Vec::new();
            match store.write(path.as_slice(), empty.as_slice()) {
                Ok(_) => {},
                Err(e) => {
                    if matches!(e, ErrorKind::PermissionDenied) {
                        return Err(ErrorKind::PermissionDenied);
                    }
                    return Err(ErrorKind::Protocol);
                },
            }
        }
        let meta = match store.stat(path.as_slice()) {
            Ok(m) => m,
            Err(e) => { return Err(e) },
        };
        Ok(
            AttrOut {
                attr_valid: 1,
                attr_valid_nsec: 0,
                dummy: 0,
                attr: synthesize_attr(nodeid, meta),
            },
        )
    }

    /// Serves Unlink: resolves `name` under `parent` and deletes the backend
    /// object; on success the inode mapping for the path, if any, is
    /// removed. Open handles on the path stay valid until released. A
    /// missing backend object is `NotFound`.
    pub fn do_unlink<S: Storage>(&mut self, store: &mut S, parent: u64, name: &[u8]) -> (r:
        Result<(), ErrorKind>)
        requires
            old(self).wf(),
            old(store).inv(),
        ensures
            final(self).wf(),
            final(store).inv(),
            final(self).htab == old(self).htab,
            final(self).initialized == old(self).initialized,
            final(self).destroyed == old(self).destroyed,
            final(self).itab.next_nodeid == old(self).itab.next_nodeid,
            r is Err ==> final(self).itab == old(self).itab,
            !spec_valid_name(name@) ==> r == Err::<(), ErrorKind>(ErrorKind::InvalidArgument)
                && final(store).objects() == old(store).objects(),
            spec_valid_name(name@) && !spec_contains_id(old(self).itab.entries@, parent) ==> r
                == Err::<(), ErrorKind>(ErrorKind::NotFound) && final(store).objects() == old(store).objects(),
            spec_valid_name(name@) && spec_contains_id(old(self).itab.entries@, parent)
                && !spec_inode_of(old(self).itab.entries@, parent).is_dir ==> r == Err::<
                (),
                ErrorKind,
            >(ErrorKind::NotADirectory) && final(store).objects() == old(store).objects(),
            spec_valid_name(name@) && spec_contains_id(old(self).itab.entries@, parent)
                && spec_inode_of(old(self).itab.entries@, parent).is_dir ==> {
                let base = spec_child_base(
                    spec_inode_of(old(self).itab.entries@, parent).path@,
                    name@,
                );
                &&& r is Ok ==> final(store).objects() == old(store).objects().remove(base) && {
                    &&& spec_contains_path(old(self).itab.entries@, base) && base
                        != spec_root_path() ==> final(self).itab.entries@ == old(self).itab.entries@.remove(spec_idx_of_path(old(self).itab.entries@, base))
                    &&& !(spec_contains_path(old(self).itab.entries@, base) && base
                        != spec_root_path()) ==> final(self).itab == old(self).itab
                }
                &&& r == Err::<(), ErrorKind>(ErrorKind::NotFound) ==> !old(store).objects().contains_key(base)
                &&& r matches Err(e) ==> crate::storage::spec_storage_err(e)
                &&& r is Err ==> final(store).objects() == old(store).objects()
            },
    {
        if !valid_name(name) {
            return Err(ErrorKind::InvalidArgument);
        }
        let (parent_path, parent_is_dir) = match self.itab.get(parent) {
            Ok(ino) => (clone_bytes(&ino.path), ino.is_dir),
            Err(e) => { return Err(e) },
        };
        if !parent_is_dir {
            return Err(ErrorKind::NotADirectory);
        }
        let base = concat_bytes(parent_path.as_slice(), name);
        match store.delete(base.as_slice()) {
            Ok(_) => {},
            Err(e) => { return Err(e) },
        }
        self.itab.remove_path(base.as_slice());
        Ok(())
    }

    /// Serves Open: allocates a reader handle, or the path's single writer
    /// handle when the flags carry the write or read-write bit. Directories
    /// are refused with `IsADirectory`; an unknown nodeid is `NotFound`.
    pub fn do_open(&mut self, nodeid: u64, arg: OpenIn) -> (r: Result<OpenOut, ErrorKind>)
        requires
            old(self).wf(),
        ensures
            final(self).wf(),
            final(self).itab == old(self).itab,
            final(self).initialized == old(self).initialized,
            final(self).destroyed == old(self).destroyed,
            r is Err ==> final(self).htab == old(self).htab,
            !spec_contains_id(old(self).itab.entries@, nodeid) ==> r == Err::<
                OpenOut,
                ErrorKind,
            >(ErrorKind::NotFound),
            spec_contains_id(old(self).itab.entries@, nodeid) && spec_inode_of(
                old(self).itab.entries@,
                nodeid,
            ).is_dir ==> r == Err::<OpenOut, ErrorKind>(ErrorKind::IsADirectory),
            spec_contains_id(old(self).itab.entries@, nodeid) && !spec_inode_of(
                old(self).itab.entries@,
                nodeid,
            ).is_dir ==> {
                let ino = spec_inode_of(old(self).itab.entries@, nodeid);
                let wants_write = arg.flags & (OPEN_WRITE_BIT | OPEN_RDWR_BIT) != 0;
                &&& r matches Ok(o) ==> {
                    &&& o.fh == old(self).htab.next_fh
                    &&& o.open_flags == 0
                    &&& o.padding == 0
                    &&& final(self).htab.handles@ == old(self).htab.handles@.push(
                        final(self).htab.handles@.last(),
                    )
                    &&& final(self).htab.handles@.last().fh == o.fh
                    &&& final(self).htab.handles@.last().nodeid == nodeid
                    &&& final(self).htab.handles@.last().path@ == ino.path@
                    &&& final(self).htab.handles@.last().mode == (if wants_write {
                        HandleMode::Write
                    } else {
                        HandleMode::Read
                    })
                    &&& final(self).htab.handles@.last().offset == 0
                    &&& final(self).htab.next_fh == old(self).htab.next_fh + 1
                }
                &&& wants_write && crate::handle::spec_writer_on_path(
                    old(self).htab.handles@,
                    ino.path@,
                ) ==> r == Err::<OpenOut, ErrorKind>(ErrorKind::PermissionDenied)
                &&& !(wants_write && crate::handle::spec_writer_on_path(
                    old(self).htab.handles@,
                    ino.path@,
                )) && old(self).htab.next_fh < u64::MAX ==> r is Ok
            },
    {
        let (path, is_dir) = match self.itab.get(nodeid) {
            Ok(ino) => (clone_bytes(&ino.path), ino.is_dir),
            Err(e) => { return Err(e) },
        };
        if is_dir {
            return Err(ErrorKind::IsADirectory);
        }
        let fh = if arg.flags & (OPEN_WRITE_BIT | OPEN_RDWR_BIT) != 0 {
            match self.htab.open_write(nodeid, path, arg.flags) {
                Ok(fh) => fh,
                Err(e) => { return Err(e) },
            }
        } else {
            match self.htab.open_read(nodeid, path, arg.flags) {
                Ok(fh) => fh,
                Err(e) => { return Err(e) },
            }
        };
        Ok(OpenOut { fh, open_flags: 0, padding: 0 })
    }

    /// Serves Create: makes an empty backend object for `name` under
    /// `parent` (unless one exists already), refs or inserts its inode, and
    /// opens its writer handle. An existing object with the exclusive bit
    /// set is `AlreadyExists`; an existing directory is `IsADirectory`.
    pub fn do_create<S: Storage>(
        &mut self,
        store: &mut S,
        parent: u64,
        name: &[u8],
        arg: CreateIn,
    ) -> (r: Result<(EntryOut, OpenOut), ErrorKind>)
        requires
            old(self).wf(),
            old(store).inv(),
        ensures
            final(self).wf(),
            final(store).inv(),
            final(self).initialized == old(self).initialized,
            final(self).destroyed == old(self).destroyed,
            !spec_valid_name(name@) ==> r == Err::<(EntryOut, OpenOut), ErrorKind>(
                ErrorKind::InvalidArgument,
            ) && *final(self) == *old(self) && final(store).objects() == old(store).objects(),
            spec_valid_name(name@) && !spec_contains_id(old(self).itab.entries@, parent) ==> r
                == Err::<(EntryOut, OpenOut), ErrorKind>(ErrorKind::NotFound) && *final(self)
                == *old(self) && final(store).objects() == old(store).objects(),
            spec_valid_name(name@) && spec_contains_id(old(self).itab.entries@, parent)
                && spec_inode_of(old(self).itab.entries@, parent).is_dir ==> {
                let base = spec_child_base(
                    spec_inode_of(old(self).itab.entries@, parent).path@,
                    name@,
                );
                &&& r == Err::<(EntryOut, OpenOut), ErrorKind>(ErrorKind::AlreadyExists) ==> arg.flags
                    & CREATE_EXCL_BIT != 0 && spec_stat_key(old(store).objects(), base) is Some
                    && *final(self) == *old(self) && final(store).objects() == old(store).objects()
                &&& r is Ok && arg.flags & CREATE_EXCL_BIT != 0 ==> spec_stat_key(
                    old(store).objects(),
                    base,
                ) is None
                &&& r matches Err(e) ==> crate::storage::spec_storage_err(e) || e
                    == ErrorKind::AlreadyExists || e == ErrorKind::IsADirectory
                &&& r matches Ok(eo) ==> {
                    &&& spec_stat_key(old(store).objects(), base) matches Some(k) ==> eo.0
                        == spec_entry_reply(
                        eo.0.nodeid,
                        spec_meta_of(old(store).objects()[k]),
                    ) && !spec_meta_of(old(store).objects()[k]).is_dir && final(store).objects()
                        == old(store).objects()
                    &&& spec_stat_key(old(store).objects(), base) is None ==> eo.0
                        == spec_entry_reply(eo.0.nodeid, spec_fresh_file_meta()) && final(store).objects() == old(store).objects().insert(
                        base,
                        final(store).objects()[base],
                    ) && final(store).objects()[base].data.len() == 0 && !final(store).objects()[base].is_dir
                    &&& eo.1.fh == old(self).htab.next_fh && eo.1.open_flags == 0 && eo.1.padding
                        == 0
                    &&& spec_contains_fh(final(self).htab.handles@, eo.1.fh)
                    &&& spec_handle_of(final(self).htab.handles@, eo.1.fh).mode
                        == HandleMode::Write
                    &&& spec_handle_of(final(self).htab.handles@, eo.1.fh).path@ == base
                    &&& spec_handle_of(final(self).htab.handles@, eo.1.fh).offset == 0
                    &&& spec_contains_id(final(self).itab.entries@, eo.0.nodeid)
                    &&& spec_inode_of(final(self).itab.entries@, eo.0.nodeid).path@ == base
                    &&& !spec_contains_path(old(self).itab.entries@, base) ==> eo.0.nodeid
                        == old(self).itab.next_nodeid
                }
            },
    {
        if !valid_name(name) {
            return Err(ErrorKind::InvalidArgument);
        }
        let (parent_path, parent_is_dir) = match self.itab.get(parent) {
            Ok(ino) => (clone_bytes(&ino.path), ino.is_dir),
            Err(e) => { return Err(e) },
        };
        if !parent_is_dir {
            return Err(ErrorKind::NotADirectory);
        }
        let base = concat_bytes(parent_path.as_slice(), name);
        let existing = match store.stat(base.as_slice()) {
            Ok(m) => Some(m),
            Err(e) => {
                if matches!(e, ErrorKind::NotFound) {
                    None
                } else {
                    return Err(e);
                }
            },
        };
        let meta = match existing {
            Some(m) => {
                if arg.flags & CREATE_EXCL_BIT != 0 {
                    return Err(ErrorKind::AlreadyExists);
                }
                if m.is_dir {
                    return Err(ErrorKind::IsADirectory);
                }
                m
            },
            None => {
                let empty: Vec<u8> = Vec::new();
                match store.write(base.as_slice(), empty.as_slice()) {
                    Ok(_) => {},
                    Err(e) => { return Err(e) },
                }
                Metadata {
                    length: 0,
                    is_dir: false,
                    has_modified: false,
                    modified_sec: 0,
                    modified_nsec: 0,
                }
            },
        };
        let id = match self.itab.insert_or_ref(clone_bytes(&base), false) {
            Ok(id) => id,
            Err(e) => { return Err(e) },
        };
        let ghost itab_mid = self.itab.entries@;
        let fh = match self.htab.open_write(id, clone_bytes(&base), arg.flags) {
            Ok(fh) => fh,
            Err(e) => { return Err(e) },
        };
        proof {
            let hs = self.htab.handles@;
            crate::handle::lemma_hidx_of_found(hs, fh, hs.len() - 1);
            if spec_contains_path(old(self).itab.entries@, base@) {
                let i = spec_idx_of_path(old(self).itab.entries@, base@);
                crate::inode::lemma_idx_of_found(self.itab.entries@, id, i);
            } else {
                crate::inode::lemma_idx_of_found(
                    self.itab.entries@,
                    id,
                    self.itab.entries@.len() - 1,
                );
            }
        }
        let entry = EntryOut {
            nodeid: id,
            generation: 0,
            entry_valid: 1,
            attr_valid: 1,
            entry_valid_nsec: 0,
            attr_valid_nsec: 0,
            attr: synthesize_attr(id, meta),
        };
        Ok((entry, OpenOut { fh, open_flags: 0, padding: 0 }))
    }

    /// Serves Read: performs the backend range read behind a reader handle.
    /// Reads past the end return no bytes and short reads are permitted. A
    /// writer or unknown handle is `BadFileDescriptor`.
    pub fn do_read<S: Storage>(&self, store: &S, fh: u64, offset: u64, size: u32) -> (r: Result<
        Vec<u8>,
        ErrorKind,
    >)
        requires
            self.wf(),
            store.inv(),
        ensures
            !spec_contains_fh(self.htab.handles@, fh) ==> r == Err::<Vec<u8>, ErrorKind>(
                ErrorKind::BadFileDescriptor,
            ),
            spec_contains_fh(self.htab.handles@, fh) && spec_handle_of(self.htab.handles@, fh).mode
                == HandleMode::Write ==> r == Err::<Vec<u8>, ErrorKind>(
                ErrorKind::BadFileDescriptor,
            ),
            spec_contains_fh(self.htab.handles@, fh) && spec_handle_of(self.htab.handles@, fh).mode
                == HandleMode::Read ==> {
                let p = spec_handle_of(self.htab.handles@, fh).path@;
                &&& r matches Ok(b) ==> store.objects().contains_key(p) && {
                    let data = store.objects()[p].data;
                    &&& b@.len() <= size
                    &&& offset <= data.len() ==> offset + b@.len() <= data.len() && b@
                        == data.subrange(offset as int, offset + b@.len())
                    &&& offset > data.len() ==> b@.len() == 0
                }
                &&& r == Err::<Vec<u8>, ErrorKind>(ErrorKind::NotFound) ==> !store.objects(
                ).contains_key(p)
                &&& r matches Err(e) ==> crate::storage::spec_storage_err(e)
            },
    {
        let h = match self.htab.get(fh) {
            Ok(h) => h,
            Err(e) => { return Err(e) },
        };
        if matches!(h.mode, HandleMode::Write) {
            return Err(ErrorKind::BadFileDescriptor);
        }
        store.read(h.path.as_slice(), offset, size)
    }

    /// Serves Write: appends the payload to the writer handle's pending
    /// bytes when `offset` equals its running offset, and reports how many
    /// bytes were accepted. An out-of-order offset is `InvalidArgument`
    /// (random writes are not supported); a reader or unknown handle is
    /// `BadFileDescriptor`.
    pub fn do_write(&mut self, arg: WriteIn, data: &[u8]) -> (r: Result<WriteOut, ErrorKind>)
        requires
            old(self).wf(),
            data@.len() == arg.size,
        ensures
            final(self).wf(),
            final(self).itab == old(self).itab,
            final(self).initialized == old(self).initialized,
            final(self).destroyed == old(self).destroyed,
            r is Err ==> final(self).htab == old(self).htab,
            !spec_contains_fh(old(self).htab.handles@, arg.fh) ==> r == Err::<
                WriteOut,
                ErrorKind,
            >(ErrorKind::BadFileDescriptor),
            spec_contains_fh(old(self).htab.handles@, arg.fh) && spec_handle_of(
                old(self).htab.handles@,
                arg.fh,
            ).mode == HandleMode::Read ==> r == Err::<WriteOut, ErrorKind>(
                ErrorKind::BadFileDescriptor,
            ),
            spec_contains_fh(old(self).htab.handles@, arg.fh) && spec_handle_of(
                old(self).htab.handles@,
                arg.fh,
            ).mode == HandleMode::Write ==> {
                let h = spec_handle_of(old(self).htab.handles@, arg.fh);
                let i = crate::handle::spec_hidx_of(old(self).htab.handles@, arg.fh);
                &&& arg.offset != h.offset ==> r == Err::<WriteOut, ErrorKind>(
                    ErrorKind::InvalidArgument,
                )
                &&& arg.offset == h.offset && arg.offset + data@.len() <= u64::MAX ==> {
                    &&& r == Ok::<WriteOut, ErrorKind>(
                        WriteOut { size: arg.size, padding: 0 },
                    )
                    &&& final(self).htab.handles@ == old(self).htab.handles@.update(
                        i,
                        final(self).htab.handles@[i],
                    )
                    &&& final(self).htab.handles@[i].pending@ == h.pending@ + data@
                    &&& final(self).htab.handles@[i].offset == arg.offset + data@.len()
                    &&& final(self).htab.handles@[i].fh == arg.fh
                    &&& final(self).htab.handles@[i].path == h.path
                    &&& final(self).htab.handles@[i].mode == HandleMode::Write
                }
                &&& arg.offset == h.offset && arg.offset + data@.len() > u64::MAX ==> r == Err::<
                    WriteOut,
                    ErrorKind,
                >(ErrorKind::InvalidArgument)
            },
    {
        match self.htab.write_at(arg.fh, arg.offset, data) {
            Ok(n) => Ok(WriteOut { size: n, padding: 0 }),
            Err(e) => Err(e),
        }
    }

    /// Serves Release: destroys the handle; a writer's pending bytes are
    /// committed to the backend first. A commit failure surfaces as
    /// `Protocol` (EIO), but the handle is destroyed regardless. Releasing
    /// an unknown handle is not an error.
    pub fn do_release<S: Storage>(&mut self, store: &mut S, fh: u64) -> (r: Result<(), ErrorKind>)
        requires
            old(self).wf(),
            old(store).inv(),
        ensures
            final(self).wf(),
            final(store).inv(),
            final(self).itab == old(self).itab,
            final(self).initialized == old(self).initialized,
            final(self).destroyed == old(self).destroyed,
            !spec_contains_fh(final(self).htab.handles@, fh),
            !spec_contains_fh(old(self).htab.handles@, fh) ==> r == Ok::<(), ErrorKind>(())
                && final(self).htab == old(self).htab && final(store).objects() == old(store).objects(),
            spec_contains_fh(old(self).htab.handles@, fh) ==> {
                let h = spec_handle_of(old(self).htab.handles@, fh);
                &&& final(self).htab.handles@ == old(self).htab.handles@.remove(
                    crate::handle::spec_hidx_of(old(self).htab.handles@, fh),
                )
                &&& h.mode == HandleMode::Read ==> r == Ok::<(), ErrorKind>(()) && final(store).objects() == old(store).objects()
                &&& h.mode == HandleMode::Write ==> {
                    &&& r is Ok ==> final(store).objects() == old(store).objects().insert(
                        h.path@,
                        final(store).objects()[h.path@],
                    ) && final(store).objects()[h.path@].data == h.pending@ && !final(store).objects()[h.path@].is_dir
                    &&& r is Err ==> r == Err::<(), ErrorKind>(ErrorKind::Protocol) && final(store).objects() == old(store).objects()
                }
            },
    {
        match self.htab.release(fh) {
            Some(h) => {
                if matches!(h.mode, HandleMode::Write) {
                    match store.write(h.path.as_slice(), h.pending.as_slice()) {
                        Ok(_) => Ok(()),
                        Err(_) => Err(ErrorKind::Protocol),
                    }
                } else {
                    Ok(())
                }
            },
            None => Ok(()),
        }
    }

    /// Serves Flush: commits a snapshot of a writer handle's pending bytes
    /// to the backend without destroying the handle; for readers it is a
    /// no-op. A commit failure surfaces as `Protocol` (EIO); an unknown
    /// handle is `BadFileDescriptor`.
    pub fn do_flush<S: Storage>(&self, store: &mut S, fh: u64) -> (r: Result<(), ErrorKind>)
        requires
            self.wf(),
            old(store).inv(),
        ensures
            final(store).inv(),
            !spec_contains_fh(self.htab.handles@, fh) ==> r == Err::<(), ErrorKind>(
                ErrorKind::BadFileDescriptor,
            ) && final(store).objects() == old(store).objects(),
            spec_contains_fh(self.htab.handles@, fh) ==> {
                let h = spec_handle_of(self.htab.handles@, fh);
                &&& h.mode == HandleMode::Read ==> r == Ok::<(), ErrorKind>(()) && final(store).objects() == old(store).objects()
                &&& h.mode == HandleMode::Write ==> {
                    &&& r is Ok ==> final(store).objects() == old(store).objects().insert(
                        h.path@,
                        final(store).objects()[h.path@],
                    ) && final(store).objects()[h.path@].data == h.pending@ && !final(store).objects()[h.path@].is_dir
                    &&& r is Err ==> r == Err::<(), ErrorKind>(ErrorKind::Protocol) && final(store).objects() == old(store).objects()
                }
            },
    {
        let snap = match self.htab.get(fh) {
            Ok(h) => {
                if matches!(h.mode, HandleMode::Write) {
                    Some((clone_bytes(&h.path), clone_bytes(&h.pending)))
                } else {
                    None
                }
            },
            Err(e) => { return Err(e) },
        };
        match snap {
            Some((path, pending)) => {
                match store.write(path.as_slice(), pending.as_slice()) {
                    Ok(_) => Ok(()),
                    Err(_) => Err(ErrorKind::Protocol),
                }
            },
            None => Ok(()),
        }
    }
}


/// Sequential writes read back exactly: when a writer handle has accepted
/// the payloads `b1` then `b2` in order (its pending bytes are their
/// concatenation and its running offset counts them), committing it — as
/// Release and Flush do — stores an object whose bytes over
/// `[0, running_offset)` are exactly `b1 + b2`, whatever the store held
/// under the path before.
pub proof fn lemma_writes_read_back(
    objs: Map<Seq<u8>, crate::storage::StorageObject>,
    h: crate::handle::Handle,
    b1: Seq<u8>,
    b2: Seq<u8>,
)
    requires
        h.wf(),
        h.mode == HandleMode::Write,
        h.pending@ == b1 + b2,
    ensures
        ({
            let committed = objs.insert(
                h.path@,
                crate::storage::StorageObject { data: h.pending@, is_dir: false, modified: None },
            );
            committed[h.path@].data.subrange(0, h.offset as int) == b1 + b2
        }),
{
    let committed = objs.insert(
        h.path@,
        crate::storage::StorageObject { data: h.pending@, is_dir: false, modified: None },
    );
    assert(committed[h.path@].data =~= b1 + b2);
    assert(committed[h.path@].data.subrange(0, h.offset as int) =~= b1 + b2);
}

} // verus!
