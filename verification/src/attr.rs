//! The attribute synthesizer: translates backend metadata into the fixed
//! FUSE `Attr` record, filling the fields the backend does not know with
//! defaults.

use vstd::prelude::*;

use crate::messages::Attr;
use crate::storage::Metadata;

verus! {

/// File mode reported for directories: drwxr-xr-x.
pub const DIR_MODE: u32 = 0o40755;

/// File mode reported for regular files: rw-r--r--.
pub const FILE_MODE: u32 = 0o100644;

/// Block size reported for every entry.
pub const BLKSIZE: u32 = 4096;

/// The `Attr` record that describes metadata `m` under nodeid `ino`:
/// directories report size 0, mode 0o40755 and nlink 2; files report their
/// length, mode 0o100644 and nlink 1; blocks counts 512-byte units rounded
/// up; the three times all carry the last-modified time, or 0 when the
/// backend knows none; uid, gid, rdev and flags are 0 and blksize is 4096.
pub open spec fn spec_attr_of(ino: u64, m: Metadata) -> Attr {
    let size: u64 = if m.is_dir {
        0u64
    } else {
        m.length
    };
    let sec: u64 = if m.has_modified {
        m.modified_sec
    } else {
        0u64
    };
    let nsec: u32 = if m.has_modified {
        m.modified_nsec
    } else {
        0u32
    };
    Attr {
        ino,
        size,
        blocks: (size / 512 + if size % 512 == 0 {
            0u64
        } else {
            1u64
        }) as u64,
        atime: sec,
        mtime: sec,
        ctime: sec,
        atimensec: nsec,
        mtimensec: nsec,
        ctimensec: nsec,
        mode: if m.is_dir {
            DIR_MODE
        } else {
            FILE_MODE
        },
        nlink: if m.is_dir {
            2u32
        } else {
            1u32
        },
        uid: 0,
        gid: 0,
        rdev: 0,
        blksize: BLKSIZE,
        flags: 0,
    }
}

/// Builds the `Attr` record for metadata `m` under nodeid `ino`.
pub fn synthesize_attr(ino: u64, m: Metadata) -> (r: Attr)
    ensures
        r == spec_attr_of(ino, m),
{
    let size: u64 = if m.is_dir {
        0
    } else {
        m.length
    };
    let sec: u64 = if m.has_modified {
        m.modified_sec
    } else {
        0
    };
    let nsec: u32 = if m.has_modified {
        m.modified_nsec
    } else {
        0
    };
    let blocks: u64 = size / 512 + if size % 512 == 0 {
        0
    } else {
        1
    };
    Attr {
        ino,
        size,
        blocks,
        atime: sec,
        mtime: sec,
        ctime: sec,
        atimensec: nsec,
        mtimensec: nsec,
        ctimensec: nsec,
        mode: if m.is_dir {
            DIR_MODE
        } else {
            FILE_MODE
        },
        nlink: if m.is_dir {
            2
        } else {
            1
        },
        uid: 0,
        gid: 0,
        rdev: 0,
        blksize: BLKSIZE,
        flags: 0,
    }
}

} // verus!
