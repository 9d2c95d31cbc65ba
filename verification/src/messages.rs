//! Wire records of the FUSE-over-virtiofs protocol and their codec.
//!
//! Every record is a fixed-size struct of little-endian integer fields with C
//! layout and no implicit padding beyond the explicit padding fields. `encode`
//! produces exactly the record's wire bytes; `decode` reads a record from the
//! front of a byte slice and fails when the slice is shorter than the record.

use vstd::prelude::*;
use vstd::bytes::*;
use vstd::slice::slice_subrange;

use crate::error::ErrorKind;

verus! {

/// Appends the two little-endian bytes of `x` to `out`.
fn put_u16(out: &mut Vec<u8>, x: u16)
    ensures
        final(out)@ == old(out)@ + spec_u16_to_le_bytes(x),
{
    let mut b = u16_to_le_bytes(x);
    out.append(&mut b);
}

/// Appends the four little-endian bytes of `x` to `out`.
fn put_u32(out: &mut Vec<u8>, x: u32)
    ensures
        final(out)@ == old(out)@ + spec_u32_to_le_bytes(x),
{
    let mut b = u32_to_le_bytes(x);
    out.append(&mut b);
}

/// Appends the eight little-endian bytes of `x` to `out`.
fn put_u64(out: &mut Vec<u8>, x: u64)
    ensures
        final(out)@ == old(out)@ + spec_u64_to_le_bytes(x),
{
    let mut b = u64_to_le_bytes(x);
    out.append(&mut b);
}

/// Reads a little-endian `u16` at byte offset `off`.
fn get_u16(s: &[u8], off: usize) -> (x: u16)
    requires
        off + 2 <= s@.len(),
    ensures
        x == spec_u16_from_le_bytes(s@.subrange(off as int, off + 2)),
{
    let bound: usize = s.len();
    proof {
        assert(s@.len() == bound);
    }
    u16_from_le_bytes(slice_subrange(s, off, off + 2))
}

/// Reads a little-endian `u32` at byte offset `off`.
fn get_u32(s: &[u8], off: usize) -> (x: u32)
    requires
        off + 4 <= s@.len(),
    ensures
        x == spec_u32_from_le_bytes(s@.subrange(off as int, off + 4)),
{
    let bound: usize = s.len();
    proof {
        assert(s@.len() == bound);
    }
    u32_from_le_bytes(slice_subrange(s, off, off + 4))
}

/// Reads a little-endian `u64` at byte offset `off`.
fn get_u64(s: &[u8], off: usize) -> (x: u64)
    requires
        off + 8 <= s@.len(),
    ensures
        x == spec_u64_from_le_bytes(s@.subrange(off as int, off + 8)),
{
    let bound: usize = s.len();
    proof {
        assert(s@.len() == bound);
    }
    u64_from_le_bytes(slice_subrange(s, off, off + 8))
}

/// Size in bytes of `Attr` on the wire.
pub const ATTR_SIZE: usize = 88;

/// File attributes as the guest kernel expects them in replies.
#[derive(Clone, Copy, Debug, PartialEq, Eq, Structural)]
pub struct Attr {
    pub ino: u64,
    pub size: u64,
    pub blocks: u64,
    pub atime: u64,
    pub mtime: u64,
    pub ctime: u64,
    pub atimensec: u32,
    pub mtimensec: u32,
    pub ctimensec: u32,
    pub mode: u32,
    pub nlink: u32,
    pub uid: u32,
    pub gid: u32,
    pub rdev: u32,
    pub blksize: u32,
    pub flags: u32,
}

/// The wire bytes of an `Attr` record.
pub open spec fn spec_enc_attr(v: Attr) -> Seq<u8> {
    spec_u64_to_le_bytes(v.ino) + spec_u64_to_le_bytes(v.size) + spec_u64_to_le_bytes(v.blocks) + spec_u64_to_le_bytes(v.atime) + spec_u64_to_le_bytes(v.mtime) + spec_u64_to_le_bytes(v.ctime) + spec_u32_to_le_bytes(v.atimensec) + spec_u32_to_le_bytes(v.mtimensec) + spec_u32_to_le_bytes(v.ctimensec) + spec_u32_to_le_bytes(v.mode) + spec_u32_to_le_bytes(v.nlink) + spec_u32_to_le_bytes(v.uid) + spec_u32_to_le_bytes(v.gid) + spec_u32_to_le_bytes(v.rdev) + spec_u32_to_le_bytes(v.blksize) + spec_u32_to_le_bytes(v.flags)
}

/// The `Attr` record held in the first `ATTR_SIZE` bytes of `s`.
pub open spec fn spec_dec_attr(s: Seq<u8>) -> Attr
    recommends
        s.len() >= ATTR_SIZE,
{
    Attr {
        ino: spec_u64_from_le_bytes(s.subrange(0, 8)),
        size: spec_u64_from_le_bytes(s.subrange(8, 16)),
        blocks: spec_u64_from_le_bytes(s.subrange(16, 24)),
        atime: spec_u64_from_le_bytes(s.subrange(24, 32)),
        mtime: spec_u64_from_le_bytes(s.subrange(32, 40)),
        ctime: spec_u64_from_le_bytes(s.subrange(40, 48)),
        atimensec: spec_u32_from_le_bytes(s.subrange(48, 52)),
        mtimensec: spec_u32_from_le_bytes(s.subrange(52, 56)),
        ctimensec: spec_u32_from_le_bytes(s.subrange(56, 60)),
        mode: spec_u32_from_le_bytes(s.subrange(60, 64)),
        nlink: spec_u32_from_le_bytes(s.subrange(64, 68)),
        uid: spec_u32_from_le_bytes(s.subrange(68, 72)),
        gid: spec_u32_from_le_bytes(s.subrange(72, 76)),
        rdev: spec_u32_from_le_bytes(s.subrange(76, 80)),
        blksize: spec_u32_from_le_bytes(s.subrange(80, 84)),
        flags: spec_u32_from_le_bytes(s.subrange(84, 88)),
    }
}

impl Attr {
    /// Serializes the record into its exact wire bytes.
    pub fn encode(&self) -> (out: Vec<u8>)
        ensures
            out@ == spec_enc_attr(*self),
            out@.len() == ATTR_SIZE,
    {
        proof {
            lemma_auto_spec_u32_to_from_le_bytes();
            lemma_auto_spec_u64_to_from_le_bytes();
        }
        let mut out: Vec<u8> = Vec::new();
        put_u64(&mut out, self.ino);
        put_u64(&mut out, self.size);
        put_u64(&mut out, self.blocks);
        put_u64(&mut out, self.atime);
        put_u64(&mut out, self.mtime);
        put_u64(&mut out, self.ctime);
        put_u32(&mut out, self.atimensec);
        put_u32(&mut out, self.mtimensec);
        put_u32(&mut out, self.ctimensec);
        put_u32(&mut out, self.mode);
        put_u32(&mut out, self.nlink);
        put_u32(&mut out, self.uid);
        put_u32(&mut out, self.gid);
        put_u32(&mut out, self.rdev);
        put_u32(&mut out, self.blksize);
        put_u32(&mut out, self.flags);
        assert(out@ =~= spec_enc_attr(*self));
        out
    }

    /// Reads the record held at byte offset `off` of `s`.
    pub fn decode_at(s: &[u8], off: usize) -> (r: Attr)
        requires
            off + ATTR_SIZE <= s@.len(),
        ensures
            r == spec_dec_attr(s@.subrange(off as int, off + ATTR_SIZE)),
    {
        let bound: usize = s.len();
        proof {
            assert(s@.len() == bound);
            let sub = s@.subrange(off as int, off + ATTR_SIZE);
            assert(sub.subrange(0, 8) =~= s@.subrange(off + 0, off + 8));
            assert(sub.subrange(8, 16) =~= s@.subrange(off + 8, off + 16));
            assert(sub.subrange(16, 24) =~= s@.subrange(off + 16, off + 24));
            assert(sub.subrange(24, 32) =~= s@.subrange(off + 24, off + 32));
            assert(sub.subrange(32, 40) =~= s@.subrange(off + 32, off + 40));
            assert(sub.subrange(40, 48) =~= s@.subrange(off + 40, off + 48));
            assert(sub.subrange(48, 52) =~= s@.subrange(off + 48, off + 52));
            assert(sub.subrange(52, 56) =~= s@.subrange(off + 52, off + 56));
            assert(sub.subrange(56, 60) =~= s@.subrange(off + 56, off + 60));
            assert(sub.subrange(60, 64) =~= s@.subrange(off + 60, off + 64));
            assert(sub.subrange(64, 68) =~= s@.subrange(off + 64, off + 68));
            assert(sub.subrange(68, 72) =~= s@.subrange(off + 68, off + 72));
            assert(sub.subrange(72, 76) =~= s@.subrange(off + 72, off + 76));
            assert(sub.subrange(76, 80) =~= s@.subrange(off + 76, off + 80));
            assert(sub.subrange(80, 84) =~= s@.subrange(off + 80, off + 84));
            assert(sub.subrange(84, 88) =~= s@.subrange(off + 84, off + 88));
        }
        Attr {
            ino: get_u64(s, off + 0),
            size: get_u64(s, off + 8),
            blocks: get_u64(s, off + 16),
            atime: get_u64(s, off + 24),
            mtime: get_u64(s, off + 32),
            ctime: get_u64(s, off + 40),
            atimensec: get_u32(s, off + 48),
            mtimensec: get_u32(s, off + 52),
            ctimensec: get_u32(s, off + 56),
            mode: get_u32(s, off + 60),
            nlink: get_u32(s, off + 64),
            uid: get_u32(s, off + 68),
            gid: get_u32(s, off + 72),
            rdev: get_u32(s, off + 76),
            blksize: get_u32(s, off + 80),
            flags: get_u32(s, off + 84),
        }
    }

    /// Parses the record from the front of `s`; fails when `s` is
    /// shorter than the record.
    pub fn decode(s: &[u8]) -> (r: Result<Attr, ErrorKind>)
        ensures
            s@.len() >= ATTR_SIZE ==> r == Ok::<Attr, ErrorKind>(spec_dec_attr(s@)),
            s@.len() < ATTR_SIZE ==> r == Err::<Attr, ErrorKind>(ErrorKind::Protocol),
    {
        if s.len() < ATTR_SIZE {
            return Err(ErrorKind::Protocol);
        }
        let a = Attr::decode_at(s, 0);
        proof {
            assert(s@.subrange(0, ATTR_SIZE as int).subrange(0, 8) =~= s@.subrange(0, 8));
            assert(s@.subrange(0, ATTR_SIZE as int).subrange(8, 16) =~= s@.subrange(8, 16));
            assert(s@.subrange(0, ATTR_SIZE as int).subrange(16, 24) =~= s@.subrange(16, 24));
            assert(s@.subrange(0, ATTR_SIZE as int).subrange(24, 32) =~= s@.subrange(24, 32));
            assert(s@.subrange(0, ATTR_SIZE as int).subrange(32, 40) =~= s@.subrange(32, 40));
            assert(s@.subrange(0, ATTR_SIZE as int).subrange(40, 48) =~= s@.subrange(40, 48));
            assert(s@.subrange(0, ATTR_SIZE as int).subrange(48, 52) =~= s@.subrange(48, 52));
            assert(s@.subrange(0, ATTR_SIZE as int).subrange(52, 56) =~= s@.subrange(52, 56));
            assert(s@.subrange(0, ATTR_SIZE as int).subrange(56, 60) =~= s@.subrange(56, 60));
            assert(s@.subrange(0, ATTR_SIZE as int).subrange(60, 64) =~= s@.subrange(60, 64));
            assert(s@.subrange(0, ATTR_SIZE as int).subrange(64, 68) =~= s@.subrange(64, 68));
            assert(s@.subrange(0, ATTR_SIZE as int).subrange(68, 72) =~= s@.subrange(68, 72));
            assert(s@.subrange(0, ATTR_SIZE as int).subrange(72, 76) =~= s@.subrange(72, 76));
            assert(s@.subrange(0, ATTR_SIZE as int).subrange(76, 80) =~= s@.subrange(76, 80));
            assert(s@.subrange(0, ATTR_SIZE as int).subrange(80, 84) =~= s@.subrange(80, 84));
            assert(s@.subrange(0, ATTR_SIZE as int).subrange(84, 88) =~= s@.subrange(84, 88));
        }
        Ok(a)
    }
}

/// Round trip of `Attr` through its wire bytes: encoding then decoding
/// returns the value, and decoding then encoding returns the bytes.
pub proof fn lemma_attr_round_trip(v: Attr, s: Seq<u8>)
    requires
        s.len() == ATTR_SIZE,
    ensures
        spec_enc_attr(v).len() == ATTR_SIZE,
        spec_dec_attr(spec_enc_attr(v)) == v,
        spec_enc_attr(spec_dec_attr(s)) == s,
{
    lemma_auto_spec_u32_to_from_le_bytes();
    lemma_auto_spec_u64_to_from_le_bytes();
    let e = spec_enc_attr(v);
    assert(e.subrange(0, 8) =~= spec_u64_to_le_bytes(v.ino));
    assert(e.subrange(8, 16) =~= spec_u64_to_le_bytes(v.size));
    assert(e.subrange(16, 24) =~= spec_u64_to_le_bytes(v.blocks));
    assert(e.subrange(24, 32) =~= spec_u64_to_le_bytes(v.atime));
    assert(e.subrange(32, 40) =~= spec_u64_to_le_bytes(v.mtime));
    assert(e.subrange(40, 48) =~= spec_u64_to_le_bytes(v.ctime));
    assert(e.subrange(48, 52) =~= spec_u32_to_le_bytes(v.atimensec));
    assert(e.subrange(52, 56) =~= spec_u32_to_le_bytes(v.mtimensec));
    assert(e.subrange(56, 60) =~= spec_u32_to_le_bytes(v.ctimensec));
    assert(e.subrange(60, 64) =~= spec_u32_to_le_bytes(v.mode));
    assert(e.subrange(64, 68) =~= spec_u32_to_le_bytes(v.nlink));
    assert(e.subrange(68, 72) =~= spec_u32_to_le_bytes(v.uid));
    assert(e.subrange(72, 76) =~= spec_u32_to_le_bytes(v.gid));
    assert(e.subrange(76, 80) =~= spec_u32_to_le_bytes(v.rdev));
    assert(e.subrange(80, 84) =~= spec_u32_to_le_bytes(v.blksize));
    assert(e.subrange(84, 88) =~= spec_u32_to_le_bytes(v.flags));
    let d = spec_dec_attr(s);
    assert(spec_enc_attr(d) =~= s);
}

/// Size in bytes of `InHeader` on the wire.
pub const IN_HEADER_SIZE: usize = 40;

/// Header that opens every request arriving from the guest.
#[derive(Clone, Copy, Debug, PartialEq, Eq, Structural)]
pub struct InHeader {
    pub len: u32,
    pub opcode: u32,
    pub unique: u64,
    pub nodeid: u64,
    pub uid: u32,
    pub gid: u32,
    pub pid: u32,
    pub total_extlen: u16,
    pub padding: u16,
}

/// The wire bytes of an `InHeader` record.
pub open spec fn spec_enc_in_header(v: InHeader) -> Seq<u8> {
    spec_u32_to_le_bytes(v.len) + spec_u32_to_le_bytes(v.opcode) + spec_u64_to_le_bytes(v.unique) + spec_u64_to_le_bytes(v.nodeid) + spec_u32_to_le_bytes(v.uid) + spec_u32_to_le_bytes(v.gid) + spec_u32_to_le_bytes(v.pid) + spec_u16_to_le_bytes(v.total_extlen) + spec_u16_to_le_bytes(v.padding)
}

/// The `InHeader` record held in the first `IN_HEADER_SIZE` bytes of `s`.
pub open spec fn spec_dec_in_header(s: Seq<u8>) -> InHeader
    recommends
        s.len() >= IN_HEADER_SIZE,
{
    InHeader {
        len: spec_u32_from_le_bytes(s.subrange(0, 4)),
        opcode: spec_u32_from_le_bytes(s.subrange(4, 8)),
        unique: spec_u64_from_le_bytes(s.subrange(8, 16)),
        nodeid: spec_u64_from_le_bytes(s.subrange(16, 24)),
        uid: spec_u32_from_le_bytes(s.subrange(24, 28)),
        gid: spec_u32_from_le_bytes(s.subrange(28, 32)),
        pid: spec_u32_from_le_bytes(s.subrange(32, 36)),
        total_extlen: spec_u16_from_le_bytes(s.subrange(36, 38)),
        padding: spec_u16_from_le_bytes(s.subrange(38, 40)),
    }
}

impl InHeader {
    /// Serializes the record into its exact wire bytes.
    pub fn encode(&self) -> (out: Vec<u8>)
        ensures
            out@ == spec_enc_in_header(*self),
            out@.len() == IN_HEADER_SIZE,
    {
        proof {
            lemma_auto_spec_u16_to_from_le_bytes();
            lemma_auto_spec_u32_to_from_le_bytes();
            lemma_auto_spec_u64_to_from_le_bytes();
        }
        let mut out: Vec<u8> = Vec::new();
        put_u32(&mut out, self.len);
        put_u32(&mut out, self.opcode);
        put_u64(&mut out, self.unique);
        put_u64(&mut out, self.nodeid);
        put_u32(&mut out, self.uid);
        put_u32(&mut out, self.gid);
        put_u32(&mut out, self.pid);
        put_u16(&mut out, self.total_extlen);
        put_u16(&mut out, self.padding);
        assert(out@ =~= spec_enc_in_header(*self));
        out
    }

    /// Parses the record from the front of `s`; fails when `s` is
    /// shorter than the record.
    pub fn decode(s: &[u8]) -> (r: Result<InHeader, ErrorKind>)
        ensures
            s@.len() >= IN_HEADER_SIZE ==> r == Ok::<InHeader, ErrorKind>(spec_dec_in_header(s@)),
            s@.len() < IN_HEADER_SIZE ==> r == Err::<InHeader, ErrorKind>(ErrorKind::Protocol),
    {
        if s.len() < IN_HEADER_SIZE {
            return Err(ErrorKind::Protocol);
        }
        Ok(InHeader {
            len: get_u32(s, 0),
            opcode: get_u32(s, 4),
            unique: get_u64(s, 8),
            nodeid: get_u64(s, 16),
            uid: get_u32(s, 24),
            gid: get_u32(s, 28),
            pid: get_u32(s, 32),
            total_extlen: get_u16(s, 36),
            padding: get_u16(s, 38),
        })
    }
}

/// Round trip of `InHeader` through its wire bytes: encoding then decoding
/// returns the value, and decoding then encoding returns the bytes.
pub proof fn lemma_in_header_round_trip(v: InHeader, s: Seq<u8>)
    requires
        s.len() == IN_HEADER_SIZE,
    ensures
        spec_enc_in_header(v).len() == IN_HEADER_SIZE,
        spec_dec_in_header(spec_enc_in_header(v)) == v,
        spec_enc_in_header(spec_dec_in_header(s)) == s,
{
    lemma_auto_spec_u16_to_from_le_bytes();
    lemma_auto_spec_u32_to_from_le_bytes();
    lemma_auto_spec_u64_to_from_le_bytes();
    let e = spec_enc_in_header(v);
    assert(e.subrange(0, 4) =~= spec_u32_to_le_bytes(v.len));
    assert(e.subrange(4, 8) =~= spec_u32_to_le_bytes(v.opcode));
    assert(e.subrange(8, 16) =~= spec_u64_to_le_bytes(v.unique));
    assert(e.subrange(16, 24) =~= spec_u64_to_le_bytes(v.nodeid));
    assert(e.subrange(24, 28) =~= spec_u32_to_le_bytes(v.uid));
    assert(e.subrange(28, 32) =~= spec_u32_to_le_bytes(v.gid));
    assert(e.subrange(32, 36) =~= spec_u32_to_le_bytes(v.pid));
    assert(e.subrange(36, 38) =~= spec_u16_to_le_bytes(v.total_extlen));
    assert(e.subrange(38, 40) =~= spec_u16_to_le_bytes(v.padding));
    let d = spec_dec_in_header(s);
    assert(spec_enc_in_header(d) =~= s);
}

/// Size in bytes of `OutHeader` on the wire.
pub const OUT_HEADER_SIZE: usize = 16;

/// Header that opens every reply written back to the guest.
#[derive(Clone, Copy, Debug, PartialEq, Eq, Structural)]
pub struct OutHeader {
    pub len: u32,
    pub error: i32,
    pub unique: u64,
}

/// The wire bytes of an `OutHeader` record.
pub open spec fn spec_enc_out_header(v: OutHeader) -> Seq<u8> {
    spec_u32_to_le_bytes(v.len) + spec_u32_to_le_bytes(v.error as u32) + spec_u64_to_le_bytes(v.unique)
}

/// The `OutHeader` record held in the first `OUT_HEADER_SIZE` bytes of `s`.
pub open spec fn spec_dec_out_header(s: Seq<u8>) -> OutHeader
    recommends
        s.len() >= OUT_HEADER_SIZE,
{
    OutHeader {
        len: spec_u32_from_le_bytes(s.subrange(0, 4)),
        error: spec_u32_from_le_bytes(s.subrange(4, 8)) as i32,
        unique: spec_u64_from_le_bytes(s.subrange(8, 16)),
    }
}

impl OutHeader {
    /// Serializes the record into its exact wire bytes.
    pub fn encode(&self) -> (out: Vec<u8>)
        ensures
            out@ == spec_enc_out_header(*self),
            out@.len() == OUT_HEADER_SIZE,
    {
        proof {
            lemma_auto_spec_u32_to_from_le_bytes();
            lemma_auto_spec_u64_to_from_le_bytes();
        }
        let mut out: Vec<u8> = Vec::new();
        put_u32(&mut out, self.len);
        put_u32(&mut out, self.error as u32);
        put_u64(&mut out, self.unique);
        assert(out@ =~= spec_enc_out_header(*self));
        out
    }

    /// Parses the record from the front of `s`; fails when `s` is
    /// shorter than the record.
    pub fn decode(s: &[u8]) -> (r: Result<OutHeader, ErrorKind>)
        ensures
            s@.len() >= OUT_HEADER_SIZE ==> r == Ok::<OutHeader, ErrorKind>(spec_dec_out_header(s@)),
            s@.len() < OUT_HEADER_SIZE ==> r == Err::<OutHeader, ErrorKind>(ErrorKind::Protocol),
    {
        if s.len() < OUT_HEADER_SIZE {
            return Err(ErrorKind::Protocol);
        }
        Ok(OutHeader {
            len: get_u32(s, 0),
            error: get_u32(s, 4) as i32,
            unique: get_u64(s, 8),
        })
    }
}

/// Round trip of `OutHeader` through its wire bytes: encoding then decoding
/// returns the value, and decoding then encoding returns the bytes.
pub proof fn lemma_out_header_round_trip(v: OutHeader, s: Seq<u8>)
    requires
        s.len() == OUT_HEADER_SIZE,
    ensures
        spec_enc_out_header(v).len() == OUT_HEADER_SIZE,
        spec_dec_out_header(spec_enc_out_header(v)) == v,
        spec_enc_out_header(spec_dec_out_header(s)) == s,
{
    lemma_auto_spec_u32_to_from_le_bytes();
    lemma_auto_spec_u64_to_from_le_bytes();
    let e = spec_enc_out_header(v);
    assert(e.subrange(0, 4) =~= spec_u32_to_le_bytes(v.len));
    assert(e.subrange(4, 8) =~= spec_u32_to_le_bytes(v.error as u32));
    assert(e.subrange(8, 16) =~= spec_u64_to_le_bytes(v.unique));
    let x: i32 = v.error;
    assert(x as u32 as i32 == x) by (bit_vector);
    let y = spec_u32_from_le_bytes(s.subrange(4, 8));
    assert(y as i32 as u32 == y) by (bit_vector);
    let d = spec_dec_out_header(s);
    assert(spec_enc_out_header(d) =~= s);
}

/// Size in bytes of `InitIn` on the wire.
pub const INIT_IN_SIZE: usize = 16;

/// Parameters of the Init filesystem call.
#[derive(Clone, Copy, Debug, PartialEq, Eq, Structural)]
pub struct InitIn {
    pub major: u32,
    pub minor: u32,
    pub max_readahead: u32,
    pub flags: u32,
}

/// The wire bytes of an `InitIn` record.
pub open spec fn spec_enc_init_in(v: InitIn) -> Seq<u8> {
    spec_u32_to_le_bytes(v.major) + spec_u32_to_le_bytes(v.minor) + spec_u32_to_le_bytes(v.max_readahead) + spec_u32_to_le_bytes(v.flags)
}

/// The `InitIn` record held in the first `INIT_IN_SIZE` bytes of `s`.
pub open spec fn spec_dec_init_in(s: Seq<u8>) -> InitIn
    recommends
        s.len() >= INIT_IN_SIZE,
{
    InitIn {
        major: spec_u32_from_le_bytes(s.subrange(0, 4)),
        minor: spec_u32_from_le_bytes(s.subrange(4, 8)),
        max_readahead: spec_u32_from_le_bytes(s.subrange(8, 12)),
        flags: spec_u32_from_le_bytes(s.subrange(12, 16)),
    }
}

impl InitIn {
    /// Serializes the record into its exact wire bytes.
    pub fn encode(&self) -> (out: Vec<u8>)
        ensures
            out@ == spec_enc_init_in(*self),
            out@.len() == INIT_IN_SIZE,
    {
        proof {
            lemma_auto_spec_u32_to_from_le_bytes();
        }
        let mut out: Vec<u8> = Vec::new();
        put_u32(&mut out, self.major);
        put_u32(&mut out, self.minor);
        put_u32(&mut out, self.max_readahead);
        put_u32(&mut out, self.flags);
        assert(out@ =~= spec_enc_init_in(*self));
        out
    }

    /// Parses the record from the front of `s`; fails when `s` is
    /// shorter than the record.
    pub fn decode(s: &[u8]) -> (r: Result<InitIn, ErrorKind>)
        ensures
            s@.len() >= INIT_IN_SIZE ==> r == Ok::<InitIn, ErrorKind>(spec_dec_init_in(s@)),
            s@.len() < INIT_IN_SIZE ==> r == Err::<InitIn, ErrorKind>(ErrorKind::Protocol),
    {
        if s.len() < INIT_IN_SIZE {
            return Err(ErrorKind::Protocol);
        }
        Ok(InitIn {
            major: get_u32(s, 0),
            minor: get_u32(s, 4),
            max_readahead: get_u32(s, 8),
            flags: get_u32(s, 12),
        })
    }
}

/// Round trip of `InitIn` through its wire bytes: encoding then decoding
/// returns the value, and decoding then encoding returns the bytes.
pub proof fn lemma_init_in_round_trip(v: InitIn, s: Seq<u8>)
    requires
        s.len() == INIT_IN_SIZE,
    ensures
        spec_enc_init_in(v).len() == INIT_IN_SIZE,
        spec_dec_init_in(spec_enc_init_in(v)) == v,
        spec_enc_init_in(spec_dec_init_in(s)) == s,
{
    lemma_auto_spec_u32_to_from_le_bytes();
    let e = spec_enc_init_in(v);
    assert(e.subrange(0, 4) =~= spec_u32_to_le_bytes(v.major));
    assert(e.subrange(4, 8) =~= spec_u32_to_le_bytes(v.minor));
    assert(e.subrange(8, 12) =~= spec_u32_to_le_bytes(v.max_readahead));
    assert(e.subrange(12, 16) =~= spec_u32_to_le_bytes(v.flags));
    let d = spec_dec_init_in(s);
    assert(spec_enc_init_in(d) =~= s);
}

/// Size in bytes of `InitOut` on the wire.
pub const INIT_OUT_SIZE: usize = 64;

/// Result of the Init filesystem call.
#[derive(Clone, Copy, Debug, PartialEq, Eq)]
pub struct InitOut {
    pub major: u32,
    pub minor: u32,
    pub max_readahead: u32,
    pub flags: u32,
    pub max_background: u16,
    pub congestion_threshold: u16,
    pub max_write: u32,
    pub time_gran: u32,
    pub max_pages: u16,
    pub map_alignment: u16,
    pub flags2: u32,
    pub unused: [u32; 7],
}

/// The wire bytes of an `InitOut` record.
pub open spec fn spec_enc_init_out(v: InitOut) -> Seq<u8> {
    spec_u32_to_le_bytes(v.major) + spec_u32_to_le_bytes(v.minor) + spec_u32_to_le_bytes(v.max_readahead) + spec_u32_to_le_bytes(v.flags) + spec_u16_to_le_bytes(v.max_background) + spec_u16_to_le_bytes(v.congestion_threshold) + spec_u32_to_le_bytes(v.max_write) + spec_u32_to_le_bytes(v.time_gran) + spec_u16_to_le_bytes(v.max_pages) + spec_u16_to_le_bytes(v.map_alignment) + spec_u32_to_le_bytes(v.flags2) + spec_u32_to_le_bytes(v.unused[0]) + spec_u32_to_le_bytes(v.unused[1]) + spec_u32_to_le_bytes(v.unused[2]) + spec_u32_to_le_bytes(v.unused[3]) + spec_u32_to_le_bytes(v.unused[4]) + spec_u32_to_le_bytes(v.unused[5]) + spec_u32_to_le_bytes(v.unused[6])
}

/// The `InitOut` record held in the first `INIT_OUT_SIZE` bytes of `s`.
pub open spec fn spec_dec_init_out(s: Seq<u8>) -> InitOut
    recommends
        s.len() >= INIT_OUT_SIZE,
{
    InitOut {
        major: spec_u32_from_le_bytes(s.subrange(0, 4)),
        minor: spec_u32_from_le_bytes(s.subrange(4, 8)),
        max_readahead: spec_u32_from_le_bytes(s.subrange(8, 12)),
        flags: spec_u32_from_le_bytes(s.subrange(12, 16)),
        max_background: spec_u16_from_le_bytes(s.subrange(16, 18)),
        congestion_threshold: spec_u16_from_le_bytes(s.subrange(18, 20)),
        max_write: spec_u32_from_le_bytes(s.subrange(20, 24)),
        time_gran: spec_u32_from_le_bytes(s.subrange(24, 28)),
        max_pages: spec_u16_from_le_bytes(s.subrange(28, 30)),
        map_alignment: spec_u16_from_le_bytes(s.subrange(30, 32)),
        flags2: spec_u32_from_le_bytes(s.subrange(32, 36)),
        unused: [spec_u32_from_le_bytes(s.subrange(36, 40)), spec_u32_from_le_bytes(s.subrange(40, 44)), spec_u32_from_le_bytes(s.subrange(44, 48)), spec_u32_from_le_bytes(s.subrange(48, 52)), spec_u32_from_le_bytes(s.subrange(52, 56)), spec_u32_from_le_bytes(s.subrange(56, 60)), spec_u32_from_le_bytes(s.subrange(60, 64))],
    }
}

impl InitOut {
    /// Serializes the record into its exact wire bytes.
    pub fn encode(&self) -> (out: Vec<u8>)
        ensures
            out@ == spec_enc_init_out(*self),
            out@.len() == INIT_OUT_SIZE,
    {
        proof {
            lemma_auto_spec_u16_to_from_le_bytes();
            lemma_auto_spec_u32_to_from_le_bytes();
        }
        let mut out: Vec<u8> = Vec::new();
        put_u32(&mut out, self.major);
        put_u32(&mut out, self.minor);
        put_u32(&mut out, self.max_readahead);
        put_u32(&mut out, self.flags);
        put_u16(&mut out, self.max_background);
        put_u16(&mut out, self.congestion_threshold);
        put_u32(&mut out, self.max_write);
        put_u32(&mut out, self.time_gran);
        put_u16(&mut out, self.max_pages);
        put_u16(&mut out, self.map_alignment);
        put_u32(&mut out, self.flags2);
        put_u32(&mut out, self.unused[0]);
        put_u32(&mut out, self.unused[1]);
        put_u32(&mut out, self.unused[2]);
        put_u32(&mut out, self.unused[3]);
        put_u32(&mut out, self.unused[4]);
        put_u32(&mut out, self.unused[5]);
        put_u32(&mut out, self.unused[6]);
        assert(out@ =~= spec_enc_init_out(*self));
        out
    }

    /// Parses the record from the front of `s`; fails when `s` is
    /// shorter than the record.
    pub fn decode(s: &[u8]) -> (r: Result<InitOut, ErrorKind>)
        ensures
            s@.len() >= INIT_OUT_SIZE ==> r == Ok::<InitOut, ErrorKind>(spec_dec_init_out(s@)),
            s@.len() < INIT_OUT_SIZE ==> r == Err::<InitOut, ErrorKind>(ErrorKind::Protocol),
    {
        if s.len() < INIT_OUT_SIZE {
            return Err(ErrorKind::Protocol);
        }
        Ok(InitOut {
            major: get_u32(s, 0),
            minor: get_u32(s, 4),
            max_readahead: get_u32(s, 8),
            flags: get_u32(s, 12),
            max_background: get_u16(s, 16),
            congestion_threshold: get_u16(s, 18),
            max_write: get_u32(s, 20),
            time_gran: get_u32(s, 24),
            max_pages: get_u16(s, 28),
            map_alignment: get_u16(s, 30),
            flags2: get_u32(s, 32),
            unused: [get_u32(s, 36), get_u32(s, 40), get_u32(s, 44), get_u32(s, 48), get_u32(s, 52), get_u32(s, 56), get_u32(s, 60)],
        })
    }
}

/// Round trip of `InitOut` through its wire bytes: encoding then decoding
/// returns the value, and decoding then encoding returns the bytes.
pub proof fn lemma_init_out_round_trip(v: InitOut, s: Seq<u8>)
    requires
        s.len() == INIT_OUT_SIZE,
    ensures
        spec_enc_init_out(v).len() == INIT_OUT_SIZE,
        spec_dec_init_out(spec_enc_init_out(v)) == v,
        spec_enc_init_out(spec_dec_init_out(s)) == s,
{
    broadcast use vstd::array::group_array_axioms;

    lemma_auto_spec_u16_to_from_le_bytes();
    lemma_auto_spec_u32_to_from_le_bytes();
    let e = spec_enc_init_out(v);
    assert(e.subrange(0, 4) =~= spec_u32_to_le_bytes(v.major));
    assert(e.subrange(4, 8) =~= spec_u32_to_le_bytes(v.minor));
    assert(e.subrange(8, 12) =~= spec_u32_to_le_bytes(v.max_readahead));
    assert(e.subrange(12, 16) =~= spec_u32_to_le_bytes(v.flags));
    assert(e.subrange(16, 18) =~= spec_u16_to_le_bytes(v.max_background));
    assert(e.subrange(18, 20) =~= spec_u16_to_le_bytes(v.congestion_threshold));
    assert(e.subrange(20, 24) =~= spec_u32_to_le_bytes(v.max_write));
    assert(e.subrange(24, 28) =~= spec_u32_to_le_bytes(v.time_gran));
    assert(e.subrange(28, 30) =~= spec_u16_to_le_bytes(v.max_pages));
    assert(e.subrange(30, 32) =~= spec_u16_to_le_bytes(v.map_alignment));
    assert(e.subrange(32, 36) =~= spec_u32_to_le_bytes(v.flags2));
    assert(e.subrange(36, 40) =~= spec_u32_to_le_bytes(v.unused[0]));
    assert(e.subrange(40, 44) =~= spec_u32_to_le_bytes(v.unused[1]));
    assert(e.subrange(44, 48) =~= spec_u32_to_le_bytes(v.unused[2]));
    assert(e.subrange(48, 52) =~= spec_u32_to_le_bytes(v.unused[3]));
    assert(e.subrange(52, 56) =~= spec_u32_to_le_bytes(v.unused[4]));
    assert(e.subrange(56, 60) =~= spec_u32_to_le_bytes(v.unused[5]));
    assert(e.subrange(60, 64) =~= spec_u32_to_le_bytes(v.unused[6]));
    assert(spec_dec_init_out(e).unused =~= v.unused);
    let d = spec_dec_init_out(s);
    assert(spec_enc_init_out(d) =~= s);
}

/// Size in bytes of `EntryOut` on the wire.
pub const ENTRY_OUT_SIZE: usize = 128;

/// Entry returned by Lookup and by the first half of a Create reply.
#[derive(Clone, Copy, Debug, PartialEq, Eq, Structural)]
pub struct EntryOut {
    pub nodeid: u64,
    pub generation: u64,
    pub entry_valid: u64,
    pub attr_valid: u64,
    pub entry_valid_nsec: u32,
    pub attr_valid_nsec: u32,
    pub attr: Attr,
}

/// The wire bytes of an `EntryOut` record.
pub open spec fn spec_enc_entry_out(v: EntryOut) -> Seq<u8> {
    spec_u64_to_le_bytes(v.nodeid) + spec_u64_to_le_bytes(v.generation) + spec_u64_to_le_bytes(v.entry_valid) + spec_u64_to_le_bytes(v.attr_valid) + spec_u32_to_le_bytes(v.entry_valid_nsec) + spec_u32_to_le_bytes(v.attr_valid_nsec) + spec_enc_attr(v.attr)
}

/// The `EntryOut` record held in the first `ENTRY_OUT_SIZE` bytes of `s`.
pub open spec fn spec_dec_entry_out(s: Seq<u8>) -> EntryOut
    recommends
        s.len() >= ENTRY_OUT_SIZE,
{
    EntryOut {
        nodeid: spec_u64_from_le_bytes(s.subrange(0, 8)),
        generation: spec_u64_from_le_bytes(s.subrange(8, 16)),
        entry_valid: spec_u64_from_le_bytes(s.subrange(16, 24)),
        attr_valid: spec_u64_from_le_bytes(s.subrange(24, 32)),
        entry_valid_nsec: spec_u32_from_le_bytes(s.subrange(32, 36)),
        attr_valid_nsec: spec_u32_from_le_bytes(s.subrange(36, 40)),
        attr: spec_dec_attr(s.subrange(40, 128)),
    }
}

impl EntryOut {
    /// Serializes the record into its exact wire bytes.
    pub fn encode(&self) -> (out: Vec<u8>)
        ensures
            out@ == spec_enc_entry_out(*self),
            out@.len() == ENTRY_OUT_SIZE,
    {
        proof {
            lemma_auto_spec_u32_to_from_le_bytes();
            lemma_auto_spec_u64_to_from_le_bytes();
        }
        let mut out: Vec<u8> = Vec::new();
        put_u64(&mut out, self.nodeid);
        put_u64(&mut out, self.generation);
        put_u64(&mut out, self.entry_valid);
        put_u64(&mut out, self.attr_valid);
        put_u32(&mut out, self.entry_valid_nsec);
        put_u32(&mut out, self.attr_valid_nsec);
        let mut ab = self.attr.encode();
        out.append(&mut ab);
        assert(out@ =~= spec_enc_entry_out(*self));
        out
    }

    /// Parses the record from the front of `s`; fails when `s` is
    /// shorter than the record.
    pub fn decode(s: &[u8]) -> (r: Result<EntryOut, ErrorKind>)
        ensures
            s@.len() >= ENTRY_OUT_SIZE ==> r == Ok::<EntryOut, ErrorKind>(spec_dec_entry_out(s@)),
            s@.len() < ENTRY_OUT_SIZE ==> r == Err::<EntryOut, ErrorKind>(ErrorKind::Protocol),
    {
        if s.len() < ENTRY_OUT_SIZE {
            return Err(ErrorKind::Protocol);
        }
        Ok(EntryOut {
            nodeid: get_u64(s, 0),
            generation: get_u64(s, 8),
            entry_valid: get_u64(s, 16),
            attr_valid: get_u64(s, 24),
            entry_valid_nsec: get_u32(s, 32),
            attr_valid_nsec: get_u32(s, 36),
            attr: Attr::decode_at(s, 40),
        })
    }
}

/// Round trip of `EntryOut` through its wire bytes: encoding then decoding
/// returns the value, and decoding then encoding returns the bytes.
pub proof fn lemma_entry_out_round_trip(v: EntryOut, s: Seq<u8>)
    requires
        s.len() == ENTRY_OUT_SIZE,
    ensures
        spec_enc_entry_out(v).len() == ENTRY_OUT_SIZE,
        spec_dec_entry_out(spec_enc_entry_out(v)) == v,
        spec_enc_entry_out(spec_dec_entry_out(s)) == s,
{
    lemma_auto_spec_u32_to_from_le_bytes();
    lemma_auto_spec_u64_to_from_le_bytes();
    lemma_attr_round_trip(v.attr, s.subrange(40, 128));
    let e = spec_enc_entry_out(v);
    assert(e.subrange(0, 8) =~= spec_u64_to_le_bytes(v.nodeid));
    assert(e.subrange(8, 16) =~= spec_u64_to_le_bytes(v.generation));
    assert(e.subrange(16, 24) =~= spec_u64_to_le_bytes(v.entry_valid));
    assert(e.subrange(24, 32) =~= spec_u64_to_le_bytes(v.attr_valid));
    assert(e.subrange(32, 36) =~= spec_u32_to_le_bytes(v.entry_valid_nsec));
    assert(e.subrange(36, 40) =~= spec_u32_to_le_bytes(v.attr_valid_nsec));
    assert(e.subrange(40, 128) =~= spec_enc_attr(v.attr));
    let d = spec_dec_entry_out(s);
    assert(spec_enc_entry_out(d) =~= s);
}

/// Size in bytes of `AttrOut` on the wire.
pub const ATTR_OUT_SIZE: usize = 104;

/// Attributes returned by Getattr and Setattr.
#[derive(Clone, Copy, Debug, PartialEq, Eq, Structural)]
pub struct AttrOut {
    pub attr_valid: u64,
    pub attr_valid_nsec: u32,
    pub dummy: u32,
    pub attr: Attr,
}

/// The wire bytes of an `AttrOut` record.
pub open spec fn spec_enc_attr_out(v: AttrOut) -> Seq<u8> {
    spec_u64_to_le_bytes(v.attr_valid) + spec_u32_to_le_bytes(v.attr_valid_nsec) + spec_u32_to_le_bytes(v.dummy) + spec_enc_attr(v.attr)
}

/// The `AttrOut` record held in the first `ATTR_OUT_SIZE` bytes of `s`.
pub open spec fn spec_dec_attr_out(s: Seq<u8>) -> AttrOut
    recommends
        s.len() >= ATTR_OUT_SIZE,
{
    AttrOut {
        attr_valid: spec_u64_from_le_bytes(s.subrange(0, 8)),
        attr_valid_nsec: spec_u32_from_le_bytes(s.subrange(8, 12)),
        dummy: spec_u32_from_le_bytes(s.subrange(12, 16)),
        attr: spec_dec_attr(s.subrange(16, 104)),
    }
}

impl AttrOut {
    /// Serializes the record into its exact wire bytes.
    pub fn encode(&self) -> (out: Vec<u8>)
        ensures
            out@ == spec_enc_attr_out(*self),
            out@.len() == ATTR_OUT_SIZE,
    {
        proof {
            lemma_auto_spec_u32_to_from_le_bytes();
            lemma_auto_spec_u64_to_from_le_bytes();
        }
        let mut out: Vec<u8> = Vec::new();
        put_u64(&mut out, self.attr_valid);
        put_u32(&mut out, self.attr_valid_nsec);
        put_u32(&mut out, self.dummy);
        let mut ab = self.attr.encode();
        out.append(&mut ab);
        assert(out@ =~= spec_enc_attr_out(*self));
        out
    }

    /// Parses the record from the front of `s`; fails when `s` is
    /// shorter than the record.
    pub fn decode(s: &[u8]) -> (r: Result<AttrOut, ErrorKind>)
        ensures
            s@.len() >= ATTR_OUT_SIZE ==> r == Ok::<AttrOut, ErrorKind>(spec_dec_attr_out(s@)),
            s@.len() < ATTR_OUT_SIZE ==> r == Err::<AttrOut, ErrorKind>(ErrorKind::Protocol),
    {
        if s.len() < ATTR_OUT_SIZE {
            return Err(ErrorKind::Protocol);
        }
        Ok(AttrOut {
            attr_valid: get_u64(s, 0),
            attr_valid_nsec: get_u32(s, 8),
            dummy: get_u32(s, 12),
            attr: Attr::decode_at(s, 16),
        })
    }
}

/// Round trip of `AttrOut` through its wire bytes: encoding then decoding
/// returns the value, and decoding then encoding returns the bytes.
pub proof fn lemma_attr_out_round_trip(v: AttrOut, s: Seq<u8>)
    requires
        s.len() == ATTR_OUT_SIZE,
    ensures
        spec_enc_attr_out(v).len() == ATTR_OUT_SIZE,
        spec_dec_attr_out(spec_enc_attr_out(v)) == v,
        spec_enc_attr_out(spec_dec_attr_out(s)) == s,
{
    lemma_auto_spec_u32_to_from_le_bytes();
    lemma_auto_spec_u64_to_from_le_bytes();
    lemma_attr_round_trip(v.attr, s.subrange(16, 104));
    let e = spec_enc_attr_out(v);
    assert(e.subrange(0, 8) =~= spec_u64_to_le_bytes(v.attr_valid));
    assert(e.subrange(8, 12) =~= spec_u32_to_le_bytes(v.attr_valid_nsec));
    assert(e.subrange(12, 16) =~= spec_u32_to_le_bytes(v.dummy));
    assert(e.subrange(16, 104) =~= spec_enc_attr(v.attr));
    let d = spec_dec_attr_out(s);
    assert(spec_enc_attr_out(d) =~= s);
}

/// Size in bytes of `CreateIn` on the wire.
pub const CREATE_IN_SIZE: usize = 16;

/// Parameters of the Create filesystem call.
#[derive(Clone, Copy, Debug, PartialEq, Eq, Structural)]
pub struct CreateIn {
    pub flags: u32,
    pub mode: u32,
    pub umask: u32,
    pub open_flags: u32,
}

/// The wire bytes of a `CreateIn` record.
pub open spec fn spec_enc_create_in(v: CreateIn) -> Seq<u8> {
    spec_u32_to_le_bytes(v.flags) + spec_u32_to_le_bytes(v.mode) + spec_u32_to_le_bytes(v.umask) + spec_u32_to_le_bytes(v.open_flags)
}

/// The `CreateIn` record held in the first `CREATE_IN_SIZE` bytes of `s`.
pub open spec fn spec_dec_create_in(s: Seq<u8>) -> CreateIn
    recommends
        s.len() >= CREATE_IN_SIZE,
{
    CreateIn {
        flags: spec_u32_from_le_bytes(s.subrange(0, 4)),
        mode: spec_u32_from_le_bytes(s.subrange(4, 8)),
        umask: spec_u32_from_le_bytes(s.subrange(8, 12)),
        open_flags: spec_u32_from_le_bytes(s.subrange(12, 16)),
    }
}

impl CreateIn {
    /// Serializes the record into its exact wire bytes.
    pub fn encode(&self) -> (out: Vec<u8>)
        ensures
            out@ == spec_enc_create_in(*self),
            out@.len() == CREATE_IN_SIZE,
    {
        proof {
            lemma_auto_spec_u32_to_from_le_bytes();
        }
        let mut out: Vec<u8> = Vec::new();
        put_u32(&mut out, self.flags);
        put_u32(&mut out, self.mode);
        put_u32(&mut out, self.umask);
        put_u32(&mut out, self.open_flags);
        assert(out@ =~= spec_enc_create_in(*self));
        out
    }

    /// Parses the record from the front of `s`; fails when `s` is
    /// shorter than the record.
    pub fn decode(s: &[u8]) -> (r: Result<CreateIn, ErrorKind>)
        ensures
            s@.len() >= CREATE_IN_SIZE ==> r == Ok::<CreateIn, ErrorKind>(spec_dec_create_in(s@)),
            s@.len() < CREATE_IN_SIZE ==> r == Err::<CreateIn, ErrorKind>(ErrorKind::Protocol),
    {
        if s.len() < CREATE_IN_SIZE {
            return Err(ErrorKind::Protocol);
        }
        Ok(CreateIn {
            flags: get_u32(s, 0),
            mode: get_u32(s, 4),
            umask: get_u32(s, 8),
            open_flags: get_u32(s, 12),
        })
    }
}

/// Round trip of `CreateIn` through its wire bytes: encoding then decoding
/// returns the value, and decoding then encoding returns the bytes.
pub proof fn lemma_create_in_round_trip(v: CreateIn, s: Seq<u8>)
    requires
        s.len() == CREATE_IN_SIZE,
    ensures
        spec_enc_create_in(v).len() == CREATE_IN_SIZE,
        spec_dec_create_in(spec_enc_create_in(v)) == v,
        spec_enc_create_in(spec_dec_create_in(s)) == s,
{
    lemma_auto_spec_u32_to_from_le_bytes();
    let e = spec_enc_create_in(v);
    assert(e.subrange(0, 4) =~= spec_u32_to_le_bytes(v.flags));
    assert(e.subrange(4, 8) =~= spec_u32_to_le_bytes(v.mode));
    assert(e.subrange(8, 12) =~= spec_u32_to_le_bytes(v.umask));
    assert(e.subrange(12, 16) =~= spec_u32_to_le_bytes(v.open_flags));
    let d = spec_dec_create_in(s);
    assert(spec_enc_create_in(d) =~= s);
}

/// Size in bytes of `OpenIn` on the wire.
pub const OPEN_IN_SIZE: usize = 8;

/// Parameters of the Open filesystem call.
#[derive(Clone, Copy, Debug, PartialEq, Eq, Structural)]
pub struct OpenIn {
    pub flags: u32,
    pub open_flags: u32,
}

/// The wire bytes of an `OpenIn` record.
pub open spec fn spec_enc_open_in(v: OpenIn) -> Seq<u8> {
    spec_u32_to_le_bytes(v.flags) + spec_u32_to_le_bytes(v.open_flags)
}

/// The `OpenIn` record held in the first `OPEN_IN_SIZE` bytes of `s`.
pub open spec fn spec_dec_open_in(s: Seq<u8>) -> OpenIn
    recommends
        s.len() >= OPEN_IN_SIZE,
{
    OpenIn {
        flags: spec_u32_from_le_bytes(s.subrange(0, 4)),
        open_flags: spec_u32_from_le_bytes(s.subrange(4, 8)),
    }
}

impl OpenIn {
    /// Serializes the record into its exact wire bytes.
    pub fn encode(&self) -> (out: Vec<u8>)
        ensures
            out@ == spec_enc_open_in(*self),
            out@.len() == OPEN_IN_SIZE,
    {
        proof {
            lemma_auto_spec_u32_to_from_le_bytes();
        }
        let mut out: Vec<u8> = Vec::new();
        put_u32(&mut out, self.flags);
        put_u32(&mut out, self.open_flags);
        assert(out@ =~= spec_enc_open_in(*self));
        out
    }

    /// Parses the record from the front of `s`; fails when `s` is
    /// shorter than the record.
    pub fn decode(s: &[u8]) -> (r: Result<OpenIn, ErrorKind>)
        ensures
            s@.len() >= OPEN_IN_SIZE ==> r == Ok::<OpenIn, ErrorKind>(spec_dec_open_in(s@)),
            s@.len() < OPEN_IN_SIZE ==> r == Err::<OpenIn, ErrorKind>(ErrorKind::Protocol),
    {
        if s.len() < OPEN_IN_SIZE {
            return Err(ErrorKind::Protocol);
        }
        Ok(OpenIn {
            flags: get_u32(s, 0),
            open_flags: get_u32(s, 4),
        })
    }
}

/// Round trip of `OpenIn` through its wire bytes: encoding then decoding
/// returns the value, and decoding then encoding returns the bytes.
pub proof fn lemma_open_in_round_trip(v: OpenIn, s: Seq<u8>)
    requires
        s.len() == OPEN_IN_SIZE,
    ensures
        spec_enc_open_in(v).len() == OPEN_IN_SIZE,
        spec_dec_open_in(spec_enc_open_in(v)) == v,
        spec_enc_open_in(spec_dec_open_in(s)) == s,
{
    lemma_auto_spec_u32_to_from_le_bytes();
    let e = spec_enc_open_in(v);
    assert(e.subrange(0, 4) =~= spec_u32_to_le_bytes(v.flags));
    assert(e.subrange(4, 8) =~= spec_u32_to_le_bytes(v.open_flags));
    let d = spec_dec_open_in(s);
    assert(spec_enc_open_in(d) =~= s);
}

/// Size in bytes of `OpenOut` on the wire.
pub const OPEN_OUT_SIZE: usize = 16;

/// File handle returned by Open and by the second half of a Create reply.
#[derive(Clone, Copy, Debug, PartialEq, Eq, Structural)]
pub struct OpenOut {
    pub fh: u64,
    pub open_flags: u32,
    pub padding: u32,
}

/// The wire bytes of an `OpenOut` record.
pub open spec fn spec_enc_open_out(v: OpenOut) -> Seq<u8> {
    spec_u64_to_le_bytes(v.fh) + spec_u32_to_le_bytes(v.open_flags) + spec_u32_to_le_bytes(v.padding)
}

/// The `OpenOut` record held in the first `OPEN_OUT_SIZE` bytes of `s`.
pub open spec fn spec_dec_open_out(s: Seq<u8>) -> OpenOut
    recommends
        s.len() >= OPEN_OUT_SIZE,
{
    OpenOut {
        fh: spec_u64_from_le_bytes(s.subrange(0, 8)),
        open_flags: spec_u32_from_le_bytes(s.subrange(8, 12)),
        padding: spec_u32_from_le_bytes(s.subrange(12, 16)),
    }
}

impl OpenOut {
    /// Serializes the record into its exact wire bytes.
    pub fn encode(&self) -> (out: Vec<u8>)
        ensures
            out@ == spec_enc_open_out(*self),
            out@.len() == OPEN_OUT_SIZE,
    {
        proof {
            lemma_auto_spec_u32_to_from_le_bytes();
            lemma_auto_spec_u64_to_from_le_bytes();
        }
        let mut out: Vec<u8> = Vec::new();
        put_u64(&mut out, self.fh);
        put_u32(&mut out, self.open_flags);
        put_u32(&mut out, self.padding);
        assert(out@ =~= spec_enc_open_out(*self));
        out
    }

    /// Parses the record from the front of `s`; fails when `s` is
    /// shorter than the record.
    pub fn decode(s: &[u8]) -> (r: Result<OpenOut, ErrorKind>)
        ensures
            s@.len() >= OPEN_OUT_SIZE ==> r == Ok::<OpenOut, ErrorKind>(spec_dec_open_out(s@)),
            s@.len() < OPEN_OUT_SIZE ==> r == Err::<OpenOut, ErrorKind>(ErrorKind::Protocol),
    {
        if s.len() < OPEN_OUT_SIZE {
            return Err(ErrorKind::Protocol);
        }
        Ok(OpenOut {
            fh: get_u64(s, 0),
            open_flags: get_u32(s, 8),
            padding: get_u32(s, 12),
        })
    }
}

/// Round trip of `OpenOut` through its wire bytes: encoding then decoding
/// returns the value, and decoding then encoding returns the bytes.
pub proof fn lemma_open_out_round_trip(v: OpenOut, s: Seq<u8>)
    requires
        s.len() == OPEN_OUT_SIZE,
    ensures
        spec_enc_open_out(v).len() == OPEN_OUT_SIZE,
        spec_dec_open_out(spec_enc_open_out(v)) == v,
        spec_enc_open_out(spec_dec_open_out(s)) == s,
{
    lemma_auto_spec_u32_to_from_le_bytes();
    lemma_auto_spec_u64_to_from_le_bytes();
    let e = spec_enc_open_out(v);
    assert(e.subrange(0, 8) =~= spec_u64_to_le_bytes(v.fh));
    assert(e.subrange(8, 12) =~= spec_u32_to_le_bytes(v.open_flags));
    assert(e.subrange(12, 16) =~= spec_u32_to_le_bytes(v.padding));
    let d = spec_dec_open_out(s);
    assert(spec_enc_open_out(d) =~= s);
}

/// Size in bytes of `ReadIn` on the wire.
pub const READ_IN_SIZE: usize = 40;

/// Parameters of the Read filesystem call.
#[derive(Clone, Copy, Debug, PartialEq, Eq, Structural)]
pub struct ReadIn {
    pub fh: u64,
    pub offset: u64,
    pub size: u32,
    pub read_flags: u32,
    pub lock_owner: u64,
    pub flags: u32,
    pub padding: u32,
}

/// The wire bytes of a `ReadIn` record.
pub open spec fn spec_enc_read_in(v: ReadIn) -> Seq<u8> {
    spec_u64_to_le_bytes(v.fh) + spec_u64_to_le_bytes(v.offset) + spec_u32_to_le_bytes(v.size) + spec_u32_to_le_bytes(v.read_flags) + spec_u64_to_le_bytes(v.lock_owner) + spec_u32_to_le_bytes(v.flags) + spec_u32_to_le_bytes(v.padding)
}

/// The `ReadIn` record held in the first `READ_IN_SIZE` bytes of `s`.
pub open spec fn spec_dec_read_in(s: Seq<u8>) -> ReadIn
    recommends
        s.len() >= READ_IN_SIZE,
{
    ReadIn {
        fh: spec_u64_from_le_bytes(s.subrange(0, 8)),
        offset: spec_u64_from_le_bytes(s.subrange(8, 16)),
        size: spec_u32_from_le_bytes(s.subrange(16, 20)),
        read_flags: spec_u32_from_le_bytes(s.subrange(20, 24)),
        lock_owner: spec_u64_from_le_bytes(s.subrange(24, 32)),
        flags: spec_u32_from_le_bytes(s.subrange(32, 36)),
        padding: spec_u32_from_le_bytes(s.subrange(36, 40)),
    }
}

impl ReadIn {
    /// Serializes the record into its exact wire bytes.
    pub fn encode(&self) -> (out: Vec<u8>)
        ensures
            out@ == spec_enc_read_in(*self),
            out@.len() == READ_IN_SIZE,
    {
        proof {
            lemma_auto_spec_u32_to_from_le_bytes();
            lemma_auto_spec_u64_to_from_le_bytes();
        }
        let mut out: Vec<u8> = Vec::new();
        put_u64(&mut out, self.fh);
        put_u64(&mut out, self.offset);
        put_u32(&mut out, self.size);
        put_u32(&mut out, self.read_flags);
        put_u64(&mut out, self.lock_owner);
        put_u32(&mut out, self.flags);
        put_u32(&mut out, self.padding);
        assert(out@ =~= spec_enc_read_in(*self));
        out
    }

    /// Parses the record from the front of `s`; fails when `s` is
    /// shorter than the record.
    pub fn decode(s: &[u8]) -> (r: Result<ReadIn, ErrorKind>)
        ensures
            s@.len() >= READ_IN_SIZE ==> r == Ok::<ReadIn, ErrorKind>(spec_dec_read_in(s@)),
            s@.len() < READ_IN_SIZE ==> r == Err::<ReadIn, ErrorKind>(ErrorKind::Protocol),
    {
        if s.len() < READ_IN_SIZE {
            return Err(ErrorKind::Protocol);
        }
        Ok(ReadIn {
            fh: get_u64(s, 0),
            offset: get_u64(s, 8),
            size: get_u32(s, 16),
            read_flags: get_u32(s, 20),
            lock_owner: get_u64(s, 24),
            flags: get_u32(s, 32),
            padding: get_u32(s, 36),
        })
    }
}

/// Round trip of `ReadIn` through its wire bytes: encoding then decoding
/// returns the value, and decoding then encoding returns the bytes.
pub proof fn lemma_read_in_round_trip(v: ReadIn, s: Seq<u8>)
    requires
        s.len() == READ_IN_SIZE,
    ensures
        spec_enc_read_in(v).len() == READ_IN_SIZE,
        spec_dec_read_in(spec_enc_read_in(v)) == v,
        spec_enc_read_in(spec_dec_read_in(s)) == s,
{
    lemma_auto_spec_u32_to_from_le_bytes();
    lemma_auto_spec_u64_to_from_le_bytes();
    let e = spec_enc_read_in(v);
    assert(e.subrange(0, 8) =~= spec_u64_to_le_bytes(v.fh));
    assert(e.subrange(8, 16) =~= spec_u64_to_le_bytes(v.offset));
    assert(e.subrange(16, 20) =~= spec_u32_to_le_bytes(v.size));
    assert(e.subrange(20, 24) =~= spec_u32_to_le_bytes(v.read_flags));
    assert(e.subrange(24, 32) =~= spec_u64_to_le_bytes(v.lock_owner));
    assert(e.subrange(32, 36) =~= spec_u32_to_le_bytes(v.flags));
    assert(e.subrange(36, 40) =~= spec_u32_to_le_bytes(v.padding));
    let d = spec_dec_read_in(s);
    assert(spec_enc_read_in(d) =~= s);
}

/// Size in bytes of `WriteIn` on the wire.
pub const WRITE_IN_SIZE: usize = 40;

/// Parameters of the Write filesystem call; the data bytes follow it.
#[derive(Clone, Copy, Debug, PartialEq, Eq, Structural)]
pub struct WriteIn {
    pub fh: u64,
    pub offset: u64,
    pub size: u32,
    pub write_flags: u32,
    pub lock_owner: u64,
    pub flags: u32,
    pub padding: u32,
}

/// The wire bytes of a `WriteIn` record.
pub open spec fn spec_enc_write_in(v: WriteIn) -> Seq<u8> {
    spec_u64_to_le_bytes(v.fh) + spec_u64_to_le_bytes(v.offset) + spec_u32_to_le_bytes(v.size) + spec_u32_to_le_bytes(v.write_flags) + spec_u64_to_le_bytes(v.lock_owner) + spec_u32_to_le_bytes(v.flags) + spec_u32_to_le_bytes(v.padding)
}

/// The `WriteIn` record held in the first `WRITE_IN_SIZE` bytes of `s`.
pub open spec fn spec_dec_write_in(s: Seq<u8>) -> WriteIn
    recommends
        s.len() >= WRITE_IN_SIZE,
{
    WriteIn {
        fh: spec_u64_from_le_bytes(s.subrange(0, 8)),
        offset: spec_u64_from_le_bytes(s.subrange(8, 16)),
        size: spec_u32_from_le_bytes(s.subrange(16, 20)),
        write_flags: spec_u32_from_le_bytes(s.subrange(20, 24)),
        lock_owner: spec_u64_from_le_bytes(s.subrange(24, 32)),
        flags: spec_u32_from_le_bytes(s.subrange(32, 36)),
        padding: spec_u32_from_le_bytes(s.subrange(36, 40)),
    }
}

impl WriteIn {
    /// Serializes the record into its exact wire bytes.
    pub fn encode(&self) -> (out: Vec<u8>)
        ensures
            out@ == spec_enc_write_in(*self),
            out@.len() == WRITE_IN_SIZE,
    {
        proof {
            lemma_auto_spec_u32_to_from_le_bytes();
            lemma_auto_spec_u64_to_from_le_bytes();
        }
        let mut out: Vec<u8> = Vec::new();
        put_u64(&mut out, self.fh);
        put_u64(&mut out, self.offset);
        put_u32(&mut out, self.size);
        put_u32(&mut out, self.write_flags);
        put_u64(&mut out, self.lock_owner);
        put_u32(&mut out, self.flags);
        put_u32(&mut out, self.padding);
        assert(out@ =~= spec_enc_write_in(*self));
        out
    }

    /// Parses the record from the front of `s`; fails when `s` is
    /// shorter than the record.
    pub fn decode(s: &[u8]) -> (r: Result<WriteIn, ErrorKind>)
        ensures
            s@.len() >= WRITE_IN_SIZE ==> r == Ok::<WriteIn, ErrorKind>(spec_dec_write_in(s@)),
            s@.len() < WRITE_IN_SIZE ==> r == Err::<WriteIn, ErrorKind>(ErrorKind::Protocol),
    {
        if s.len() < WRITE_IN_SIZE {
            return Err(ErrorKind::Protocol);
        }
        Ok(WriteIn {
            fh: get_u64(s, 0),
            offset: get_u64(s, 8),
            size: get_u32(s, 16),
            write_flags: get_u32(s, 20),
            lock_owner: get_u64(s, 24),
            flags: get_u32(s, 32),
            padding: get_u32(s, 36),
        })
    }
}

/// Round trip of `WriteIn` through its wire bytes: encoding then decoding
/// returns the value, and decoding then encoding returns the bytes.
pub proof fn lemma_write_in_round_trip(v: WriteIn, s: Seq<u8>)
    requires
        s.len() == WRITE_IN_SIZE,
    ensures
        spec_enc_write_in(v).len() == WRITE_IN_SIZE,
        spec_dec_write_in(spec_enc_write_in(v)) == v,
        spec_enc_write_in(spec_dec_write_in(s)) == s,
{
    lemma_auto_spec_u32_to_from_le_bytes();
    lemma_auto_spec_u64_to_from_le_bytes();
    let e = spec_enc_write_in(v);
    assert(e.subrange(0, 8) =~= spec_u64_to_le_bytes(v.fh));
    assert(e.subrange(8, 16) =~= spec_u64_to_le_bytes(v.offset));
    assert(e.subrange(16, 20) =~= spec_u32_to_le_bytes(v.size));
    assert(e.subrange(20, 24) =~= spec_u32_to_le_bytes(v.write_flags));
    assert(e.subrange(24, 32) =~= spec_u64_to_le_bytes(v.lock_owner));
    assert(e.subrange(32, 36) =~= spec_u32_to_le_bytes(v.flags));
    assert(e.subrange(36, 40) =~= spec_u32_to_le_bytes(v.padding));
    let d = spec_dec_write_in(s);
    assert(spec_enc_write_in(d) =~= s);
}

/// Size in bytes of `WriteOut` on the wire.
pub const WRITE_OUT_SIZE: usize = 8;

/// Number of bytes accepted by the Write filesystem call.
#[derive(Clone, Copy, Debug, PartialEq, Eq, Structural)]
pub struct WriteOut {
    pub size: u32,
    pub padding: u32,
}

/// The wire bytes of a `WriteOut` record.
pub open spec fn spec_enc_write_out(v: WriteOut) -> Seq<u8> {
    spec_u32_to_le_bytes(v.size) + spec_u32_to_le_bytes(v.padding)
}

/// The `WriteOut` record held in the first `WRITE_OUT_SIZE` bytes of `s`.
pub open spec fn spec_dec_write_out(s: Seq<u8>) -> WriteOut
    recommends
        s.len() >= WRITE_OUT_SIZE,
{
    WriteOut {
        size: spec_u32_from_le_bytes(s.subrange(0, 4)),
        padding: spec_u32_from_le_bytes(s.subrange(4, 8)),
    }
}

impl WriteOut {
    /// Serializes the record into its exact wire bytes.
    pub fn encode(&self) -> (out: Vec<u8>)
        ensures
            out@ == spec_enc_write_out(*self),
            out@.len() == WRITE_OUT_SIZE,
    {
        proof {
            lemma_auto_spec_u32_to_from_le_bytes();
        }
        let mut out: Vec<u8> = Vec::new();
        put_u32(&mut out, self.size);
        put_u32(&mut out, self.padding);
        assert(out@ =~= spec_enc_write_out(*self));
        out
    }

    /// Parses the record from the front of `s`; fails when `s` is
    /// shorter than the record.
    pub fn decode(s: &[u8]) -> (r: Result<WriteOut, ErrorKind>)
        ensures
            s@.len() >= WRITE_OUT_SIZE ==> r == Ok::<WriteOut, ErrorKind>(spec_dec_write_out(s@)),
            s@.len() < WRITE_OUT_SIZE ==> r == Err::<WriteOut, ErrorKind>(ErrorKind::Protocol),
    {
        if s.len() < WRITE_OUT_SIZE {
            return Err(ErrorKind::Protocol);
        }
        Ok(WriteOut {
            size: get_u32(s, 0),
            padding: get_u32(s, 4),
        })
    }
}

/// Round trip of `WriteOut` through its wire bytes: encoding then decoding
/// returns the value, and decoding then encoding returns the bytes.
pub proof fn lemma_write_out_round_trip(v: WriteOut, s: Seq<u8>)
    requires
        s.len() == WRITE_OUT_SIZE,
    ensures
        spec_enc_write_out(v).len() == WRITE_OUT_SIZE,
        spec_dec_write_out(spec_enc_write_out(v)) == v,
        spec_enc_write_out(spec_dec_write_out(s)) == s,
{
    lemma_auto_spec_u32_to_from_le_bytes();
    let e = spec_enc_write_out(v);
    assert(e.subrange(0, 4) =~= spec_u32_to_le_bytes(v.size));
    assert(e.subrange(4, 8) =~= spec_u32_to_le_bytes(v.padding));
    let d = spec_dec_write_out(s);
    assert(spec_enc_write_out(d) =~= s);
}

/// Size in bytes of `ForgetIn` on the wire.
pub const FORGET_IN_SIZE: usize = 8;

/// Count of lookups to drop in the Forget filesystem call.
#[derive(Clone, Copy, Debug, PartialEq, Eq, Structural)]
pub struct ForgetIn {
    pub nlookup: u64,
}

/// The wire bytes of a `ForgetIn` record.
pub open spec fn spec_enc_forget_in(v: ForgetIn) -> Seq<u8> {
    spec_u64_to_le_bytes(v.nlookup)
}

/// The `ForgetIn` record held in the first `FORGET_IN_SIZE` bytes of `s`.
pub open spec fn spec_dec_forget_in(s: Seq<u8>) -> ForgetIn
    recommends
        s.len() >= FORGET_IN_SIZE,
{
    ForgetIn {
        nlookup: spec_u64_from_le_bytes(s.subrange(0, 8)),
    }
}

impl ForgetIn {
    /// Serializes the record into its exact wire bytes.
    pub fn encode(&self) -> (out: Vec<u8>)
        ensures
            out@ == spec_enc_forget_in(*self),
            out@.len() == FORGET_IN_SIZE,
    {
        proof {
            lemma_auto_spec_u64_to_from_le_bytes();
        }
        let mut out: Vec<u8> = Vec::new();
        put_u64(&mut out, self.nlookup);
        assert(out@ =~= spec_enc_forget_in(*self));
        out
    }

    /// Parses the record from the front of `s`; fails when `s` is
    /// shorter than the record.
    pub fn decode(s: &[u8]) -> (r: Result<ForgetIn, ErrorKind>)
        ensures
            s@.len() >= FORGET_IN_SIZE ==> r == Ok::<ForgetIn, ErrorKind>(spec_dec_forget_in(s@)),
            s@.len() < FORGET_IN_SIZE ==> r == Err::<ForgetIn, ErrorKind>(ErrorKind::Protocol),
    {
        if s.len() < FORGET_IN_SIZE {
            return Err(ErrorKind::Protocol);
        }
        Ok(ForgetIn {
            nlookup: get_u64(s, 0),
        })
    }
}

/// Round trip of `ForgetIn` through its wire bytes: encoding then decoding
/// returns the value, and decoding then encoding returns the bytes.
pub proof fn lemma_forget_in_round_trip(v: ForgetIn, s: Seq<u8>)
    requires
        s.len() == FORGET_IN_SIZE,
    ensures
        spec_enc_forget_in(v).len() == FORGET_IN_SIZE,
        spec_dec_forget_in(spec_enc_forget_in(v)) == v,
        spec_enc_forget_in(spec_dec_forget_in(s)) == s,
{
    lemma_auto_spec_u64_to_from_le_bytes();
    let e = spec_enc_forget_in(v);
    assert(e.subrange(0, 8) =~= spec_u64_to_le_bytes(v.nlookup));
    let d = spec_dec_forget_in(s);
    assert(spec_enc_forget_in(d) =~= s);
}


/// Least count of body bytes a Setattr request carries that the core reads:
/// the validity mask and the requested size; the record's remaining fields
/// are accepted and ignored.
pub const SETATTR_IN_MIN_SIZE: usize = 24;

/// The fields of a Setattr request the core honors.
#[derive(Clone, Copy, Debug, PartialEq, Eq, Structural)]
pub struct SetattrIn {
    pub valid: u32,
    pub size: u64,
}

/// The honored `SetattrIn` fields held in the front of `s`: the validity
/// mask at byte 0 and the size at byte 16.
pub open spec fn spec_dec_setattr_in(s: Seq<u8>) -> SetattrIn
    recommends
        s.len() >= SETATTR_IN_MIN_SIZE,
{
    SetattrIn {
        valid: spec_u32_from_le_bytes(s.subrange(0, 4)),
        size: spec_u64_from_le_bytes(s.subrange(16, 24)),
    }
}

impl SetattrIn {
    /// Parses the honored fields from the front of `s`; fails when `s` is
    /// shorter than they reach.
    pub fn decode(s: &[u8]) -> (r: Result<SetattrIn, ErrorKind>)
        ensures
            s@.len() >= SETATTR_IN_MIN_SIZE ==> r == Ok::<SetattrIn, ErrorKind>(
                spec_dec_setattr_in(s@),
            ),
            s@.len() < SETATTR_IN_MIN_SIZE ==> r == Err::<SetattrIn, ErrorKind>(
                ErrorKind::Protocol,
            ),
    {
        if s.len() < SETATTR_IN_MIN_SIZE {
            return Err(ErrorKind::Protocol);
        }
        Ok(SetattrIn { valid: get_u32(s, 0), size: get_u64(s, 16) })
    }
}

} // verus!
