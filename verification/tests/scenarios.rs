//! End-to-end tests: FUSE requests laid into descriptor chains, served by
//! the dispatcher against the in-memory storage operator, and the reply
//! bytes checked field by field.

use virtiofs_core::chain::SegCursor;
use virtiofs_core::dispatch::{dispatch_chain, ChainOutcome};
use virtiofs_core::error::ErrorKind;
use virtiofs_core::fs::Filesystem;
use virtiofs_core::messages::{
    AttrOut, CreateIn, EntryOut, ForgetIn, InHeader, InitIn, InitOut, OpenIn, OpenOut, OutHeader,
    ReadIn, WriteIn, WriteOut, ENTRY_OUT_SIZE, OUT_HEADER_SIZE,
};
use virtiofs_core::storage::MemStorage;

fn request(opcode: u32, unique: u64, nodeid: u64, body: &[u8]) -> Vec<u8> {
    let hdr = InHeader {
        len: (40 + body.len()) as u32,
        opcode,
        unique,
        nodeid,
        uid: 0,
        gid: 0,
        pid: 0,
        total_extlen: 0,
        padding: 0,
    };
    let mut out = hdr.encode();
    out.extend_from_slice(body);
    out
}

/// Serves one chain and returns the outcome, the reply header, and the reply
/// body bytes.
fn serve(
    fs: &mut Filesystem,
    store: &mut MemStorage,
    req: Vec<u8>,
) -> (ChainOutcome, OutHeader, Vec<u8>) {
    let mut reader = SegCursor::new(vec![req]);
    let mut writer = SegCursor::new(vec![vec![0u8; 1 << 17]]);
    let outcome = dispatch_chain(fs, store, &mut reader, &mut writer).unwrap();
    let written = writer.pos;
    let seg = writer.into_segments().remove(0);
    if written == 0 {
        return (
            outcome,
            OutHeader { len: 0, error: 0, unique: 0 },
            Vec::new(),
        );
    }
    let hdr = OutHeader::decode(&seg[..OUT_HEADER_SIZE]).unwrap();
    assert_eq!(hdr.len as usize, written, "cursor advanced by exactly OutHeader.len");
    let body = seg[OUT_HEADER_SIZE..written].to_vec();
    (outcome, hdr, body)
}

fn init_fs(fs: &mut Filesystem, store: &mut MemStorage) {
    let body = InitIn { major: 7, minor: 34, max_readahead: 0x20000, flags: 0 }.encode();
    let (outcome, hdr, _) = serve(fs, store, request(26, 1, 0, &body));
    assert_eq!(outcome, ChainOutcome::Replied);
    assert_eq!(hdr.error, 0);
}

#[test]
fn init_handshake_negotiates_7_32() {
    let mut fs = Filesystem::new();
    let mut store = MemStorage::new();
    let body = InitIn { major: 7, minor: 34, max_readahead: 0x20000, flags: 0 }.encode();
    let (outcome, hdr, reply) = serve(&mut fs, &mut store, request(26, 1, 0, &body));
    assert_eq!(outcome, ChainOutcome::Replied);
    assert_eq!(hdr.len, 80);
    assert_eq!(hdr.error, 0);
    assert_eq!(hdr.unique, 1);
    let out = InitOut::decode(&reply).unwrap();
    assert_eq!(out.major, 7);
    assert_eq!(out.minor, 32);
    assert_eq!(out.max_readahead, 0x20000);
    assert_eq!(out.flags, 0);
    assert_eq!(out.max_background, 0);
    assert_eq!(out.congestion_threshold, 0);
    assert_eq!(out.max_write, 1048576);
    assert_eq!(out.time_gran, 1);
    assert_eq!(out.max_pages, 256);
    assert_eq!(out.map_alignment, 0);
    assert_eq!(out.flags2, 0);
    assert_eq!(out.unused, [0; 7]);
}

#[test]
fn init_below_the_version_floor_is_rejected() {
    let mut fs = Filesystem::new();
    let mut store = MemStorage::new();
    let body = InitIn { major: 6, minor: 0, max_readahead: 0, flags: 0 }.encode();
    let (_, hdr, _) = serve(&mut fs, &mut store, request(26, 1, 0, &body));
    assert_eq!(hdr.error, -71);
    let body = InitIn { major: 7, minor: 31, max_readahead: 0, flags: 0 }.encode();
    let (_, hdr, _) = serve(&mut fs, &mut store, request(26, 2, 0, &body));
    assert_eq!(hdr.error, -71);
}

#[test]
fn lookup_open_read_create_write_release_walkthrough() {
    let mut fs = Filesystem::new();
    let mut store = MemStorage::new();
    store.put(b"/hello.txt", b"hello world".to_vec(), false, true, 1700000000, 0);
    init_fs(&mut fs, &mut store);

    // lookup of "hello.txt" under the root
    let (_, hdr, reply) = serve(&mut fs, &mut store, request(1, 2, 1, b"hello.txt\0"));
    assert_eq!(hdr.error, 0);
    assert_eq!(hdr.unique, 2);
    let entry = EntryOut::decode(&reply).unwrap();
    assert_eq!(entry.nodeid, 2);
    assert_eq!(entry.generation, 0);
    assert_eq!(entry.entry_valid, 1);
    assert_eq!(entry.attr_valid, 1);
    assert_eq!(entry.attr.ino, 2);
    assert_eq!(entry.attr.size, 11);
    assert_eq!(entry.attr.mode, 0o100644);
    assert_eq!(entry.attr.mtime, 1700000000);

    // open nodeid 2 for reading, then read the 11 bytes
    let open_body = OpenIn { flags: 0, open_flags: 0 }.encode();
    let (_, hdr, reply) = serve(&mut fs, &mut store, request(14, 3, 2, &open_body));
    assert_eq!(hdr.error, 0);
    let open = OpenOut::decode(&reply).unwrap();
    assert_eq!(open.fh, 1);
    assert_eq!(open.open_flags, 0);

    let read_body = ReadIn {
        fh: 1,
        offset: 0,
        size: 11,
        read_flags: 0,
        lock_owner: 0,
        flags: 0,
        padding: 0,
    }
        .encode();
    let (_, hdr, reply) = serve(&mut fs, &mut store, request(15, 4, 2, &read_body));
    assert_eq!(hdr.error, 0);
    assert_eq!(hdr.len, 16 + 11);
    assert_eq!(reply, b"hello world".to_vec());

    // create "new.bin" exclusively: the first call makes nodeid 3 / fh 2,
    // the identical second call is EEXIST with an empty body
    let mut create_body = CreateIn { flags: 0xc1, mode: 0o644, umask: 0, open_flags: 0 }.encode();
    create_body.extend_from_slice(b"new.bin\0");
    let (_, hdr, reply) = serve(&mut fs, &mut store, request(35, 5, 1, &create_body));
    assert_eq!(hdr.error, 0);
    let entry = EntryOut::decode(&reply[..ENTRY_OUT_SIZE]).unwrap();
    let open = OpenOut::decode(&reply[ENTRY_OUT_SIZE..]).unwrap();
    assert_eq!(entry.nodeid, 3);
    assert_eq!(entry.attr.size, 0);
    assert_eq!(open.fh, 2);

    let (_, hdr, reply) = serve(&mut fs, &mut store, request(35, 6, 1, &create_body));
    assert_eq!(hdr.error, -17);
    assert_eq!(hdr.len, 16);
    assert_eq!(reply.len(), 0);

    // write "abcde" at offset 0, then "xy" at the wrong offset 3
    let mut write_body = WriteIn {
        fh: 2,
        offset: 0,
        size: 5,
        write_flags: 0,
        lock_owner: 0,
        flags: 0,
        padding: 0,
    }
        .encode();
    write_body.extend_from_slice(b"abcde");
    let (_, hdr, reply) = serve(&mut fs, &mut store, request(16, 7, 3, &write_body));
    assert_eq!(hdr.error, 0);
    let wo = WriteOut::decode(&reply).unwrap();
    assert_eq!(wo.size, 5);

    let mut bad_write = WriteIn {
        fh: 2,
        offset: 3,
        size: 2,
        write_flags: 0,
        lock_owner: 0,
        flags: 0,
        padding: 0,
    }
        .encode();
    bad_write.extend_from_slice(b"xy");
    let (_, hdr, _) = serve(&mut fs, &mut store, request(16, 8, 3, &bad_write));
    assert_eq!(hdr.error, -22);

    // release fh 2 commits the pending bytes
    let release_body = ReadIn {
        fh: 2,
        offset: 0,
        size: 0,
        read_flags: 0,
        lock_owner: 0,
        flags: 0,
        padding: 0,
    }
        .encode();
    let (_, hdr, _) = serve(&mut fs, &mut store, request(18, 9, 3, &release_body));
    assert_eq!(hdr.error, 0);

    // the committed bytes read back exactly, in order
    let open_body = OpenIn { flags: 0, open_flags: 0 }.encode();
    let (_, hdr, reply) = serve(&mut fs, &mut store, request(14, 10, 3, &open_body));
    assert_eq!(hdr.error, 0);
    let fh = OpenOut::decode(&reply).unwrap().fh;
    let read_body = ReadIn {
        fh,
        offset: 0,
        size: 100,
        read_flags: 0,
        lock_owner: 0,
        flags: 0,
        padding: 0,
    }
        .encode();
    let (_, hdr, reply) = serve(&mut fs, &mut store, request(15, 11, 3, &read_body));
    assert_eq!(hdr.error, 0);
    assert_eq!(reply, b"abcde".to_vec());
}

#[test]
fn two_appended_writes_read_back_as_their_concatenation() {
    let mut fs = Filesystem::new();
    let mut store = MemStorage::new();
    init_fs(&mut fs, &mut store);

    let mut create_body = CreateIn { flags: 0x41, mode: 0o644, umask: 0, open_flags: 0 }.encode();
    create_body.extend_from_slice(b"log\0");
    let (_, hdr, reply) = serve(&mut fs, &mut store, request(35, 2, 1, &create_body));
    assert_eq!(hdr.error, 0);
    let fh = OpenOut::decode(&reply[ENTRY_OUT_SIZE..]).unwrap().fh;
    let node = EntryOut::decode(&reply[..ENTRY_OUT_SIZE]).unwrap().nodeid;

    for (off, data, unique) in [(0u64, &b"abcde"[..], 3u64), (5, &b"fg"[..], 4)] {
        let mut body = WriteIn {
            fh,
            offset: off,
            size: data.len() as u32,
            write_flags: 0,
            lock_owner: 0,
            flags: 0,
            padding: 0,
        }
            .encode();
        body.extend_from_slice(data);
        let (_, hdr, _) = serve(&mut fs, &mut store, request(16, unique, node, &body));
        assert_eq!(hdr.error, 0);
    }
    // flush commits a snapshot without destroying the handle
    let flush_body = ReadIn {
        fh,
        offset: 0,
        size: 0,
        read_flags: 0,
        lock_owner: 0,
        flags: 0,
        padding: 0,
    }
        .encode();
    let (_, hdr, _) = serve(&mut fs, &mut store, request(25, 5, node, &flush_body));
    assert_eq!(hdr.error, 0);

    // a fresh reader sees the concatenation over [0, running_offset)
    let open_body = OpenIn { flags: 0, open_flags: 0 }.encode();
    let (_, _, reply) = serve(&mut fs, &mut store, request(14, 6, node, &open_body));
    let rfh = OpenOut::decode(&reply).unwrap().fh;
    let read_body = ReadIn {
        fh: rfh,
        offset: 0,
        size: 7,
        read_flags: 0,
        lock_owner: 0,
        flags: 0,
        padding: 0,
    }
        .encode();
    let (_, hdr, reply) = serve(&mut fs, &mut store, request(15, 7, node, &read_body));
    assert_eq!(hdr.error, 0);
    assert_eq!(reply, b"abcdefg".to_vec());
}

#[test]
fn forget_produces_no_reply_and_drops_the_mapping() {
    let mut fs = Filesystem::new();
    let mut store = MemStorage::new();
    store.put(b"/hello.txt", b"hello world".to_vec(), false, true, 1700000000, 0);
    init_fs(&mut fs, &mut store);
    let (_, hdr, _) = serve(&mut fs, &mut store, request(1, 2, 1, b"hello.txt\0"));
    assert_eq!(hdr.error, 0);

    let forget_body = ForgetIn { nlookup: 1 }.encode();
    let (outcome, hdr, reply) = serve(&mut fs, &mut store, request(2, 3, 2, &forget_body));
    assert_eq!(outcome, ChainOutcome::NoReply);
    assert_eq!(hdr.len, 0, "not even a header is written");
    assert_eq!(reply.len(), 0);

    // a follow-up Getattr of the forgotten nodeid is ENOENT
    let (_, hdr, _) = serve(&mut fs, &mut store, request(3, 4, 2, &[]));
    assert_eq!(hdr.error, -2);
}

#[test]
fn destroy_shuts_the_session_and_later_requests_are_not_connected() {
    let mut fs = Filesystem::new();
    let mut store = MemStorage::new();
    init_fs(&mut fs, &mut store);
    let (outcome, hdr, reply) = serve(&mut fs, &mut store, request(38, 2, 0, &[]));
    assert_eq!(outcome, ChainOutcome::Shutdown);
    assert_eq!(hdr.error, 0);
    assert_eq!(reply.len(), 0);

    // every later request, Init included, is ENOTCONN; Forget stays silent
    let (outcome, hdr, _) = serve(&mut fs, &mut store, request(3, 3, 1, &[]));
    assert_eq!(outcome, ChainOutcome::Replied);
    assert_eq!(hdr.error, -107);
    assert_eq!(hdr.unique, 3);
    let body = InitIn { major: 7, minor: 34, max_readahead: 0, flags: 0 }.encode();
    let (_, hdr, _) = serve(&mut fs, &mut store, request(26, 4, 0, &body));
    assert_eq!(hdr.error, -107);
    let forget_body = ForgetIn { nlookup: 1 }.encode();
    let (outcome, _, _) = serve(&mut fs, &mut store, request(2, 5, 2, &forget_body));
    assert_eq!(outcome, ChainOutcome::NoReply);
}

#[test]
fn requests_before_init_are_refused_except_init() {
    let mut fs = Filesystem::new();
    let mut store = MemStorage::new();
    let (_, hdr, _) = serve(&mut fs, &mut store, request(3, 1, 1, &[]));
    assert_eq!(hdr.error, -5);
    init_fs(&mut fs, &mut store);
    let (_, hdr, _) = serve(&mut fs, &mut store, request(3, 2, 1, &[]));
    assert_eq!(hdr.error, 0);
}

#[test]
fn an_unknown_opcode_gets_the_generic_error() {
    let mut fs = Filesystem::new();
    let mut store = MemStorage::new();
    init_fs(&mut fs, &mut store);
    let (_, hdr, _) = serve(&mut fs, &mut store, request(99, 7, 0, &[]));
    assert_eq!(hdr.error, -38);
    assert_eq!(hdr.unique, 7);
}

#[test]
fn a_header_announcing_more_than_the_chain_holds_is_eio() {
    let mut fs = Filesystem::new();
    let mut store = MemStorage::new();
    init_fs(&mut fs, &mut store);
    let mut req = request(3, 5, 1, &[]);
    // claim a much longer request than the chain carries
    let bad = InHeader {
        len: 4096,
        opcode: 3,
        unique: 5,
        nodeid: 1,
        uid: 0,
        gid: 0,
        pid: 0,
        total_extlen: 0,
        padding: 0,
    };
    req.splice(..40, bad.encode());
    let (_, hdr, _) = serve(&mut fs, &mut store, req);
    assert_eq!(hdr.error, -5);
}

#[test]
fn a_chain_shorter_than_a_header_is_unusable() {
    let mut fs = Filesystem::new();
    let mut store = MemStorage::new();
    let mut reader = SegCursor::new(vec![vec![0u8; 10]]);
    let mut writer = SegCursor::new(vec![vec![0u8; 64]]);
    let r = dispatch_chain(&mut fs, &mut store, &mut reader, &mut writer);
    assert_eq!(r.unwrap_err(), ErrorKind::Protocol);
}

#[test]
fn a_reply_area_too_small_for_the_body_is_enomem() {
    let mut fs = Filesystem::new();
    let mut store = MemStorage::new();
    let body = InitIn { major: 7, minor: 34, max_readahead: 0, flags: 0 }.encode();
    let req = request(26, 1, 0, &body);
    let mut reader = SegCursor::new(vec![req]);
    // room for the OutHeader alone: the 64-byte InitOut body cannot fit
    let mut writer = SegCursor::new(vec![vec![0u8; 20]]);
    let outcome = dispatch_chain(&mut fs, &mut store, &mut reader, &mut writer).unwrap();
    assert_eq!(outcome, ChainOutcome::Replied);
    let written = writer.pos;
    let seg = writer.into_segments().remove(0);
    let hdr = OutHeader::decode(&seg[..16]).unwrap();
    assert_eq!(written, 16);
    assert_eq!(hdr.len, 16);
    assert_eq!(hdr.error, -12);
    assert_eq!(hdr.unique, 1);

    // and a suffix without room for even a header is unusable
    let mut fs2 = Filesystem::new();
    let req2 = request(26, 1, 0, &body);
    let mut reader2 = SegCursor::new(vec![req2]);
    let mut writer2 = SegCursor::new(vec![vec![0u8; 10]]);
    let r = dispatch_chain(&mut fs2, &mut store, &mut reader2, &mut writer2);
    assert_eq!(r.unwrap_err(), ErrorKind::OutOfMemory);
}

#[test]
fn payloads_span_segment_boundaries_in_both_directions() {
    let mut fs = Filesystem::new();
    let mut store = MemStorage::new();
    store.put(b"/big", (0u8..100).collect(), false, false, 0, 0);
    init_fs(&mut fs, &mut store);
    let (_, hdr, _) = serve(&mut fs, &mut store, request(1, 2, 1, b"big\0"));
    assert_eq!(hdr.error, 0);
    let open_body = OpenIn { flags: 0, open_flags: 0 }.encode();
    let (_, _, reply) = serve(&mut fs, &mut store, request(14, 3, 2, &open_body));
    let fh = OpenOut::decode(&reply).unwrap().fh;

    // the request arrives split into tiny segments, the reply area is split too
    let read_body = ReadIn {
        fh,
        offset: 10,
        size: 50,
        read_flags: 0,
        lock_owner: 0,
        flags: 0,
        padding: 0,
    }
        .encode();
    let req = request(15, 4, 2, &read_body);
    let segs: Vec<Vec<u8>> = req.chunks(7).map(|c| c.to_vec()).collect();
    let mut reader = SegCursor::new(segs);
    let mut writer = SegCursor::new(vec![vec![0u8; 5], vec![0u8; 13], vec![0u8; 100]]);
    let outcome = dispatch_chain(&mut fs, &mut store, &mut reader, &mut writer).unwrap();
    assert_eq!(outcome, ChainOutcome::Replied);
    let written = writer.pos;
    let flat: Vec<u8> = writer.into_segments().into_iter().flatten().collect();
    let hdr = OutHeader::decode(&flat[..16]).unwrap();
    assert_eq!(hdr.error, 0);
    assert_eq!(hdr.unique, 4);
    assert_eq!(hdr.len as usize, written);
    let expected: Vec<u8> = (10u8..60).collect();
    assert_eq!(&flat[16..written], &expected[..]);
}

#[test]
fn malformed_names_are_invalid_arguments() {
    let mut fs = Filesystem::new();
    let mut store = MemStorage::new();
    init_fs(&mut fs, &mut store);
    for name in [&b"a/b\0"[..], b".\0", b"..\0", b"\0"] {
        let (_, hdr, _) = serve(&mut fs, &mut store, request(1, 9, 1, name));
        assert_eq!(hdr.error, -22, "name {:?}", name);
    }
    // a body without a NUL terminator is malformed too
    let (_, hdr, _) = serve(&mut fs, &mut store, request(1, 10, 1, b"plain"));
    assert_eq!(hdr.error, -22);
}

#[test]
fn looking_up_a_missing_entry_is_enoent_and_pollutes_nothing() {
    let mut fs = Filesystem::new();
    let mut store = MemStorage::new();
    init_fs(&mut fs, &mut store);
    let before = fs.itab.len();
    let (_, hdr, _) = serve(&mut fs, &mut store, request(1, 2, 1, b"ghost\0"));
    assert_eq!(hdr.error, -2);
    assert_eq!(fs.itab.len(), before);
}

#[test]
fn opening_a_directory_is_eisdir() {
    let mut fs = Filesystem::new();
    let mut store = MemStorage::new();
    init_fs(&mut fs, &mut store);
    let open_body = OpenIn { flags: 0, open_flags: 0 }.encode();
    let (_, hdr, _) = serve(&mut fs, &mut store, request(14, 2, 1, &open_body));
    assert_eq!(hdr.error, -21);
}

#[test]
fn reading_through_a_writer_handle_is_ebadf() {
    let mut fs = Filesystem::new();
    let mut store = MemStorage::new();
    init_fs(&mut fs, &mut store);
    let mut create_body = CreateIn { flags: 0x41, mode: 0o644, umask: 0, open_flags: 0 }.encode();
    create_body.extend_from_slice(b"w\0");
    let (_, _, reply) = serve(&mut fs, &mut store, request(35, 2, 1, &create_body));
    let fh = OpenOut::decode(&reply[ENTRY_OUT_SIZE..]).unwrap().fh;
    let read_body = ReadIn {
        fh,
        offset: 0,
        size: 4,
        read_flags: 0,
        lock_owner: 0,
        flags: 0,
        padding: 0,
    }
        .encode();
    let (_, hdr, _) = serve(&mut fs, &mut store, request(15, 3, 2, &read_body));
    assert_eq!(hdr.error, -9);
    // and an unknown handle as well
    let read_body = ReadIn {
        fh: 99,
        offset: 0,
        size: 4,
        read_flags: 0,
        lock_owner: 0,
        flags: 0,
        padding: 0,
    }
        .encode();
    let (_, hdr, _) = serve(&mut fs, &mut store, request(15, 4, 2, &read_body));
    assert_eq!(hdr.error, -9);
}

#[test]
fn unlink_removes_the_object_and_misses_are_enoent() {
    let mut fs = Filesystem::new();
    let mut store = MemStorage::new();
    store.put(b"/doomed", b"x".to_vec(), false, false, 0, 0);
    init_fs(&mut fs, &mut store);
    let (_, hdr, _) = serve(&mut fs, &mut store, request(10, 2, 1, b"doomed\0"));
    assert_eq!(hdr.error, 0);
    let (_, hdr, _) = serve(&mut fs, &mut store, request(1, 3, 1, b"doomed\0"));
    assert_eq!(hdr.error, -2);
    let (_, hdr, _) = serve(&mut fs, &mut store, request(10, 4, 1, b"doomed\0"));
    assert_eq!(hdr.error, -2);
}

#[test]
fn setattr_honors_only_truncation_to_zero() {
    let mut fs = Filesystem::new();
    let mut store = MemStorage::new();
    store.put(b"/t", b"some bytes".to_vec(), false, false, 0, 0);
    init_fs(&mut fs, &mut store);
    let (_, hdr, _) = serve(&mut fs, &mut store, request(1, 2, 1, b"t\0"));
    assert_eq!(hdr.error, 0);

    // a Setattr without the size bit changes nothing
    let mut body = vec![0u8; 88];
    body[0] = 0x30;
    let (_, hdr, reply) = serve(&mut fs, &mut store, request(4, 3, 2, &body));
    assert_eq!(hdr.error, 0);
    let out = AttrOut::decode(&reply).unwrap();
    assert_eq!(out.attr.size, 10);

    // the size bit with value zero truncates the object
    let mut body = vec![0u8; 88];
    body[0] = 0x08;
    let (_, hdr, reply) = serve(&mut fs, &mut store, request(4, 4, 2, &body));
    assert_eq!(hdr.error, 0);
    let out = AttrOut::decode(&reply).unwrap();
    assert_eq!(out.attr.size, 0);
    assert_eq!(out.attr.ino, 2);
}

#[test]
fn a_second_init_is_accepted_idempotently() {
    let mut fs = Filesystem::new();
    let mut store = MemStorage::new();
    init_fs(&mut fs, &mut store);
    let body = InitIn { major: 8, minor: 1, max_readahead: 64, flags: 7 }.encode();
    let (_, hdr, reply) = serve(&mut fs, &mut store, request(26, 9, 0, &body));
    assert_eq!(hdr.error, 0);
    let out = InitOut::decode(&reply).unwrap();
    // a higher major is capped at the supported 7.32, flags are cut to the
    // supported mask (none)
    assert_eq!(out.major, 7);
    assert_eq!(out.minor, 32);
    assert_eq!(out.flags, 0);
}

#[test]
fn a_partial_forget_keeps_the_nodeid_resolvable() {
    let mut fs = Filesystem::new();
    let mut store = MemStorage::new();
    store.put(b"/f", b"x".to_vec(), false, false, 0, 0);
    init_fs(&mut fs, &mut store);
    // two lookups raise the count to 2
    for unique in [2u64, 3] {
        let (_, hdr, _) = serve(&mut fs, &mut store, request(1, unique, 1, b"f\0"));
        assert_eq!(hdr.error, 0);
    }
    let forget_body = ForgetIn { nlookup: 1 }.encode();
    let (outcome, _, _) = serve(&mut fs, &mut store, request(2, 4, 2, &forget_body));
    assert_eq!(outcome, ChainOutcome::NoReply);
    // one reference is left: the nodeid still resolves
    let (_, hdr, _) = serve(&mut fs, &mut store, request(3, 5, 2, &[]));
    assert_eq!(hdr.error, 0);
    let (outcome, _, _) = serve(&mut fs, &mut store, request(2, 6, 2, &forget_body));
    assert_eq!(outcome, ChainOutcome::NoReply);
    let (_, hdr, _) = serve(&mut fs, &mut store, request(3, 7, 2, &[]));
    assert_eq!(hdr.error, -2);
}

#[test]
fn directories_look_up_with_their_own_attributes() {
    let mut fs = Filesystem::new();
    let mut store = MemStorage::new();
    store.put(b"/sub/", Vec::new(), true, false, 0, 0);
    init_fs(&mut fs, &mut store);
    let (_, hdr, reply) = serve(&mut fs, &mut store, request(1, 2, 1, b"sub\0"));
    assert_eq!(hdr.error, 0);
    let entry = EntryOut::decode(&reply).unwrap();
    assert_eq!(entry.attr.mode, 0o40755);
    assert_eq!(entry.attr.nlink, 2);
    assert_eq!(entry.attr.size, 0);
    // the directory's nodeid serves Getattr through its trailing-slash key
    let (_, hdr, reply) = serve(&mut fs, &mut store, request(3, 3, entry.nodeid, &[]));
    assert_eq!(hdr.error, 0);
    let out = AttrOut::decode(&reply).unwrap();
    assert_eq!(out.attr.mode, 0o40755);
}

#[test]
fn releasing_an_unknown_handle_through_the_dispatcher_succeeds() {
    let mut fs = Filesystem::new();
    let mut store = MemStorage::new();
    init_fs(&mut fs, &mut store);
    let release_body = ReadIn {
        fh: 42,
        offset: 0,
        size: 0,
        read_flags: 0,
        lock_owner: 0,
        flags: 0,
        padding: 0,
    }
        .encode();
    let (_, hdr, _) = serve(&mut fs, &mut store, request(18, 2, 1, &release_body));
    assert_eq!(hdr.error, 0);
}

#[test]
fn getattr_of_the_root_reports_a_directory() {
    let mut fs = Filesystem::new();
    let mut store = MemStorage::new();
    init_fs(&mut fs, &mut store);
    let (_, hdr, reply) = serve(&mut fs, &mut store, request(3, 2, 1, &[]));
    assert_eq!(hdr.error, 0);
    let out = AttrOut::decode(&reply).unwrap();
    assert_eq!(out.attr.ino, 1);
    assert_eq!(out.attr.mode, 0o40755);
}
