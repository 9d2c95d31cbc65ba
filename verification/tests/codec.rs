//! Wire-codec tests: record sizes, byte-exact layouts, round trips, and the
//! opcode table.

use virtiofs_core::error::ErrorKind;
use virtiofs_core::messages::{
    Attr, AttrOut, CreateIn, EntryOut, ForgetIn, InHeader, InitIn, InitOut, OpenIn, OpenOut,
    OutHeader, ReadIn, SetattrIn, WriteIn, WriteOut, ATTR_SIZE, ATTR_OUT_SIZE, CREATE_IN_SIZE,
    ENTRY_OUT_SIZE, FORGET_IN_SIZE, IN_HEADER_SIZE, INIT_IN_SIZE, INIT_OUT_SIZE, OPEN_IN_SIZE,
    OPEN_OUT_SIZE, OUT_HEADER_SIZE, READ_IN_SIZE, WRITE_IN_SIZE, WRITE_OUT_SIZE,
};
use virtiofs_core::opcode::Opcode;

#[test]
fn record_sizes_match_the_wire_layout() {
    assert_eq!(ATTR_SIZE, 88);
    assert_eq!(IN_HEADER_SIZE, 40);
    assert_eq!(OUT_HEADER_SIZE, 16);
    assert_eq!(INIT_IN_SIZE, 16);
    assert_eq!(INIT_OUT_SIZE, 64);
    assert_eq!(ENTRY_OUT_SIZE, 128);
    assert_eq!(ATTR_OUT_SIZE, 104);
    assert_eq!(CREATE_IN_SIZE, 16);
    assert_eq!(OPEN_IN_SIZE, 8);
    assert_eq!(OPEN_OUT_SIZE, 16);
    assert_eq!(READ_IN_SIZE, 40);
    assert_eq!(WRITE_IN_SIZE, 40);
    assert_eq!(WRITE_OUT_SIZE, 8);
    assert_eq!(FORGET_IN_SIZE, 8);
}

#[test]
fn encoded_records_have_their_wire_size() {
    assert_eq!(sample_attr().encode().len(), ATTR_SIZE);
    assert_eq!(sample_in_header().encode().len(), IN_HEADER_SIZE);
    assert_eq!(sample_out_header().encode().len(), OUT_HEADER_SIZE);
    assert_eq!(sample_init_in().encode().len(), INIT_IN_SIZE);
    assert_eq!(sample_init_out().encode().len(), INIT_OUT_SIZE);
    assert_eq!(sample_entry_out().encode().len(), ENTRY_OUT_SIZE);
    assert_eq!(sample_attr_out().encode().len(), ATTR_OUT_SIZE);
    assert_eq!(sample_create_in().encode().len(), CREATE_IN_SIZE);
    assert_eq!(sample_open_in().encode().len(), OPEN_IN_SIZE);
    assert_eq!(sample_open_out().encode().len(), OPEN_OUT_SIZE);
    assert_eq!(sample_read_in().encode().len(), READ_IN_SIZE);
    assert_eq!(sample_write_in().encode().len(), WRITE_IN_SIZE);
    assert_eq!(sample_write_out().encode().len(), WRITE_OUT_SIZE);
    assert_eq!(ForgetIn { nlookup: 77 }.encode().len(), FORGET_IN_SIZE);
}

fn sample_attr() -> Attr {
    Attr {
        ino: 0x1122334455667788,
        size: 11,
        blocks: 1,
        atime: 1700000000,
        mtime: 1700000000,
        ctime: 1700000000,
        atimensec: 7,
        mtimensec: 8,
        ctimensec: 9,
        mode: 0o100644,
        nlink: 1,
        uid: 0,
        gid: 0,
        rdev: 0,
        blksize: 4096,
        flags: 0,
    }
}

fn sample_in_header() -> InHeader {
    InHeader {
        len: 56,
        opcode: 26,
        unique: 0xdeadbeef12345678,
        nodeid: 1,
        uid: 3,
        gid: 4,
        pid: 5,
        total_extlen: 6,
        padding: 7,
    }
}

fn sample_out_header() -> OutHeader {
    OutHeader { len: 27, error: -22, unique: 42 }
}

fn sample_init_in() -> InitIn {
    InitIn { major: 7, minor: 34, max_readahead: 0x20000, flags: 0x33 }
}

fn sample_init_out() -> InitOut {
    InitOut {
        major: 7,
        minor: 32,
        max_readahead: 0x20000,
        flags: 0,
        max_background: 0,
        congestion_threshold: 0,
        max_write: 1048576,
        time_gran: 1,
        max_pages: 256,
        map_alignment: 0,
        flags2: 0,
        unused: [0; 7],
    }
}

fn sample_entry_out() -> EntryOut {
    EntryOut {
        nodeid: 2,
        generation: 0,
        entry_valid: 1,
        attr_valid: 1,
        entry_valid_nsec: 0,
        attr_valid_nsec: 0,
        attr: sample_attr(),
    }
}

fn sample_attr_out() -> AttrOut {
    AttrOut { attr_valid: 1, attr_valid_nsec: 0, dummy: 0, attr: sample_attr() }
}

fn sample_create_in() -> CreateIn {
    CreateIn { flags: 0x8041, mode: 0o644, umask: 0o22, open_flags: 0 }
}

fn sample_open_in() -> OpenIn {
    OpenIn { flags: 2, open_flags: 0 }
}

fn sample_open_out() -> OpenOut {
    OpenOut { fh: 1, open_flags: 0, padding: 0 }
}

fn sample_read_in() -> ReadIn {
    ReadIn {
        fh: 1,
        offset: 0,
        size: 11,
        read_flags: 0,
        lock_owner: 0,
        flags: 0,
        padding: 0,
    }
}

fn sample_write_in() -> WriteIn {
    WriteIn {
        fh: 2,
        offset: 5,
        size: 2,
        write_flags: 0,
        lock_owner: 0,
        flags: 0,
        padding: 0,
    }
}

fn sample_write_out() -> WriteOut {
    WriteOut { size: 5, padding: 0 }
}

#[test]
fn out_header_layout_is_little_endian() {
    let h = OutHeader { len: 0x01020304, error: -2, unique: 0x1112131415161718 };
    let b = h.encode();
    assert_eq!(
        b,
        vec![
            0x04, 0x03, 0x02, 0x01, // len
            0xfe, 0xff, 0xff, 0xff, // error = -2
            0x18, 0x17, 0x16, 0x15, 0x14, 0x13, 0x12, 0x11, // unique
        ]
    );
}

#[test]
fn in_header_layout_is_little_endian() {
    let h = InHeader {
        len: 40,
        opcode: 1,
        unique: 2,
        nodeid: 3,
        uid: 4,
        gid: 5,
        pid: 6,
        total_extlen: 0x0708,
        padding: 0x090a,
    };
    let b = h.encode();
    let mut expected = vec![
        40, 0, 0, 0, // len
        1, 0, 0, 0, // opcode
        2, 0, 0, 0, 0, 0, 0, 0, // unique
        3, 0, 0, 0, 0, 0, 0, 0, // nodeid
        4, 0, 0, 0, // uid
        5, 0, 0, 0, // gid
        6, 0, 0, 0, // pid
    ];
    expected.extend_from_slice(&[0x08, 0x07, 0x0a, 0x09]);
    assert_eq!(b, expected);
}

#[test]
fn records_round_trip_through_their_bytes() {
    let a = sample_attr();
    assert_eq!(Attr::decode(&a.encode()).unwrap(), a);
    let h = sample_in_header();
    assert_eq!(InHeader::decode(&h.encode()).unwrap(), h);
    let o = sample_out_header();
    assert_eq!(OutHeader::decode(&o.encode()).unwrap(), o);
    let i = sample_init_in();
    assert_eq!(InitIn::decode(&i.encode()).unwrap(), i);
    let e = sample_entry_out();
    assert_eq!(EntryOut::decode(&e.encode()).unwrap(), e);
    let ao = sample_attr_out();
    assert_eq!(AttrOut::decode(&ao.encode()).unwrap(), ao);
    let c = sample_create_in();
    assert_eq!(CreateIn::decode(&c.encode()).unwrap(), c);
    let oi = sample_open_in();
    assert_eq!(OpenIn::decode(&oi.encode()).unwrap(), oi);
    let oo = sample_open_out();
    assert_eq!(OpenOut::decode(&oo.encode()).unwrap(), oo);
    let r = sample_read_in();
    assert_eq!(ReadIn::decode(&r.encode()).unwrap(), r);
    let w = sample_write_in();
    assert_eq!(WriteIn::decode(&w.encode()).unwrap(), w);
    let wo = sample_write_out();
    assert_eq!(WriteOut::decode(&wo.encode()).unwrap(), wo);
    let f = ForgetIn { nlookup: 3 };
    assert_eq!(ForgetIn::decode(&f.encode()).unwrap(), f);
    let io = sample_init_out();
    let io2 = InitOut::decode(&io.encode()).unwrap();
    assert_eq!(io2.major, io.major);
    assert_eq!(io2.minor, io.minor);
    assert_eq!(io2.max_write, io.max_write);
    assert_eq!(io2.unused, io.unused);
}

#[test]
fn bytes_round_trip_through_the_records() {
    // decode then encode returns the exact bytes, for a non-trivial pattern
    let bytes: Vec<u8> = (0u16..40).map(|i| (i * 7 + 3) as u8).collect();
    let h = InHeader::decode(&bytes).unwrap();
    assert_eq!(h.encode(), bytes);
    let bytes88: Vec<u8> = (0u16..88).map(|i| (i * 5 + 1) as u8).collect();
    let a = Attr::decode(&bytes88).unwrap();
    assert_eq!(a.encode(), bytes88);
    let bytes64: Vec<u8> = (0u16..64).map(|i| (i * 3 + 2) as u8).collect();
    let io = InitOut::decode(&bytes64).unwrap();
    assert_eq!(io.encode(), bytes64);
}

#[test]
fn decoding_a_short_buffer_is_refused() {
    assert_eq!(InHeader::decode(&[0u8; 39]).unwrap_err(), ErrorKind::Protocol);
    assert_eq!(Attr::decode(&[0u8; 87]).unwrap_err(), ErrorKind::Protocol);
    assert_eq!(InitIn::decode(&[0u8; 15]).unwrap_err(), ErrorKind::Protocol);
    assert_eq!(OpenIn::decode(&[0u8; 7]).unwrap_err(), ErrorKind::Protocol);
    assert_eq!(ForgetIn::decode(&[0u8; 0]).unwrap_err(), ErrorKind::Protocol);
    assert_eq!(SetattrIn::decode(&[0u8; 23]).unwrap_err(), ErrorKind::Protocol);
}

#[test]
fn setattr_in_reads_valid_and_size() {
    let mut body = vec![0u8; 88];
    body[0] = 0x08; // valid: the size bit
    body[16] = 0x2a; // size = 42
    let s = SetattrIn::decode(&body).unwrap();
    assert_eq!(s.valid, 8);
    assert_eq!(s.size, 42);
}

#[test]
fn opcode_table_matches_the_protocol() {
    let table = [
        (1, Opcode::Lookup),
        (2, Opcode::Forget),
        (3, Opcode::Getattr),
        (4, Opcode::Setattr),
        (10, Opcode::Unlink),
        (14, Opcode::Open),
        (15, Opcode::Read),
        (16, Opcode::Write),
        (18, Opcode::Release),
        (25, Opcode::Flush),
        (26, Opcode::Init),
        (35, Opcode::Create),
        (38, Opcode::Destroy),
    ];
    for (value, op) in table {
        assert_eq!(Opcode::try_from(value).unwrap(), op);
        assert_eq!(op.value(), value);
    }
}

#[test]
fn unknown_opcodes_are_unsupported() {
    for value in [0u32, 5, 11, 17, 27, 36, 39, 1000] {
        assert_eq!(Opcode::try_from(value).unwrap_err(), ErrorKind::Unsupported);
    }
}

#[test]
fn errno_values_follow_the_taxonomy() {
    assert_eq!(ErrorKind::NotFound.errno(), -2);
    assert_eq!(ErrorKind::PermissionDenied.errno(), -13);
    assert_eq!(ErrorKind::AlreadyExists.errno(), -17);
    assert_eq!(ErrorKind::NotADirectory.errno(), -20);
    assert_eq!(ErrorKind::IsADirectory.errno(), -21);
    assert_eq!(ErrorKind::InvalidArgument.errno(), -22);
    assert_eq!(ErrorKind::BadFileDescriptor.errno(), -9);
    assert_eq!(ErrorKind::Unsupported.errno(), -38);
    assert_eq!(ErrorKind::Protocol.errno(), -5);
    assert_eq!(ErrorKind::OutOfMemory.errno(), -12);
    assert_eq!(ErrorKind::NotConnected.errno(), -107);
    assert_eq!(ErrorKind::ProtocolNotSupported.errno(), -71);
}
