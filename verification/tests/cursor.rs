//! Tests of the segment cursor: logical payloads that span segment
//! boundaries, bounds enforcement, and the single monotonic position.

use virtiofs_core::chain::SegCursor;
use virtiofs_core::error::ErrorKind;

#[test]
fn reads_advance_across_segment_boundaries() {
    let mut c = SegCursor::new(vec![b"ab".to_vec(), Vec::new(), b"cde".to_vec(), b"f".to_vec()]);
    assert_eq!(c.remaining(), 6);
    assert_eq!(c.read_exact(3).unwrap(), b"abc".to_vec());
    assert_eq!(c.remaining(), 3);
    assert_eq!(c.read_exact(3).unwrap(), b"def".to_vec());
    assert_eq!(c.remaining(), 0);
}

#[test]
fn reading_past_the_prefix_is_refused_and_moves_nothing() {
    let mut c = SegCursor::new(vec![b"abcd".to_vec()]);
    assert_eq!(c.read_exact(2).unwrap(), b"ab".to_vec());
    assert_eq!(c.read_exact(3).unwrap_err(), ErrorKind::Protocol);
    assert_eq!(c.remaining(), 2);
    assert_eq!(c.read_exact(2).unwrap(), b"cd".to_vec());
    assert_eq!(c.read_exact(1).unwrap_err(), ErrorKind::Protocol);
}

#[test]
fn writes_lay_bytes_down_across_segment_boundaries() {
    let mut c = SegCursor::new(vec![vec![0u8; 2], vec![0u8; 3], vec![0u8; 1]]);
    c.write_all(b"xyz").unwrap();
    c.write_all(b"uvw").unwrap();
    let segs = c.into_segments();
    assert_eq!(segs[0], b"xy".to_vec());
    assert_eq!(segs[1], b"zuv".to_vec());
    assert_eq!(segs[2], b"w".to_vec());
}

#[test]
fn writing_past_the_suffix_is_refused_and_changes_nothing() {
    let mut c = SegCursor::new(vec![vec![0u8; 4]]);
    c.write_all(b"ab").unwrap();
    assert_eq!(c.write_all(b"cde").unwrap_err(), ErrorKind::OutOfMemory);
    assert_eq!(c.remaining(), 2);
    c.write_all(b"cd").unwrap();
    let segs = c.into_segments();
    assert_eq!(segs[0], b"abcd".to_vec());
}

#[test]
fn an_empty_chain_has_no_capacity() {
    let mut c = SegCursor::new(Vec::new());
    assert_eq!(c.remaining(), 0);
    assert_eq!(c.read_exact(1).unwrap_err(), ErrorKind::Protocol);
    assert_eq!(c.write_all(b"x").unwrap_err(), ErrorKind::OutOfMemory);
    assert!(c.read_exact(0).unwrap().is_empty());
    assert!(c.write_all(b"").is_ok());
}
