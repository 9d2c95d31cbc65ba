//! Tests of the attribute synthesizer, the in-memory storage operator, and
//! the configuration builders.

use virtiofs_core::attr::synthesize_attr;
use virtiofs_core::config::{IpmfsBuilder, SurrealdbBuilder, SurrealdbConfigError};
use virtiofs_core::error::ErrorKind;
use virtiofs_core::storage::{MemStorage, Metadata, Storage};

fn file_meta(length: u64, sec: u64) -> Metadata {
    Metadata {
        length,
        is_dir: false,
        has_modified: true,
        modified_sec: sec,
        modified_nsec: 0,
    }
}

#[test]
fn file_attributes_report_size_mode_and_times() {
    let a = synthesize_attr(2, file_meta(11, 1700000000));
    assert_eq!(a.ino, 2);
    assert_eq!(a.size, 11);
    assert_eq!(a.blocks, 1);
    assert_eq!(a.mode, 0o100644);
    assert_eq!(a.nlink, 1);
    assert_eq!(a.mtime, 1700000000);
    assert_eq!(a.atime, 1700000000);
    assert_eq!(a.ctime, 1700000000);
    assert_eq!(a.uid, 0);
    assert_eq!(a.gid, 0);
    assert_eq!(a.rdev, 0);
    assert_eq!(a.blksize, 4096);
    assert_eq!(a.flags, 0);
}

#[test]
fn directory_attributes_report_zero_size_and_dir_mode() {
    let m = Metadata {
        length: 999,
        is_dir: true,
        has_modified: false,
        modified_sec: 0,
        modified_nsec: 0,
    };
    let a = synthesize_attr(1, m);
    assert_eq!(a.size, 0);
    assert_eq!(a.blocks, 0);
    assert_eq!(a.mode, 0o40755);
    assert_eq!(a.nlink, 2);
    assert_eq!(a.mtime, 0);
}

#[test]
fn blocks_count_512_byte_units_rounded_up() {
    assert_eq!(synthesize_attr(2, file_meta(0, 0)).blocks, 0);
    assert_eq!(synthesize_attr(2, file_meta(1, 0)).blocks, 1);
    assert_eq!(synthesize_attr(2, file_meta(512, 0)).blocks, 1);
    assert_eq!(synthesize_attr(2, file_meta(513, 0)).blocks, 2);
    assert_eq!(synthesize_attr(2, file_meta(1024, 0)).blocks, 2);
}

#[test]
fn the_memory_store_serves_the_seven_operations() {
    let mut s = MemStorage::new();
    // the root directory is there from the start
    let root = s.stat(b"/").unwrap();
    assert!(root.is_dir);
    // write and stat
    s.write(b"/f", b"hello world").unwrap();
    let m = s.stat(b"/f").unwrap();
    assert_eq!(m.length, 11);
    assert!(!m.is_dir);
    // range reads, clamped at the end
    assert_eq!(s.read(b"/f", 0, 11).unwrap(), b"hello world".to_vec());
    assert_eq!(s.read(b"/f", 6, 100).unwrap(), b"world".to_vec());
    assert_eq!(s.read(b"/f", 11, 4).unwrap(), b"".to_vec());
    assert_eq!(s.read(b"/f", 100, 4).unwrap(), b"".to_vec());
    assert_eq!(s.read(b"/missing", 0, 1).unwrap_err(), ErrorKind::NotFound);
    // create_dir, and stat through the directory key
    s.create_dir(b"/d/").unwrap();
    assert!(s.stat(b"/d").unwrap().is_dir);
    assert!(s.stat(b"/d/").unwrap().is_dir);
    // list returns every entry under the prefix, each exactly once
    let entries = s.list(b"/").unwrap();
    assert_eq!(entries.len(), 2);
    assert!(entries.iter().any(|(name, m)| name == b"f" && m.length == 11));
    assert!(entries.iter().any(|(name, m)| name == b"d/" && m.is_dir));
    // rename moves the object
    s.rename(b"/f", b"/g").unwrap();
    assert_eq!(s.stat(b"/f").unwrap_err(), ErrorKind::NotFound);
    assert_eq!(s.read(b"/g", 0, 11).unwrap(), b"hello world".to_vec());
    assert_eq!(s.rename(b"/f", b"/h").unwrap_err(), ErrorKind::NotFound);
    // delete removes the key
    s.delete(b"/g").unwrap();
    assert_eq!(s.stat(b"/g").unwrap_err(), ErrorKind::NotFound);
    assert_eq!(s.delete(b"/g").unwrap_err(), ErrorKind::NotFound);
}

#[test]
fn a_seeded_object_reports_its_modified_time() {
    let mut s = MemStorage::new();
    s.put(b"/hello.txt", b"hello world".to_vec(), false, true, 1700000000, 0);
    let m = s.stat(b"/hello.txt").unwrap();
    assert_eq!(m.length, 11);
    assert!(m.has_modified);
    assert_eq!(m.modified_sec, 1700000000);
}

#[test]
fn ipmfs_builder_collects_and_resolves_its_settings() {
    let mut b = IpmfsBuilder::default();
    b.root("data");
    b.endpoint("http://127.0.0.1:5001");
    let (root, endpoint) = b.build();
    assert_eq!(root, "/data/");
    assert_eq!(endpoint, "http://127.0.0.1:5001");

    let mut b2 = IpmfsBuilder::default();
    b2.root("keep");
    b2.root("");
    let (root2, endpoint2) = b2.build();
    assert_eq!(root2, "/");
    assert_eq!(endpoint2, "http://localhost:5001");
}

#[test]
fn surrealdb_build_names_the_first_missing_setting() {
    let b = SurrealdbBuilder::default();
    assert_eq!(b.build().err().unwrap(), SurrealdbConfigError::MissingConnectionString);

    let mut b = SurrealdbBuilder::default();
    b.connection_string("ws://127.0.0.1:8000");
    assert_eq!(b.build().err().unwrap(), SurrealdbConfigError::MissingNamespace);
    b.namespace("ns");
    assert_eq!(b.build().err().unwrap(), SurrealdbConfigError::MissingDatabase);
    b.database("db");
    assert_eq!(b.build().err().unwrap(), SurrealdbConfigError::MissingTable);
    b.table("t");
    assert!(b.build().is_ok());
}

#[test]
fn surrealdb_build_defaults_the_optional_settings() {
    let mut b = SurrealdbBuilder::default();
    b.connection_string("ws://127.0.0.1:8000");
    b.namespace("ns");
    b.database("db");
    b.table("t");
    let a = b.build().unwrap();
    assert_eq!(a.connection_string, "ws://127.0.0.1:8000");
    assert_eq!(a.username, "");
    assert_eq!(a.password, "");
    assert_eq!(a.key_field, "key");
    assert_eq!(a.value_field, "value");
    assert_eq!(a.root, "/");

    b.username("u");
    b.password("pw");
    b.key_field("k");
    b.value_field("v");
    b.root("work/dir");
    let a2 = b.build().unwrap();
    assert_eq!(a2.username, "u");
    assert_eq!(a2.key_field, "k");
    assert_eq!(a2.value_field, "v");
    assert_eq!(a2.root, "/work/dir/");
}

#[test]
fn empty_strings_never_overwrite_surrealdb_settings() {
    let mut b = SurrealdbBuilder::default();
    b.table("t");
    b.table("");
    b.connection_string("ws://x");
    b.namespace("ns");
    b.database("db");
    let a = b.build().unwrap();
    assert_eq!(a.table, "t");
}
