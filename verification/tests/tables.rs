//! Inode-table and handle-table tests: reference counting driven by Lookup
//! and Forget, handle lifecycle, and the append-only write stream.

use virtiofs_core::error::ErrorKind;
use virtiofs_core::handle::{HandleMode, HandleTable};
use virtiofs_core::inode::{InodeTable, ROOT_NODEID};

#[test]
fn a_fresh_table_holds_only_the_root() {
    let t = InodeTable::new();
    assert_eq!(t.len(), 1);
    let root = t.get(ROOT_NODEID).unwrap();
    assert_eq!(root.path, b"/".to_vec());
    assert!(root.is_dir);
}

#[test]
fn matched_lookups_and_forgets_drain_the_table_to_its_initial_size() {
    let mut t = InodeTable::new();
    let initial = t.len();
    // three lookups of one path, two of another
    let a1 = t.insert_or_ref(b"/a.txt".to_vec(), false).unwrap();
    let a2 = t.insert_or_ref(b"/a.txt".to_vec(), false).unwrap();
    let a3 = t.insert_or_ref(b"/a.txt".to_vec(), false).unwrap();
    let b1 = t.insert_or_ref(b"/b/".to_vec(), true).unwrap();
    let b2 = t.insert_or_ref(b"/b/".to_vec(), true).unwrap();
    assert_eq!(a1, a2);
    assert_eq!(a2, a3);
    assert_eq!(b1, b2);
    assert_ne!(a1, b1);
    assert_eq!(t.len(), initial + 2);
    // forgets with the matching counts drain everything
    t.forget(a1, 2);
    assert_eq!(t.len(), initial + 2);
    t.forget(a1, 1);
    assert_eq!(t.len(), initial + 1);
    t.forget(b1, 2);
    assert_eq!(t.len(), initial);
}

#[test]
fn nodeids_resolve_until_their_count_drains() {
    let mut t = InodeTable::new();
    let id = t.insert_or_ref(b"/hello.txt".to_vec(), false).unwrap();
    assert_eq!(id, 2);
    assert_eq!(t.path_of(id).unwrap(), b"/hello.txt".to_vec());
    let id2 = t.insert_or_ref(b"/hello.txt".to_vec(), false).unwrap();
    assert_eq!(id2, id);
    t.forget(id, 1);
    assert_eq!(t.path_of(id).unwrap(), b"/hello.txt".to_vec());
    t.forget(id, 1);
    assert_eq!(t.path_of(id).unwrap_err(), ErrorKind::NotFound);
}

#[test]
fn nodeids_are_never_reused() {
    let mut t = InodeTable::new();
    let a = t.insert_or_ref(b"/a".to_vec(), false).unwrap();
    t.forget(a, 1);
    let b = t.insert_or_ref(b"/a".to_vec(), false).unwrap();
    assert_ne!(a, b);
    assert!(b > a);
}

#[test]
fn forgetting_the_root_or_an_unknown_nodeid_is_a_no_op() {
    let mut t = InodeTable::new();
    t.forget(ROOT_NODEID, 1000);
    assert_eq!(t.len(), 1);
    t.forget(999, 1);
    assert_eq!(t.len(), 1);
    assert!(t.get(ROOT_NODEID).is_ok());
}

#[test]
fn an_over_forget_removes_the_entry() {
    let mut t = InodeTable::new();
    let id = t.insert_or_ref(b"/x".to_vec(), false).unwrap();
    t.forget(id, 1000);
    assert_eq!(t.get(id).unwrap_err(), ErrorKind::NotFound);
}

#[test]
fn removing_a_path_unmaps_the_inode_but_spares_the_root() {
    let mut t = InodeTable::new();
    let id = t.insert_or_ref(b"/gone".to_vec(), false).unwrap();
    assert!(t.remove_path(b"/gone"));
    assert_eq!(t.get(id).unwrap_err(), ErrorKind::NotFound);
    assert!(!t.remove_path(b"/gone"));
    assert!(!t.remove_path(b"/"));
    assert!(t.get(ROOT_NODEID).is_ok());
}

#[test]
fn find_by_path_returns_the_live_nodeid() {
    let mut t = InodeTable::new();
    let id = t.insert_or_ref(b"/f".to_vec(), false).unwrap();
    assert_eq!(t.find_by_path(b"/f"), Some(id));
    assert_eq!(t.find_by_path(b"/missing"), None);
}

#[test]
fn handles_are_numbered_from_one_and_never_reused() {
    let mut h = HandleTable::new();
    let a = h.open_read(2, b"/a".to_vec(), 0).unwrap();
    let b = h.open_read(2, b"/a".to_vec(), 0).unwrap();
    assert_eq!(a, 1);
    assert_eq!(b, 2);
    assert!(h.release(a).is_some());
    let c = h.open_read(2, b"/a".to_vec(), 0).unwrap();
    assert_eq!(c, 3);
}

#[test]
fn the_write_stream_of_a_path_is_exclusive_but_readers_share() {
    let mut h = HandleTable::new();
    let w = h.open_write(2, b"/f".to_vec(), 1).unwrap();
    assert_eq!(
        h.open_write(3, b"/f".to_vec(), 1).unwrap_err(),
        ErrorKind::PermissionDenied
    );
    let r1 = h.open_read(2, b"/f".to_vec(), 0).unwrap();
    let r2 = h.open_read(2, b"/f".to_vec(), 0).unwrap();
    assert_ne!(r1, r2);
    h.release(w);
    assert!(h.open_write(2, b"/f".to_vec(), 1).is_ok());
}

#[test]
fn writes_append_at_the_running_offset_only() {
    let mut h = HandleTable::new();
    let fh = h.open_write(2, b"/f".to_vec(), 1).unwrap();
    assert_eq!(h.write_at(fh, 0, b"abcde").unwrap(), 5);
    assert_eq!(h.write_at(fh, 3, b"xy").unwrap_err(), ErrorKind::InvalidArgument);
    assert_eq!(h.write_at(fh, 5, b"fg").unwrap(), 2);
    let handle = h.get(fh).unwrap();
    assert_eq!(handle.pending, b"abcdefg".to_vec());
    assert_eq!(handle.offset, 7);
    assert_eq!(handle.mode, HandleMode::Write);
}

#[test]
fn writing_through_a_reader_or_unknown_handle_is_refused() {
    let mut h = HandleTable::new();
    let r = h.open_read(2, b"/f".to_vec(), 0).unwrap();
    assert_eq!(h.write_at(r, 0, b"zz").unwrap_err(), ErrorKind::BadFileDescriptor);
    assert_eq!(h.write_at(99, 0, b"zz").unwrap_err(), ErrorKind::BadFileDescriptor);
}

#[test]
fn releasing_an_unknown_handle_is_idempotent() {
    let mut h = HandleTable::new();
    assert!(h.release(123).is_none());
    let fh = h.open_read(2, b"/f".to_vec(), 0).unwrap();
    assert!(h.release(fh).is_some());
    assert!(h.release(fh).is_none());
}

#[test]
fn invalidate_all_destroys_every_handle() {
    let mut h = HandleTable::new();
    h.open_read(2, b"/a".to_vec(), 0).unwrap();
    h.open_write(3, b"/b".to_vec(), 1).unwrap();
    assert_eq!(h.len(), 2);
    h.invalidate_all();
    assert_eq!(h.len(), 0);
    assert_eq!(h.get(1).unwrap_err(), ErrorKind::BadFileDescriptor);
}

#[test]
fn pending_snapshot_names_writers_only() {
    let mut h = HandleTable::new();
    let w = h.open_write(2, b"/f".to_vec(), 1).unwrap();
    h.write_at(w, 0, b"data").unwrap();
    let (path, pending) = h.pending_snapshot(w).unwrap();
    assert_eq!(path, b"/f".to_vec());
    assert_eq!(pending, b"data".to_vec());
    let r = h.open_read(2, b"/f".to_vec(), 0).unwrap();
    assert_eq!(h.pending_snapshot(r).unwrap_err(), ErrorKind::BadFileDescriptor);
}
