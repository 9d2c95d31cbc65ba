//! Core of a virtio-fs device server: it decodes FUSE-over-virtiofs requests
//! arriving on descriptor chains, drives a filesystem state machine backed by
//! an object-storage operator, and encodes the replies back into the chains'
//! writable segments.

pub mod attr;
pub mod bytesutil;
pub mod chain;
pub mod config;
pub mod dispatch;
pub mod error;
pub mod fs;
pub mod handle;
pub mod inode;
pub mod messages;
pub mod opcode;
pub mod storage;
