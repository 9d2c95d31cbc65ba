//! Error taxonomy of the server core, and its mapping to the POSIX errno
//! values that a FUSE reply header carries (as negative numbers).

use vstd::prelude::*;

verus! {

/// The kinds of failure a handler can report. The dispatcher translates each
/// kind into the errno of the reply's `OutHeader.error` field.
#[derive(Clone, Copy, Debug, PartialEq, Eq, Structural)]
pub enum ErrorKind {
    /// The path does not exist in the backend, or the nodeid/handle maps to
    /// nothing (ENOENT).
    NotFound,
    /// The backend refused access (EACCES).
    PermissionDenied,
    /// Exclusive creation hit an existing object (EEXIST).
    AlreadyExists,
    /// A directory operation was applied to a file (ENOTDIR).
    NotADirectory,
    /// A file operation was applied to a directory (EISDIR).
    IsADirectory,
    /// A malformed name or an out-of-order write (EINVAL).
    InvalidArgument,
    /// The file handle is unknown or has the wrong mode (EBADF).
    BadFileDescriptor,
    /// The opcode is not one the core recognizes (ENOSYS).
    Unsupported,
    /// A truncated or corrupted message, or an unclassified backend failure
    /// (EIO).
    Protocol,
    /// An Init below the supported protocol version floor (EPROTO).
    ProtocolNotSupported,
    /// The chain's writable suffix cannot hold the reply (ENOMEM).
    OutOfMemory,
    /// A request arrived after Destroy (ENOTCONN).
    NotConnected,
}

/// The errno that `kind` maps to, already negated as FUSE replies carry it.
pub open spec fn spec_errno(kind: ErrorKind) -> i32 {
    match kind {
        ErrorKind::NotFound => -2i32,
        ErrorKind::PermissionDenied => -13i32,
        ErrorKind::AlreadyExists => -17i32,
        ErrorKind::NotADirectory => -20i32,
        ErrorKind::IsADirectory => -21i32,
        ErrorKind::InvalidArgument => -22i32,
        ErrorKind::BadFileDescriptor => -9i32,
        ErrorKind::Unsupported => -38i32,
        ErrorKind::Protocol => -5i32,
        ErrorKind::ProtocolNotSupported => -71i32,
        ErrorKind::OutOfMemory => -12i32,
        ErrorKind::NotConnected => -107i32,
    }
}

impl ErrorKind {
    /// The negative errno for this kind, written into `OutHeader.error`.
    pub fn errno(self) -> (r: i32)
        ensures
            r == spec_errno(self),
            r < 0,
    {
        match self {
            ErrorKind::NotFound => -2,
            ErrorKind::PermissionDenied => -13,
            ErrorKind::AlreadyExists => -17,
            ErrorKind::NotADirectory => -20,
            ErrorKind::IsADirectory => -21,
            ErrorKind::InvalidArgument => -22,
            ErrorKind::BadFileDescriptor => -9,
            ErrorKind::Unsupported => -38,
            ErrorKind::Protocol => -5,
            ErrorKind::ProtocolNotSupported => -71,
            ErrorKind::OutOfMemory => -12,
            ErrorKind::NotConnected => -107,
        }
    }
}

} // verus!
