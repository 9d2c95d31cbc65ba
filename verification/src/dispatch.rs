//! The request dispatcher: serves one descriptor chain end to end. It parses
//! the request header from the read prefix, dispatches on the opcode, and
//! writes `OutHeader` + body into the writable suffix. Every reply echoes
//! the request's `unique` and carries `len` = header size + body size;
//! Forget is the sole opcode answered by silence.

use vstd::prelude::*;
use vstd::slice::slice_subrange;

use crate::chain::SegCursor;
use crate::error::{spec_errno, ErrorKind};
use crate::fs::{
    spec_init_reply, Filesystem, SUPPORTED_MAJOR, SUPPORTED_MINOR,
};
use crate::messages::{
    lemma_out_header_round_trip, spec_dec_in_header, spec_dec_init_in, spec_dec_out_header,
    spec_enc_init_out, CreateIn, ForgetIn, InHeader, InitIn, OpenIn, OutHeader, ReadIn,
    SetattrIn, WriteIn, FORGET_IN_SIZE, IN_HEADER_SIZE, INIT_IN_SIZE, INIT_OUT_SIZE,
    OUT_HEADER_SIZE,
};
use crate::opcode::{spec_opcode_of, Opcode};
use crate::storage::Storage;

verus! {

/// How serving one descriptor chain ended.
#[derive(Clone, Copy, Debug, PartialEq, Eq, Structural)]
pub enum ChainOutcome {
    /// A reply was written into the writable suffix.
    Replied,
    /// The chain was consumed without a reply: it carried a Forget.
    NoReply,
    /// The reply to a Destroy was written; the serving loop must stop.
    Shutdown,
}

/// Whether the chain's read prefix of `avail` bytes can hold the whole
/// request that header `req` announces.
pub open spec fn spec_body_ok(req: InHeader, avail: int) -> bool {
    IN_HEADER_SIZE <= req.len <= avail
}

/// Writes one reply: `OutHeader` then `body`. When the writable suffix
/// cannot hold the body, only an `OutHeader` with the out-of-memory errno
/// goes out; when it cannot hold even a header, nothing is written and the
/// chain is reported unusable. Every header written carries the request's
/// `unique` and a `len` of exactly header size + body size.
pub fn write_reply(writer: &mut SegCursor, unique: u64, error: i32, body: &[u8]) -> (r: Result<
    (),
    ErrorKind,
>)
    requires
        old(writer).wf(),
        body@.len() + OUT_HEADER_SIZE <= u32::MAX,
    ensures
        final(writer).wf(),
        final(writer).total == old(writer).total,
        final(writer).flat().len() == old(writer).flat().len(),
        r is Err ==> r == Err::<(), ErrorKind>(ErrorKind::OutOfMemory) && old(writer).total - old(
            writer,
        ).pos < OUT_HEADER_SIZE && final(writer).flat() == old(writer).flat() && final(writer).pos
            == old(writer).pos,
        r is Ok ==> ({
            let p = old(writer).pos as int;
            let h = spec_dec_out_header(final(writer).flat().subrange(p, p + OUT_HEADER_SIZE));
            &&& old(writer).total - old(writer).pos >= OUT_HEADER_SIZE
            &&& h.unique == unique
            &&& final(writer).pos == old(writer).pos + h.len
            &&& final(writer).flat().subrange(0, p) == old(writer).flat().subrange(0, p)
            &&& final(writer).flat().subrange(
                final(writer).pos as int,
                final(writer).flat().len() as int,
            ) == old(writer).flat().subrange(
                final(writer).pos as int,
                old(writer).flat().len() as int,
            )
            &&& old(writer).total - old(writer).pos >= OUT_HEADER_SIZE + body@.len() ==> {
                &&& h.len == OUT_HEADER_SIZE + body@.len()
                &&& h.error == error
                &&& final(writer).flat().subrange(p + OUT_HEADER_SIZE, p + h.len)
                    == body@
            }
            &&& old(writer).total - old(writer).pos < OUT_HEADER_SIZE + body@.len() ==> {
                &&& h.len == OUT_HEADER_SIZE
                &&& h.error == spec_errno(ErrorKind::OutOfMemory)
            }
        }),
{
    let rem = writer.remaining();
    if rem < OUT_HEADER_SIZE {
        return Err(ErrorKind::OutOfMemory);
    }
    let ghost p = writer.pos as int;
    let ghost flat0 = writer.flat();
    if rem < OUT_HEADER_SIZE + body.len() || body.len() > usize::MAX - OUT_HEADER_SIZE {
        let hdr = OutHeader {
            len: OUT_HEADER_SIZE as u32,
            error: ErrorKind::OutOfMemory.errno(),
            unique,
        };
        let hb = hdr.encode();
        let res = writer.write_all(hb.as_slice());
        proof {
            lemma_out_header_round_trip(hdr, hb@);
            assert(final(writer).flat().subrange(p, p + OUT_HEADER_SIZE) =~= hb@);
            assert(final(writer).flat().subrange(0, p) =~= flat0.subrange(0, p));
            assert(final(writer).flat().subrange(
                p + OUT_HEADER_SIZE,
                final(writer).flat().len() as int,
            ) =~= flat0.subrange(p + OUT_HEADER_SIZE, flat0.len() as int));
        }
        match res {
            Ok(_) => Ok(()),
            Err(_) => {
                proof {
                    assert(false);
                }
                Err(ErrorKind::OutOfMemory)
            },
        }
    } else {
        let total_len: u32 = (OUT_HEADER_SIZE + body.len()) as u32;
        let hdr = OutHeader { len: total_len, error, unique };
        let hb = hdr.encode();
        let res1 = writer.write_all(hb.as_slice());
        match res1 {
            Ok(_) => {},
            Err(_) => {
                proof {
                    assert(false);
                }
                return Err(ErrorKind::OutOfMemory);
            },
        }
        let res2 = writer.write_all(body);
        match res2 {
            Ok(_) => {},
            Err(_) => {
                proof {
                    assert(false);
                }
                return Err(ErrorKind::OutOfMemory);
            },
        }
        proof {
            lemma_out_header_round_trip(hdr, hb@);
            assert(final(writer).flat().subrange(p, p + OUT_HEADER_SIZE) =~= hb@);
            assert(final(writer).flat().subrange(p + OUT_HEADER_SIZE, p + OUT_HEADER_SIZE
                + body@.len()) =~= body@);
            assert(final(writer).flat().subrange(0, p) =~= flat0.subrange(0, p));
            assert(final(writer).flat().subrange(
                final(writer).pos as int,
                final(writer).flat().len() as int,
            ) =~= flat0.subrange(final(writer).pos as int, flat0.len() as int));
        }
        Ok(())
    }
}

/// Serves one descriptor chain: parses the `InHeader`, reads the body,
/// dispatches on the opcode, and writes the reply. The outcome says whether
/// a reply was written and whether the serving loop must stop (Destroy).
/// `Err` means the chain itself was unusable (a read prefix shorter than a
/// header, or a writable suffix shorter than a reply header): nothing was
/// replied and the transport should retire the queue.
///
/// Every reply's `OutHeader` echoes the request's `unique`, and its `len`
/// counts the header and the body exactly; the cursor advances by `len`.
/// After Destroy every request is answered with the not-connected errno, and
/// before the first Init everything but Init is answered with the I/O errno.
/// An opcode outside the recognized table is answered with the
/// not-implemented errno. Forget alone produces no reply at all.
#[verifier::rlimit(100)]
#[verifier::spinoff_prover]
pub fn dispatch_chain<S: Storage>(
    fs: &mut Filesystem,
    store: &mut S,
    reader: &mut SegCursor,
    writer: &mut SegCursor,
) -> (r: Result<ChainOutcome, ErrorKind>)
    requires
        old(fs).wf(),
        old(store).inv(),
        old(reader).wf(),
        old(writer).wf(),
    ensures
        final(fs).wf(),
        final(store).inv(),
        final(reader).wf(),
        final(writer).wf(),
        final(writer).total == old(writer).total,
        final(writer).flat().len() == old(writer).flat().len(),
        r is Err ==> final(writer).flat() == old(writer).flat(),
        r is Ok ==> old(reader).pos + IN_HEADER_SIZE <= old(reader).total,
        old(reader).pos + IN_HEADER_SIZE <= old(reader).total && old(writer).total - old(
            writer,
        ).pos >= OUT_HEADER_SIZE ==> r is Ok,
        r matches Ok(o) ==> ({
            let req = spec_dec_in_header(
                old(reader).flat().subrange(
                    old(reader).pos as int,
                    old(reader).pos + IN_HEADER_SIZE,
                ),
            );
            let avail = old(reader).total - old(reader).pos;
            &&& (o == ChainOutcome::NoReply <==> req.opcode == 2)
            &&& o == ChainOutcome::NoReply ==> final(writer).flat() == old(writer).flat()
                && final(writer).pos == old(writer).pos
            &&& (o == ChainOutcome::Shutdown <==> req.opcode == 38 && !old(fs).destroyed
                && old(fs).initialized && spec_body_ok(req, avail))
            &&& o == ChainOutcome::Shutdown ==> final(fs).destroyed
            &&& o == ChainOutcome::Shutdown ==> ({
                let p = old(writer).pos as int;
                let h = spec_dec_out_header(
                    final(writer).flat().subrange(p, p + OUT_HEADER_SIZE),
                );
                h.error == 0 && h.len == OUT_HEADER_SIZE
            })
            &&& o != ChainOutcome::NoReply ==> ({
                let p = old(writer).pos as int;
                let h = spec_dec_out_header(
                    final(writer).flat().subrange(p, p + OUT_HEADER_SIZE),
                );
                &&& h.unique == req.unique
                &&& h.len >= OUT_HEADER_SIZE
                &&& final(writer).pos == old(writer).pos + h.len
                &&& final(writer).flat().subrange(0, p) == old(writer).flat().subrange(0, p)
                &&& old(fs).destroyed ==> h.error == spec_errno(ErrorKind::NotConnected)
                    && h.len == OUT_HEADER_SIZE && *final(fs) == *old(fs)
                &&& !old(fs).destroyed && !spec_body_ok(req, avail) ==> h.error == spec_errno(
                    ErrorKind::Protocol,
                ) && h.len == OUT_HEADER_SIZE
                &&& !old(fs).destroyed && spec_body_ok(req, avail) && spec_opcode_of(req.opcode)
                    is None ==> h.error == spec_errno(ErrorKind::Unsupported) && h.len
                    == OUT_HEADER_SIZE
                &&& !old(fs).destroyed && spec_body_ok(req, avail) && !old(fs).initialized
                    && (spec_opcode_of(req.opcode) matches Some(op) && op != Opcode::Init)
                    ==> h.error == spec_errno(ErrorKind::Protocol) && h.len == OUT_HEADER_SIZE
                &&& !old(fs).destroyed && spec_body_ok(req, avail) && req.opcode == 26 && req.len
                    >= IN_HEADER_SIZE + INIT_IN_SIZE ==> ({
                    let arg = spec_dec_init_in(
                        old(reader).flat().subrange(
                            old(reader).pos + IN_HEADER_SIZE,
                            old(reader).pos + IN_HEADER_SIZE + INIT_IN_SIZE,
                        ),
                    );
                    let version_ok = !(arg.major < SUPPORTED_MAJOR || (arg.major
                        == SUPPORTED_MAJOR && arg.minor < SUPPORTED_MINOR));
                    &&& !version_ok ==> h.error == spec_errno(ErrorKind::ProtocolNotSupported)
                    &&& version_ok && old(writer).total - old(writer).pos >= OUT_HEADER_SIZE
                        + INIT_OUT_SIZE ==> h.error == 0 && h.len == OUT_HEADER_SIZE
                        + INIT_OUT_SIZE && final(writer).flat().subrange(
                        p + OUT_HEADER_SIZE,
                        p + OUT_HEADER_SIZE + INIT_OUT_SIZE,
                    ) == spec_enc_init_out(spec_init_reply(arg))
                })
            })
        }),
{
    let hdr_bytes = match reader.read_exact(IN_HEADER_SIZE) {
        Ok(b) => b,
        Err(e) => { return Err(e) },
    };
    let hdr = match InHeader::decode(hdr_bytes.as_slice()) {
        Ok(h) => h,
        Err(e) => {
            proof {
                assert(false);
            }
            return Err(e);
        },
    };
    let ghost avail = old(reader).total - old(reader).pos;
    // Forget is fire-and-forget: no reply leaves the server, whatever the
    // body holds.
    if hdr.opcode == 2 {
        match reader.read_exact(FORGET_IN_SIZE) {
            Ok(b) => {
                match ForgetIn::decode(b.as_slice()) {
                    Ok(arg) => {
                        if !fs.destroyed {
                            fs.do_forget(hdr.nodeid, arg.nlookup);
                        }
                    },
                    Err(_) => {},
                }
            },
            Err(_) => {},
        }
        return Ok(ChainOutcome::NoReply);
    }
    if fs.destroyed {
        let empty: Vec<u8> = Vec::new();
        return match write_reply(writer, hdr.unique, ErrorKind::NotConnected.errno(),
            empty.as_slice()) {
            Ok(_) => Ok(ChainOutcome::Replied),
            Err(e) => Err(e),
        };
    }
    // The chain must hold as many request bytes as the header announces.
    let body_ok = (hdr.len as usize) >= IN_HEADER_SIZE && (hdr.len as usize) - IN_HEADER_SIZE
        <= reader.remaining();
    if !body_ok {
        let empty: Vec<u8> = Vec::new();
        return match write_reply(writer, hdr.unique, ErrorKind::Protocol.errno(),
            empty.as_slice()) {
            Ok(_) => Ok(ChainOutcome::Replied),
            Err(e) => Err(e),
        };
    }
    let body = match reader.read_exact((hdr.len as usize) - IN_HEADER_SIZE) {
        Ok(b) => b,
        Err(e) => {
            proof {
                assert(false);
            }
            return Err(e);
        },
    };
    let opcode = match Opcode::try_from(hdr.opcode) {
        Ok(op) => op,
        Err(e) => {
            let empty: Vec<u8> = Vec::new();
            return match write_reply(writer, hdr.unique, e.errno(), empty.as_slice()) {
                Ok(_) => Ok(ChainOutcome::Replied),
                Err(e2) => Err(e2),
            };
        },
    };
    if !fs.initialized && !matches!(opcode, Opcode::Init) {
        let empty: Vec<u8> = Vec::new();
        return match write_reply(writer, hdr.unique, ErrorKind::Protocol.errno(),
            empty.as_slice()) {
            Ok(_) => Ok(ChainOutcome::Replied),
            Err(e) => Err(e),
        };
    }
    if matches!(opcode, Opcode::Destroy) {
        proof {
            assert(hdr.opcode == 38);
        }
        fs.do_destroy();
        let empty: Vec<u8> = Vec::new();
        return match write_reply(writer, hdr.unique, 0i32, empty.as_slice()) {
            Ok(_) => Ok(ChainOutcome::Shutdown),
            Err(e) => Err(e),
        };
    }
    proof {
        assert(hdr.opcode != 38);
    }
    let (errno, reply): (i32, Vec<u8>) = match opcode {
        Opcode::Init => {
            match InitIn::decode(body.as_slice()) {
                Ok(arg) => {
                    proof {
                        let full = old(reader).flat();
                        let rpos = old(reader).pos as int;
                        let sub16 = full.subrange(
                            rpos + IN_HEADER_SIZE,
                            rpos + IN_HEADER_SIZE + INIT_IN_SIZE,
                        );
                        assert(body@.subrange(0, 4) =~= sub16.subrange(0, 4));
                        assert(body@.subrange(4, 8) =~= sub16.subrange(4, 8));
                        assert(body@.subrange(8, 12) =~= sub16.subrange(8, 12));
                        assert(body@.subrange(12, 16) =~= sub16.subrange(12, 16));
                        assert(spec_dec_init_in(body@) == spec_dec_init_in(sub16));
                    }
                    match fs.do_init(arg) {
                        Ok(out) => (0i32, out.encode()),
                        Err(e) => (e.errno(), Vec::new()),
                    }
                },
                Err(e) => (e.errno(), Vec::new()),
            }
        },
        Opcode::Destroy => {
            proof {
                assert(false);
            }
            (0i32, Vec::new())
        },
        Opcode::Lookup => {
            match split_name(body.as_slice()) {
                Some(name) => {
                    match fs.do_lookup(store, hdr.nodeid, name) {
                        Ok(out) => (0i32, out.encode()),
                        Err(e) => (e.errno(), Vec::new()),
                    }
                },
                None => (ErrorKind::InvalidArgument.errno(), Vec::new()),
            }
        },
        Opcode::Getattr => {
            match fs.do_getattr(store, hdr.nodeid) {
                Ok(out) => (0i32, out.encode()),
                Err(e) => (e.errno(), Vec::new()),
            }
        },
        Opcode::Setattr => {
            match SetattrIn::decode(body.as_slice()) {
                Ok(arg) => {
                    match fs.do_setattr(store, hdr.nodeid, arg) {
                        Ok(out) => (0i32, out.encode()),
                        Err(e) => (e.errno(), Vec::new()),
                    }
                },
                Err(e) => (e.errno(), Vec::new()),
            }
        },
        Opcode::Unlink => {
            match split_name(body.as_slice()) {
                Some(name) => {
                    match fs.do_unlink(store, hdr.nodeid, name) {
                        Ok(_) => (0i32, Vec::new()),
                        Err(e) => (e.errno(), Vec::new()),
                    }
                },
                None => (ErrorKind::InvalidArgument.errno(), Vec::new()),
            }
        },
        Opcode::Open => {
            match OpenIn::decode(body.as_slice()) {
                Ok(arg) => {
                    match fs.do_open(hdr.nodeid, arg) {
                        Ok(out) => (0i32, out.encode()),
                        Err(e) => (e.errno(), Vec::new()),
                    }
                },
                Err(e) => (e.errno(), Vec::new()),
            }
        },
        Opcode::Create => {
            match CreateIn::decode(body.as_slice()) {
                Ok(arg) => {
                    if body.len() < 16 {
                        proof {
                            assert(false);
                        }
                        (ErrorKind::Protocol.errno(), Vec::new())
                    } else {
                        let rest = slice_subrange(body.as_slice(), 16, body.len());
                        match split_name(rest) {
                            Some(name) => {
                                match fs.do_create(store, hdr.nodeid, name, arg) {
                                    Ok((entry, open)) => {
                                        let mut out = entry.encode();
                                        let mut ob = open.encode();
                                        out.append(&mut ob);
                                        (0i32, out)
                                    },
                                    Err(e) => (e.errno(), Vec::new()),
                                }
                            },
                            None => (ErrorKind::InvalidArgument.errno(), Vec::new()),
                        }
                    }
                },
                Err(e) => (e.errno(), Vec::new()),
            }
        },
        Opcode::Read => {
            match ReadIn::decode(body.as_slice()) {
                Ok(arg) => {
                    match fs.do_read(store, arg.fh, arg.offset, arg.size) {
                        Ok(bytes) => {
                            if bytes.len() as u64 > (u32::MAX - OUT_HEADER_SIZE as u32) as u64 {
                                (ErrorKind::Protocol.errno(), Vec::new())
                            } else {
                                (0i32, bytes)
                            }
                        },
                        Err(e) => (e.errno(), Vec::new()),
                    }
                },
                Err(e) => (e.errno(), Vec::new()),
            }
        },
        Opcode::Write => {
            match WriteIn::decode(body.as_slice()) {
                Ok(arg) => {
                    if (body.len() as u64) < 40 + (arg.size as u64) {
                        (ErrorKind::Protocol.errno(), Vec::new())
                    } else {
                        let data = slice_subrange(body.as_slice(), 40, 40 + (arg.size as usize));
                        match fs.do_write(arg, data) {
                            Ok(out) => (0i32, out.encode()),
                            Err(e) => (e.errno(), Vec::new()),
                        }
                    }
                },
                Err(e) => (e.errno(), Vec::new()),
            }
        },
        Opcode::Release => {
            match ReadIn::decode(body.as_slice()) {
                Ok(arg) => {
                    match fs.do_release(store, arg.fh) {
                        Ok(_) => (0i32, Vec::new()),
                        Err(e) => (e.errno(), Vec::new()),
                    }
                },
                Err(e) => (e.errno(), Vec::new()),
            }
        },
        Opcode::Flush => {
            match ReadIn::decode(body.as_slice()) {
                Ok(arg) => {
                    match fs.do_flush(store, arg.fh) {
                        Ok(_) => (0i32, Vec::new()),
                        Err(e) => (e.errno(), Vec::new()),
                    }
                },
                Err(e) => (e.errno(), Vec::new()),
            }
        },
        Opcode::Forget => {
            proof {
                assert(false);
            }
            (0i32, Vec::new())
        },
    };
    if reply.len() > (u32::MAX as usize) - OUT_HEADER_SIZE {
        let empty: Vec<u8> = Vec::new();
        return match write_reply(writer, hdr.unique, ErrorKind::Protocol.errno(),
            empty.as_slice()) {
            Ok(_) => Ok(ChainOutcome::Replied),
            Err(e) => Err(e),
        };
    }
    match write_reply(writer, hdr.unique, errno, reply.as_slice()) {
        Ok(_) => Ok(ChainOutcome::Replied),
        Err(e) => Err(e),
    }
}

/// Splits a NUL-terminated name from a request body: the bytes before the
/// first NUL. A body without a NUL is malformed.
pub fn split_name(body: &[u8]) -> (r: Option<&[u8]>)
    ensures
        r matches Some(name) ==> body@.contains(0u8) && name@ == body@.subrange(
            0,
            idx_of_first_nul(body@),
        ),
        r is None ==> !body@.contains(0u8),
{
    let mut i: usize = 0;
    while i < body.len()
        invariant
            i <= body@.len(),
            forall|j: int| 0 <= j < i ==> body@[j] != 0u8,
        decreases body@.len() - i,
    {
        if body[i] == 0 {
            proof {
                lemma_first_nul(body@, i as int);
            }
            return Some(slice_subrange(body, 0, i));
        }
        i = i + 1;
    }
    assert(!body@.contains(0u8));
    None
}

/// The position of the first NUL byte of `s`.
pub open spec fn idx_of_first_nul(s: Seq<u8>) -> int {
    choose|i: int| 0 <= i < s.len() && s[i] == 0u8 && forall|j: int| 0 <= j < i ==> s[j] != 0u8
}

/// A scan that stops at the first NUL found the position the specification
/// speaks of.
proof fn lemma_first_nul(s: Seq<u8>, i: int)
    requires
        0 <= i < s.len(),
        s[i] == 0u8,
        forall|j: int| 0 <= j < i ==> s[j] != 0u8,
    ensures
        s.contains(0u8),
        idx_of_first_nul(s) == i,
{
    assert(s.contains(0u8));
    let k = idx_of_first_nul(s);
    assert(0 <= i < s.len() && s[i] == 0u8 && (forall|j: int| 0 <= j < i ==> s[j] != 0u8));
    assert(0 <= k < s.len() && s[k] == 0u8 && (forall|j: int| 0 <= j < k ==> s[j] != 0u8));
    if k < i {
        assert(s[k] != 0u8);
    } else if i < k {
        assert(s[i] != 0u8);
    }
}

} // verus!
