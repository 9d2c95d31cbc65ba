//! The filesystem calls the core recognizes, and the decoder from the
//! `opcode` field of an incoming request header.

use vstd::prelude::*;

use crate::error::ErrorKind;

verus! {

/// Opcode names the filesystem call that a request asks for. The wire value
/// of each variant is fixed by the FUSE protocol; see `spec_opcode_value`.
#[derive(Clone, Copy, Debug, PartialEq, Eq, Structural)]
#[non_exhaustive]
pub enum Opcode {
    Lookup,
    Forget,
    Getattr,
    Setattr,
    Unlink,
    Open,
    Read,
    Write,
    Release,
    Flush,
    Init,
    Create,
    Destroy,
}

/// The integer each opcode has on the wire.
pub open spec fn spec_opcode_value(op: Opcode) -> u32 {
    match op {
        Opcode::Lookup => 1u32,
        Opcode::Forget => 2u32,
        Opcode::Getattr => 3u32,
        Opcode::Setattr => 4u32,
        Opcode::Unlink => 10u32,
        Opcode::Open => 14u32,
        Opcode::Read => 15u32,
        Opcode::Write => 16u32,
        Opcode::Release => 18u32,
        Opcode::Flush => 25u32,
        Opcode::Init => 26u32,
        Opcode::Create => 35u32,
        Opcode::Destroy => 38u32,
    }
}

/// The opcode whose wire integer is `value`, if the core recognizes it.
pub open spec fn spec_opcode_of(value: u32) -> Option<Opcode> {
    if value == 1u32 {
        Some(Opcode::Lookup)
    } else if value == 2u32 {
        Some(Opcode::Forget)
    } else if value == 3u32 {
        Some(Opcode::Getattr)
    } else if value == 4u32 {
        Some(Opcode::Setattr)
    } else if value == 10u32 {
        Some(Opcode::Unlink)
    } else if value == 14u32 {
        Some(Opcode::Open)
    } else if value == 15u32 {
        Some(Opcode::Read)
    } else if value == 16u32 {
        Some(Opcode::Write)
    } else if value == 18u32 {
        Some(Opcode::Release)
    } else if value == 25u32 {
        Some(Opcode::Flush)
    } else if value == 26u32 {
        Some(Opcode::Init)
    } else if value == 35u32 {
        Some(Opcode::Create)
    } else if value == 38u32 {
        Some(Opcode::Destroy)
    } else {
        None
    }
}

impl Opcode {
    /// The integer this opcode has on the wire.
    pub fn value(self) -> (r: u32)
        ensures
            r == spec_opcode_value(self),
    {
        match self {
            Opcode::Lookup => 1,
            Opcode::Forget => 2,
            Opcode::Getattr => 3,
            Opcode::Setattr => 4,
            Opcode::Unlink => 10,
            Opcode::Open => 14,
            Opcode::Read => 15,
            Opcode::Write => 16,
            Opcode::Release => 18,
            Opcode::Flush => 25,
            Opcode::Init => 26,
            Opcode::Create => 35,
            Opcode::Destroy => 38,
        }
    }

    /// Decodes the opcode field of a request header. A value outside the
    /// table of recognized calls is reported as `Unsupported`, which the
    /// dispatcher turns into a generic error reply.
    pub fn try_from(value: u32) -> (r: Result<Opcode, ErrorKind>)
        ensures
            r matches Ok(op) ==> spec_opcode_of(value) == Some(op),
            r matches Err(e) ==> spec_opcode_of(value) is None && e == ErrorKind::Unsupported,
            r is Ok <==> spec_opcode_of(value) is Some,
    {
        match value {
            1 => Ok(Opcode::Lookup),
            2 => Ok(Opcode::Forget),
            3 => Ok(Opcode::Getattr),
            4 => Ok(Opcode::Setattr),
            10 => Ok(Opcode::Unlink),
            14 => Ok(Opcode::Open),
            15 => Ok(Opcode::Read),
            16 => Ok(Opcode::Write),
            18 => Ok(Opcode::Release),
            25 => Ok(Opcode::Flush),
            26 => Ok(Opcode::Init),
            35 => Ok(Opcode::Create),
            38 => Ok(Opcode::Destroy),
            _ => Err(ErrorKind::Unsupported),
        }
    }
}

/// Decoding an opcode's wire integer yields that opcode back.
pub proof fn lemma_opcode_value_round_trip(op: Opcode)
    ensures
        spec_opcode_of(spec_opcode_value(op)) == Some(op),
{
}

} // verus!
