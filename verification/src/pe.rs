//! Bounds-checked parsing and validation of a Portable Executable header.
//!
//! Every field is decoded from an explicit little-endian read at an offset
//! that has been checked against the buffer length first, so validation can
//! never read past the end of the buffer, however adversarial or truncated
//! the input.

use vstd::prelude::*;

use crate::bytes::{le16, le32, read_u16_le, read_u32_le, u32_le_bytes};
use crate::errors::ScanError;

verus! {

/// The DOS "MZ" magic, little-endian.
pub const DOS_MAGIC: u16 = 0x5A4D;

/// The NT "PE\0\0" signature, little-endian.
pub const NT_MAGIC: u32 = 0x4550;

/// The minimal DOS header: a buffer shorter than this cannot hold `e_lfanew`.
pub const DOS_HEADER_SIZE: usize = 64;

/// Offset of the `e_lfanew` field (the NT-header offset) in the DOS header.
pub const E_LFANEW_OFFSET: usize = 0x3C;

/// Full size of the 64-bit NT headers structure (signature, file header,
/// optional header); `e_lfanew` plus this much must lie within the buffer.
pub const NT_HEADERS_SIZE: u64 = 264;

/// Machine-type constant for x86.
pub const MACHINE_I386: u16 = 0x014C;

/// Machine-type constant for x64.
pub const MACHINE_AMD64: u16 = 0x8664;

/// The target CPU architecture named by the machine-type field.
#[derive(Clone, Copy, Debug, PartialEq, Eq, Structural)]
pub enum MachineType {
    I386,
    AMD64,
    Unsupported,
}

/// The architecture a raw machine-type field value names.
pub open spec fn machine_of(m: int) -> MachineType {
    if m == MACHINE_I386 {
        MachineType::I386
    } else if m == MACHINE_AMD64 {
        MachineType::AMD64
    } else {
        MachineType::Unsupported
    }
}

/// The validated fields of a PE header.
#[derive(Clone, Copy, Debug, PartialEq, Eq, Structural)]
pub struct PEHeader {
    pub dos_signature: u16,
    pub nt_header_offset: u32,
    pub nt_signature: u32,
    pub machine_type: MachineType,
}

impl PEHeader {
    /// The invariant a header returned by `validate` satisfies.
    pub open spec fn wf(&self) -> bool {
        &&& self.dos_signature == DOS_MAGIC
        &&& self.nt_signature == NT_MAGIC
        &&& self.machine_type != MachineType::Unsupported
    }

    /// The raw four bytes of the NT signature, in the order they stand in the
    /// file — the search pattern of the signature-scanning mode.
    pub fn signature_bytes(&self) -> (r: Vec<u8>)
        ensures
            r@ == u32_le_bytes(self.nt_signature as int),
            r@.len() == 4,
    {
        let v = self.nt_signature;
        let mut r: Vec<u8> = Vec::new();
        r.push((v % 0x100) as u8);
        r.push(((v / 0x100) % 0x100) as u8);
        r.push(((v / 0x1_0000) % 0x100) as u8);
        r.push(((v / 0x100_0000) % 0x100) as u8);
        proof {
            assert(r@ =~= u32_le_bytes(self.nt_signature as int));
        }
        r
    }
}

/// The fields a well-formed buffer decodes to.
pub open spec fn header_of(b: Seq<u8>) -> PEHeader {
    PEHeader {
        dos_signature: le16(b, 0) as u16,
        nt_header_offset: le32(b, E_LFANEW_OFFSET as int) as u32,
        nt_signature: le32(b, le32(b, E_LFANEW_OFFSET as int)) as u32,
        machine_type: machine_of(le16(b, le32(b, E_LFANEW_OFFSET as int) + 4)),
    }
}

/// What validation returns for any buffer: the checks of the header layout in
/// order — minimal DOS header present, DOS magic, NT headers in bounds, NT
/// signature, supported machine type — each failure with its error.
pub open spec fn validate_spec(b: Seq<u8>) -> Result<PEHeader, ScanError> {
    if b.len() < DOS_HEADER_SIZE {
        Err(ScanError::InvalidFormat)
    } else if le16(b, 0) != DOS_MAGIC {
        Err(ScanError::NotAPEFile)
    } else if le32(b, E_LFANEW_OFFSET as int) + NT_HEADERS_SIZE > b.len() {
        Err(ScanError::InvalidFormat)
    } else if le32(b, le32(b, E_LFANEW_OFFSET as int)) != NT_MAGIC {
        Err(ScanError::InvalidFormat)
    } else if machine_of(le16(b, le32(b, E_LFANEW_OFFSET as int) + 4)) == MachineType::Unsupported {
        Err(ScanError::UnsupportedArchitecture)
    } else {
        Ok(header_of(b))
    }
}

/// Parses and validates `b` as a PE image, decoding each field at a
/// bounds-checked offset.
pub fn validate(b: &[u8]) -> (r: Result<PEHeader, ScanError>)
    ensures
        r == validate_spec(b@),
        r matches Ok(h) ==> h.wf(),
{
    let n: usize = b.len();
    if n < DOS_HEADER_SIZE {
        return Err(ScanError::InvalidFormat);
    }
    let dos_sig = read_u16_le(b, 0);
    if dos_sig != DOS_MAGIC {
        return Err(ScanError::NotAPEFile);
    }
    let e_lfanew = read_u32_le(b, E_LFANEW_OFFSET);
    if (e_lfanew as u64) + NT_HEADERS_SIZE > (n as u64) {
        return Err(ScanError::InvalidFormat);
    }
    let off = e_lfanew as usize;
    let nt_sig = read_u32_le(b, off);
    if nt_sig != NT_MAGIC {
        return Err(ScanError::InvalidFormat);
    }
    let machine = read_u16_le(b, off + 4);
    if machine != MACHINE_I386 && machine != MACHINE_AMD64 {
        return Err(ScanError::UnsupportedArchitecture);
    }
    let machine_type = if machine == MACHINE_I386 {
        MachineType::I386
    } else {
        MachineType::AMD64
    };
    Ok(
        PEHeader {
            dos_signature: dos_sig,
            nt_header_offset: e_lfanew,
            nt_signature: nt_sig,
            machine_type,
        },
    )
}

} // verus!
