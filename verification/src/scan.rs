//! The per-file unit of work: validate a buffer as a PE image, then search a
//! reference blob for the image's NT-signature bytes. The I/O shell around the
//! library only lists files, reads bytes, and prints.

use vstd::prelude::*;

use crate::bytes::{le16, le32, u32_le_bytes};
use crate::errors::ScanError;
use crate::hash::Q_MAX;
use crate::matcher::{all_matches, rk_search};
use crate::pe::{
    header_of, validate, validate_spec, MachineType, PEHeader, DOS_HEADER_SIZE, DOS_MAGIC,
    E_LFANEW_OFFSET, MACHINE_AMD64, MACHINE_I386, NT_HEADERS_SIZE, NT_MAGIC,
};

verus! {

/// What scanning one file yields: its validated header and every offset at
/// which its NT-signature bytes occur in the reference blob.
pub struct ScanReport {
    pub header: PEHeader,
    pub offsets: Vec<usize>,
}

/// Validates `file` as a PE image and, on success, reports every offset at
/// which the image's four NT-signature bytes occur in `reference`; a buffer
/// that fails validation is reported with its error and nothing is searched.
pub fn scan_buffer(file: &[u8], reference: &[u8], q: u64) -> (r: Result<ScanReport, ScanError>)
    requires
        1 < q <= Q_MAX,
    ensures
        match r {
            Ok(rep) => {
                &&& validate_spec(file@) == Ok::<PEHeader, ScanError>(rep.header)
                &&& rep.offsets@ == all_matches(
                    u32_le_bytes(rep.header.nt_signature as int),
                    reference@,
                )
            },
            Err(e) => validate_spec(file@) == Err::<PEHeader, ScanError>(e),
        },
{
    let header = match validate(file) {
        Ok(h) => h,
        Err(e) => {
            return Err(e);
        },
    };
    let sig = header.signature_bytes();
    let offsets = match rk_search(sig.as_slice(), reference, q) {
        Ok(o) => o,
        Err(_) => {
            proof {
                assert(false);
            }
            Vec::new()
        },
    };
    Ok(ScanReport { header, offsets })
}

/// Law: a buffer of at least the minimal DOS-header length whose first two
/// bytes are not "MZ" is rejected as `NotAPEFile`; no field past the magic
/// influences the outcome. (A buffer shorter than the minimal DOS header is
/// rejected as `InvalidFormat` before the magic is read.)
pub proof fn lemma_wrong_magic_rejected(b: Seq<u8>)
    requires
        b.len() >= DOS_HEADER_SIZE,
        b[0] != 0x4D || b[1] != 0x5A,
    ensures
        validate_spec(b) == Err::<PEHeader, ScanError>(ScanError::NotAPEFile),
{
}

/// Law: a buffer with a valid "MZ" magic whose NT-header offset does not
/// leave room for the full NT headers inside the buffer is rejected as
/// `InvalidFormat`; no read past the buffer end is needed to decide.
pub proof fn lemma_nt_offset_out_of_bounds_rejected(b: Seq<u8>)
    requires
        b.len() >= DOS_HEADER_SIZE,
        b[0] == 0x4D,
        b[1] == 0x5A,
        le32(b, E_LFANEW_OFFSET as int) + NT_HEADERS_SIZE > b.len(),
    ensures
        validate_spec(b) == Err::<PEHeader, ScanError>(ScanError::InvalidFormat),
{
}

/// Law: for a buffer that passes every check up to the NT signature, the
/// machine-type field alone decides the outcome — x86 and x64 validate with
/// the matching architecture, any other value is `UnsupportedArchitecture`.
pub proof fn lemma_machine_type_decides(b: Seq<u8>)
    requires
        b.len() >= DOS_HEADER_SIZE,
        le16(b, 0) == DOS_MAGIC,
        le32(b, E_LFANEW_OFFSET as int) + NT_HEADERS_SIZE <= b.len(),
        le32(b, le32(b, E_LFANEW_OFFSET as int)) == NT_MAGIC,
    ensures
        ({
            let m = le16(b, le32(b, E_LFANEW_OFFSET as int) + 4);
            &&& m == MACHINE_I386 ==> validate_spec(b) == Ok::<PEHeader, ScanError>(header_of(b))
                && header_of(b).machine_type == MachineType::I386
            &&& m == MACHINE_AMD64 ==> validate_spec(b) == Ok::<PEHeader, ScanError>(header_of(b))
                && header_of(b).machine_type == MachineType::AMD64
            &&& m != MACHINE_I386 && m != MACHINE_AMD64 ==> validate_spec(b) == Err::<
                PEHeader,
                ScanError,
            >(ScanError::UnsupportedArchitecture)
        }),
{
}

} // verus!
