use pescan::errors::ScanError;
use pescan::pe::{validate, MachineType};

/// Builds a minimal in-memory PE stub: DOS magic, `e_lfanew`, NT signature,
/// machine type, padded so the full NT headers fit.
fn pe_stub(machine: u16, e_lfanew: u32) -> Vec<u8> {
    let len = e_lfanew as usize + 264;
    let mut b = vec![0u8; len];
    b[0] = 0x4D; // 'M'
    b[1] = 0x5A; // 'Z'
    b[0x3C..0x40].copy_from_slice(&e_lfanew.to_le_bytes());
    let off = e_lfanew as usize;
    b[off] = 0x50; // 'P'
    b[off + 1] = 0x45; // 'E'
    b[off + 2] = 0;
    b[off + 3] = 0;
    b[off + 4..off + 6].copy_from_slice(&machine.to_le_bytes());
    b
}

#[test]
fn wrong_magic_is_not_a_pe_file() {
    // Plain text, long enough that the magic check itself decides.
    let mut b = vec![b'#'; 128];
    b[0] = b'T';
    b[1] = b'X';
    assert_eq!(validate(&b), Err(ScanError::NotAPEFile));
    // First byte right, second wrong: still not a PE file.
    b[0] = 0x4D;
    b[1] = b'X';
    assert_eq!(validate(&b), Err(ScanError::NotAPEFile));
}

#[test]
fn short_buffer_is_invalid_format() {
    assert_eq!(validate(&[]), Err(ScanError::InvalidFormat));
    assert_eq!(validate(b"MZ"), Err(ScanError::InvalidFormat));
    let b = vec![0u8; 63];
    assert_eq!(validate(&b), Err(ScanError::InvalidFormat));
}

#[test]
fn nt_offset_past_end_is_invalid_format() {
    let mut b = vec![0u8; 256];
    b[0] = 0x4D;
    b[1] = 0x5A;
    b[0x3C..0x40].copy_from_slice(&0xFFFF_FF00u32.to_le_bytes());
    assert_eq!(validate(&b), Err(ScanError::InvalidFormat));
}

#[test]
fn shrinking_a_valid_buffer_rejects_safely() {
    // Progressively truncate a valid stub: every truncation must be rejected
    // (never read out of bounds, never accepted) until nothing is left.
    let full = pe_stub(0x8664, 0x80);
    assert!(validate(&full).is_ok());
    for len in (0..full.len()).rev() {
        let r = validate(&full[..len]);
        assert_eq!(r, Err(ScanError::InvalidFormat));
    }
}

#[test]
fn machine_i386_validates_as_x86() {
    let b = pe_stub(0x014C, 0x80);
    let h = validate(&b).unwrap();
    assert_eq!(h.machine_type, MachineType::I386);
    assert_eq!(h.dos_signature, 0x5A4D);
    assert_eq!(h.nt_header_offset, 0x80);
    assert_eq!(h.nt_signature, 0x4550);
}

#[test]
fn machine_amd64_validates_as_x64() {
    let b = pe_stub(0x8664, 0x40);
    let h = validate(&b).unwrap();
    assert_eq!(h.machine_type, MachineType::AMD64);
    assert_eq!(h.nt_header_offset, 0x40);
}

#[test]
fn other_machine_values_are_unsupported() {
    for machine in [0x0000u16, 0x0001, 0x01C4, 0xAA64, 0xFFFF] {
        let b = pe_stub(machine, 0x80);
        assert_eq!(validate(&b), Err(ScanError::UnsupportedArchitecture));
    }
}

#[test]
fn bad_nt_signature_is_invalid_format() {
    let mut b = pe_stub(0x8664, 0x80);
    b[0x80 + 1] = b'F'; // "PF\0\0"
    assert_eq!(validate(&b), Err(ScanError::InvalidFormat));
}

#[test]
fn signature_bytes_are_the_raw_nt_signature() {
    let b = pe_stub(0x8664, 0x80);
    let h = validate(&b).unwrap();
    let sig = h.signature_bytes();
    assert_eq!(sig, b"PE\0\0".to_vec());
    let as_chars: String = sig.iter().map(|c| *c as char).collect();
    assert_eq!(as_chars, "PE\u{0}\u{0}");
}
