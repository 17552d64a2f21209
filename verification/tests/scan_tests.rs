use pescan::errors::ScanError;
use pescan::pe::MachineType;
use pescan::scan::scan_buffer;

fn pe_stub(machine: u16, e_lfanew: u32) -> Vec<u8> {
    let len = e_lfanew as usize + 264;
    let mut b = vec![0u8; len];
    b[0] = 0x4D;
    b[1] = 0x5A;
    b[0x3C..0x40].copy_from_slice(&e_lfanew.to_le_bytes());
    let off = e_lfanew as usize;
    b[off] = 0x50;
    b[off + 1] = 0x45;
    b[off + 4..off + 6].copy_from_slice(&machine.to_le_bytes());
    b
}

#[test]
fn scan_finds_signature_of_valid_pe_and_skips_text_file() {
    // The contents of a directory holding one valid 64-bit PE stub and one
    // plain text file, as the I/O shell would hand them to the library.
    let pe_file = pe_stub(0x8664, 0x80);
    let mut text_file = b"just some plain text, certainly not an executable image".to_vec();
    text_file.resize(80, b'.');

    // A reference blob holding the NT signature "PE\0\0" at offsets 3 and 10.
    let mut reference = vec![b'-'; 20];
    reference[3..7].copy_from_slice(b"PE\0\0");
    reference[10..14].copy_from_slice(b"PE\0\0");

    let report = scan_buffer(&pe_file, &reference, 101).unwrap();
    assert_eq!(report.header.machine_type, MachineType::AMD64);
    let sig: String = report.header.signature_bytes().iter().map(|c| *c as char).collect();
    assert_eq!(sig, "PE\u{0}\u{0}");
    assert_eq!(report.offsets, vec![3, 10]);

    match scan_buffer(&text_file, &reference, 101) {
        Err(e) => assert_eq!(e, ScanError::NotAPEFile),
        Ok(_) => panic!("a text file must not validate"),
    }
}

#[test]
fn scan_reports_signature_absent() {
    let pe_file = pe_stub(0x014C, 0x40);
    let reference = b"nothing of interest here".to_vec();
    let report = scan_buffer(&pe_file, &reference, 101).unwrap();
    assert_eq!(report.header.machine_type, MachineType::I386);
    assert!(report.offsets.is_empty());
}

#[test]
fn scan_propagates_validation_errors() {
    let reference = b"PE\0\0".to_vec();
    let bad_arch = pe_stub(0x1234, 0x80);
    match scan_buffer(&bad_arch, &reference, 101) {
        Err(e) => assert_eq!(e, ScanError::UnsupportedArchitecture),
        Ok(_) => panic!("an unsupported architecture must not validate"),
    }
    let short = vec![0u8; 10];
    match scan_buffer(&short, &reference, 101) {
        Err(e) => assert_eq!(e, ScanError::InvalidFormat),
        Ok(_) => panic!("a short buffer must not validate"),
    }
}
