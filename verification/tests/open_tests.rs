use msf::open_msf;
use msf::MemorySource;
use msf::MsfError;

#[test]
fn test_small_file_unrecognized_file_format() {
    let small_file = MemorySource::new(b"\x7FELF".to_vec());

    match open_msf(small_file) {
        Ok(_) => panic!("4 byte file should not parse as msf"),
        Err(e) => match e {
            MsfError::UnrecognizedFileFormat => (),
            _ => panic!("4 byte file should parse as unrecognized file format"),
        },
    };
}

#[test]
fn unrecognized_magic_in_large_file() {
    let file = vec![0u8; 8192];
    match open_msf(MemorySource::new(file)) {
        Err(MsfError::UnrecognizedFileFormat) => {}
        _ => panic!("expected UnrecognizedFileFormat"),
    }
}

#[test]
fn truncated_big_header_is_unrecognized() {
    // The Big magic alone, in a file shorter than the provisional header
    // page: the header fetch ends early and the file is not an MSF.
    let mut file = b"Microsoft C/C++ MSF 7.00\r\n\x1aDS\0\0\0".to_vec();
    file.resize(100, 0);
    match open_msf(MemorySource::new(file)) {
        Err(MsfError::UnrecognizedFileFormat) => {}
        _ => panic!("expected UnrecognizedFileFormat"),
    }
}
