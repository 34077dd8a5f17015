use cryptdatum::header::EMPTY;
use cryptdatum::{
    decode_header, flag_is_set, has_header, has_valid_header, DatumFlag, ErrorKind, ErrorType,
    DELIMITER, HEADER_SIZE, MAGIC, MAGIC_DATE, MIN_VERSION, VERSION,
};

fn set_header_version(slice: &mut [u8], version: u16) {
    if slice.len() < 10 {
        return;
    }
    slice[8] = version as u8;
    slice[9] = (version >> 8) as u8;
}

fn set_header_date(slice: &mut [u8], nsec: u64) {
    if slice.len() < 26 {
        return;
    }
    slice[18..26].copy_from_slice(&nsec.to_le_bytes());
}

fn set_flags(slice: &mut [u8], flags: u64) {
    slice[10..18].copy_from_slice(&flags.to_le_bytes());
}

/// A present, current header with a valid timestamp and no flags.
fn complete_header() -> [u8; HEADER_SIZE] {
    let mut data = [0; HEADER_SIZE];
    data[0..8].copy_from_slice(&MAGIC);
    data[72..80].copy_from_slice(&DELIMITER);
    set_header_version(&mut data, VERSION);
    set_header_date(&mut data, MAGIC_DATE);
    data
}

#[test]
fn has_valid_header_too_small_data() {
    let data = [0; HEADER_SIZE - 1];
    assert!(!has_valid_header(&data));
}

#[test]
fn has_valid_header_magic() {
    let mut data = [0; HEADER_SIZE];
    data[0..8].copy_from_slice(&MAGIC);
    set_header_version(&mut data, VERSION);
    set_header_date(&mut data, MAGIC_DATE);

    data[72..80].copy_from_slice(&DELIMITER);
    assert!(has_valid_header(&data));

    let mut data = [0; HEADER_SIZE];
    data[0] = 0x00;
    set_header_version(&mut data, VERSION);
    data[72..80].copy_from_slice(&DELIMITER);
    assert!(!has_valid_header(&data));
}

#[test]
fn has_valid_header_delimiter() {
    let mut data = [0; HEADER_SIZE];
    data[0..8].copy_from_slice(&MAGIC);
    set_header_version(&mut data, VERSION);
    data[72] = 0x00;
    assert!(!has_valid_header(&data));
}

#[test]
fn short_buffers_are_rejected() {
    for len in 0..HEADER_SIZE {
        let mut data = vec![0u8; len];
        if len >= 8 {
            data[0..8].copy_from_slice(&MAGIC);
        }
        assert!(!has_header(&data));
        assert!(!has_valid_header(&data));
    }
    assert!(!has_header(&[]));
}

#[test]
fn probe_reads_only_the_markers() {
    let mut data = [0u8; HEADER_SIZE];
    data[0..8].copy_from_slice(&MAGIC);
    data[72..80].copy_from_slice(&DELIMITER);
    assert!(has_header(&data));
    for b in data[8..72].iter_mut() {
        *b = 0xAB;
    }
    assert!(has_header(&data));
    let mut longer = data.to_vec();
    longer.extend_from_slice(&[1, 2, 3]);
    assert!(has_header(&longer));
    data[3] ^= 1;
    assert!(!has_header(&data));
}

#[test]
fn probe_rejects_delimiter_elsewhere() {
    let mut data = [0u8; HEADER_SIZE + 8];
    data[0..8].copy_from_slice(&MAGIC);
    data[80..88].copy_from_slice(&DELIMITER);
    assert!(!has_header(&data));
}

#[test]
fn invalid_probe_means_invalid_header() {
    let mut data = complete_header();
    assert!(has_valid_header(&data));
    data[79] = 0;
    assert!(!has_header(&data));
    assert!(!has_valid_header(&data));
}

#[test]
fn old_version_is_valid_whatever_else() {
    let mut data = [0xFFu8; HEADER_SIZE];
    data[0..8].copy_from_slice(&MAGIC);
    data[72..80].copy_from_slice(&DELIMITER);
    set_header_version(&mut data, 0);
    set_header_date(&mut data, 0);
    assert!(has_valid_header(&data));
    assert_eq!(MIN_VERSION, 1);
}

#[test]
fn draft_without_timestamp_is_valid() {
    let mut data = [0u8; HEADER_SIZE];
    data[0..8].copy_from_slice(&MAGIC);
    data[72..80].copy_from_slice(&DELIMITER);
    set_header_version(&mut data, VERSION);
    set_flags(&mut data, DatumFlag::DatumDraft.bit());
    assert!(has_valid_header(&data));
    set_flags(&mut data, DatumFlag::DatumDraft.bit() | DatumFlag::DatumOPC.bit());
    assert!(has_valid_header(&data));
}

#[test]
fn compromised_is_valid() {
    let mut data = [0u8; HEADER_SIZE];
    data[0..8].copy_from_slice(&MAGIC);
    data[72..80].copy_from_slice(&DELIMITER);
    set_header_version(&mut data, VERSION);
    set_flags(&mut data, DatumFlag::DatumCompromised.bit() | DatumFlag::DatumSigned.bit());
    assert!(has_valid_header(&data));
}

#[test]
fn timestamp_before_format_epoch_is_invalid() {
    let mut data = complete_header();
    set_header_date(&mut data, MAGIC_DATE - 1);
    assert!(!has_valid_header(&data));
    set_header_date(&mut data, 0);
    assert!(!has_valid_header(&data));
}

#[test]
fn opc_counter_required() {
    let mut data = complete_header();
    set_flags(&mut data, DatumFlag::DatumOPC.bit());
    assert!(!has_valid_header(&data));
    data[26..30].copy_from_slice(&1u32.to_le_bytes());
    assert!(has_valid_header(&data));
}

#[test]
fn checksum_required() {
    let mut data = complete_header();
    set_flags(&mut data, DatumFlag::DatumChecksum.bit());
    assert!(!has_valid_header(&data));
    data[37] = 1;
    assert!(has_valid_header(&data));
}

#[test]
fn empty_flag_requires_size() {
    let mut data = complete_header();
    set_flags(&mut data, DatumFlag::DatumEmpty.bit());
    assert!(!has_valid_header(&data));
    data[38..46].copy_from_slice(&1u64.to_le_bytes());
    assert!(has_valid_header(&data));
}

#[test]
fn compression_alg_required() {
    let mut data = complete_header();
    set_flags(&mut data, DatumFlag::DatumEmpty.bit() | DatumFlag::DatumCompressed.bit());
    data[38..46].copy_from_slice(&100u64.to_le_bytes());
    assert!(!has_valid_header(&data));
    data[46..48].copy_from_slice(&1u16.to_le_bytes());
    assert!(has_valid_header(&data));
}

#[test]
fn compression_alg_not_needed_without_empty_flag() {
    let mut data = complete_header();
    set_flags(&mut data, DatumFlag::DatumCompressed.bit());
    assert!(has_valid_header(&data));
}

#[test]
fn encryption_alg_required() {
    let mut data = complete_header();
    set_flags(&mut data, DatumFlag::DatumEmpty.bit() | DatumFlag::DatumEncrypted.bit());
    data[38..46].copy_from_slice(&1u64.to_le_bytes());
    assert!(!has_valid_header(&data));
    data[48..50].copy_from_slice(&3u16.to_le_bytes());
    assert!(has_valid_header(&data));
}

#[test]
fn extractable_requires_name() {
    let mut data = complete_header();
    set_flags(&mut data, DatumFlag::DatumEmpty.bit() | DatumFlag::DatumExtractable.bit());
    data[38..46].copy_from_slice(&1u64.to_le_bytes());
    assert!(!has_valid_header(&data));
    data[57] = b'x';
    assert!(has_valid_header(&data));
}

#[test]
fn signed_requires_signature_type() {
    let mut data = complete_header();
    set_flags(&mut data, DatumFlag::DatumSigned.bit());
    assert!(!has_valid_header(&data));
    data[50..52].copy_from_slice(&2u16.to_le_bytes());
    assert!(has_valid_header(&data));
}

#[test]
fn flag_bits_and_membership() {
    assert_eq!(DatumFlag::DatumInvalid.bit(), 1);
    assert_eq!(DatumFlag::DatumOPC.bit(), 16);
    assert_eq!(DatumFlag::DatumCompromised.bit(), 2048);
    let mask = DatumFlag::DatumDraft.bit() | DatumFlag::DatumSigned.bit();
    assert!(flag_is_set(mask, DatumFlag::DatumDraft));
    assert!(flag_is_set(mask, DatumFlag::DatumSigned));
    assert!(!flag_is_set(mask, DatumFlag::DatumEmpty));
    assert!(!flag_is_set(0, DatumFlag::DatumInvalid));
    assert_eq!(DatumFlag::from_bit(256), Some(DatumFlag::DatumSigned));
    assert_eq!(DatumFlag::from_bit(1), Some(DatumFlag::DatumInvalid));
    assert_eq!(DatumFlag::from_bit(3), None);
    assert_eq!(DatumFlag::from_bit(4096), None);
}

fn encode(fields: &[(usize, &[u8])]) -> Vec<u8> {
    let mut data = vec![0u8; HEADER_SIZE];
    for (off, bytes) in fields {
        data[*off..*off + bytes.len()].copy_from_slice(bytes);
    }
    data
}

#[test]
fn decode_round_trip() {
    let flags = DatumFlag::DatumChecksum.bit() | DatumFlag::DatumSigned.bit();
    let data = encode(&[
        (0, &MAGIC),
        (8, &0x0102u16.to_le_bytes()),
        (10, &flags.to_le_bytes()),
        (18, &MAGIC_DATE.to_le_bytes()),
        (26, &0xDEADBEEFu32.to_le_bytes()),
        (30, &0x1122334455667788u64.to_le_bytes()),
        (38, &4096u64.to_le_bytes()),
        (46, &7u16.to_le_bytes()),
        (48, &0xFFFEu16.to_le_bytes()),
        (50, &9u16.to_le_bytes()),
        (52, &64u32.to_le_bytes()),
        (56, b"tar.gz\0\0"),
        (64, &[1, 2, 3, 4, 5, 6, 7, 255]),
        (72, &DELIMITER),
    ]);
    let h = decode_header(&data).unwrap();
    assert_eq!(h.magic, MAGIC);
    assert_eq!(h.version, 0x0102);
    assert_eq!(h.flags, flags);
    assert_eq!(h.timestamp, MAGIC_DATE);
    assert_eq!(h.opc, 0xDEADBEEF);
    assert_eq!(h.checksum, 0x1122334455667788);
    assert_eq!(h.size, 4096);
    assert_eq!(h.compression_alg, 7);
    assert_eq!(h.encryption_alg, 0xFFFE);
    assert_eq!(h.signature_type, 9);
    assert_eq!(h.signature_size, 64);
    assert_eq!(h.file_ext, "tar.gz\0\0");
    assert_eq!(h.file_ext.as_bytes(), b"tar.gz\0\0");
    assert_eq!(h.custom, [1, 2, 3, 4, 5, 6, 7, 255]);
    assert_eq!(h.delimiter, DELIMITER);
}

#[test]
fn decode_multibyte_file_ext() {
    let data = encode(&[(56, "é.txt\0".as_bytes())]);
    let h = decode_header(&data).unwrap();
    assert_eq!(h.file_ext, "é.txt\0\0");
    assert_eq!(h.file_ext.chars().count(), 7);
}

#[test]
fn decode_ignores_bytes_after_header() {
    let mut data = encode(&[(8, &1u16.to_le_bytes())]);
    data.extend_from_slice(&[0xFF; 16]);
    let h = decode_header(&data).unwrap();
    assert_eq!(h.version, 1);
}

#[test]
fn decode_short_input_is_io_error() {
    let data = [0u8; HEADER_SIZE - 1];
    match decode_header(&data) {
        Err(ErrorType::Regular(ErrorKind::IO)) => {},
        _ => panic!("expected an I/O error"),
    }
    assert_eq!(ErrorKind::IO.as_str(), "cryptdatum I/O error");
    assert_eq!(ErrorType::Regular(ErrorKind::IO).message(), "cryptdatum error: IO");
}

#[test]
fn decode_invalid_utf8_is_custom_error() {
    let data = encode(&[(56, &[b'a', 0xFF, 0, 0, 0, 0, 0, 0])]);
    match decode_header(&data) {
        Err(ErrorType::Custom(msg)) => assert!(!msg.is_empty()),
        _ => panic!("expected a decoding error"),
    }
    let data = encode(&[(60, &[0xE2, 0x82, 0xAC, 0xE2])]);
    assert!(matches!(decode_header(&data), Err(ErrorType::Custom(_))));
}

#[test]
fn empty_constant_is_zero() {
    assert_eq!(EMPTY, [0u8; 8]);
}
