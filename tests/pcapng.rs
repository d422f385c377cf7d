use pako_core::pcapng::{align, option, section_header, BlockType, Code, Error, BYTE_ORDER_MAGIC};

#[test]
fn align_works() {
    assert_eq!(align(3, 4), 4);
    assert_eq!(align(4, 4), 4);
    assert_eq!(align(5, 4), 8);
    assert_eq!(align(9, 4), 12);
    assert_eq!(align(5u32 as usize, 4), 8);
    assert_eq!(align(5i32 as usize, 4), 8);
    assert_eq!(align(5usize, 4), 8);
}

#[test]
fn code_try_from_works() {
    assert_eq!(Code::try_from(0).unwrap(), Code::EndOfOpt);
    assert_eq!(Code::try_from(1).unwrap(), Code::Comment);
    assert_eq!(Code::try_from(2).unwrap(), Code::Hardware);
    assert_eq!(Code::try_from(3).unwrap(), Code::OS);
    assert_eq!(Code::try_from(4).unwrap(), Code::UserAppl);
    assert_eq!(Code::try_from(2988).unwrap(), Code::Custom2988);
    assert_eq!(Code::try_from(2989).unwrap(), Code::Custom2989);
    assert_eq!(Code::try_from(19372).unwrap(), Code::Custom19372);
    assert_eq!(Code::try_from(19373).unwrap(), Code::Custom19373);
}

#[test]
fn code_try_from_fails() {
    assert!(matches!(Code::try_from(42), Err(Error::Option(42))));
    assert!(matches!(Code::try_from(5), Err(Error::Option(5))));
    assert!(matches!(Code::try_from(2990), Err(Error::Option(2990))));
    assert!(matches!(Code::try_from(19374), Err(Error::Option(19374))));
}

#[test]
fn option_works() {
    let tests = [
        (
            vec![0x00, 0x02, 0x00, 0x09, 0x41, 0x70, 0x70, 0x6C, 0x65, 0x20, 0x4D, 0x42, 0x50, 0x00, 0x00, 0x00],
            (Code::Hardware, 9, "Apple MBP"),
        ),
        (
            vec![0x00, 0x03, 0x00, 0x0C, 0x4F, 0x53, 0x2D, 0x58, 0x20, 0x31, 0x30, 0x2E, 0x31, 0x30, 0x2E, 0x35],
            (Code::OS, 12, "OS-X 10.10.5"),
        ),
        (
            vec![
                0x00, 0x04, 0x00, 0x0F, 0x70, 0x63, 0x61, 0x70, 0x5F, 0x77, 0x72, 0x69, 0x74, 0x65, 0x72, 0x2E,
                0x6C, 0x75, 0x61, 0x00,
            ],
            (Code::UserAppl, 15, "pcap_writer.lua"),
        ),
        (
            vec![0x00, 0x01, 0x00, 0x07, 0x74, 0x65, 0x73, 0x74, 0x30, 0x30, 0x32, 0x00],
            (Code::Comment, 7, "test002"),
        ),
    ];

    for (input, want) in tests {
        let (_, option) = option(&input).unwrap();
        assert_eq!(want.0, option.code);
        assert_eq!(want.1, option.len);
        assert_eq!(
            want.2,
            String::from_utf8(option.value.split_at(option.len as usize).0.to_vec()).unwrap()
        );
    }
}

#[test]
fn option_fails() {
    let input = vec![
        0x00, 0x42, 0x00, 0x09, 0x41, 0x70, 0x70, 0x6C, 0x65, 0x20, 0x4D, 0x42, 0x50, 0x00, 0x00, 0x00,
    ];
    assert!(matches!(option(&input).err(), Some(Error::Option(66))));
}

#[test]
fn option_truncated_value_is_incomplete() {
    let input = vec![0x00, 0x02, 0x00, 0x09, 0x41, 0x70];
    assert!(matches!(option(&input).err(), Some(Error::Incomplete)));
    assert!(matches!(option(&input[..3]).err(), Some(Error::Incomplete)));
}

#[test]
fn option_returns_rest_of_input() {
    let input = vec![0x00, 0x01, 0x00, 0x01, 0x61, 0x00, 0x00, 0x00, 0xAA, 0xBB];
    let (rest, o) = option(&input).unwrap();
    assert_eq!(o.value, &[0x61, 0x00, 0x00, 0x00]);
    assert_eq!(rest, &[0xAA, 0xBB]);
}

fn shb_bytes(section_length: i64) -> Vec<u8> {
    let mut v = Vec::new();
    v.extend_from_slice(&0x0A0D_0D0Au32.to_be_bytes());
    v.extend_from_slice(&96u32.to_be_bytes());
    v.extend_from_slice(&BYTE_ORDER_MAGIC.to_be_bytes());
    v.extend_from_slice(&1u16.to_be_bytes());
    v.extend_from_slice(&0u16.to_be_bytes());
    v.extend_from_slice(&section_length.to_be_bytes());
    v.extend_from_slice(&[0xEE, 0xFF]);
    v
}

#[test]
fn section_header_reads_fixed_fields() {
    let bytes = shb_bytes(-1);
    let (rest, shb) = section_header(&bytes).unwrap();
    assert_eq!(shb.block_type, BlockType::SectionHeader);
    assert_eq!(96, shb.total_length);
    assert_eq!(96, shb.total_length_dup);
    assert_eq!(BYTE_ORDER_MAGIC, shb.byte_order);
    assert_eq!(1, shb.major);
    assert_eq!(0, shb.minor);
    assert_eq!(-1, shb.section_length);
    assert!(shb.options.is_none());
    assert_eq!(rest, &[0xEE, 0xFF]);
}

#[test]
fn section_header_positive_length_and_swapped_magic() {
    let mut bytes = shb_bytes(4096);
    bytes[8..12].copy_from_slice(&BYTE_ORDER_MAGIC.to_le_bytes());
    let (_, shb) = section_header(&bytes).unwrap();
    assert_eq!(4096, shb.section_length);
    assert_ne!(BYTE_ORDER_MAGIC, shb.byte_order);
    assert_eq!(0x4D3C_2B1A, shb.byte_order);
}

#[test]
fn section_header_too_short() {
    let bytes = shb_bytes(0);
    assert!(matches!(section_header(&bytes[..23]).err(), Some(Error::Incomplete)));
}

#[test]
fn block_type_codes() {
    assert_eq!(BlockType::SectionHeader.code(), 0x0A0D_0D0A);
    assert_eq!(BlockType::Custom.code(), 0xBAD);
    assert_eq!(BlockType::try_from(6).unwrap(), BlockType::EnhancedPacket);
    assert!(matches!(BlockType::try_from(2), Err(Error::Type(2))));
}

// Leading section header block of a big-endian pcap-ng file: block type,
// total length 96, byte-order magic, version 1.0, section length -1.
const TEST002_BE_HEAD: [u8; 24] = [
    0x0A, 0x0D, 0x0D, 0x0A, 0x00, 0x00, 0x00, 0x60, 0x1A, 0x2B, 0x3C, 0x4D, 0x00, 0x01, 0x00, 0x00, 0xFF, 0xFF,
    0xFF, 0xFF, 0xFF, 0xFF, 0xFF, 0xFF,
];

// The same header as a little-endian writer stores it.
const TEST002_LE_HEAD: [u8; 24] = [
    0x0A, 0x0D, 0x0D, 0x0A, 0x60, 0x00, 0x00, 0x00, 0x4D, 0x3C, 0x2B, 0x1A, 0x01, 0x00, 0x00, 0x00, 0xFF, 0xFF,
    0xFF, 0xFF, 0xFF, 0xFF, 0xFF, 0xFF,
];

fn test_parse(_input: &str) -> Result<&str, Error> {
    Err(Error::Option(42))
}

#[test]
fn error_works() {
    match test_parse("").unwrap_err() {
        e => assert!(matches!(e, Error::Option(42))),
    }
}

#[test]
fn byte_order_be_works() {
    let (_, shb) = section_header(&TEST002_BE_HEAD).unwrap();
    assert_eq!(BYTE_ORDER_MAGIC, shb.byte_order);
}

#[test]
fn byte_order_le_fails() {
    let (_, shb) = section_header(&TEST002_LE_HEAD).unwrap();
    assert_ne!(BYTE_ORDER_MAGIC, shb.byte_order);
}

#[test]
fn section_header_works() {
    let (_, shb) = section_header(&TEST002_BE_HEAD).unwrap();
    assert_eq!(96, shb.total_length);
    assert_eq!(-1, shb.section_length);
}
