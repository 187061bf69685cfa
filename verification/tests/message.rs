use adibi::device_info::DeviceInfo;
use adibi::message::{
    checksum, clse_header, cnxn_response, identity_bytes, is_sendable, okay_header, parse_header,
    wrte_header, AdbHeader, Command, CommandParsingError, HeaderError, ProtocolVersion,
    ProtocolVersionError, PROTOCOL_VERSION,
};
use winnow::binary::le_u32;
use winnow::Parser as _;

fn info() -> DeviceInfo {
    DeviceInfo {
        serial: "SER1".to_owned(),
        name: "Some Linux".to_owned(),
        model: "Box 9".to_owned(),
        device: "host".to_owned(),
    }
}

const COMMANDS: [(Command, u32, &str); 7] = [
    (Command::Cnxn, 0x4e58_4e43, "CNXN"),
    (Command::Auth, 0x4854_5541, "AUTH"),
    (Command::Open, 0x4e45_504f, "OPEN"),
    (Command::Okay, 0x5941_4b4f, "OKAY"),
    (Command::Clse, 0x4553_4c43, "CLSE"),
    (Command::Wrte, 0x4554_5257, "WRTE"),
    (Command::Stls, 0x534c_5453, "STLS"),
];

#[test]
fn every_command_has_its_word_and_name() {
    for (command, word, name) in COMMANDS {
        assert_eq!(u32::from(command), word);
        assert_eq!(Command::try_from(word), Ok(command));
        assert_eq!(command.name(), name);
        assert_eq!(word, u32::from_le_bytes(name.as_bytes().try_into().unwrap()));
    }
    assert_eq!(Command::try_from(0x1234), Err(CommandParsingError(0x1234)));
}

#[test]
fn checksum_is_the_sum_of_the_bytes() {
    assert_eq!(checksum(&[]), 0);
    assert_eq!(checksum(&[1, 2, 255]), 258);
    assert_eq!(checksum(&vec![255u8; 0x10_0000]), 255 * 0x10_0000);
}

#[test]
fn header_is_written_field_by_field() {
    let header = okay_header(ProtocolVersion::V1, 7, 0x0102_0304);
    assert_eq!(
        header.to_bytes(),
        vec![
            b'O', b'K', b'A', b'Y', 7, 0, 0, 0, 4, 3, 2, 1, 0, 0, 0, 0, 0, 0, 0, 0, 0xb0, 0xb4,
            0xbe, 0xa6
        ]
    );
}

#[test]
fn header_survives_the_wire() {
    for (command, word, _) in COMMANDS {
        let header = AdbHeader {
            command,
            arg0: 0xdead_beef,
            arg1: 1,
            data_length: 0x0a0b_0c0d,
            data_check: 99,
            magic: word ^ 0xffff_ffff,
        };
        let mut bytes = header.to_bytes();
        bytes.extend_from_slice(b"rest");
        let mut input = bytes.as_slice();
        assert_eq!(parse_header(&mut input), Ok(header));
        assert_eq!(input, b"rest");
    }
}

#[test]
fn bad_headers_are_told_apart_and_consume_nothing() {
    let good = clse_header(ProtocolVersion::V0, 1, 2).to_bytes();

    let mut short = &good[..23];
    assert_eq!(parse_header(&mut short), Err(HeaderError::TooShort));
    assert_eq!(short.len(), 23);

    let mut unknown = good.clone();
    unknown[0] = b'X';
    let mut input = unknown.as_slice();
    assert!(matches!(
        parse_header(&mut input),
        Err(HeaderError::UnknownCommand(_))
    ));
    assert_eq!(input.len(), 24);

    let mut bad_magic = good.clone();
    bad_magic[20] ^= 1;
    let mut input = bad_magic.as_slice();
    assert_eq!(parse_header(&mut input), Err(HeaderError::BadMagic));
    assert_eq!(input.len(), 24);
}

#[test]
fn words_are_read_as_winnow_reads_them() {
    let header = AdbHeader {
        command: Command::Wrte,
        arg0: 0x8001_02ff,
        arg1: 0xffff_ffff,
        data_length: 3,
        data_check: 0x10,
        magic: 0x4554_5257 ^ 0xffff_ffff,
    };
    let bytes = header.to_bytes();
    let mut input: &[u8] = &bytes;
    let mut words = vec![];
    while !input.is_empty() {
        let word: winnow::Result<u32> = le_u32.parse_next(&mut input);
        words.push(word.unwrap());
    }
    assert_eq!(
        words,
        vec![0x4554_5257, 0x8001_02ff, 0xffff_ffff, 3, 0x10, !0x4554_5257]
    );
}

#[test]
fn versions_have_their_words_and_limits() {
    assert_eq!(ProtocolVersion::try_from(0x0100_0000), Ok(ProtocolVersion::V0));
    assert_eq!(ProtocolVersion::try_from(0x0100_0001), Ok(ProtocolVersion::V1));
    assert_eq!(
        ProtocolVersion::try_from(0x0100_0002),
        Err(ProtocolVersionError(0x0100_0002))
    );
    assert_eq!(u32::from(ProtocolVersion::V0), 0x0100_0000);
    assert_eq!(u32::from(ProtocolVersion::V1), 0x0100_0001);
    assert_eq!(ProtocolVersion::V0.max_payload(), 4096);
    assert_eq!(ProtocolVersion::V1.max_payload(), 1024 * 1024);
    assert!(ProtocolVersion::V0.requires_checksum());
    assert!(!ProtocolVersion::V1.requires_checksum());
    assert_eq!(PROTOCOL_VERSION, ProtocolVersion::V1);
}

#[test]
fn only_the_first_version_sends_checksums() {
    let v0 = wrte_header(ProtocolVersion::V0, 3, 4, &[200, 100]);
    assert_eq!((v0.data_length, v0.data_check), (2, 300));
    assert_eq!((v0.arg0, v0.arg1), (3, 4));
    let v1 = wrte_header(ProtocolVersion::V1, 3, 4, &[200, 100]);
    assert_eq!((v1.data_length, v1.data_check), (2, 0));
    assert_eq!(v1.magic, !0x4554_5257);
}

#[test]
fn cnxn_response_tells_version_limit_and_identity() {
    let text = "device:SER1:ro.product.name=Some Linux;ro.product.model=Box 9;\
                ro.product.device=host;";
    let (header, payload) = cnxn_response(ProtocolVersion::V1, &info());
    assert_eq!(payload, text.as_bytes());
    assert_eq!(identity_bytes(&info()), text.as_bytes());
    assert_eq!(header.command, Command::Cnxn);
    assert_eq!((header.arg0, header.arg1), (0x0100_0001, 0x10_0000));
    assert_eq!(header.data_length as usize, text.len());
    assert_eq!(header.data_check, 0);

    let (header, payload) = cnxn_response(ProtocolVersion::V0, &info());
    assert_eq!((header.arg0, header.arg1), (0x0100_0000, 4096));
    assert_eq!(header.data_check, checksum(&payload));
}

#[test]
fn ordinary_payloads_are_sendable() {
    assert!(is_sendable(ProtocolVersion::V0, &[]));
    assert!(is_sendable(ProtocolVersion::V0, &vec![255u8; 0x100_0000]));
    assert!(!is_sendable(ProtocolVersion::V0, &vec![255u8; 0x101_0102]));
    assert!(is_sendable(ProtocolVersion::V1, &vec![255u8; 0x101_0102]));
}
