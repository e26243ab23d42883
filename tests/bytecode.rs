use bytevm::bytecode::{new_header, read_header, write_header, Header, Opcode, BYTECODE_CONVENTION_VERSION};
use bytevm::error::VmError;

const ALL: [Opcode; 7] = [
    Opcode::Nop,
    Opcode::Copy,
    Opcode::Move,
    Opcode::Add,
    Opcode::Sub,
    Opcode::Goto,
    Opcode::Call,
];

#[test]
fn decode_of_encode_is_identity() {
    for op in ALL {
        assert_eq!(Opcode::from_u8(op.to_u8()), Ok(op));
    }
}

#[test]
fn encode_of_decode_is_identity_on_every_byte() {
    let mut valid = 0;
    for b in 0u8..=255 {
        if let Ok(op) = Opcode::from_u8(b) {
            assert_eq!(op.to_u8(), b);
            valid += 1;
        } else {
            assert_eq!(Opcode::from_u8(b), Err(VmError::InvalidOpcode));
        }
    }
    assert_eq!(valid, 7);
}

#[test]
fn opcode_bytes_are_family_bits_only() {
    let expected: [u8; 7] = [0x08, 0x10, 0x18, 0x20, 0x28, 0x30, 0x38];
    for (op, b) in ALL.iter().zip(expected.iter()) {
        assert_eq!(op.to_u8(), *b);
        assert_eq!(op.to_u8() & 0b111, 0);
    }
}

#[test]
fn mnemonics() {
    let names = ["NOP", "COPY", "MOVE", "ADD", "SUB", "GOTO", "CALL"];
    for (op, n) in ALL.iter().zip(names.iter()) {
        assert_eq!(op.to_str(), *n);
    }
}

#[test]
fn nop_byte_decodes_to_nop() {
    let op = Opcode::from_u8(0b00001_000).unwrap();
    assert_eq!(op, Opcode::Nop);
    assert_eq!(op.to_str(), "NOP");
}

#[test]
fn byte_ff_is_invalid() {
    assert_eq!(Opcode::from_u8(0xFF), Err(VmError::InvalidOpcode));
    assert_eq!(Opcode::from_u8(0x00), Err(VmError::InvalidOpcode));
    assert_eq!(Opcode::from_u8(0x09), Err(VmError::InvalidOpcode));
}

#[test]
fn current_header_bytes() {
    let mut expected = vec![0u8, 0, 0, 0];
    expected.extend_from_slice("0.0.1".as_bytes());
    expected.push(0);
    assert_eq!(new_header(), expected);
    assert_eq!(BYTECODE_CONVENTION_VERSION, 0);
    let h = Header::current();
    assert_eq!(h.encoded_len(), 10);
}

#[test]
fn header_round_trip() {
    let bytes = new_header();
    let h = read_header(&bytes).unwrap();
    assert_eq!(h.convention_version, 0);
    assert_eq!(h.compiler_introduction_version, b"0.0.1".to_vec());

    let mine = Header { convention_version: 0, compiler_introduction_version: b"1.22.333-x".to_vec() };
    let bytes = write_header(&mine);
    let back = read_header(&bytes).unwrap();
    assert_eq!(back.convention_version, mine.convention_version);
    assert_eq!(back.compiler_introduction_version, mine.compiler_introduction_version);

    let empty = Header { convention_version: 0, compiler_introduction_version: vec![] };
    let bytes = write_header(&empty);
    assert_eq!(bytes, vec![0, 0, 0, 0, 0]);
    let back = read_header(&bytes).unwrap();
    assert!(back.compiler_introduction_version.is_empty());
}

#[test]
fn header_stream_after_header_is_not_read() {
    let mut bytes = new_header();
    bytes.extend_from_slice(&[0x08, 0x10, 0x00, 0xff]);
    let h = read_header(&bytes).unwrap();
    assert_eq!(h.compiler_introduction_version, b"0.0.1".to_vec());
    assert_eq!(h.encoded_len(), 10);
}

#[test]
fn write_header_is_big_endian() {
    let h = Header { convention_version: 0x01020304, compiler_introduction_version: b"v".to_vec() };
    assert_eq!(write_header(&h), vec![1, 2, 3, 4, b'v', 0]);
}

#[test]
fn short_buffers_are_truncated() {
    let buf = [0u8, 0, 0, 0, 0];
    for n in 0..5 {
        assert!(matches!(read_header(&buf[..n]), Err(VmError::Truncated)));
    }
    let high = [0xffu8, 0xff, 0xff, 0xff];
    for n in 0..5 {
        assert!(matches!(read_header(&high[..n.min(4)]), Err(VmError::Truncated)));
    }
}

#[test]
fn missing_terminator_is_truncated() {
    assert!(matches!(read_header(&[0, 0, 0, 0, b'0', b'.']), Err(VmError::Truncated)));
}

#[test]
fn newer_version_is_unsupported() {
    assert!(matches!(read_header(&[0, 0, 0, 1, 0]), Err(VmError::UnsupportedVersion)));
    assert!(matches!(read_header(&[1, 0, 0, 0, b'a', 0]), Err(VmError::UnsupportedVersion)));
}
