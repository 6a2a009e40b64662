use wasm_parser::bytecode::Bytecode;
use wasm_parser::error::DecodeError;

fn encode(v: u64) -> Vec<u8> {
    let mut out = Vec::new();
    leb128::write::unsigned(&mut out, v).unwrap();
    out
}

fn read_u32_at(bytes: Vec<u8>, start: usize) -> (Result<u32, DecodeError>, usize) {
    let b = Bytecode::new(bytes);
    let mut offset = start;
    let r = b.read_u32(&mut offset);
    (r, offset)
}

#[test]
fn varuint_round_trip_values() {
    for v in [0u32, 1, 63, 64, 127, 128, 255, 300, 16383, 16384, 624485, 1 << 28, u32::MAX] {
        let enc = encode(v as u64);
        let mut bytes = vec![0xaa, 0xbb];
        bytes.extend_from_slice(&enc);
        bytes.push(0x7f);
        let (r, offset) = read_u32_at(bytes, 2);
        assert_eq!(r, Ok(v));
        assert_eq!(offset, 2 + enc.len());
    }
}

#[test]
fn varuint_known_encoding() {
    let (r, offset) = read_u32_at(vec![0xe5, 0x8e, 0x26], 0);
    assert_eq!(r, Ok(624485));
    assert_eq!(offset, 3);
}

#[test]
fn varuint_six_groups_overflow() {
    let (r, offset) = read_u32_at(vec![0x80, 0x80, 0x80, 0x80, 0x80, 0x00], 0);
    assert_eq!(r, Err(DecodeError::IntegerOverflow));
    assert_eq!(offset, 0);
}

#[test]
fn varuint_fifth_group_too_large() {
    let (r, _) = read_u32_at(vec![0xff, 0xff, 0xff, 0xff, 0x1f], 0);
    assert_eq!(r, Err(DecodeError::IntegerOverflow));
    let (r, _) = read_u32_at(vec![0xff, 0xff, 0xff, 0xff, 0x10], 0);
    assert_eq!(r, Err(DecodeError::IntegerOverflow));
    let (r, _) = read_u32_at(vec![0xff, 0xff, 0xff, 0xff, 0x0f], 0);
    assert_eq!(r, Ok(u32::MAX));
}

#[test]
fn varuint_ends_mid_sequence() {
    let (r, offset) = read_u32_at(vec![0x01, 0x80, 0x80], 1);
    assert_eq!(r, Err(DecodeError::UnexpectedEnd));
    assert_eq!(offset, 1);
    let (r, _) = read_u32_at(vec![0x01], 1);
    assert_eq!(r, Err(DecodeError::UnexpectedEnd));
    let (r, _) = read_u32_at(vec![0x01], 5);
    assert_eq!(r, Err(DecodeError::UnexpectedEnd));
}

#[test]
fn read_char_advances_and_stops_at_end() {
    let b = Bytecode::new(vec![0x10, 0x20]);
    let mut offset = 0;
    assert_eq!(b.read_char(&mut offset), Ok(0x10));
    assert_eq!(b.read_char(&mut offset), Ok(0x20));
    assert_eq!(offset, 2);
    assert_eq!(b.read_char(&mut offset), Err(DecodeError::UnexpectedEnd));
    assert_eq!(offset, 2);
    assert_eq!(b.len(), 2);
}

#[test]
fn read_string_reads_text() {
    let b = Bytecode::new(vec![0x00, 0x03, b'r', b'u', b'n', 0x09]);
    let mut offset = 1;
    assert_eq!(b.read_string(&mut offset), Ok("run".to_string()));
    assert_eq!(offset, 5);
}

#[test]
fn read_string_multibyte_text() {
    let b = Bytecode::new(vec![0x02, 0xc3, 0xa9]);
    let mut offset = 0;
    assert_eq!(b.read_string(&mut offset), Ok("é".to_string()));
    assert_eq!(offset, 3);
}

#[test]
fn read_string_invalid_utf8() {
    let b = Bytecode::new(vec![0x02, 0xff, 0xfe]);
    let mut offset = 0;
    assert_eq!(b.read_string(&mut offset), Err(DecodeError::InvalidUtf8));
    assert_eq!(offset, 0);
}

#[test]
fn read_string_too_short() {
    let b = Bytecode::new(vec![0x04, b'a', b'b']);
    let mut offset = 0;
    assert_eq!(b.read_string(&mut offset), Err(DecodeError::UnexpectedEnd));
}

#[test]
fn read_string_empty() {
    let b = Bytecode::new(vec![0x00]);
    let mut offset = 0;
    assert_eq!(b.read_string(&mut offset), Ok(String::new()));
    assert_eq!(offset, 1);
}
