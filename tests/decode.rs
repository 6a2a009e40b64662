use wasm_parser::bytecode::Bytecode;
use wasm_parser::error::DecodeError;
use wasm_parser::module::{
    parse, read_exports, read_functions, read_types, try_read_functions, CodeSection,
    ExportType, Function, ValueType,
};
use wasm_parser::section::{find_section_by_id, get_section_by_id, read_sections, SectionId};

const HEADER: [u8; 8] = [0x00, 0x61, 0x73, 0x6d, 0x01, 0x00, 0x00, 0x00];

fn section(id: u8, content: &[u8]) -> Vec<u8> {
    let mut out = vec![id];
    leb128::write::unsigned(&mut out, content.len() as u64).unwrap();
    out.extend_from_slice(content);
    out
}

fn types_content() -> Vec<u8> {
    vec![0x01, 0x60, 0x00, 0x01, 0x7f]
}

fn functions_content() -> Vec<u8> {
    vec![0x01, 0x00]
}

fn code_content() -> Vec<u8> {
    vec![0x01, 0x02, 0x00, 0x0b]
}

fn exports_content() -> Vec<u8> {
    vec![0x01, 0x03, b'r', b'u', b'n', 0x00, 0x00]
}

fn build(parts: &[(u8, Vec<u8>)]) -> Vec<u8> {
    let mut out = HEADER.to_vec();
    for (id, content) in parts {
        out.extend(section(*id, content));
    }
    out
}

fn scenario() -> Vec<u8> {
    build(&[
        (1, types_content()),
        (3, functions_content()),
        (10, code_content()),
        (7, exports_content()),
    ])
}

#[test]
fn scenario_minimal_module() {
    let bytes = scenario();
    let m = parse(Bytecode::new(bytes.clone())).unwrap();
    assert_eq!(m.types().len(), 1);
    assert!(m.types()[0].params().is_empty());
    assert_eq!(m.types()[0].results(), &vec![ValueType::I32]);
    assert_eq!(m.functions().len(), 1);
    assert_eq!(m.functions()[0].type_idx, 0);
    assert_eq!(m.functions()[0].offset, 24);
    assert_eq!(bytes[24], 0x0b);
    assert_eq!(m.exports().len(), 1);
    assert_eq!(m.exports()[0].name(), "run");
    assert_eq!(m.exports()[0].export_type(), ExportType::Func);
    assert_eq!(m.exports()[0].exportee_idx(), 0);
    assert_eq!(m.bytecode().len(), bytes.len());
}

#[test]
fn code_length_reduced_is_truncated() {
    let mut bytes = scenario();
    // tag of the code section at 19, its length at 20
    assert_eq!(bytes[19], 0x0a);
    assert_eq!(bytes[20], 0x04);
    bytes[20] = 0x03;
    assert_eq!(parse(Bytecode::new(bytes)).unwrap_err(), DecodeError::TruncatedSection);
}

#[test]
fn buffer_cut_short_is_truncated() {
    let mut bytes = scenario();
    bytes.pop();
    assert_eq!(parse(Bytecode::new(bytes)).unwrap_err(), DecodeError::TruncatedSection);
}

#[test]
fn parse_twice_gives_equal_modules() {
    let a = parse(Bytecode::new(scenario())).unwrap();
    let b = parse(Bytecode::new(scenario())).unwrap();
    assert_eq!(a, b);
    let mut bad = scenario();
    bad[20] = 0x03;
    assert_eq!(
        parse(Bytecode::new(bad.clone())).unwrap_err(),
        parse(Bytecode::new(bad)).unwrap_err()
    );
}

#[test]
fn bad_header_rejected() {
    assert_eq!(parse(Bytecode::new(vec![])).unwrap_err(), DecodeError::BadHeader);
    assert_eq!(parse(Bytecode::new(HEADER[..7].to_vec())).unwrap_err(), DecodeError::BadHeader);
    let mut wrong_magic = scenario();
    wrong_magic[1] = 0x62;
    assert_eq!(parse(Bytecode::new(wrong_magic)).unwrap_err(), DecodeError::BadHeader);
    let mut wrong_version = scenario();
    wrong_version[4] = 0x02;
    assert_eq!(parse(Bytecode::new(wrong_version)).unwrap_err(), DecodeError::BadHeader);
    let headerless = scenario()[8..].to_vec();
    assert_eq!(parse(Bytecode::new(headerless)).unwrap_err(), DecodeError::BadHeader);
}

#[test]
fn header_alone_misses_code_section() {
    assert_eq!(
        parse(Bytecode::new(HEADER.to_vec())).unwrap_err(),
        DecodeError::MissingSection(SectionId::Code)
    );
}

#[test]
fn missing_exports_section() {
    let bytes = build(&[(1, types_content()), (3, functions_content()), (10, code_content())]);
    assert_eq!(
        parse(Bytecode::new(bytes)).unwrap_err(),
        DecodeError::MissingSection(SectionId::Exports)
    );
}

#[test]
fn missing_function_body() {
    let bytes = build(&[
        (1, types_content()),
        (3, vec![0x03, 0x00, 0x00, 0x00]),
        (10, code_content()),
        (7, exports_content()),
    ]);
    assert_eq!(parse(Bytecode::new(bytes)).unwrap_err(), DecodeError::MissingFunctionBody(1));
}

#[test]
fn try_read_functions_pairs_bodies() {
    let b = Bytecode::new(scenario());
    let sections = read_sections(&b).unwrap();
    let fns = try_read_functions(&b, &sections).unwrap();
    assert_eq!(fns, vec![Function { offset: 24, type_idx: 0 }]);
}

#[test]
fn try_read_functions_missing_body() {
    let b = Bytecode::new(build(&[(3, vec![0x02, 0x00, 0x00]), (10, code_content())]));
    let sections = read_sections(&b).unwrap();
    assert_eq!(try_read_functions(&b, &sections), Err(DecodeError::MissingFunctionBody(1)));
}

#[test]
fn try_read_functions_missing_sections() {
    let b = Bytecode::new(build(&[(3, functions_content())]));
    let sections = read_sections(&b).unwrap();
    assert_eq!(
        try_read_functions(&b, &sections),
        Err(DecodeError::MissingSection(SectionId::Code))
    );
    let b = Bytecode::new(build(&[(10, code_content())]));
    let sections = read_sections(&b).unwrap();
    assert_eq!(
        try_read_functions(&b, &sections),
        Err(DecodeError::MissingSection(SectionId::Functions))
    );
}

#[test]
fn malformed_type_form() {
    let bytes = build(&[
        (1, vec![0x02, 0x60, 0x00, 0x00, 0x61, 0x00, 0x00]),
        (3, functions_content()),
        (10, code_content()),
        (7, exports_content()),
    ]);
    assert_eq!(parse(Bytecode::new(bytes.clone())).unwrap_err(), DecodeError::MalformedType);
    let b = Bytecode::new(bytes);
    let sections = read_sections(&b).unwrap();
    let types = get_section_by_id(&sections, SectionId::Types).unwrap();
    assert_eq!(read_types(&b, types), Err(DecodeError::MalformedType));
}

#[test]
fn unknown_value_type() {
    let bytes = build(&[
        (1, vec![0x01, 0x60, 0x01, 0x40, 0x00]),
        (3, functions_content()),
        (10, code_content()),
        (7, exports_content()),
    ]);
    assert_eq!(parse(Bytecode::new(bytes)).unwrap_err(), DecodeError::UnknownValueType(0x40));
}

#[test]
fn all_value_types_decode() {
    let b = Bytecode::new(build(&[(1, vec![0x01, 0x60, 0x04, 0x7f, 0x7e, 0x7d, 0x7c, 0x01, 0x7e])]));
    let sections = read_sections(&b).unwrap();
    let types = read_types(&b, &sections[0]).unwrap();
    assert_eq!(
        types[0].params(),
        &vec![ValueType::I32, ValueType::I64, ValueType::F32, ValueType::F64]
    );
    assert_eq!(types[0].results(), &vec![ValueType::I64]);
}

#[test]
fn unknown_export_kind() {
    let bytes = build(&[
        (1, types_content()),
        (3, functions_content()),
        (10, code_content()),
        (7, vec![0x01, 0x01, b'x', 0x04, 0x00]),
    ]);
    assert_eq!(parse(Bytecode::new(bytes)).unwrap_err(), DecodeError::UnknownExportKind(4));
}

#[test]
fn export_kinds_decode() {
    let b = Bytecode::new(build(&[(
        7,
        vec![0x03, 0x01, b't', 0x01, 0x05, 0x01, b'm', 0x02, 0x00, 0x01, b'g', 0x03, 0x81, 0x01],
    )]));
    let sections = read_sections(&b).unwrap();
    let exports = read_exports(&b, &sections[0]).unwrap();
    assert_eq!(exports.len(), 3);
    assert_eq!(exports[0].name(), "t");
    assert_eq!(exports[0].export_type(), ExportType::Table);
    assert_eq!(exports[0].exportee_idx(), 5);
    assert_eq!(exports[1].export_type(), ExportType::Mem);
    assert_eq!(exports[2].export_type(), ExportType::Global);
    assert_eq!(exports[2].exportee_idx(), 129);
}

#[test]
fn export_name_invalid_utf8() {
    let b = Bytecode::new(build(&[(7, vec![0x01, 0x01, 0xff, 0x00, 0x00])]));
    let sections = read_sections(&b).unwrap();
    assert_eq!(read_exports(&b, &sections[0]), Err(DecodeError::InvalidUtf8));
}

#[test]
fn unknown_sections_are_skipped() {
    let bytes = build(&[
        (0, vec![0x04, b'n', b'a', b'm', b'e', 0xff, 0xff]),
        (1, types_content()),
        (3, functions_content()),
        (42, vec![]),
        (10, code_content()),
        (7, exports_content()),
    ]);
    let m = parse(Bytecode::new(bytes)).unwrap();
    assert_eq!(m.functions().len(), 1);
    assert_eq!(m.exports()[0].name(), "run");
}

#[test]
fn sections_cover_buffer() {
    let bytes = scenario();
    let b = Bytecode::new(bytes.clone());
    let sections = read_sections(&b).unwrap();
    let ids: Vec<SectionId> = sections.iter().map(|s| s.id).collect();
    assert_eq!(ids, vec![SectionId::Types, SectionId::Functions, SectionId::Code, SectionId::Exports]);
    let mut total = 0;
    let mut start = 8;
    for s in &sections {
        let field = s.offset - (start + 1);
        total += 1 + field + s.length as usize;
        start = s.offset + s.length as usize;
    }
    assert_eq!(total, bytes.len() - 8);
    assert_eq!(sections[2].offset, 21);
    assert_eq!(sections[2].length, 4);
}

#[test]
fn long_section_length_field() {
    let content = vec![0u8; 200];
    let bytes = build(&[(99, content)]);
    let b = Bytecode::new(bytes.clone());
    let sections = read_sections(&b).unwrap();
    assert_eq!(sections.len(), 1);
    assert_eq!(sections[0].id, SectionId::Unknown(99));
    assert_eq!(sections[0].offset, 11);
    assert_eq!(sections[0].length, 200);
    assert_eq!(1 + 2 + 200, bytes.len() - 8);
}

#[test]
fn find_section_first_of_kind() {
    let b = Bytecode::new(build(&[(7, vec![0x00]), (7, vec![0x00, 0x00])]));
    let sections = read_sections(&b).unwrap();
    let found = find_section_by_id(&sections, SectionId::Exports).unwrap();
    assert_eq!(found.length, 1);
    assert!(find_section_by_id(&sections, SectionId::Types).is_none());
}

#[test]
fn code_bodies_skip_local_declarations() {
    // two bodies: one with two local groups, one with none
    let code = vec![0x02, 0x06, 0x02, 0x01, 0x7f, 0x02, 0x7e, 0x0b, 0x02, 0x00, 0x0b];
    let b = Bytecode::new(build(&[(10, code), (3, vec![0x02, 0x00, 0x00])]));
    let sections = read_sections(&b).unwrap();
    let code = CodeSection::from_section(&sections[0], &b).unwrap();
    // section content starts at 10; first body's instructions at 10 + 7
    assert_eq!(code.get_code_offset_for_fn(0), Ok(17));
    assert_eq!(code.get_code_offset_for_fn(1), Ok(20));
    assert_eq!(code.get_code_offset_for_fn(2), Err(DecodeError::MissingFunctionBody(2)));
    let fns = read_functions(&b, &sections[1], &code).unwrap();
    assert_eq!(fns[1], Function { offset: 20, type_idx: 0 });
}

#[test]
fn code_body_past_end() {
    let b = Bytecode::new(build(&[(10, vec![0x01, 0x09, 0x00, 0x0b])]));
    let sections = read_sections(&b).unwrap();
    assert!(matches!(
        CodeSection::from_section(&sections[0], &b),
        Err(DecodeError::UnexpectedEnd)
    ));
}

#[test]
fn code_local_with_unknown_type() {
    let b = Bytecode::new(build(&[(10, vec![0x01, 0x04, 0x01, 0x01, 0x55, 0x0b])]));
    let sections = read_sections(&b).unwrap();
    assert!(matches!(
        CodeSection::from_section(&sections[0], &b),
        Err(DecodeError::UnknownValueType(0x55))
    ));
}

#[test]
fn invalid_type_index() {
    let bytes = build(&[
        (1, types_content()),
        (3, vec![0x01, 0x01]),
        (10, code_content()),
        (7, exports_content()),
    ]);
    assert_eq!(parse(Bytecode::new(bytes)).unwrap_err(), DecodeError::InvalidTypeIndex(0));
}

#[test]
fn invalid_export_target() {
    let bytes = build(&[
        (1, types_content()),
        (3, functions_content()),
        (10, code_content()),
        (7, vec![0x02, 0x01, b'a', 0x02, 0x09, 0x01, b'b', 0x00, 0x01]),
    ]);
    assert_eq!(parse(Bytecode::new(bytes)).unwrap_err(), DecodeError::InvalidExportTarget(1));
}

#[test]
fn wide_type_index() {
    let mut types = vec![0x81, 0x02];
    for _ in 0..257 {
        types.extend_from_slice(&[0x60, 0x00, 0x00]);
    }
    let bytes = build(&[
        (1, types),
        (3, vec![0x01, 0x80, 0x02]),
        (10, code_content()),
        (7, exports_content()),
    ]);
    let m = parse(Bytecode::new(bytes)).unwrap();
    assert_eq!(m.types().len(), 257);
    assert_eq!(m.functions()[0].type_idx, 256);
}

#[test]
fn section_length_field_overflow() {
    let mut bytes = HEADER.to_vec();
    bytes.extend_from_slice(&[0x01, 0xff, 0xff, 0xff, 0xff, 0xff, 0x01]);
    assert_eq!(parse(Bytecode::new(bytes)).unwrap_err(), DecodeError::IntegerOverflow);
}

#[test]
fn section_id_tags() {
    assert_eq!(SectionId::from_tag(1), SectionId::Types);
    assert_eq!(SectionId::from_tag(3), SectionId::Functions);
    assert_eq!(SectionId::from_tag(7), SectionId::Exports);
    assert_eq!(SectionId::from_tag(10), SectionId::Code);
    assert_eq!(SectionId::from_tag(2), SectionId::Unknown(2));
    assert_eq!(ValueType::from_tag(0x7d), Ok(ValueType::F32));
    assert_eq!(ExportType::from_tag(3), Ok(ExportType::Global));
}
