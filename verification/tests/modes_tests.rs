use binfiddle::{
    BomMode, Endianness, ErrorMode, FieldType, NewlineMode, StructOutputFormat,
};

#[test]
fn test_newline_mode_from_str() {
    assert_eq!(NewlineMode::from_str("unix").unwrap(), NewlineMode::Unix);
    assert_eq!(NewlineMode::from_str("lf").unwrap(), NewlineMode::Unix);
    assert_eq!(
        NewlineMode::from_str("windows").unwrap(),
        NewlineMode::Windows
    );
    assert_eq!(NewlineMode::from_str("crlf").unwrap(), NewlineMode::Windows);
    assert_eq!(NewlineMode::from_str("mac").unwrap(), NewlineMode::Mac);
    assert_eq!(NewlineMode::from_str("cr").unwrap(), NewlineMode::Mac);
    assert_eq!(NewlineMode::from_str("keep").unwrap(), NewlineMode::Keep);
}

#[test]
fn test_newline_mode_invalid() {
    assert!(NewlineMode::from_str("invalid").is_err());
}

#[test]
fn test_newline_mode_bytes() {
    assert_eq!(NewlineMode::Unix.as_bytes(), vec![b'\n']);
    assert_eq!(NewlineMode::Windows.as_bytes(), vec![b'\r', b'\n']);
    assert_eq!(NewlineMode::Mac.as_bytes(), vec![b'\r']);
}

#[test]
fn test_bom_mode_from_str() {
    assert_eq!(BomMode::from_str("add").unwrap(), BomMode::Add);
    assert_eq!(BomMode::from_str("remove").unwrap(), BomMode::Remove);
    assert_eq!(BomMode::from_str("keep").unwrap(), BomMode::Keep);
    assert_eq!(BomMode::from_str("strip").unwrap(), BomMode::Remove);
}

#[test]
fn test_bom_mode_invalid() {
    assert!(BomMode::from_str("invalid").is_err());
}

#[test]
fn test_error_mode_from_str() {
    assert_eq!(ErrorMode::from_str("strict").unwrap(), ErrorMode::Strict);
    assert_eq!(ErrorMode::from_str("replace").unwrap(), ErrorMode::Replace);
    assert_eq!(ErrorMode::from_str("ignore").unwrap(), ErrorMode::Ignore);
}

#[test]
fn test_error_mode_invalid() {
    assert!(ErrorMode::from_str("invalid").is_err());
}

#[test]
fn test_endianness_from_str() {
    assert_eq!(Endianness::from_str("little").unwrap(), Endianness::Little);
    assert_eq!(Endianness::from_str("big").unwrap(), Endianness::Big);
    assert_eq!(Endianness::from_str("LE").unwrap(), Endianness::Little);
    assert_eq!(Endianness::from_str("BE").unwrap(), Endianness::Big);
    assert!(Endianness::from_str("invalid").is_err());
}

#[test]
fn test_output_format_from_str() {
    assert_eq!(
        StructOutputFormat::from_str("human").unwrap(),
        StructOutputFormat::Human
    );
    assert_eq!(
        StructOutputFormat::from_str("json").unwrap(),
        StructOutputFormat::Json
    );
    assert_eq!(
        StructOutputFormat::from_str("yaml").unwrap(),
        StructOutputFormat::Yaml
    );
    assert!(StructOutputFormat::from_str("invalid").is_err());
}

#[test]
fn test_field_type_from_str() {
    assert_eq!(FieldType::from_str("u8").unwrap(), FieldType::U8);
    assert_eq!(FieldType::from_str("u16").unwrap(), FieldType::U16);
    assert_eq!(FieldType::from_str("uint32").unwrap(), FieldType::U32);
    assert_eq!(
        FieldType::from_str("hex_string").unwrap(),
        FieldType::HexString
    );
    assert_eq!(FieldType::from_str("string").unwrap(), FieldType::String);
    assert!(FieldType::from_str("invalid").is_err());
}

#[test]
fn test_field_type_expected_sizes() {
    assert_eq!(FieldType::U8.expected_size(), Some(1));
    assert_eq!(FieldType::I16.expected_size(), Some(2));
    assert_eq!(FieldType::U32.expected_size(), Some(4));
    assert_eq!(FieldType::I64.expected_size(), Some(8));
    assert_eq!(FieldType::Bytes.expected_size(), None);
    assert_eq!(FieldType::String.expected_size(), None);
}
