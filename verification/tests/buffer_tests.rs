use binfiddle::{BinaryData, BinfiddleError};

#[test]
fn test_empty_binarydata_with_default_chunk_size() {
    let result = BinaryData::new(Vec::new(), 8, 16);
    assert!(
        result.is_ok(),
        "Empty buffer with chunk_size=8 should be valid"
    );

    let data = result.unwrap();
    assert_eq!(data.len(), 0);
    assert_eq!(data.get_chunk_size(), 8);
    assert_eq!(data.get_width(), 16);
}

#[test]
fn test_empty_binarydata_with_various_chunk_sizes() {
    for chunk_size in [1, 4, 8, 16, 32, 64] {
        let result = BinaryData::new(Vec::new(), chunk_size, 16);
        assert!(
            result.is_ok(),
            "Empty buffer should work with chunk_size={}",
            chunk_size
        );
    }
}

#[test]
fn test_empty_binarydata_rejects_zero_chunk_size() {
    let result = BinaryData::new(Vec::new(), 0, 16);
    assert!(result.is_err(), "chunk_size=0 should always be invalid");

    match result {
        Err(BinfiddleError::InvalidChunkSize(size)) => {
            assert_eq!(size, 0);
        }
        _ => panic!("Expected InvalidChunkSize error"),
    }
}

#[test]
fn test_non_empty_binarydata_chunk_size_validation() {
    let data = vec![0xDE, 0xAD];

    assert!(BinaryData::new(data.clone(), 8, 16).is_ok());
    assert!(BinaryData::new(data.clone(), 16, 16).is_ok());

    let result = BinaryData::new(data.clone(), 17, 16);
    assert!(
        result.is_err(),
        "chunk_size=17 should be invalid for 2-byte data"
    );

    match result {
        Err(BinfiddleError::InvalidChunkSize(size)) => {
            assert_eq!(size, 17);
        }
        _ => panic!("Expected InvalidChunkSize error"),
    }
}

#[test]
fn test_set_chunk_size_on_empty_data() {
    let mut data = BinaryData::new(Vec::new(), 8, 16).unwrap();

    assert!(data.set_chunk_size(16).is_ok());
    assert_eq!(data.get_chunk_size(), 16);

    assert!(data.set_chunk_size(32).is_ok());
    assert_eq!(data.get_chunk_size(), 32);

    assert!(data.set_chunk_size(0).is_err());
}

#[test]
fn test_set_chunk_size_on_non_empty_data() {
    let mut data = BinaryData::new(vec![0xDE, 0xAD], 8, 16).unwrap();

    assert!(data.set_chunk_size(8).is_ok());
    assert!(data.set_chunk_size(16).is_ok());

    assert!(data.set_chunk_size(17).is_err());
    assert!(data.set_chunk_size(100).is_err());
}

#[test]
fn test_diff_command_scenario() {
    let dummy_data = BinaryData::new(Vec::new(), 8, 16);
    assert!(
        dummy_data.is_ok(),
        "The diff command's placeholder buffer creation should succeed"
    );
}

#[test]
fn test_read_range_and_bounds() {
    let buf = BinaryData::new(vec![0x10, 0x20, 0x30, 0x40], 8, 16).unwrap();
    let chunk = buf.read_range(1, Some(3)).unwrap();
    assert_eq!(chunk.get_bytes(), &[0x20, 0x30]);
    assert_eq!(chunk.get_bit_length(), 8);

    assert!(buf.read_range(4, None).is_err());
    assert!(buf.read_range(2, Some(2)).is_err());
    assert!(buf.read_range(0, Some(5)).is_err());
}

#[test]
fn test_write_insert_remove_roundtrip() {
    let mut buf = BinaryData::new(vec![0x00, 0x01, 0x02, 0x03], 8, 16).unwrap();

    buf.write_range(1, &[0xAA, 0xBB]).unwrap();
    assert_eq!(buf.read_range(0, None).unwrap().get_bytes(), &[
        0x00, 0xAA, 0xBB, 0x03
    ]);

    buf.insert_data(2, &[0x77]).unwrap();
    assert_eq!(buf.read_range(0, None).unwrap().get_bytes(), &[
        0x00, 0xAA, 0x77, 0xBB, 0x03
    ]);

    buf.remove_range(1, 3).unwrap();
    assert_eq!(buf.read_range(0, None).unwrap().get_bytes(), &[
        0x00, 0xBB, 0x03
    ]);

    assert!(buf.write_range(2, &[0x01, 0x02]).is_err());
    assert!(buf.insert_data(9, &[0x00]).is_err());
    assert!(buf.remove_range(2, 1).is_err());
}
