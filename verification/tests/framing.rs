use columnar::error::Error;
use columnar::framing::{pad_to_8, write_continuation, write_message, EncodedData};

#[test]
fn message_scenario_two_byte_metadata() {
    // metadata "AB" with an 8-byte body: marker, length prefix for the padded
    // metadata block, "AB" plus six zero pad bytes, then the body unpadded
    let encoded = EncodedData {
        ipc_message: b"AB".to_vec(),
        arrow_data: vec![1, 2, 3, 4, 5, 6, 7, 8],
    };
    let mut sink: Vec<u8> = vec![];
    let (aligned_size, body_len) = write_message(&mut sink, &encoded).unwrap();
    assert_eq!(aligned_size, 16);
    assert_eq!(body_len, 8);
    assert_eq!(&sink[0..4], &[0xff, 0xff, 0xff, 0xff]);
    assert_eq!(&sink[4..8], &(8i32).to_le_bytes());
    assert_eq!(&sink[8..10], b"AB");
    assert_eq!(&sink[10..16], &[0, 0, 0, 0, 0, 0]);
    assert_eq!(&sink[16..24], &[1, 2, 3, 4, 5, 6, 7, 8]);
    assert_eq!(sink.len(), 24);
    assert_eq!(sink.len() % 8, 0);
}

#[test]
fn message_rejects_misaligned_body() {
    let encoded = EncodedData {
        ipc_message: b"meta".to_vec(),
        arrow_data: vec![1, 2, 3],
    };
    let mut sink: Vec<u8> = vec![];
    let r = write_message(&mut sink, &encoded);
    assert_eq!(r, Err(Error::MisalignedBody));
    assert!(sink.is_empty());
}

#[test]
fn metadata_only_message_is_legal() {
    let encoded = EncodedData { ipc_message: b"ABCDEFGH".to_vec(), arrow_data: vec![] };
    let mut sink: Vec<u8> = vec![];
    let (aligned_size, body_len) = write_message(&mut sink, &encoded).unwrap();
    assert_eq!(aligned_size, 16);
    assert_eq!(body_len, 0);
    assert_eq!(sink.len(), 16);
    assert_eq!(&sink[4..8], &(8i32).to_le_bytes());
    assert_eq!(&sink[8..16], b"ABCDEFGH");
}

#[test]
fn framing_round_trip_reads_back() {
    let metadata = b"some metadata bytes".to_vec();
    let body = vec![9u8; 48];
    let encoded = EncodedData { ipc_message: metadata.clone(), arrow_data: body.clone() };
    let mut sink: Vec<u8> = vec![];
    let (aligned_size, body_len) = write_message(&mut sink, &encoded).unwrap();

    // read the frame back: marker, length prefix, metadata, body
    assert_eq!(&sink[0..4], &[0xff, 0xff, 0xff, 0xff]);
    let prefix = i32::from_le_bytes([sink[4], sink[5], sink[6], sink[7]]);
    assert_eq!(prefix as usize, aligned_size - 8);
    assert_eq!(&sink[8..8 + metadata.len()], metadata.as_slice());
    assert_eq!(&sink[aligned_size..aligned_size + body_len], body.as_slice());
    assert_eq!(sink.len() % 8, 0);
}

#[test]
fn continuation_writes_marker_and_length() {
    let mut sink: Vec<u8> = vec![];
    let written = write_continuation(&mut sink, 300);
    assert_eq!(written, 8);
    assert_eq!(&sink[0..4], &[0xff, 0xff, 0xff, 0xff]);
    assert_eq!(&sink[4..8], &(300i32).to_le_bytes());
}

#[test]
fn pad_to_8_reaches_the_boundary() {
    assert_eq!(pad_to_8(0), 0);
    assert_eq!(pad_to_8(5), 3);
    assert_eq!(pad_to_8(8), 0);
    assert_eq!(pad_to_8(13), 3);
}
