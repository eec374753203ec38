use std::collections::VecDeque;
use std::sync::Arc;

use columnar::array::{Array, PrimitiveArray, Utf8Array};
use columnar::compression::{compress_lz4, compress_zstd};
use columnar::datatypes::DataType;
use columnar::dictionaries::Dictionaries;
use columnar::error::{CompressionKind, Error};
use columnar::reconstruct::{
    read_array, read_dictionary, read_primitive, skip_array, skip_dictionary, skip_primitive,
    BufferDesc, Node, TypeShape,
};

fn le_bytes_of(values: &[i32]) -> Vec<u8> {
    let mut bytes = vec![];
    for v in values {
        bytes.extend_from_slice(&v.to_le_bytes());
    }
    bytes
}

#[test]
fn primitive_with_nulls() {
    // validity byte 0b0000_0101: slots 0 and 2 valid, slot 1 null
    let mut body = vec![0b0000_0101u8];
    body.extend_from_slice(&le_bytes_of(&[7, 0, 9]));
    let mut nodes: VecDeque<Node> = VecDeque::from(vec![Node { length: 3, null_count: 1 }]);
    let mut buffers: VecDeque<BufferDesc> = VecDeque::from(vec![
        BufferDesc { offset: 0, length: 1 },
        BufferDesc { offset: 1, length: 12 },
    ]);
    let array = read_primitive(&mut nodes, &mut buffers, &body, None).unwrap();
    assert_eq!(array.len(), 3);
    assert!(array.is_valid(0));
    assert!(!array.is_valid(1));
    assert!(array.is_valid(2));
    assert_eq!(*array.value_at(0), 7);
    assert_eq!(*array.value_at(2), 9);
    assert!(matches!(array.data_type(), DataType::Int32));
    assert!(nodes.is_empty());
    assert!(buffers.is_empty());
}

#[test]
fn primitive_truncated_body() {
    let body = le_bytes_of(&[1]);
    let mut nodes: VecDeque<Node> = VecDeque::from(vec![Node { length: 2, null_count: 0 }]);
    let mut buffers: VecDeque<BufferDesc> = VecDeque::from(vec![
        BufferDesc { offset: 0, length: 0 },
        BufferDesc { offset: 0, length: 8 },
    ]);
    let r = read_primitive(&mut nodes, &mut buffers, &body, None);
    assert!(matches!(r, Err(Error::TruncatedInput)));
}

#[test]
fn list_of_integers() {
    // offsets [0,1,3] then child values [10,20,30]
    let mut body = le_bytes_of(&[0, 1, 3]);
    body.extend_from_slice(&le_bytes_of(&[10, 20, 30]));
    let shape = TypeShape::List(Box::new(TypeShape::Primitive));
    let mut nodes: VecDeque<Node> = VecDeque::from(vec![
        Node { length: 2, null_count: 0 },
        Node { length: 3, null_count: 0 },
    ]);
    let mut buffers: VecDeque<BufferDesc> = VecDeque::from(vec![
        BufferDesc { offset: 0, length: 0 },
        BufferDesc { offset: 0, length: 12 },
        BufferDesc { offset: 0, length: 0 },
        BufferDesc { offset: 12, length: 12 },
    ]);
    let dictionaries = Dictionaries::new();
    let array = read_array(&shape, &mut nodes, &mut buffers, &body, None, &dictionaries).unwrap();
    let list = match array {
        Array::List(list) => list,
        _ => panic!("expected a list"),
    };
    assert_eq!(list.len(), 2);
    assert_eq!(list.offset_at(0), 0);
    assert_eq!(list.offset_at(1), 1);
    assert_eq!(list.offset_at(2), 3);
    match list.values() {
        Array::Int32(child) => {
            assert_eq!(child.len(), 3);
            assert_eq!(*child.value_at(0), 10);
            assert_eq!(*child.value_at(1), 20);
            assert_eq!(*child.value_at(2), 30);
        },
        _ => panic!("expected an integer child"),
    }
    assert!(nodes.is_empty());
    assert!(buffers.is_empty());
}

fn registered_dictionaries() -> Dictionaries {
    let mut dictionaries = Dictionaries::new();
    let values = Utf8Array::from_values(vec![String::from("x"), String::from("y")]);
    dictionaries.insert(7, Arc::new(Array::Utf8(values)));
    dictionaries
}

#[test]
fn dictionary_resolution_and_keys() {
    let dictionaries = registered_dictionaries();
    let body = le_bytes_of(&[1, 0]);
    let mut nodes: VecDeque<Node> = VecDeque::from(vec![Node { length: 2, null_count: 0 }]);
    let mut buffers: VecDeque<BufferDesc> = VecDeque::from(vec![
        BufferDesc { offset: 0, length: 0 },
        BufferDesc { offset: 0, length: 8 },
    ]);
    let array = read_dictionary(&mut nodes, &mut buffers, &body, None, &dictionaries, 7).unwrap();
    assert_eq!(array.len(), 2);
    assert_eq!(array.key_at(0), 1);
    assert_eq!(array.key_at(1), 0);
    match array.values() {
        Array::Utf8(values) => {
            assert_eq!(values.value_at(array.key_at(0) as usize).as_str(), "y");
            assert_eq!(values.value_at(array.key_at(1) as usize).as_str(), "x");
        },
        _ => panic!("expected string dictionary values"),
    }
}

#[test]
fn unknown_dictionary_id_lists_known_ids() {
    let dictionaries = registered_dictionaries();
    let body = le_bytes_of(&[0]);
    let mut nodes: VecDeque<Node> = VecDeque::from(vec![Node { length: 1, null_count: 0 }]);
    let mut buffers: VecDeque<BufferDesc> = VecDeque::from(vec![
        BufferDesc { offset: 0, length: 0 },
        BufferDesc { offset: 0, length: 4 },
    ]);
    let r = read_dictionary(&mut nodes, &mut buffers, &body, None, &dictionaries, 9);
    match r {
        Err(Error::UnknownDictionaryId { id, known }) => {
            assert_eq!(id, 9);
            assert_eq!(known, vec![7]);
        },
        _ => panic!("expected an unknown-id error"),
    }
    // nothing was consumed: the column is aborted before the keys are read
    assert_eq!(nodes.len(), 1);
    assert_eq!(buffers.len(), 2);
}

#[test]
fn resolution_on_empty_table_lists_nothing() {
    let dictionaries = Dictionaries::new();
    let r = dictionaries.resolve(3);
    match r {
        Err(Error::UnknownDictionaryId { id, known }) => {
            assert_eq!(id, 3);
            assert!(known.is_empty());
        },
        _ => panic!("expected an unknown-id error"),
    }
}

#[test]
fn resolve_returns_what_was_registered() {
    let dictionaries = registered_dictionaries();
    let values = dictionaries.resolve(7).unwrap();
    match &*values {
        Array::Utf8(values) => {
            assert_eq!(values.len(), 2);
            assert_eq!(values.value_at(0).as_str(), "x");
        },
        _ => panic!("expected the registered strings"),
    }
}

#[test]
fn skip_consumes_as_much_as_read() {
    let shape = TypeShape::List(Box::new(TypeShape::Dictionary(7)));
    let dictionaries = registered_dictionaries();
    let mut body = le_bytes_of(&[0, 2]);
    body.extend_from_slice(&le_bytes_of(&[0, 1]));
    let nodes = vec![Node { length: 1, null_count: 0 }, Node { length: 2, null_count: 0 }];
    let buffers = vec![
        BufferDesc { offset: 0, length: 0 },
        BufferDesc { offset: 0, length: 8 },
        BufferDesc { offset: 0, length: 0 },
        BufferDesc { offset: 8, length: 8 },
    ];

    let mut read_nodes: VecDeque<Node> = VecDeque::from(nodes.clone());
    let mut read_buffers: VecDeque<BufferDesc> = VecDeque::from(buffers.clone());
    read_array(&shape, &mut read_nodes, &mut read_buffers, &body, None, &dictionaries).unwrap();

    let mut skip_nodes: VecDeque<Node> = VecDeque::from(nodes);
    let mut skip_buffers: VecDeque<BufferDesc> = VecDeque::from(buffers);
    skip_array(&shape, &mut skip_nodes, &mut skip_buffers);

    assert_eq!(read_nodes.len(), skip_nodes.len());
    assert_eq!(read_buffers.len(), skip_buffers.len());
    assert!(skip_nodes.is_empty());
    assert!(skip_buffers.is_empty());
}

#[test]
fn skip_primitive_matches_dictionary_rule() {
    let mut nodes: VecDeque<Node> = VecDeque::from(vec![
        Node { length: 1, null_count: 0 },
        Node { length: 1, null_count: 0 },
    ]);
    let mut buffers: VecDeque<BufferDesc> = VecDeque::from(vec![
        BufferDesc { offset: 0, length: 0 },
        BufferDesc { offset: 0, length: 4 },
        BufferDesc { offset: 0, length: 0 },
        BufferDesc { offset: 0, length: 4 },
    ]);
    skip_primitive(&mut nodes, &mut buffers);
    assert_eq!((nodes.len(), buffers.len()), (1, 2));
    skip_dictionary(&mut nodes, &mut buffers);
    assert_eq!((nodes.len(), buffers.len()), (0, 0));
}

#[test]
fn compressed_primitive_body() {
    // one buffer: 8-byte little-endian decompressed length, then the frame
    let raw = le_bytes_of(&[5, 6]);
    let mut frame = vec![];
    compress_lz4(&raw, &mut frame).unwrap();
    let mut body = (raw.len() as u64).to_le_bytes().to_vec();
    body.extend_from_slice(&frame);

    let mut nodes: VecDeque<Node> = VecDeque::from(vec![Node { length: 2, null_count: 0 }]);
    let mut buffers: VecDeque<BufferDesc> = VecDeque::from(vec![
        BufferDesc { offset: 0, length: 0 },
        BufferDesc { offset: 0, length: body.len() },
    ]);
    let array = read_primitive(
        &mut nodes,
        &mut buffers,
        &body,
        Some(CompressionKind::Lz4),
    )
    .unwrap();
    assert_eq!(array.len(), 2);
    assert_eq!(*array.value_at(0), 5);
    assert_eq!(*array.value_at(1), 6);
}

#[test]
fn compressed_dictionary_keys() {
    // keys buffer compressed with ZSTD: 8-byte declared length, then the frame
    let dictionaries = registered_dictionaries();
    let raw = le_bytes_of(&[0, 1]);
    let mut frame = vec![];
    compress_zstd(&raw, &mut frame).unwrap();
    let mut body = (raw.len() as u64).to_le_bytes().to_vec();
    body.extend_from_slice(&frame);

    let mut nodes: VecDeque<Node> = VecDeque::from(vec![Node { length: 2, null_count: 0 }]);
    let mut buffers: VecDeque<BufferDesc> = VecDeque::from(vec![
        BufferDesc { offset: 0, length: 0 },
        BufferDesc { offset: 0, length: body.len() },
    ]);
    let array = read_dictionary(
        &mut nodes,
        &mut buffers,
        &body,
        Some(CompressionKind::Zstd),
        &dictionaries,
        7,
    )
    .unwrap();
    assert_eq!(array.len(), 2);
    assert_eq!(array.key_at(0), 0);
    assert_eq!(array.key_at(1), 1);
    match array.values() {
        Array::Utf8(values) => {
            assert_eq!(values.value_at(0).as_str(), "x");
            assert_eq!(values.value_at(1).as_str(), "y");
        },
        _ => panic!("expected string dictionary values"),
    }
}

#[test]
fn negative_values_decode_exactly() {
    let body = le_bytes_of(&[-1, i32::MIN, i32::MAX]);
    let mut nodes: VecDeque<Node> = VecDeque::from(vec![Node { length: 3, null_count: 0 }]);
    let mut buffers: VecDeque<BufferDesc> = VecDeque::from(vec![
        BufferDesc { offset: 0, length: 0 },
        BufferDesc { offset: 0, length: 12 },
    ]);
    let array: PrimitiveArray<i32> =
        read_primitive(&mut nodes, &mut buffers, &body, None).unwrap();
    assert_eq!(*array.value_at(0), -1);
    assert_eq!(*array.value_at(1), i32::MIN);
    assert_eq!(*array.value_at(2), i32::MAX);
}
