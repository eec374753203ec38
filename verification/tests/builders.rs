use columnar::array::Array;
use columnar::builders::{
    DynMutableListArray, FixedItemsUtf8Dictionary, MutableArray, MutablePrimitiveArray,
};
use columnar::array::Utf8Array;
use columnar::datatypes::DataType;

fn int_child() -> MutableArray {
    MutableArray::Int32(MutablePrimitiveArray::with_capacity(0))
}

fn push_child(builder: &mut DynMutableListArray, value: i32) {
    match builder.mut_values() {
        MutableArray::Int32(child) => child.push(Some(value)),
        _ => panic!("expected an integer child"),
    }
}

#[test]
fn nested_scenario_offsets_and_validity() {
    // pushes valid(1), valid(2), null, valid(3): offsets [0,1,2,2,3],
    // validity [T,T,F,T]
    let mut builder = DynMutableListArray::new_with_capacity(int_child(), 4);
    push_child(&mut builder, 1);
    builder.try_push_valid().unwrap();
    push_child(&mut builder, 2);
    builder.try_push_valid().unwrap();
    builder.push_null();
    push_child(&mut builder, 3);
    builder.try_push_valid().unwrap();

    assert_eq!(builder.len(), 4);
    let frozen = builder.freeze();
    assert_eq!(frozen.len(), 4);
    let expected_offsets = [0i32, 1, 2, 2, 3];
    for (i, expected) in expected_offsets.iter().enumerate() {
        assert_eq!(frozen.offset_at(i), *expected);
    }
    let expected_validity = [true, true, false, true];
    for (i, expected) in expected_validity.iter().enumerate() {
        assert_eq!(frozen.is_valid(i), *expected);
    }
    match frozen.values() {
        Array::Int32(child) => {
            assert_eq!(child.len(), 3);
            assert_eq!(*child.value_at(0), 1);
            assert_eq!(*child.value_at(1), 2);
            assert_eq!(*child.value_at(2), 3);
        },
        _ => panic!("expected an integer child"),
    }
}

#[test]
fn nested_all_valid_has_no_bitmap() {
    let mut builder = DynMutableListArray::new_with_capacity(int_child(), 2);
    push_child(&mut builder, 5);
    builder.try_push_valid().unwrap();
    builder.try_push_valid().unwrap();
    assert!(builder.validity().is_none());
    let frozen = builder.freeze();
    assert!(frozen.is_valid(0));
    assert!(frozen.is_valid(1));
}

#[test]
fn nested_first_null_backfills_validity() {
    let mut builder = DynMutableListArray::new_with_capacity(int_child(), 3);
    push_child(&mut builder, 9);
    builder.try_push_valid().unwrap();
    builder.try_push_valid().unwrap();
    builder.push_null();
    let bitmap = builder.validity().as_ref().expect("bitmap materialized");
    assert_eq!(bitmap.len(), 3);
    assert!(bitmap.get(0));
    assert!(bitmap.get(1));
    assert!(!bitmap.get(2));
}

#[test]
fn nested_null_repeats_last_offset() {
    let mut builder = DynMutableListArray::new_with_capacity(int_child(), 2);
    push_child(&mut builder, 7);
    push_child(&mut builder, 8);
    builder.try_push_valid().unwrap();
    builder.push_null();
    assert_eq!(builder.last_offset(), 2);
    let frozen = builder.freeze();
    assert_eq!(frozen.offset_at(1), 2);
    assert_eq!(frozen.offset_at(2), 2);
}

#[test]
fn nested_of_nested_builds() {
    let inner = DynMutableListArray::new_with_capacity(int_child(), 0);
    let mut outer =
        DynMutableListArray::new_with_capacity(MutableArray::List(Box::new(inner)), 2);
    match outer.mut_values() {
        MutableArray::List(inner) => {
            push_child(inner, 1);
            inner.try_push_valid().unwrap();
        },
        _ => panic!("expected a list child"),
    }
    outer.try_push_valid().unwrap();
    let frozen = outer.freeze();
    assert_eq!(frozen.len(), 1);
    assert!(matches!(frozen.data_type(), DataType::List(_)));
    match frozen.values() {
        Array::List(inner) => {
            assert_eq!(inner.len(), 1);
            assert_eq!(inner.offset_at(1), 1);
        },
        _ => panic!("expected a list child"),
    }
}

fn fixed_dictionary() -> FixedItemsUtf8Dictionary {
    let values = Utf8Array::from_values(vec![
        String::from("alpha"),
        String::from("beta"),
        String::from("gamma"),
    ]);
    FixedItemsUtf8Dictionary::with_capacity(values, 4)
}

#[test]
fn dictionary_round_trip() {
    let mut builder = fixed_dictionary();
    builder.push_valid(0);
    builder.push_null();
    builder.push_valid(2);
    builder.push_valid(1);
    assert_eq!(builder.len(), 4);

    let frozen = builder.freeze();
    assert_eq!(frozen.len(), 4);
    assert!(frozen.is_valid(0));
    assert!(!frozen.is_valid(1));
    assert!(frozen.is_valid(2));
    assert!(frozen.is_valid(3));
    let dictionary = match frozen.values() {
        Array::Utf8(values) => values,
        _ => panic!("expected string dictionary values"),
    };
    assert_eq!(dictionary.value_at(frozen.key_at(0) as usize).as_str(), "alpha");
    assert_eq!(dictionary.value_at(frozen.key_at(2) as usize).as_str(), "gamma");
    assert_eq!(dictionary.value_at(frozen.key_at(3) as usize).as_str(), "beta");
}

#[test]
fn dictionary_reports_its_type() {
    let builder = fixed_dictionary();
    assert!(matches!(builder.data_type(), DataType::Dictionary(_)));
}
