use columnar::array::PrimitiveArray;
use columnar::bitmap::Bitmap;
use columnar::datatypes::DataType;
use columnar::decimal::{
    adaptive_div, adaptive_sub, adjusted_precision_scale, checked_div, checked_sub, div,
    max_value, number_digits, saturating_div, saturating_sub, sub,
};
use columnar::error::Error;

fn decimal(precision: usize, scale: usize, values: Vec<i128>) -> PrimitiveArray<i128> {
    PrimitiveArray::from_data(DataType::Decimal(precision, scale), values, None)
}

fn decimal_with_nulls(
    precision: usize,
    scale: usize,
    values: Vec<i128>,
    validity: Vec<bool>,
) -> PrimitiveArray<i128> {
    PrimitiveArray::from_data(
        DataType::Decimal(precision, scale),
        values,
        Some(Bitmap::from_bits(validity)),
    )
}

#[test]
fn div_same_scale() {
    let a = decimal(5, 2, vec![1_00, 4_00, 6_00]);
    let b = decimal(5, 2, vec![1_00, 2_00, 2_00]);
    let r = div(&a, &b).unwrap();
    assert_eq!(*r.value_at(0), 1_00);
    assert_eq!(*r.value_at(1), 2_00);
    assert_eq!(*r.value_at(2), 3_00);
    assert!(matches!(r.data_type(), DataType::Decimal(5, 2)));
}

#[test]
fn saturating_div_clamps_overflow() {
    let a = decimal(5, 2, vec![999_99, 4_00, 6_00]);
    let b = decimal(5, 2, vec![000_01, 2_00, 2_00]);
    let r = saturating_div(&a, &b).unwrap();
    assert_eq!(*r.value_at(0), 999_99);
    assert_eq!(*r.value_at(1), 2_00);
    assert_eq!(*r.value_at(2), 3_00);
}

#[test]
fn checked_div_nulls_zero_divisors() {
    let a = decimal(5, 2, vec![1_00, 4_00, 6_00]);
    let b = decimal_with_nulls(5, 2, vec![000_00, 0, 2_00], vec![true, false, true]);
    let r = checked_div(&a, &b).unwrap();
    assert!(!r.is_valid(0));
    assert!(!r.is_valid(1));
    assert!(r.is_valid(2));
    assert_eq!(*r.value_at(2), 3_00);
}

#[test]
fn div_rejects_mismatched_parameters() {
    let a = decimal(5, 2, vec![1_00]);
    let b = decimal(6, 2, vec![1_00]);
    assert!(matches!(div(&a, &b), Err(Error::InvalidArgument)));
}

#[test]
fn div_rejects_mismatched_lengths() {
    let a = decimal(5, 2, vec![1_00, 2_00]);
    let b = decimal(5, 2, vec![1_00]);
    assert!(matches!(div(&a, &b), Err(Error::InvalidArgument)));
}

#[test]
fn sub_same_scale() {
    let a = decimal_with_nulls(5, 2, vec![1, 1, 0, 2], vec![true, true, false, true]);
    let b = decimal_with_nulls(5, 2, vec![1, 2, 0, 2], vec![true, true, false, true]);
    let r = sub(&a, &b).unwrap();
    assert_eq!(*r.value_at(0), 0);
    assert_eq!(*r.value_at(1), -1);
    assert_eq!(*r.value_at(3), 0);
    assert!(r.is_valid(0));
    assert!(!r.is_valid(2));
}

#[test]
fn saturating_sub_clamps_underflow() {
    let a = decimal_with_nulls(
        5,
        2,
        vec![-99000, 11100, 0, 22200],
        vec![true, true, false, true],
    );
    let b = decimal_with_nulls(
        5,
        2,
        vec![01000, 22200, 0, 11100],
        vec![true, true, false, true],
    );
    let r = saturating_sub(&a, &b).unwrap();
    assert_eq!(*r.value_at(0), -99999);
    assert_eq!(*r.value_at(1), -11100);
    assert_eq!(*r.value_at(3), 11100);
}

#[test]
fn checked_sub_nulls_overflow() {
    let a = decimal_with_nulls(
        5,
        2,
        vec![-99000, 11100, 0, 22200],
        vec![true, true, false, true],
    );
    let b = decimal_with_nulls(
        5,
        2,
        vec![01000, 22200, 0, 11100],
        vec![true, true, false, true],
    );
    let r = checked_sub(&a, &b).unwrap();
    assert!(!r.is_valid(0));
    assert!(r.is_valid(1));
    assert_eq!(*r.value_at(1), -11100);
    assert!(!r.is_valid(2));
    assert!(r.is_valid(3));
    assert_eq!(*r.value_at(3), 11100);
}

#[test]
fn adaptive_sub_widens_precision() {
    // 99.9999 - (-0.0001) = 100.0000 takes one more digit
    let a = decimal(6, 4, vec![99_9999]);
    let b = decimal(6, 4, vec![-00_0001]);
    let r = adaptive_sub(&a, &b).unwrap();
    assert_eq!(*r.value_at(0), 100_0000);
    assert!(matches!(r.data_type(), DataType::Decimal(7, 4)));
}

#[test]
fn adaptive_sub_mixed_scales() {
    // 11.1111 - 11111.01 at scales 4 and 2
    let a = decimal(6, 4, vec![11_1111]);
    let b = decimal(7, 2, vec![11111_01]);
    let r = adaptive_sub(&a, &b).unwrap();
    assert_eq!(*r.value_at(0), 11_1111 - 11111_01_00);
    assert!(matches!(r.data_type(), DataType::Decimal(9, 4)));
}

#[test]
fn adaptive_div_mixed_scales() {
    // 1000.00 / 10.0000 = 100.0000 at the adjusted scale
    let a = decimal(7, 2, vec![1000_00]);
    let b = decimal(6, 4, vec![10_0000]);
    let r = adaptive_div(&a, &b).unwrap();
    assert_eq!(*r.value_at(0), 100_0000);
    assert!(matches!(r.data_type(), DataType::Decimal(9, 4)));
}

#[test]
fn adaptive_rejects_non_decimal() {
    let a = PrimitiveArray::from_data(DataType::Int32, vec![1i128], None);
    let b = decimal(5, 2, vec![1]);
    assert!(matches!(adaptive_sub(&a, &b), Err(Error::InvalidArgument)));
    assert!(matches!(adaptive_div(&a, &b), Err(Error::InvalidArgument)));
}

#[test]
fn helpers_compute_exactly() {
    assert_eq!(max_value(5), 99_999);
    assert_eq!(max_value(1), 9);
    assert_eq!(number_digits(0), 0);
    assert_eq!(number_digits(-12345), 5);
    assert_eq!(number_digits(100_0000), 7);
    // precisions 7,2 and 6,4 adjust to 9,4 with a shift of two digits
    assert_eq!(adjusted_precision_scale(7, 2, 6, 4), (9, 4, 2));
    assert_eq!(adjusted_precision_scale(6, 4, 7, 2), (9, 4, 2));
}
