//! Logical types of columnar values.

use vstd::prelude::*;

verus! {

/// The logical type of a columnar value.
#[derive(Debug, PartialEq, Eq)]
pub enum DataType {
    /// A signed 32-bit integer column.
    Int32,
    /// A UTF-8 string column.
    Utf8,
    /// A fixed-precision decimal column: `Decimal(precision, scale)` holds
    /// integers whose magnitude stays below `10^precision`, read as scaled by
    /// `10^-scale`.
    Decimal(usize, usize),
    /// A dictionary-encoded column: 32-bit keys into values of the given type.
    Dictionary(Box<DataType>),
    /// A variable-length list column over the given child type.
    List(Box<DataType>),
}

/// Copies a logical type. The derived `Clone` carries no specification, so
/// verified code uses this copy instead.
pub fn clone_data_type(data_type: &DataType) -> (r: DataType)
    ensures
        r == *data_type,
    decreases *data_type,
{
    match data_type {
        DataType::Int32 => DataType::Int32,
        DataType::Utf8 => DataType::Utf8,
        DataType::Decimal(p, s) => DataType::Decimal(*p, *s),
        DataType::Dictionary(child) => DataType::Dictionary(Box::new(clone_data_type(&**child))),
        DataType::List(child) => DataType::List(Box::new(clone_data_type(&**child))),
    }
}

} // verus!
