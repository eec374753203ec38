//! Immutable columnar arrays. A builder freezes exactly once into one of
//! these; after freezing the value is shared for reads only and never mutated.

use std::sync::Arc;

use vstd::prelude::*;

use crate::bitmap::Bitmap;
use crate::datatypes::DataType;

verus! {

/// An immutable, typed, nullable sequence of fixed-width values.
pub struct PrimitiveArray<T> {
    data_type: DataType,
    values: Vec<T>,
    validity: Option<Bitmap>,
}

impl<T> PrimitiveArray<T> {
    /// The stored values, null slots included (a null slot keeps a
    /// placeholder value).
    pub closed spec fn values_seq(&self) -> Seq<T> {
        self.values@
    }

    /// The validity bits, when a bitmap is present; `None` means all valid.
    pub closed spec fn validity_seq(&self) -> Option<Seq<bool>> {
        match self.validity {
            Option::Some(b) => Option::Some(b@),
            Option::None => Option::None,
        }
    }

    pub closed spec fn spec_data_type(&self) -> DataType {
        self.data_type
    }

    /// Whether the element at `i` is valid (non-null).
    pub open spec fn is_valid_spec(&self, i: int) -> bool {
        match self.validity_seq() {
            Option::Some(bits) => bits[i],
            Option::None => true,
        }
    }

    /// The logical content: one `Option` per slot.
    pub open spec fn view_seq(&self) -> Seq<Option<T>> {
        Seq::new(
            self.values_seq().len(),
            |i: int|
                if self.is_valid_spec(i) {
                    Option::Some(self.values_seq()[i])
                } else {
                    Option::None
                },
        )
    }

    /// Lengths agree between values and validity.
    pub open spec fn wf(&self) -> bool {
        match self.validity_seq() {
            Option::Some(bits) => bits.len() == self.values_seq().len(),
            Option::None => true,
        }
    }

    /// Assembles an array from its parts. The bitmap, when present, must
    /// cover exactly one bit per value.
    pub fn from_data(data_type: DataType, values: Vec<T>, validity: Option<Bitmap>) -> (r:
        PrimitiveArray<T>)
        requires
            match validity {
                Option::Some(bits) => bits@.len() == values@.len(),
                Option::None => true,
            },
        ensures
            r.wf(),
            r.values_seq() == values@,
            r.spec_data_type() == data_type,
            r.validity_seq() == match validity {
                Option::Some(bits) => Option::Some(bits@),
                Option::None => Option::<Seq<bool>>::None,
            },
    {
        PrimitiveArray { data_type, values, validity }
    }

    pub fn len(&self) -> (r: usize)
        ensures
            r == self.values_seq().len(),
    {
        self.values.len()
    }

    pub fn value_at(&self, index: usize) -> (r: &T)
        requires
            index < self.values_seq().len(),
        ensures
            *r == self.values_seq()[index as int],
    {
        &self.values[index]
    }

    pub fn is_valid(&self, index: usize) -> (r: bool)
        requires
            self.wf(),
            index < self.values_seq().len(),
        ensures
            r == self.is_valid_spec(index as int),
    {
        match &self.validity {
            Option::Some(bits) => bits.get(index),
            Option::None => true,
        }
    }

    pub fn data_type(&self) -> (r: &DataType)
        ensures
            *r == self.spec_data_type(),
    {
        &self.data_type
    }

    pub fn validity(&self) -> (r: &Option<Bitmap>)
        ensures
            match r {
                Option::Some(bits) => self.validity_seq() == Option::Some(bits@),
                Option::None => self.validity_seq() is None,
            },
    {
        &self.validity
    }
}

/// An immutable UTF-8 string array; here it carries the fixed, distinct
/// values of a dictionary, so every slot is valid.
pub struct Utf8Array {
    values: Vec<String>,
}

impl Utf8Array {
    /// The strings, as sequences of characters.
    pub closed spec fn strings(&self) -> Seq<Seq<char>> {
        Seq::new(self.values@.len(), |i: int| self.values@[i]@)
    }

    pub fn from_values(values: Vec<String>) -> (r: Utf8Array)
        ensures
            r.strings().len() == values@.len(),
            forall|i: int|
                0 <= i < values@.len() ==> r.strings()[i] == values@[i]@,
    {
        Utf8Array { values }
    }

    pub fn len(&self) -> (r: usize)
        ensures
            r == self.strings().len(),
    {
        self.values.len()
    }

    pub fn value_at(&self, index: usize) -> (r: &String)
        requires
            index < self.strings().len(),
        ensures
            r@ == self.strings()[index as int],
    {
        &self.values[index]
    }
}

/// An immutable variable-length list array: element `i`, when valid, is the
/// run `child[offsets[i] .. offsets[i + 1]]` of the child array.
pub struct ListArray {
    data_type: DataType,
    offsets: Vec<i32>,
    values: Box<Array>,
    validity: Option<Bitmap>,
}

impl ListArray {
    pub closed spec fn offsets_seq(&self) -> Seq<i32> {
        self.offsets@
    }

    pub closed spec fn validity_seq(&self) -> Option<Seq<bool>> {
        match self.validity {
            Option::Some(b) => Option::Some(b@),
            Option::None => Option::None,
        }
    }

    pub closed spec fn child(&self) -> Array {
        *self.values
    }

    pub closed spec fn spec_data_type(&self) -> DataType {
        self.data_type
    }

    pub open spec fn is_valid_spec(&self, i: int) -> bool {
        match self.validity_seq() {
            Option::Some(bits) => bits[i],
            Option::None => true,
        }
    }

    /// The element count: one fewer than the offsets.
    pub open spec fn spec_len(&self) -> int {
        self.offsets_seq().len() - 1
    }

    pub open spec fn wf(&self) -> bool {
        &&& self.offsets_seq().len() >= 1
        &&& match self.validity_seq() {
            Option::Some(bits) => bits.len() == self.offsets_seq().len() - 1,
            Option::None => true,
        }
    }

    pub fn from_data(
        data_type: DataType,
        offsets: Vec<i32>,
        values: Box<Array>,
        validity: Option<Bitmap>,
    ) -> (r: ListArray)
        requires
            offsets@.len() >= 1,
            match validity {
                Option::Some(bits) => bits@.len() == offsets@.len() - 1,
                Option::None => true,
            },
        ensures
            r.wf(),
            r.offsets_seq() == offsets@,
            r.child() == *values,
            r.spec_data_type() == data_type,
            r.validity_seq() == match validity {
                Option::Some(bits) => Option::Some(bits@),
                Option::None => Option::<Seq<bool>>::None,
            },
    {
        ListArray { data_type, offsets, values, validity }
    }

    pub fn len(&self) -> (r: usize)
        requires
            self.wf(),
        ensures
            r == self.spec_len(),
    {
        self.offsets.len() - 1
    }

    pub fn offset_at(&self, index: usize) -> (r: i32)
        requires
            index < self.offsets_seq().len(),
        ensures
            r == self.offsets_seq()[index as int],
    {
        self.offsets[index]
    }

    pub fn is_valid(&self, index: usize) -> (r: bool)
        requires
            self.wf(),
            index < self.spec_len(),
        ensures
            r == self.is_valid_spec(index as int),
    {
        match &self.validity {
            Option::Some(bits) => bits.get(index),
            Option::None => true,
        }
    }

    pub fn values(&self) -> (r: &Array)
        ensures
            *r == self.child(),
    {
        &self.values
    }

    pub fn data_type(&self) -> (r: &DataType)
        ensures
            *r == self.spec_data_type(),
    {
        &self.data_type
    }
}

/// An immutable dictionary-encoded array: each valid key indexes into the
/// shared dictionary values; null lives at the key level only.
pub struct DictionaryArray {
    keys: PrimitiveArray<i32>,
    values: Arc<Array>,
}

impl DictionaryArray {
    pub closed spec fn keys_array(&self) -> PrimitiveArray<i32> {
        self.keys
    }

    pub closed spec fn dictionary(&self) -> Array {
        *self.values
    }

    pub open spec fn spec_len(&self) -> nat {
        self.keys_array().values_seq().len()
    }

    pub open spec fn wf(&self) -> bool {
        self.keys_array().wf()
    }

    /// The logical entry at `i`: the key it stores when valid, null when not.
    pub open spec fn entry(&self, i: int) -> Option<i32> {
        self.keys_array().view_seq()[i]
    }

    pub fn from_data(keys: PrimitiveArray<i32>, values: Arc<Array>) -> (r: DictionaryArray)
        ensures
            r.keys_array() == keys,
            r.dictionary() == *values,
    {
        DictionaryArray { keys, values }
    }

    pub fn len(&self) -> (r: usize)
        ensures
            r == self.spec_len(),
    {
        self.keys.len()
    }

    pub fn keys(&self) -> (r: &PrimitiveArray<i32>)
        ensures
            *r == self.keys_array(),
    {
        &self.keys
    }

    pub fn values(&self) -> (r: &Array)
        ensures
            *r == self.dictionary(),
    {
        &self.values
    }

    pub fn is_valid(&self, index: usize) -> (r: bool)
        requires
            self.wf(),
            index < self.spec_len(),
        ensures
            r == self.keys_array().is_valid_spec(index as int),
    {
        self.keys.is_valid(index)
    }

    pub fn key_at(&self, index: usize) -> (r: i32)
        requires
            index < self.spec_len(),
        ensures
            r == self.keys_array().values_seq()[index as int],
    {
        *self.keys.value_at(index)
    }
}

/// A closed union of the immutable array shapes this model supports.
pub enum Array {
    Int32(PrimitiveArray<i32>),
    Utf8(Utf8Array),
    List(Box<ListArray>),
    Dictionary(Box<DictionaryArray>),
}

impl Array {
    /// The logical element count of whichever shape this is.
    pub open spec fn spec_len(&self) -> int {
        match self {
            Array::Int32(a) => a.values_seq().len() as int,
            Array::Utf8(a) => a.strings().len() as int,
            Array::List(a) => a.spec_len(),
            Array::Dictionary(a) => a.spec_len() as int,
        }
    }

    pub fn len(&self) -> (r: usize)
        requires
            match self {
                Array::List(a) => a.wf(),
                _ => true,
            },
        ensures
            r == self.spec_len(),
    {
        match self {
            Array::Int32(a) => a.len(),
            Array::Utf8(a) => a.len(),
            Array::List(a) => a.len(),
            Array::Dictionary(a) => a.len(),
        }
    }
}

} // verus!
