//! Builders: in-progress typed columns. A builder is a single-owner,
//! append-only value that freezes exactly once into an immutable array.
//!
//! The nested (list) builder keeps an offsets sequence that is non-decreasing
//! at every observation point, and materializes its validity bitmap lazily:
//! the bitmap is allocated only when the first null arrives, backfilling all
//! prior positions as valid.

use std::sync::Arc;

use vstd::prelude::*;

use crate::array::{Array, DictionaryArray, ListArray, PrimitiveArray, Utf8Array};
use crate::bitmap::MutableBitmap;
use crate::datatypes::{clone_data_type, DataType};
use crate::error::Error;

verus! {

/// An in-progress 32-bit integer column with lazily allocated validity.
pub struct MutablePrimitiveArray {
    data_type: DataType,
    values: Vec<i32>,
    validity: Option<MutableBitmap>,
}

impl MutablePrimitiveArray {
    pub closed spec fn values_seq(&self) -> Seq<i32> {
        self.values@
    }

    pub closed spec fn validity_bits(&self) -> Option<Seq<bool>> {
        match self.validity {
            Option::Some(b) => Option::Some(b@),
            Option::None => Option::None,
        }
    }

    pub closed spec fn spec_data_type(&self) -> DataType {
        self.data_type
    }

    pub open spec fn is_valid_spec(&self, i: int) -> bool {
        match self.validity_bits() {
            Option::Some(bits) => bits[i],
            Option::None => true,
        }
    }

    /// The logical content so far: one `Option` per pushed slot.
    pub open spec fn view_seq(&self) -> Seq<Option<i32>> {
        Seq::new(
            self.values_seq().len(),
            |i: int|
                if self.is_valid_spec(i) {
                    Option::Some(self.values_seq()[i])
                } else {
                    Option::None
                },
        )
    }

    pub open spec fn wf(&self) -> bool {
        match self.validity_bits() {
            Option::Some(bits) => bits.len() == self.values_seq().len(),
            Option::None => true,
        }
    }

    pub fn with_capacity(capacity: usize) -> (r: MutablePrimitiveArray)
        ensures
            r.wf(),
            r.view_seq() == Seq::<Option<i32>>::empty(),
            r.values_seq() == Seq::<i32>::empty(),
            r.validity_bits() is None,
            r.spec_data_type() == DataType::Int32,
    {
        let r = MutablePrimitiveArray {
            data_type: DataType::Int32,
            values: Vec::with_capacity(capacity),
            validity: Option::None,
        };
        proof {
            assert(r.view_seq() =~= Seq::<Option<i32>>::empty());
        }
        r
    }

    pub fn len(&self) -> (r: usize)
        ensures
            r == self.view_seq().len(),
    {
        self.values.len()
    }

    /// Appends one value or one null; a first null backfills the validity
    /// bitmap with `true` for every earlier position.
    pub fn push(&mut self, value: Option<i32>)
        requires
            old(self).wf(),
        ensures
            final(self).wf(),
            final(self).view_seq() == old(self).view_seq().push(value),
            final(self).spec_data_type() == old(self).spec_data_type(),
    {
        match value {
            Option::Some(v) => {
                self.values.push(v);
                match &mut self.validity {
                    Option::Some(bits) => bits.push(true),
                    Option::None => {},
                }
                proof {
                    assert(final(self).view_seq() =~= old(self).view_seq().push(
                        Option::Some(value->0),
                    ));
                }
            },
            Option::None => {
                self.values.push(0);
                let has_bits = self.validity.is_some();
                if has_bits {
                    match &mut self.validity {
                        Option::Some(bits) => bits.push(false),
                        Option::None => {
                            proof {
                                assert(false);
                            }
                        },
                    }
                } else {
                    let n = self.values.len();
                    let mut bits = MutableBitmap::new();
                    bits.extend_constant(n, true);
                    bits.set(n - 1, false);
                    self.validity = Option::Some(bits);
                }
                proof {
                    assert(final(self).view_seq() =~= old(self).view_seq().push(
                        Option::<i32>::None,
                    ));
                }
            },
        }
    }

    pub fn validity(&self) -> (r: &Option<MutableBitmap>)
        ensures
            match r {
                Option::Some(bits) => self.validity_bits() == Option::Some(bits@),
                Option::None => self.validity_bits() is None,
            },
    {
        &self.validity
    }

    pub fn data_type_ref(&self) -> (r: &DataType)
        ensures
            *r == self.spec_data_type(),
    {
        &self.data_type
    }

    /// Freezes into an immutable array; the builder is consumed.
    pub fn freeze(self) -> (r: PrimitiveArray<i32>)
        requires
            self.wf(),
        ensures
            r.wf(),
            r.values_seq() == self.values_seq(),
            r.validity_seq() == self.validity_bits(),
            r.spec_data_type() == self.spec_data_type(),
    {
        let validity = match self.validity {
            Option::Some(bits) => Option::Some(bits.freeze()),
            Option::None => Option::None,
        };
        PrimitiveArray::from_data(self.data_type, self.values, validity)
    }
}

/// An in-progress column of any supported shape: the builder capability that
/// format adapters drive (report length, report validity, push a null,
/// freeze).
pub enum MutableArray {
    Int32(MutablePrimitiveArray),
    List(Box<DynMutableListArray>),
    Dictionary(Box<FixedItemsUtf8Dictionary>),
}

impl MutableArray {
    pub open spec fn wf(&self) -> bool
        decreases *self,
    {
        match self {
            MutableArray::Int32(p) => p.wf(),
            MutableArray::List(b) => b.wf(),
            MutableArray::Dictionary(d) => d.wf(),
        }
    }

    /// How many slots have been pushed.
    pub open spec fn spec_len(&self) -> int {
        match self {
            MutableArray::Int32(p) => p.view_seq().len() as int,
            MutableArray::List(b) => b.offsets_seq().len() - 1,
            MutableArray::Dictionary(d) => d.keys_view().len() as int,
        }
    }

    pub open spec fn spec_data_type(&self) -> DataType {
        match self {
            MutableArray::Int32(p) => p.spec_data_type(),
            MutableArray::List(b) => b.spec_data_type(),
            MutableArray::Dictionary(d) => d.spec_data_type(),
        }
    }

    pub fn len(&self) -> (r: usize)
        requires
            self.wf(),
        ensures
            r == self.spec_len(),
    {
        match self {
            MutableArray::Int32(p) => p.len(),
            MutableArray::List(b) => b.len(),
            MutableArray::Dictionary(d) => d.len(),
        }
    }

    /// The current logical type, copied.
    pub fn data_type(&self) -> (r: DataType)
        ensures
            r == self.spec_data_type(),
    {
        match self {
            MutableArray::Int32(p) => clone_data_type(p.data_type_ref()),
            MutableArray::List(b) => clone_data_type(b.data_type()),
            MutableArray::Dictionary(d) => clone_data_type(d.data_type()),
        }
    }

    /// Appends one null slot to whichever builder this is.
    pub fn push_null(&mut self)
        requires
            old(self).wf(),
        ensures
            final(self).wf(),
            final(self).spec_len() == old(self).spec_len() + 1,
            final(self).spec_data_type() == old(self).spec_data_type(),
            (match (*old(self), *final(self)) {
                (MutableArray::Int32(p0), MutableArray::Int32(p1)) => p1.view_seq()
                    == p0.view_seq().push(Option::<i32>::None),
                (MutableArray::List(b0), MutableArray::List(b1)) => b1.offsets_seq()
                    == b0.offsets_seq().push(b0.last_offset_spec()) && b1.pushed_validity()
                    == b0.pushed_validity().push(false) && b1.child() == b0.child(),
                (MutableArray::Dictionary(d0), MutableArray::Dictionary(d1)) => d1.keys_view()
                    == d0.keys_view().push(Option::<i32>::None) && d1.dict_strings()
                    == d0.dict_strings(),
                _ => false,
            }),
    {
        match self {
            MutableArray::Int32(p) => p.push(Option::None),
            MutableArray::List(b) => b.push_null(),
            MutableArray::Dictionary(d) => d.push_null(),
        }
    }

    /// Freezes whichever builder this is into the matching immutable array.
    pub fn freeze(self) -> (r: Array)
        requires
            self.wf(),
        ensures
            freeze_ok(self, r),
        decreases self,
    {
        match self {
            MutableArray::Int32(p) => Array::Int32(p.freeze()),
            MutableArray::List(b) => Array::List(Box::new(b.freeze())),
            MutableArray::Dictionary(d) => Array::Dictionary(Box::new(d.freeze())),
        }
    }
}

/// What freezing promises, shape by shape: the frozen array carries exactly
/// the offsets, values, validity and logical type that the builder
/// accumulated.
pub open spec fn freeze_ok(m: MutableArray, a: Array) -> bool
    decreases m,
{
    match m {
        MutableArray::Int32(p) => match a {
            Array::Int32(q) => q.values_seq() == p.values_seq() && q.validity_seq()
                == p.validity_bits() && q.spec_data_type() == p.spec_data_type(),
            _ => false,
        },
        MutableArray::List(b) => match a {
            Array::List(l) => list_freeze_ok(*b, *l),
            _ => false,
        },
        MutableArray::Dictionary(d) => match a {
            Array::Dictionary(da) => dict_freeze_ok(*d, *da),
            _ => false,
        },
    }
}

/// What freezing a nested builder promises.
pub open spec fn list_freeze_ok(b: DynMutableListArray, l: ListArray) -> bool
    decreases b,
{
    &&& l.offsets_seq() == b.offsets_seq()
    &&& l.validity_seq() == b.validity_bits()
    &&& l.spec_data_type() == b.spec_data_type()
    &&& freeze_ok(b.child(), l.child())
}

/// What freezing a dictionary builder promises: the keys are exactly the
/// pushed keys and the dictionary values are shared unchanged.
pub open spec fn dict_freeze_ok(d: FixedItemsUtf8Dictionary, a: DictionaryArray) -> bool {
    &&& a.keys_array().wf()
    &&& a.keys_array().view_seq() == d.keys_view()
    &&& (match a.dictionary() {
        Array::Utf8(u) => u.strings() == d.dict_strings(),
        _ => false,
    })
}

/// A nested (list-like) builder: a child builder, an offsets sequence seeded
/// with 0, and an optional validity bitmap, materialized lazily on the first
/// null.
pub struct DynMutableListArray {
    data_type: DataType,
    offsets: Vec<i32>,
    values: MutableArray,
    validity: Option<MutableBitmap>,
}

impl DynMutableListArray {
    pub closed spec fn offsets_seq(&self) -> Seq<i32> {
        self.offsets@
    }

    pub closed spec fn child(&self) -> MutableArray {
        self.values
    }

    pub closed spec fn validity_bits(&self) -> Option<Seq<bool>> {
        match self.validity {
            Option::Some(b) => Option::Some(b@),
            Option::None => Option::None,
        }
    }

    pub closed spec fn spec_data_type(&self) -> DataType {
        self.data_type
    }

    /// The validity recorded so far: an absent bitmap means every slot was a
    /// valid push.
    pub open spec fn pushed_validity(&self) -> Seq<bool> {
        match self.validity_bits() {
            Option::Some(bits) => bits,
            Option::None => Seq::new((self.offsets_seq().len() - 1) as nat, |i: int| true),
        }
    }

    pub open spec fn last_offset_spec(&self) -> i32 {
        self.offsets_seq()[self.offsets_seq().len() - 1]
    }

    pub open spec fn wf(&self) -> bool
        decreases *self,
    {
        &&& self.offsets_seq().len() >= 1
        &&& self.offsets_seq()[0] == 0i32
        &&& (forall|i: int|
            0 <= i < self.offsets_seq().len() - 1 ==> #[trigger] self.offsets_seq()[i]
                <= self.offsets_seq()[i + 1])
        &&& (forall|i: int| 0 <= i < self.offsets_seq().len() ==> #[trigger] self.offsets_seq()[i] >= 0)
        &&& (match self.validity_bits() {
            Option::Some(bits) => bits.len() == self.offsets_seq().len() - 1,
            Option::None => true,
        })
        &&& self.child().wf()
        &&& self.spec_data_type() matches DataType::List(_)
    }

    /// Starts a nested builder over an empty child builder, seeding offset 0
    /// and pre-reserving `capacity + 1` offset slots.
    pub fn new_from(values: MutableArray, data_type: DataType, capacity: usize) -> (r:
        DynMutableListArray)
        requires
            values.wf(),
            values.spec_len() == 0,
            data_type matches DataType::List(_),
            capacity < usize::MAX,
        ensures
            r.wf(),
            r.offsets_seq() == seq![0i32],
            r.child() == values,
            r.validity_bits() is None,
            r.spec_data_type() == data_type,
            r.pushed_validity() == Seq::<bool>::empty(),
    {
        let mut offsets: Vec<i32> = Vec::with_capacity(capacity + 1);
        offsets.push(0);
        let r = DynMutableListArray { data_type, offsets, values, validity: Option::None };
        proof {
            assert(r.offsets_seq() =~= seq![0i32]);
            assert(r.pushed_validity() =~= Seq::<bool>::empty());
        }
        r
    }

    /// Starts a nested builder, deriving the list type from the child's type.
    pub fn new_with_capacity(values: MutableArray, capacity: usize) -> (r: DynMutableListArray)
        requires
            values.wf(),
            values.spec_len() == 0,
            capacity < usize::MAX,
        ensures
            r.wf(),
            r.offsets_seq() == seq![0i32],
            r.child() == values,
            r.validity_bits() is None,
            r.spec_data_type() == DataType::List(Box::new(values.spec_data_type())),
            r.pushed_validity() == Seq::<bool>::empty(),
    {
        let data_type = DataType::List(Box::new(values.data_type()));
        Self::new_from(values, data_type, capacity)
    }

    /// Mutable access to the child builder, for pushing the values that the
    /// next `try_push_valid` will delimit.
    pub fn mut_values(&mut self) -> (r: &mut MutableArray)
        ensures
            *r == old(self).child(),
            final(self).child() == *final(r),
            final(self).offsets_seq() == old(self).offsets_seq(),
            final(self).validity_bits() == old(self).validity_bits(),
            final(self).spec_data_type() == old(self).spec_data_type(),
    {
        &mut self.values
    }

    /// Closes the current slot as valid: records the child's length as the
    /// next offset. Fails with [`Error::IndexOverflow`] when that length
    /// exceeds the 32-bit offset width, leaving the builder unchanged.
    pub fn try_push_valid(&mut self) -> (r: Result<(), Error>)
        requires
            old(self).wf(),
            old(self).child().spec_len() >= old(self).last_offset_spec() as int,
        ensures
            final(self).wf(),
            final(self).child() == old(self).child(),
            final(self).spec_data_type() == old(self).spec_data_type(),
            r is Ok <==> old(self).child().spec_len() <= i32::MAX as int,
            r is Ok ==> final(self).offsets_seq() == old(self).offsets_seq().push(
                old(self).child().spec_len() as i32,
            ) && final(self).pushed_validity() == old(self).pushed_validity().push(true),
            r is Err ==> *final(self) == *old(self) && r == Err::<(), Error>(Error::IndexOverflow),
    {
        let size = self.values.len();
        if size > i32::MAX as usize {
            return Err(Error::IndexOverflow);
        }
        let size = size as i32;
        self.offsets.push(size);
        match &mut self.validity {
            Option::Some(bits) => bits.push(true),
            Option::None => {},
        }
        proof {
            if old(self).validity_bits() is None {
                assert(final(self).pushed_validity() =~= old(self).pushed_validity().push(true));
            }
        }
        Ok(())
    }

    /// Closes the current slot as null: repeats the last offset (a zero-length
    /// run, never a gap) and records the slot as invalid, materializing the
    /// bitmap retroactively if this is the first null.
    pub fn push_null(&mut self)
        requires
            old(self).wf(),
        ensures
            final(self).wf(),
            final(self).child() == old(self).child(),
            final(self).spec_data_type() == old(self).spec_data_type(),
            final(self).offsets_seq() == old(self).offsets_seq().push(old(self).last_offset_spec()),
            final(self).pushed_validity() == old(self).pushed_validity().push(false),
    {
        let last = self.last_offset();
        self.offsets.push(last);
        let has_bits = self.validity.is_some();
        if has_bits {
            match &mut self.validity {
                Option::Some(bits) => bits.push(false),
                Option::None => {
                    proof {
                        assert(false);
                    }
                },
            }
        } else {
            self.init_validity();
            proof {
                assert(final(self).pushed_validity() =~= old(self).pushed_validity().push(false));
            }
        }
    }

    /// The most recently recorded offset.
    pub fn last_offset(&self) -> (r: i32)
        requires
            self.offsets_seq().len() >= 1,
        ensures
            r == self.last_offset_spec(),
    {
        self.offsets[self.offsets.len() - 1]
    }

    /// Backfills a validity bitmap that marks every earlier slot valid and
    /// the newest slot invalid.
    fn init_validity(&mut self)
        requires
            old(self).offsets_seq().len() >= 2,
            old(self).validity_bits() is None,
        ensures
            final(self).offsets_seq() == old(self).offsets_seq(),
            final(self).child() == old(self).child(),
            final(self).spec_data_type() == old(self).spec_data_type(),
            final(self).validity_bits() == Option::Some(
                Seq::new(
                    (old(self).offsets_seq().len() - 1) as nat,
                    |i: int| i != old(self).offsets_seq().len() - 2,
                ),
            ),
    {
        let len = self.offsets.len() - 1;
        let mut validity = MutableBitmap::new();
        validity.extend_constant(len, true);
        validity.set(len - 1, false);
        self.validity = Option::Some(validity);
        proof {
            assert(final(self).validity_bits()->Some_0 =~= Seq::new(
                (old(self).offsets_seq().len() - 1) as nat,
                |i: int| i != old(self).offsets_seq().len() - 2,
            ));
        }
    }

    /// The element count: one fewer than the offsets.
    pub fn len(&self) -> (r: usize)
        requires
            self.wf(),
        ensures
            r == self.offsets_seq().len() - 1,
    {
        self.offsets.len() - 1
    }

    pub fn validity(&self) -> (r: &Option<MutableBitmap>)
        ensures
            match r {
                Option::Some(bits) => self.validity_bits() == Option::Some(bits@),
                Option::None => self.validity_bits() is None,
            },
    {
        &self.validity
    }

    pub fn data_type(&self) -> (r: &DataType)
        ensures
            *r == self.spec_data_type(),
    {
        &self.data_type
    }

    /// Freezes the accumulated offsets, the frozen child, and the optional
    /// validity into an immutable list array; the builder is consumed.
    pub fn freeze(self) -> (r: ListArray)
        requires
            self.wf(),
        ensures
            r.wf(),
            list_freeze_ok(self, r),
        decreases self,
    {
        let DynMutableListArray { data_type, offsets, values, validity } = self;
        let frozen_validity = match validity {
            Option::Some(bits) => Option::Some(bits.freeze()),
            Option::None => Option::None,
        };
        let child = values.freeze();
        ListArray::from_data(data_type, offsets, Box::new(child), frozen_validity)
    }
}

/// A dictionary-encoded builder over a fixed, pre-supplied dictionary of
/// distinct UTF-8 values: only the integer keys evolve; the dictionary is
/// never mutated after construction.
pub struct FixedItemsUtf8Dictionary {
    data_type: DataType,
    keys: MutablePrimitiveArray,
    values: Utf8Array,
}

impl FixedItemsUtf8Dictionary {
    pub closed spec fn keys_builder(&self) -> MutablePrimitiveArray {
        self.keys
    }

    pub open spec fn keys_view(&self) -> Seq<Option<i32>> {
        self.keys_builder().view_seq()
    }

    pub closed spec fn dict_strings(&self) -> Seq<Seq<char>> {
        self.values.strings()
    }

    pub closed spec fn spec_data_type(&self) -> DataType {
        self.data_type
    }

    pub open spec fn wf(&self) -> bool {
        self.keys_builder().wf()
    }

    /// Starts a dictionary builder over the given fixed values.
    pub fn with_capacity(values: Utf8Array, capacity: usize) -> (r: FixedItemsUtf8Dictionary)
        ensures
            r.wf(),
            r.keys_view() == Seq::<Option<i32>>::empty(),
            r.dict_strings() == values.strings(),
            r.spec_data_type() == DataType::Dictionary(Box::new(DataType::Utf8)),
    {
        FixedItemsUtf8Dictionary {
            data_type: DataType::Dictionary(Box::new(DataType::Utf8)),
            keys: MutablePrimitiveArray::with_capacity(capacity),
            values,
        }
    }

    /// Appends `key`. Whether `key` is in range for the dictionary is a
    /// producer invariant checked at use sites, not here.
    pub fn push_valid(&mut self, key: i32)
        requires
            old(self).wf(),
        ensures
            final(self).wf(),
            final(self).keys_view() == old(self).keys_view().push(Option::Some(key)),
            final(self).dict_strings() == old(self).dict_strings(),
            final(self).spec_data_type() == old(self).spec_data_type(),
    {
        self.keys.push(Option::Some(key));
    }

    /// Appends a null key.
    pub fn push_null(&mut self)
        requires
            old(self).wf(),
        ensures
            final(self).wf(),
            final(self).keys_view() == old(self).keys_view().push(Option::<i32>::None),
            final(self).dict_strings() == old(self).dict_strings(),
            final(self).spec_data_type() == old(self).spec_data_type(),
    {
        self.keys.push(Option::None);
    }

    pub fn len(&self) -> (r: usize)
        ensures
            r == self.keys_view().len(),
    {
        self.keys.len()
    }

    pub fn validity(&self) -> (r: &Option<MutableBitmap>)
        ensures
            match r {
                Option::Some(bits) => self.keys_builder().validity_bits() == Option::Some(bits@),
                Option::None => self.keys_builder().validity_bits() is None,
            },
    {
        self.keys.validity()
    }

    pub fn data_type(&self) -> (r: &DataType)
        ensures
            *r == self.spec_data_type(),
    {
        &self.data_type
    }

    /// Freezes into an immutable dictionary-encoded array that shares the
    /// fixed dictionary; the builder is consumed.
    pub fn freeze(self) -> (r: DictionaryArray)
        requires
            self.wf(),
        ensures
            dict_freeze_ok(self, r),
    {
        let FixedItemsUtf8Dictionary { data_type: _, keys, values } = self;
        let frozen_keys = keys.freeze();
        let r = DictionaryArray::from_data(frozen_keys, Arc::new(Array::Utf8(values)));
        proof {
            assert(r.keys_array().view_seq() =~= self.keys_view());
        }
        r
    }
}

/// Offset monotonicity: whatever sequence of valid and null pushes built a
/// well-formed nested builder, its offsets sequence is non-decreasing and has
/// exactly one more entry than there are pushed slots.
pub proof fn lemma_offset_monotonicity(b: DynMutableListArray)
    requires
        b.wf(),
    ensures
        forall|i: int, j: int|
            0 <= i <= j < b.offsets_seq().len() ==> b.offsets_seq()[i] <= b.offsets_seq()[j],
        b.offsets_seq().len() == b.pushed_validity().len() + 1,
{
    assert forall|i: int, j: int|
        0 <= i <= j < b.offsets_seq().len() implies b.offsets_seq()[i] <= b.offsets_seq()[j] by {
        lemma_sorted_between(b.offsets_seq(), i, j);
    }
}

proof fn lemma_sorted_between(s: Seq<i32>, i: int, j: int)
    requires
        forall|k: int| 0 <= k < s.len() - 1 ==> #[trigger] s[k] <= s[k + 1],
        0 <= i <= j < s.len(),
    ensures
        s[i] <= s[j],
    decreases j - i,
{
    if i < j {
        lemma_sorted_between(s, i, j - 1);
        assert(s[j - 1] <= s[j]);
    }
}

/// Null round-trip: freezing a nested builder reproduces, at every index,
/// exactly the valid/null sequence that was pushed into it.
pub proof fn lemma_null_round_trip(b: DynMutableListArray, frozen: ListArray)
    requires
        b.wf(),
        list_freeze_ok(b, frozen),
    ensures
        frozen.spec_len() == b.pushed_validity().len(),
        forall|i: int|
            0 <= i < b.pushed_validity().len() ==> frozen.is_valid_spec(i) == b.pushed_validity()[i],
{
}

/// Dictionary round-trip: after freezing, each slot reports exactly the key
/// pushed for it (null slots report null regardless of the underlying key
/// storage), and the dictionary the keys index is exactly the fixed one the
/// builder was created over.
pub proof fn lemma_dictionary_round_trip(
    d: FixedItemsUtf8Dictionary,
    frozen: DictionaryArray,
    pushed: Seq<Option<i32>>,
)
    requires
        d.wf(),
        d.keys_view() == pushed,
        dict_freeze_ok(d, frozen),
    ensures
        frozen.spec_len() == pushed.len(),
        forall|i: int| 0 <= i < pushed.len() ==> frozen.entry(i) == pushed[i],
        (match frozen.dictionary() {
            Array::Utf8(u) => u.strings() == d.dict_strings(),
            _ => false,
        }),
{
}

} // verus!
