//! Validity bitmaps: one bit per logical element, `true` meaning valid and
//! `false` meaning null. A growable [`MutableBitmap`] accompanies a builder;
//! freezing turns it into an immutable [`Bitmap`] shared by array readers.

use vstd::prelude::*;

verus! {

/// A growable per-element validity bitmap.
pub struct MutableBitmap {
    bits: Vec<bool>,
}

impl View for MutableBitmap {
    type V = Seq<bool>;

    closed spec fn view(&self) -> Seq<bool> {
        self.bits@
    }
}

impl MutableBitmap {
    pub fn new() -> (r: MutableBitmap)
        ensures
            r@ == Seq::<bool>::empty(),
    {
        MutableBitmap { bits: Vec::new() }
    }

    pub fn with_capacity(capacity: usize) -> (r: MutableBitmap)
        ensures
            r@ == Seq::<bool>::empty(),
    {
        MutableBitmap { bits: Vec::with_capacity(capacity) }
    }

    pub fn len(&self) -> (r: usize)
        ensures
            r == self@.len(),
    {
        self.bits.len()
    }

    pub fn push(&mut self, value: bool)
        ensures
            final(self)@ == old(self)@.push(value),
    {
        self.bits.push(value);
    }

    /// Appends `additional` copies of `value`.
    pub fn extend_constant(&mut self, additional: usize, value: bool)
        ensures
            final(self)@ == old(self)@ + Seq::new(additional as nat, |i: int| value),
    {
        let mut k: usize = 0;
        while k < additional
            invariant
                k <= additional,
                self@ == old(self)@ + Seq::new(k as nat, |i: int| value),
            decreases additional - k,
        {
            self.bits.push(value);
            proof {
                assert(self@ =~= old(self)@ + Seq::new((k + 1) as nat, |i: int| value));
            }
            k = k + 1;
        }
    }

    pub fn set(&mut self, index: usize, value: bool)
        requires
            index < old(self)@.len(),
        ensures
            final(self)@ == old(self)@.update(index as int, value),
    {
        self.bits.set(index, value);
    }

    pub fn get(&self, index: usize) -> (r: bool)
        requires
            index < self@.len(),
        ensures
            r == self@[index as int],
    {
        self.bits[index]
    }

    /// Freezes the bitmap into its immutable form; the builder handle is
    /// consumed, so no mutation is possible afterwards.
    pub fn freeze(self) -> (r: Bitmap)
        ensures
            r@ == self@,
    {
        Bitmap { bits: self.bits }
    }
}

/// An immutable validity bitmap, shared freely for reads once frozen.
pub struct Bitmap {
    bits: Vec<bool>,
}

impl View for Bitmap {
    type V = Seq<bool>;

    closed spec fn view(&self) -> Seq<bool> {
        self.bits@
    }
}

impl Bitmap {
    /// Builds an immutable bitmap directly from its bits, used when decoding
    /// a validity buffer from wire bytes.
    pub fn from_bits(bits: Vec<bool>) -> (r: Bitmap)
        ensures
            r@ == bits@,
    {
        Bitmap { bits }
    }

    pub fn len(&self) -> (r: usize)
        ensures
            r == self@.len(),
    {
        self.bits.len()
    }

    pub fn get(&self, index: usize) -> (r: bool)
        requires
            index < self@.len(),
        ensures
            r == self@[index as int],
    {
        self.bits[index]
    }
}

} // verus!
