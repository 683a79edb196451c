use vstd::prelude::*;
use super::{Array, ArrayBuilder};
use super::iterator::ArrayIterator;
use crate::bitmap::{Bitmap, bitmap_bits, MAX_BITS};

verus! {

/// The fixed-width scalar types that a [`PrimitiveArray`] can hold.
pub trait PrimitiveType: Copy + Send + Sync + Default + core::fmt::Debug + 'static {

}

impl PrimitiveType for i32 {

}

impl PrimitiveType for i64 {

}

/// The slots that a data sequence and its presence bits stand for.
pub open spec fn primitive_slots<T>(data: Seq<T>, bits: Seq<bool>) -> Seq<Option<T>> {
    Seq::new(
        bits.len(),
        |i: int|
            if bits[i] {
                Some(data[i])
            } else {
                None
            },
    )
}

/// A nullable array of fixed-width values: one value and one presence bit
/// per slot.
pub struct PrimitiveArray<T: PrimitiveType> {
    data: Vec<T>,
    bitmap: Bitmap,
}

impl<T: PrimitiveType> Array for PrimitiveArray<T> {
    type Builder = PrimitiveBuilder<T>;

    type OwnedItem = T;

    type RefItem<'a> = T;

    type Value = T;

    open spec fn value_of<'a>(item: T) -> T {
        item
    }

    closed spec fn wf(&self) -> bool {
        self.data@.len() == bitmap_bits(self.bitmap).len()
    }

    closed spec fn view(&self) -> Seq<Option<T>> {
        primitive_slots(self.data@, bitmap_bits(self.bitmap))
    }

    fn get(&self, idx: usize) -> (item: Option<T>) {
        if self.bitmap.get(idx) {
            Some(self.data[idx])
        } else {
            None
        }
    }

    fn len(&self) -> (n: usize) {
        self.data.len()
    }

    fn iter(&self) -> (it: ArrayIterator<'_, Self>) {
        ArrayIterator::new(self)
    }
}

/// The builder of a [`PrimitiveArray`].
pub struct PrimitiveBuilder<T: PrimitiveType> {
    data: Vec<T>,
    bitmap: Bitmap,
}

impl<T: PrimitiveType> ArrayBuilder for PrimitiveBuilder<T> {
    type Array = PrimitiveArray<T>;

    closed spec fn wf(&self) -> bool {
        &&& self.data@.len() == bitmap_bits(self.bitmap).len()
        &&& bitmap_bits(self.bitmap).len() <= MAX_BITS
    }

    closed spec fn view(&self) -> Seq<Option<T>> {
        primitive_slots(self.data@, bitmap_bits(self.bitmap))
    }

    open spec fn fits(slots: Seq<Option<T>>) -> bool {
        slots.len() <= MAX_BITS
    }

    proof fn lemma_wf_fits(&self) {
    }

    proof fn lemma_fits_bounded(slots: Seq<Option<T>>) {
    }

    proof fn lemma_fits_prefix(slots: Seq<Option<T>>, slot: Option<T>) {
    }

    fn with_capacity(capacity: usize) -> (builder: Self) {
        Self { data: Vec::with_capacity(capacity), bitmap: Bitmap::with_capacity(capacity) }
    }

    fn can_push(&self, value: Option<T>) -> (ok: bool) {
        self.bitmap.len() < MAX_BITS
    }

    fn push(&mut self, value: Option<T>) {
        match value {
            Some(v) => {
                self.data.push(v);
                self.bitmap.push(true);
            },
            None => {
                self.data.push(T::default());
                self.bitmap.push(false);
            },
        }
        assert(self.view() =~= old(self).view().push(value));
    }

    fn finish(self) -> (array: PrimitiveArray<T>) {
        PrimitiveArray { data: self.data, bitmap: self.bitmap }
    }
}

} // verus!
