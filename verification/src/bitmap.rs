use vstd::prelude::*;
use bitvec::vec::BitVec;

verus! {

/// Largest number of bits a [`Bitmap`] can hold: an eighth of the address space.
pub const MAX_BITS: usize = usize::MAX / 8;

/// A growable sequence of presence bits, one per slot, stored by
/// `bitvec::vec::BitVec`. The contents are known to proofs only as
/// [`bitmap_bits`].
#[verifier::external_body]
pub struct Bitmap {
    bits: BitVec,
}

/// The bits that a bitmap holds, first pushed first.
pub uninterp spec fn bitmap_bits(bitmap: Bitmap) -> Seq<bool>;

impl Bitmap {
    /// `BitVec::with_capacity`: an empty bit vector. The call panics when
    /// `capacity` is above `BitSlice::MAX_BITS`, which is `usize::MAX >> 3`.
    #[verifier::external_body]
    pub(crate) fn with_capacity(capacity: usize) -> (bitmap: Bitmap)
        requires
            capacity <= MAX_BITS,
        ensures
            bitmap_bits(bitmap) == Seq::<bool>::empty(),
    {
        Bitmap { bits: BitVec::with_capacity(capacity) }
    }

    /// `BitVec::push`: appends one bit at the end and leaves the others as
    /// they were. The call panics when the new length would be above
    /// `BitSlice::MAX_BITS`.
    #[verifier::external_body]
    pub(crate) fn push(&mut self, value: bool)
        requires
            bitmap_bits(*old(self)).len() < MAX_BITS,
        ensures
            bitmap_bits(*final(self)) == bitmap_bits(*old(self)).push(value),
    {
        self.bits.push(value)
    }

    /// `BitVec::len`: the number of bits held.
    #[verifier::external_body]
    pub(crate) fn len(&self) -> (n: usize)
        ensures
            n == bitmap_bits(*self).len(),
    {
        self.bits.len()
    }

    /// Indexing a `BitVec` by `usize`: the bit at `idx`. The call panics
    /// when `idx` is not below the length.
    #[verifier::external_body]
    pub(crate) fn get(&self, idx: usize) -> (bit: bool)
        requires
            idx < bitmap_bits(*self).len(),
        ensures
            bit == bitmap_bits(*self)[idx as int],
    {
        self.bits[idx]
    }
}

} // verus!
