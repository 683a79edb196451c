use vstd::prelude::*;
use super::{Array, item_value, item_values};

verus! {

/// A forward cursor over an [`Array`]: the array and the next position.
pub struct ArrayIterator<'a, T> {
    array: &'a T,
    pos: usize,
}

impl<'a, T> ArrayIterator<'a, T> {
    /// The array that the cursor walks.
    pub closed spec fn array(&self) -> &'a T {
        self.array
    }

    /// The index of the slot that `next` hands out.
    pub closed spec fn pos(&self) -> nat {
        self.pos as nat
    }

    /// A cursor before the first slot of `array`.
    pub fn new(array: &'a T) -> (it: Self)
        ensures
            it.array() == array,
            it.pos() == 0,
    {
        Self { array, pos: 0 }
    }
}

impl<'a, T: Array> ArrayIterator<'a, T> {
    /// The array is consistent and the position is not past its end.
    pub open spec fn wf(&self) -> bool {
        self.array().wf() && self.pos() <= self.array().view().len()
    }

    /// The slots not handed out yet.
    pub open spec fn remaining(&self) -> Seq<Option<T::Value>> {
        self.array().view().skip(self.pos() as int)
    }

    /// The next slot, or `None` once every slot was handed out. A null slot
    /// comes as `Some(None)`.
    pub fn next(&mut self) -> (item: Option<Option<T::RefItem<'a>>>)
        requires
            old(self).wf(),
        ensures
            final(self).wf(),
            final(self).array() == old(self).array(),
            match item {
                Some(slot) => {
                    &&& old(self).pos() < old(self).array().view().len()
                    &&& item_value::<T>(slot) == old(self).array().view()[old(self).pos() as int]
                    &&& final(self).pos() == old(self).pos() + 1
                },
                None => {
                    &&& old(self).pos() == old(self).array().view().len()
                    &&& final(self).pos() == old(self).pos()
                },
            },
    {
        if self.pos >= self.array.len() {
            None
        } else {
            let pos = self.pos;
            self.pos += 1;
            Some(self.array.get(pos))
        }
    }

    /// Every slot not handed out yet, in order: what repeated calls of
    /// `next` would give up to the end.
    pub fn collect(self) -> (items: Vec<Option<T::RefItem<'a>>>)
        requires
            self.wf(),
        ensures
            items@.len() == self.remaining().len(),
            item_values::<T>(items@) == self.remaining(),
            forall|i: int|
                0 <= i < items@.len() ==> item_value::<T>(#[trigger] items@[i])
                    == self.array().view()[self.pos() + i],
    {
        let mut it = self;
        let mut items: Vec<Option<T::RefItem<'a>>> = Vec::new();
        loop
            invariant
                it.wf(),
                it.array() == self.array(),
                self.pos() <= it.pos(),
                item_values::<T>(items@) == self.array().view().subrange(
                    self.pos() as int,
                    it.pos() as int,
                ),
            ensures
                it.pos() == self.array().view().len(),
            decreases it.array().view().len() - it.pos(),
        {
            let ghost before = items@;
            match it.next() {
                Some(slot) => {
                    items.push(slot);
                    assert(item_values::<T>(items@) =~= item_values::<T>(before).push(
                        item_value::<T>(slot),
                    ));
                    assert(item_values::<T>(items@) =~= self.array().view().subrange(
                        self.pos() as int,
                        it.pos() as int,
                    ));
                },
                None => {
                    break ;
                },
            }
        }
        assert(item_values::<T>(items@) =~= self.remaining());
        assert(item_values::<T>(items@).len() == items@.len());
        assert forall|i: int| 0 <= i < items@.len() implies item_value::<T>(#[trigger] items@[i])
            == self.array().view()[self.pos() + i] by {
            assert(item_values::<T>(items@)[i] == self.remaining()[i]);
        }
        items
    }
}

/// Iterating is repeatable: two cursors at the same position of the same
/// array have the same slots before them, and a cursor at the start has
/// every slot of the array before it.
pub proof fn lemma_iteration_repeatable<'a, T: Array>(
    first: ArrayIterator<'a, T>,
    second: ArrayIterator<'a, T>,
)
    requires
        first.array() == second.array(),
        first.pos() == second.pos(),
    ensures
        first.remaining() == second.remaining(),
        first.pos() == 0 ==> first.remaining() == first.array().view(),
{
    if first.pos() == 0 {
        assert(first.remaining() =~= first.array().view());
    }
}

} // verus!
