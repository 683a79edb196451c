use vstd::prelude::*;
use self::iterator::ArrayIterator;

pub mod iterator;
pub mod primitive_array;
pub mod string_array;

verus! {

/// An [`Array`] is a fixed sequence of slots of one type, each either null
/// or holding a value.
pub trait Array: Send + Sync + Sized + 'static {
    /// The [`ArrayBuilder`] that produces this array; the builder names this
    /// array in turn.
    type Builder;

    /// The owned item of this array.
    type OwnedItem: 'static + core::fmt::Debug;

    /// What a read hands out: a copy for fixed-width values, a view borrowed
    /// from the array's own storage for text.
    type RefItem<'a>: Copy + core::fmt::Debug;

    /// The mathematical value that an item stands for.
    type Value;

    /// The value that a reference item stands for.
    spec fn value_of<'a>(item: Self::RefItem<'a>) -> Self::Value;

    /// The storage is consistent: one presence bit per slot, and whatever
    /// else the layout asks for.
    spec fn wf(&self) -> bool;

    /// The slots in order: `None` for a null, `Some` of the value otherwise.
    spec fn view(&self) -> Seq<Option<Self::Value>>;

    /// Retrieve the item at `idx`, or `None` where the slot is null.
    fn get(&self, idx: usize) -> (item: Option<Self::RefItem<'_>>)
        requires
            self.wf(),
            idx < self.view().len(),
        ensures
            item is None <==> self.view()[idx as int] is None,
            match item {
                Some(v) => self.view()[idx as int] == Some(Self::value_of(v)),
                None => self.view()[idx as int] is None,
            },
    ;

    /// Number of slots, nulls included.
    fn len(&self) -> (n: usize)
        requires
            self.wf(),
        ensures
            n == self.view().len(),
    ;

    /// Whether the array has no slot at all.
    fn is_empty(&self) -> (empty: bool)
        requires
            self.wf(),
        ensures
            empty == (self.view().len() == 0),
    {
        self.len() == 0
    }

    /// A cursor over the array, standing before the first slot.
    fn iter(&self) -> (it: ArrayIterator<'_, Self>)
        requires
            self.wf(),
        ensures
            it.array() == self,
            it.pos() == 0,
    ;
}

/// The value that an optional reference item stands for: `None` for a null.
pub open spec fn item_value<'a, A: Array>(item: Option<A::RefItem<'a>>) -> Option<A::Value> {
    match item {
        Some(v) => Some(A::value_of(v)),
        None => None,
    }
}

/// The values that a sequence of optional reference items stands for.
pub open spec fn item_values<'a, A: Array>(items: Seq<Option<A::RefItem<'a>>>) -> Seq<
    Option<A::Value>,
> {
    Seq::new(items.len(), |i: int| item_value::<A>(items[i]))
}

/// An [`ArrayBuilder`] accumulates slots and turns them into an [`Array`].
pub trait ArrayBuilder: Sized {
    /// The [`Array`] that this builder produces.
    type Array: Array;

    /// The storage is consistent and within the layout's limits.
    spec fn wf(&self) -> bool;

    /// The slots pushed so far, in order.
    spec fn view(&self) -> Seq<Option<<Self::Array as Array>::Value>>;

    /// Whether the layout can hold these slots: the limits on the number of
    /// slots and on the size of their contents.
    spec fn fits(slots: Seq<Option<<Self::Array as Array>::Value>>) -> bool;

    /// Slots that fit are no more than a bitmap can hold.
    proof fn lemma_fits_bounded(slots: Seq<Option<<Self::Array as Array>::Value>>)
        requires
            Self::fits(slots),
        ensures
            slots.len() <= crate::bitmap::MAX_BITS,
    ;

    /// A consistent builder holds slots that fit.
    proof fn lemma_wf_fits(&self)
        requires
            self.wf(),
        ensures
            Self::fits(self.view()),
    ;

    /// Slots that fit still fit without the last of them.
    proof fn lemma_fits_prefix(
        slots: Seq<Option<<Self::Array as Array>::Value>>,
        slot: Option<<Self::Array as Array>::Value>,
    )
        requires
            Self::fits(slots.push(slot)),
        ensures
            Self::fits(slots),
    ;

    /// Create an empty builder with room for `capacity` slots.
    fn with_capacity(capacity: usize) -> (builder: Self)
        requires
            capacity <= crate::bitmap::MAX_BITS,
        ensures
            builder.wf(),
            builder.view() == Seq::<Option<<Self::Array as Array>::Value>>::empty(),
    ;

    /// Whether one more slot can be pushed: whether the slots still fit
    /// with `value` behind them.
    fn can_push(&self, value: Option<<Self::Array as Array>::RefItem<'_>>) -> (ok: bool)
        requires
            self.wf(),
        ensures
            ok == Self::fits(self.view().push(item_value::<Self::Array>(value))),
    ;

    /// Append one slot: a value, or a null.
    fn push(&mut self, value: Option<<Self::Array as Array>::RefItem<'_>>)
        requires
            old(self).wf(),
            Self::fits(old(self).view().push(item_value::<Self::Array>(value))),
        ensures
            final(self).wf(),
            final(self).view() == old(self).view().push(item_value::<Self::Array>(value)),
            final(self).view().len() == old(self).view().len() + 1,
    ;

    /// Finish the build: the array holds exactly the slots pushed.
    fn finish(self) -> (array: Self::Array)
        requires
            self.wf(),
        ensures
            array.wf(),
            array.view() == self.view(),
            array.view().len() == self.view().len(),
    ;
}

/// Slots that fit still fit when cut down to their first `k`.
pub proof fn lemma_fits_take<B: ArrayBuilder>(
    slots: Seq<Option<<B::Array as Array>::Value>>,
    k: int,
)
    requires
        B::fits(slots),
        0 <= k <= slots.len(),
    ensures
        B::fits(slots.take(k)),
    decreases slots.len() - k,
{
    if k == slots.len() {
        assert(slots.take(k) =~= slots);
    } else {
        lemma_fits_take::<B>(slots, k + 1);
        assert(slots.take(k + 1) =~= slots.take(k).push(slots[k]));
        B::lemma_fits_prefix(slots.take(k), slots[k]);
    }
}

/// Build an array from the given items, pushed in order: the array holds
/// exactly their values, slot for slot, nulls included.
pub fn build_array_from_vec<'a, B: ArrayBuilder>(
    items: &[Option<<B::Array as Array>::RefItem<'a>>],
) -> (array: B::Array)
    requires
        B::fits(item_values::<B::Array>(items@)),
    ensures
        array.wf(),
        array.view() == item_values::<B::Array>(items@),
        array.view().len() == items@.len(),
{
    let ghost slots = item_values::<B::Array>(items@);
    proof {
        B::lemma_fits_bounded(slots);
    }
    let mut builder = B::with_capacity(items.len());
    let mut i: usize = 0;
    while i < items.len()
        invariant
            i <= items.len(),
            slots == item_values::<B::Array>(items@),
            B::fits(slots),
            builder.wf(),
            builder.view() == slots.take(i as int),
        decreases items.len() - i,
    {
        proof {
            lemma_fits_take::<B>(slots, i + 1);
            assert(slots.take(i + 1) =~= slots.take(i as int).push(
                item_value::<B::Array>(items@[i as int]),
            ));
        }
        builder.push(items[i]);
        i += 1;
    }
    assert(slots.take(i as int) =~= slots);
    builder.finish()
}

/// Build an array from the given items where the layout can hold them:
/// `None` exactly where they do not fit, else the array that
/// [`build_array_from_vec`] gives.
pub fn try_build_array_from_vec<'a, B: ArrayBuilder>(
    items: &[Option<<B::Array as Array>::RefItem<'a>>],
) -> (built: Option<B::Array>)
    ensures
        built is Some <==> B::fits(item_values::<B::Array>(items@)),
        built matches Some(array) ==> array.wf() && array.view() == item_values::<B::Array>(
            items@,
        ),
{
    let ghost slots = item_values::<B::Array>(items@);
    if items.len() > crate::bitmap::MAX_BITS {
        proof {
            if B::fits(slots) {
                B::lemma_fits_bounded(slots);
            }
        }
        return None;
    }
    let mut builder = B::with_capacity(items.len());
    let mut i: usize = 0;
    while i < items.len()
        invariant
            i <= items.len(),
            slots == item_values::<B::Array>(items@),
            builder.wf(),
            builder.view() == slots.take(i as int),
        decreases items.len() - i,
    {
        proof {
            assert(slots.take(i + 1) =~= slots.take(i as int).push(
                item_value::<B::Array>(items@[i as int]),
            ));
        }
        if !builder.can_push(items[i]) {
            proof {
                if B::fits(slots) {
                    lemma_fits_take::<B>(slots, i + 1);
                }
            }
            return None;
        }
        builder.push(items[i]);
        i += 1;
    }
    proof {
        assert(slots.take(i as int) =~= slots);
        builder.lemma_wf_fits();
    }
    Some(builder.finish())
}

/// Reading back what was pushed: where an array holds the values of the
/// items pushed, and a cursor at its start has handed out `read`, the values
/// read are the values pushed, slot for slot.
pub proof fn lemma_round_trip<'a, A: Array>(
    array: &'a A,
    pushed: Seq<Option<A::RefItem<'a>>>,
    it: ArrayIterator<'a, A>,
    read: Seq<Option<A::RefItem<'a>>>,
)
    requires
        array.view() == item_values::<A>(pushed),
        it.array() == array,
        it.pos() == 0,
        item_values::<A>(read) == it.remaining(),
    ensures
        read.len() == pushed.len(),
        item_values::<A>(read) == item_values::<A>(pushed),
        forall|i: int|
            0 <= i < pushed.len() ==> item_value::<A>(#[trigger] read[i]) == item_value::<A>(
                pushed[i],
            ),
{
    assert(it.remaining() =~= array.view());
    assert(item_values::<A>(read).len() == read.len());
    assert(item_values::<A>(pushed).len() == pushed.len());
    assert forall|i: int| 0 <= i < pushed.len() implies item_value::<A>(#[trigger] read[i])
        == item_value::<A>(pushed[i]) by {
        assert(item_values::<A>(read)[i] == item_values::<A>(pushed)[i]);
    }
}

} // verus!
