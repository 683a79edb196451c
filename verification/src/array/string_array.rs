use vstd::prelude::*;
use vstd::slice::slice_subrange;
use vstd::string::StringSliceAdditionalSpecFns;
use vstd::utf8::{decode_utf8, encode_utf8, valid_utf8};
use vstd::utf8::{decode_utf8_encode_utf8, encode_utf8_decode_utf8, encode_utf8_valid_utf8};
use super::{Array, ArrayBuilder};
use super::iterator::ArrayIterator;
use crate::bitmap::{Bitmap, bitmap_bits, MAX_BITS};

verus! {

/// The error of `core::str::from_utf8`, carried through unread.
#[verifier::external_type_specification]
#[verifier::external_body]
pub struct ExUtf8Error(core::str::Utf8Error);

/// `core::str::from_utf8` succeeds exactly on well-formed UTF-8, and the
/// text that it hands back has the given bytes as its encoding.
pub assume_specification[ core::str::from_utf8 ](v: &[u8]) -> (r: Result<
    &str,
    core::str::Utf8Error,
>)
    ensures
        r is Ok <==> valid_utf8(v@),
        r matches Ok(s) ==> s.spec_bytes() == v@,
;

/// The bytes that one slot adds to the buffer: the UTF-8 encoding of a
/// text, nothing for a null.
pub open spec fn slot_bytes(slot: Option<Seq<char>>) -> Seq<u8> {
    match slot {
        Some(text) => encode_utf8(text),
        None => Seq::empty(),
    }
}

/// The buffer of a sequence of slots: the encodings of the texts, in order
/// and with nothing between them.
pub open spec fn text_bytes(slots: Seq<Option<Seq<char>>>) -> Seq<u8>
    decreases slots.len(),
{
    if slots.len() == 0 {
        Seq::empty()
    } else {
        text_bytes(slots.drop_last()) + slot_bytes(slots.last())
    }
}

/// One more slot adds its bytes at the end of the buffer.
pub proof fn lemma_text_bytes_push(slots: Seq<Option<Seq<char>>>, slot: Option<Seq<char>>)
    ensures
        text_bytes(slots.push(slot)) == text_bytes(slots) + slot_bytes(slot),
{
    assert(slots.push(slot).drop_last() =~= slots);
}

/// The bytes of slot `i`: the span of the buffer between two neighbouring
/// offsets.
pub open spec fn span(data: Seq<u8>, offsets: Seq<u32>, i: int) -> Seq<u8> {
    data.subrange(offsets[i] as int, offsets[i + 1] as int)
}

/// The slots that a buffer, its offsets and its presence bits stand for.
pub open spec fn text_slots(data: Seq<u8>, offsets: Seq<u32>, bits: Seq<bool>) -> Seq<
    Option<Seq<char>>,
> {
    Seq::new(
        bits.len(),
        |i: int|
            if bits[i] {
                Some(decode_utf8(span(data, offsets, i)))
            } else {
                None
            },
    )
}

/// The layout of a text column: one offset more than slots, starting at 0,
/// never decreasing, ending at the buffer's length; a null spans nothing and
/// a present slot spans well-formed UTF-8; and the buffer holds exactly the
/// bytes of the slots.
pub open spec fn text_layout(data: Seq<u8>, offsets: Seq<u32>, bits: Seq<bool>) -> bool {
    &&& offsets.len() == bits.len() + 1
    &&& offsets[0] == 0
    &&& offsets[bits.len() as int] == data.len()
    &&& forall|i: int, j: int|
        0 <= i <= j < offsets.len() ==> #[trigger] offsets[i] <= #[trigger] offsets[j]
    &&& forall|i: int|
        0 <= i < bits.len() ==> if #[trigger] bits[i] {
            valid_utf8(span(data, offsets, i))
        } else {
            offsets[i] == offsets[i + 1]
        }
    &&& data == text_bytes(text_slots(data, offsets, bits))
}

/// Appending one slot to a laid-out column, with the buffer grown by the
/// slot's bytes and the new length as the last offset, gives a laid-out
/// column that stands for the old slots followed by the new one.
pub proof fn lemma_layout_push(
    data: Seq<u8>,
    offsets: Seq<u32>,
    bits: Seq<bool>,
    slot: Option<Seq<char>>,
)
    requires
        text_layout(data, offsets, bits),
        data.len() + slot_bytes(slot).len() <= u32::MAX,
    ensures
        text_slots(
            data + slot_bytes(slot),
            offsets.push((data.len() + slot_bytes(slot).len()) as u32),
            bits.push(slot is Some),
        ) == text_slots(data, offsets, bits).push(slot),
        text_layout(
            data + slot_bytes(slot),
            offsets.push((data.len() + slot_bytes(slot).len()) as u32),
            bits.push(slot is Some),
        ),
{
    let added = slot_bytes(slot);
    let data2 = data + added;
    let offsets2 = offsets.push((data.len() + added.len()) as u32);
    let bits2 = bits.push(slot is Some);
    let n = bits.len() as int;
    let slots = text_slots(data, offsets, bits);
    let slots2 = text_slots(data2, offsets2, bits2);
    assert forall|i: int| 0 <= i < n implies span(data2, offsets2, i) == span(
        data,
        offsets,
        i,
    ) by {
        assert(offsets[i] <= offsets[i + 1]);
        assert(offsets[i + 1] <= offsets[n]);
        assert(span(data2, offsets2, i) =~= span(data, offsets, i));
    }
    assert(span(data2, offsets2, n) =~= added);
    if let Some(text) = slot {
        encode_utf8_valid_utf8(text);
        encode_utf8_decode_utf8(text);
    }
    assert(slots2 =~= slots.push(slot));
    lemma_text_bytes_push(slots, slot);
    assert forall|i: int, j: int| 0 <= i <= j < offsets2.len() implies #[trigger] offsets2[i]
        <= #[trigger] offsets2[j] by {
        if j == n + 1 {
            if i <= n {
                assert(offsets[i] <= offsets[n]);
            }
        } else {
            assert(offsets[i] <= offsets[j]);
        }
    }
    assert forall|i: int| 0 <= i < bits2.len() implies if #[trigger] bits2[i] {
        valid_utf8(span(data2, offsets2, i))
    } else {
        offsets2[i] == offsets2[i + 1]
    } by {
        if i < n {
            assert(bits2[i] == bits[i]);
        }
    }
}

/// In a laid-out column each slot spans exactly its own bytes: the encoding
/// of its text, or nothing for a null.
pub proof fn lemma_layout_spans(data: Seq<u8>, offsets: Seq<u32>, bits: Seq<bool>)
    requires
        text_layout(data, offsets, bits),
    ensures
        forall|i: int|
            0 <= i < bits.len() ==> span(data, offsets, i) == slot_bytes(
                #[trigger] text_slots(data, offsets, bits)[i],
            ),
{
    assert forall|i: int| 0 <= i < bits.len() implies span(data, offsets, i) == slot_bytes(
        #[trigger] text_slots(data, offsets, bits)[i],
    ) by {
        assert(offsets[i] <= offsets[i + 1]);
        if bits[i] {
            decode_utf8_encode_utf8(span(data, offsets, i));
        } else {
            assert(span(data, offsets, i) =~= Seq::<u8>::empty());
        }
    }
}

/// A nullable array of texts: one shared byte buffer, the offsets that cut
/// it into slots, and one presence bit per slot.
pub struct StringArray {
    data: Vec<u8>,
    offsets: Vec<u32>,
    bitmap: Bitmap,
}

impl StringArray {
    /// The byte buffer.
    pub closed spec fn spec_data(&self) -> Seq<u8> {
        self.data@
    }

    /// The offsets into the byte buffer.
    pub closed spec fn spec_offsets(&self) -> Seq<u32> {
        self.offsets@
    }

    /// The byte buffer: the encodings of the present texts, end to end.
    pub fn data(&self) -> (data: &[u8])
        ensures
            data@ == self.spec_data(),
    {
        self.data.as_slice()
    }

    /// The offsets: slot `i` spans the buffer from offset `i` to offset
    /// `i + 1`.
    pub fn offsets(&self) -> (offsets: &[u32])
        ensures
            offsets@ == self.spec_offsets(),
    {
        self.offsets.as_slice()
    }

    /// The layout of a consistent array: one offset more than slots, the
    /// first 0, the last the buffer's length, none below an earlier one; the
    /// buffer is the encodings of the present texts end to end; and each
    /// slot spans exactly its own bytes, a null none at all.
    pub proof fn lemma_layout(&self)
        requires
            self.wf(),
        ensures
            self.spec_offsets().len() == self.view().len() + 1,
            self.spec_offsets()[0] == 0,
            self.spec_offsets()[self.view().len() as int] == self.spec_data().len(),
            forall|i: int, j: int|
                0 <= i <= j <= self.view().len() ==> #[trigger] self.spec_offsets()[i]
                    <= #[trigger] self.spec_offsets()[j],
            self.spec_data() == text_bytes(self.view()),
            forall|i: int|
                0 <= i < self.view().len() ==> span(self.spec_data(), self.spec_offsets(), i)
                    == slot_bytes(#[trigger] self.view()[i]),
    {
        lemma_layout_spans(self.data@, self.offsets@, bitmap_bits(self.bitmap));
    }
}

impl Array for StringArray {
    type Builder = StringBuilder;

    type OwnedItem = String;

    type RefItem<'a> = &'a str;

    type Value = Seq<char>;

    open spec fn value_of<'a>(item: &'a str) -> Seq<char> {
        item@
    }

    closed spec fn wf(&self) -> bool {
        text_layout(self.data@, self.offsets@, bitmap_bits(self.bitmap))
    }

    closed spec fn view(&self) -> Seq<Option<Seq<char>>> {
        text_slots(self.data@, self.offsets@, bitmap_bits(self.bitmap))
    }

    fn get(&self, idx: usize) -> (item: Option<&str>) {
        assert(idx < bitmap_bits(self.bitmap).len());
        assert(self.offsets.len() == bitmap_bits(self.bitmap).len() + 1);
        if self.bitmap.get(idx) {
            let start = self.offsets[idx] as usize;
            let end = self.offsets[idx + 1] as usize;
            proof {
                assert(self.offsets@[idx as int] <= self.offsets@[idx + 1]);
                assert(self.offsets@[idx + 1] <= self.offsets@[bitmap_bits(self.bitmap).len() as int]);
            }
            let bytes = slice_subrange(self.data.as_slice(), start, end);
            assert(bytes@ == span(self.data@, self.offsets@, idx as int));
            match core::str::from_utf8(bytes) {
                Ok(text) => {
                    proof {
                        encode_utf8_decode_utf8(text@);
                    }
                    Some(text)
                },
                Err(_) => {
                    // Never taken: a present slot spans well-formed UTF-8.
                    assert(false);
                    None
                },
            }
        } else {
            None
        }
    }

    fn len(&self) -> (n: usize) {
        self.bitmap.len()
    }

    fn iter(&self) -> (it: ArrayIterator<'_, Self>) {
        ArrayIterator::new(self)
    }
}

/// The builder of a [`StringArray`].
pub struct StringBuilder {
    data: Vec<u8>,
    offsets: Vec<u32>,
    bitmap: Bitmap,
}

impl StringBuilder {
    /// The byte buffer filled so far.
    pub closed spec fn spec_data(&self) -> Seq<u8> {
        self.data@
    }

    /// The offsets written so far.
    pub closed spec fn spec_offsets(&self) -> Seq<u32> {
        self.offsets@
    }

    /// The layout of a consistent builder, after any pushes: one offset more
    /// than slots, the first 0, the last the buffer's length, none below an
    /// earlier one; the buffer is the encodings of the present texts end to
    /// end; and each slot spans exactly its own bytes, a null none at all.
    pub proof fn lemma_layout(&self)
        requires
            self.wf(),
        ensures
            self.spec_offsets().len() == self.view().len() + 1,
            self.spec_offsets()[0] == 0,
            self.spec_offsets()[self.view().len() as int] == self.spec_data().len(),
            forall|i: int, j: int|
                0 <= i <= j <= self.view().len() ==> #[trigger] self.spec_offsets()[i]
                    <= #[trigger] self.spec_offsets()[j],
            self.spec_data() == text_bytes(self.view()),
            forall|i: int|
                0 <= i < self.view().len() ==> span(self.spec_data(), self.spec_offsets(), i)
                    == slot_bytes(#[trigger] self.view()[i]),
    {
        lemma_layout_spans(self.data@, self.offsets@, bitmap_bits(self.bitmap));
    }
}

impl ArrayBuilder for StringBuilder {
    type Array = StringArray;

    closed spec fn wf(&self) -> bool {
        &&& text_layout(self.data@, self.offsets@, bitmap_bits(self.bitmap))
        &&& bitmap_bits(self.bitmap).len() <= MAX_BITS
    }

    closed spec fn view(&self) -> Seq<Option<Seq<char>>> {
        text_slots(self.data@, self.offsets@, bitmap_bits(self.bitmap))
    }

    open spec fn fits(slots: Seq<Option<Seq<char>>>) -> bool {
        slots.len() <= MAX_BITS && text_bytes(slots).len() <= u32::MAX
    }

    proof fn lemma_wf_fits(&self) {
    }

    proof fn lemma_fits_bounded(slots: Seq<Option<Seq<char>>>) {
    }

    proof fn lemma_fits_prefix(slots: Seq<Option<Seq<char>>>, slot: Option<Seq<char>>) {
        lemma_text_bytes_push(slots, slot);
    }

    fn with_capacity(capacity: usize) -> (builder: Self)
        ensures
            builder.spec_data() == Seq::<u8>::empty(),
            builder.spec_offsets() == seq![0u32],
    {
        let mut offsets = Vec::with_capacity(capacity + 1);
        offsets.push(0);
        let builder = Self {
            data: Vec::with_capacity(capacity),
            offsets,
            bitmap: Bitmap::with_capacity(capacity),
        };
        assert(builder.view() =~= Seq::empty());
        builder
    }

    fn can_push(&self, value: Option<&str>) -> (ok: bool) {
        proof {
            lemma_text_bytes_push(self.view(), super::item_value::<StringArray>(value));
        }
        let used = self.data.len();
        let room = self.bitmap.len() < MAX_BITS;
        match value {
            Some(v) => room && used <= 0xffff_ffff && v.as_bytes().len() <= 0xffff_ffff - used,
            None => room && used <= 0xffff_ffff,
        }
    }

    fn push(&mut self, value: Option<&str>)
        ensures
            final(self).spec_data() == old(self).spec_data() + slot_bytes(
                super::item_value::<StringArray>(value),
            ),
            final(self).spec_offsets() == old(self).spec_offsets().push(
                final(self).spec_data().len() as u32,
            ),
    {
        proof {
            let slot = super::item_value::<StringArray>(value);
            lemma_text_bytes_push(old(self).view(), slot);
            lemma_layout_push(old(self).data@, old(self).offsets@, bitmap_bits(old(self).bitmap), slot);
        }
        match value {
            Some(v) => {
                self.bitmap.push(true);
                self.data.extend_from_slice(v.as_bytes());
                assert(self.data@ =~= old(self).data@ + encode_utf8(v@));
                self.offsets.push(self.data.len() as u32);
            },
            None => {
                self.bitmap.push(false);
                assert(self.data@ =~= old(self).data@ + Seq::<u8>::empty());
                self.offsets.push(self.data.len() as u32);
            },
        }
    }

    fn finish(self) -> (array: StringArray)
        ensures
            array.spec_data() == self.spec_data(),
            array.spec_offsets() == self.spec_offsets(),
    {
        StringArray { data: self.data, offsets: self.offsets, bitmap: self.bitmap }
    }
}

} // verus!
