//! What a growable array is, and what each operation makes of it.
use crate::view::{ViewModel, MAX_INLINE_SIZE};
use vstd::prelude::*;

verus! {

/// The state of a growable array.
#[verifier::ext_equal]
pub struct BinViewModel {
    /// One view per element.
    pub views: Seq<ViewModel>,
    /// The data buffers that are finished.
    pub completed: Seq<Seq<u8>>,
    /// The data buffer that is still growing.
    pub in_progress: Seq<u8>,
    /// Which elements are not null, or nothing as long as no element is.
    pub validity: Option<Seq<bool>>,
    /// The number of bytes of all elements together.
    pub total_bytes_len: nat,
    /// The number of bytes in the data buffers.
    pub total_buffer_len: nat,
}

/// The number of bytes of an item; a null has none.
pub open spec fn item_len(item: Option<Seq<u8>>) -> nat {
    match item {
        Some(bytes) => bytes.len(),
        None => 0,
    }
}

/// The bytes that stand in the place of an item; those of a null are empty.
pub open spec fn item_bytes(item: Option<Seq<u8>>) -> Seq<u8> {
    match item {
        Some(bytes) => bytes,
        None => Seq::empty(),
    }
}

/// Whether an item is too long for its view, so that it goes to a data buffer.
pub open spec fn is_long(len: nat) -> bool {
    len > MAX_INLINE_SIZE
}

/// The bytes that stand in the place of each item.
pub open spec fn items_bytes(items: Seq<Option<Seq<u8>>>) -> Seq<Seq<u8>> {
    Seq::new(items.len(), |i: int| item_bytes(items[i]))
}

/// Which items are not null.
pub open spec fn items_validity(items: Seq<Option<Seq<u8>>>) -> Seq<bool> {
    Seq::new(items.len(), |i: int| items[i] is Some)
}

/// Whether any item is null.
pub open spec fn has_null(items: Seq<Option<Seq<u8>>>) -> bool {
    exists|i: int| 0 <= i < items.len() && (#[trigger] items[i]) is None
}

/// The number of bytes of all items together.
pub open spec fn items_len(items: Seq<Option<Seq<u8>>>) -> nat
    decreases items.len(),
{
    if items.len() == 0 {
        0
    } else {
        item_len(items[0]) + items_len(items.drop_first())
    }
}

/// The number of bytes of those items that go to a data buffer.
pub open spec fn long_items_len(items: Seq<Option<Seq<u8>>>) -> nat
    decreases items.len(),
{
    if items.len() == 0 {
        0
    } else {
        (if is_long(item_len(items[0])) {
            item_len(items[0])
        } else {
            0
        }) + long_items_len(items.drop_first())
    }
}

/// The number of items that go to a data buffer.
pub open spec fn long_items_count(items: Seq<Option<Seq<u8>>>) -> nat
    decreases items.len(),
{
    if items.len() == 0 {
        0
    } else {
        (if is_long(item_len(items[0])) {
            1nat
        } else {
            0
        }) + long_items_count(items.drop_first())
    }
}

/// The number of bytes of all the elements that the views describe.
pub open spec fn views_len(views: Seq<ViewModel>) -> nat
    decreases views.len(),
{
    if views.len() == 0 {
        0
    } else {
        views_len(views.drop_last()) + views.last().length
    }
}

/// The number of bytes in all the buffers of a list.
pub open spec fn buffers_len(buffers: Seq<Seq<u8>>) -> nat
    decreases buffers.len(),
{
    if buffers.len() == 0 {
        0
    } else {
        buffers_len(buffers.drop_last()) + buffers.last().len()
    }
}

/// Whether an element of `len` bytes starts a new data buffer, when the growing one has `pending`
/// bytes and room for `capacity`: it does if it does not fit, and if its offset could not be
/// written down.
pub open spec fn starts_new_block(pending: nat, len: nat, capacity: nat) -> bool {
    capacity < pending + len || pending > u32::MAX
}

/// Whether all the bytes of all the buffers are ASCII characters.
pub open spec fn all_ascii(buffers: Seq<Seq<u8>>) -> bool {
    forall|i: int, j: int|
        0 <= i < buffers.len() && 0 <= j < buffers[i].len() ==> #[trigger] buffers[i][j] < 0x80
}

/// Whether bytes that can be found in `old_buffers` are found in the same place in `new_buffers`.
pub open spec fn keeps_bytes(old_buffers: Seq<Seq<u8>>, new_buffers: Seq<Seq<u8>>) -> bool {
    forall|k: int|
        #![trigger old_buffers[k]]
        0 <= k < old_buffers.len() && old_buffers[k].len() > 0 ==> {
            &&& k < new_buffers.len()
            &&& old_buffers[k].len() <= new_buffers[k].len()
            &&& old_buffers[k] == new_buffers[k].take(old_buffers[k].len() as int)
        }
}

/// Whether each state of `trace` comes from the one before by pushing the item between them.
pub open spec fn is_trace(trace: Seq<BinViewModel>, items: Seq<Option<Seq<u8>>>) -> bool {
    &&& trace.len() == items.len() + 1
    &&& forall|i: int|
        0 <= i < items.len() ==> trace[i].item_pushed(#[trigger] items[i], trace[i + 1])
}

impl BinViewModel {
    /// The array without elements.
    pub open spec fn empty() -> BinViewModel {
        BinViewModel {
            views: Seq::empty(),
            completed: Seq::empty(),
            in_progress: Seq::empty(),
            validity: None,
            total_bytes_len: 0,
            total_buffer_len: 0,
        }
    }

    /// The data buffers that views point into, the growing one last.
    pub open spec fn buffers(self) -> Seq<Seq<u8>> {
        self.completed.push(self.in_progress)
    }

    /// Whether every view describes bytes that are there.
    pub open spec fn readable(self) -> bool {
        forall|i: int| 0 <= i < self.views.len() ==> #[trigger] self.views[i].fits_in(self.buffers())
    }

    /// The bytes in the place of each element, null or not.
    pub open spec fn values(self) -> Seq<Seq<u8>> {
        Seq::new(self.views.len(), |i: int| self.views[i].bytes_in(self.buffers()))
    }

    /// Whether the bitmap, where there is one, has one bit per element.
    pub open spec fn validity_matches(self) -> bool {
        match self.validity {
            Some(valid) => valid.len() == self.views.len(),
            None => true,
        }
    }

    /// Whether the element with the given index is not null.
    pub open spec fn is_valid(self, i: int) -> bool {
        match self.validity {
            Some(valid) => valid[i],
            None => true,
        }
    }

    /// The elements, with nothing where an element is null.
    pub open spec fn elements(self) -> Seq<Option<Seq<u8>>> {
        Seq::new(
            self.views.len(),
            |i: int|
                if self.is_valid(i) {
                    Some(self.values()[i])
                } else {
                    None
                },
        )
    }

    /// Whether the total of the elements' bytes is right.
    pub open spec fn counts_elements(self) -> bool {
        self.total_bytes_len == views_len(self.views)
    }

    /// Whether the total of the buffers' bytes is right.
    pub open spec fn counts_buffers(self) -> bool {
        self.total_buffer_len == buffers_len(self.buffers())
    }

    /// The number of buffers that the growing one will add to the finished ones.
    pub open spec fn pending(self) -> nat {
        if self.in_progress.len() > 0 {
            1
        } else {
            0
        }
    }

    /// Whether an element of `len` bytes can be written down: its length, its place and the totals
    /// stay within the range of their types.
    pub open spec fn has_room(self, len: nat) -> bool {
        &&& len <= u32::MAX
        &&& self.total_bytes_len + len <= usize::MAX
        &&& is_long(len) ==> {
            &&& self.total_buffer_len + len <= usize::MAX
            &&& self.in_progress.len() + len <= usize::MAX
            &&& self.completed.len() + self.pending() <= u32::MAX
        }
    }

    /// Whether the bitmap can take `additional` more bits.
    pub open spec fn has_bit_room(self, additional: nat) -> bool {
        match self.validity {
            Some(valid) => valid.len() + additional <= usize::MAX,
            None => self.views.len() + additional <= usize::MAX,
        }
    }

    /// Whether all the items can be written down, one after the other.
    pub open spec fn has_room_for_all(self, items: Seq<Option<Seq<u8>>>) -> bool {
        &&& forall|i: int| 0 <= i < items.len() ==> item_len(#[trigger] items[i]) <= u32::MAX
        &&& self.total_bytes_len + items_len(items) <= usize::MAX
        &&& self.total_buffer_len + long_items_len(items) <= usize::MAX
        &&& self.in_progress.len() + long_items_len(items) <= usize::MAX
        &&& long_items_count(items) > 0 ==> self.completed.len() + self.pending()
            + long_items_count(items) <= u32::MAX + 1
        &&& self.has_bit_room(items.len())
    }

    /// The growing buffer is finished, if there is anything in it.
    pub open spec fn flushed(self) -> BinViewModel {
        BinViewModel {
            completed: if self.in_progress.len() > 0 {
                self.completed.push(self.in_progress)
            } else {
                self.completed
            },
            in_progress: Seq::empty(),
            ..self
        }
    }

    /// An element is appended, and the bitmap left alone. A long element goes to the end of the
    /// growing buffer, or to the start of a new one.
    pub open spec fn store(self, bytes: Seq<u8>, new_block: bool) -> BinViewModel {
        if is_long(bytes.len()) {
            let base = if new_block {
                self.flushed()
            } else {
                self
            };
            BinViewModel {
                views: self.views.push(
                    ViewModel::reference(
                        bytes,
                        base.completed.len() as int,
                        base.in_progress.len() as int,
                    ),
                ),
                in_progress: base.in_progress + bytes,
                total_bytes_len: self.total_bytes_len + bytes.len(),
                total_buffer_len: self.total_buffer_len + bytes.len(),
                ..base
            }
        } else {
            BinViewModel {
                views: self.views.push(ViewModel::inlined(bytes)),
                total_bytes_len: self.total_bytes_len + bytes.len(),
                ..self
            }
        }
    }

    /// Whether `next` is this array with an element appended and the bitmap left alone. A new
    /// buffer may be started at any time, and is where the growing one is too long to go on.
    pub open spec fn stored(self, bytes: Seq<u8>, next: BinViewModel) -> bool {
        ||| next == self.store(bytes, true)
        ||| self.in_progress.len() <= u32::MAX && next == self.store(bytes, false)
    }

    /// The bitmap, where there is one, gets `additional` bits of the same value.
    pub open spec fn mark(self, additional: nat, valid: bool) -> BinViewModel {
        BinViewModel {
            validity: match self.validity {
                Some(bits) => Some(bits + Seq::new(additional, |i: int| valid)),
                None => None,
            },
            ..self
        }
    }

    /// There is a bitmap, in which so far no element is null.
    pub open spec fn all_valid(self) -> BinViewModel {
        BinViewModel { validity: Some(Seq::new(self.views.len(), |i: int| true)), ..self }
    }

    /// There is a bitmap, if there was none before, in which so far no element is null.
    pub open spec fn with_bitmap(self) -> BinViewModel {
        match self.validity {
            Some(_) => self,
            None => self.all_valid(),
        }
    }

    /// The same view is appended `additional` times, and the rest left alone.
    pub open spec fn repeat_view(self, view: ViewModel, additional: nat) -> BinViewModel {
        BinViewModel { views: self.views + Seq::new(additional, |i: int| view), ..self }
    }

    /// A null is appended.
    pub open spec fn push_null(self) -> BinViewModel {
        self.with_bitmap().mark(1, false).repeat_view(ViewModel::empty(), 1)
    }

    /// `additional` nulls are appended.
    pub open spec fn extend_null(self, additional: nat) -> BinViewModel {
        if additional == 0 {
            self
        } else {
            self.with_bitmap().mark(additional, false).repeat_view(ViewModel::empty(), additional)
        }
    }

    /// An item is appended, and marked in the bitmap.
    pub open spec fn push_item(self, item: Option<Seq<u8>>, new_block: bool) -> BinViewModel {
        match item {
            Some(bytes) => self.mark(1, true).store(bytes, new_block),
            None => self.push_null(),
        }
    }

    /// Whether `next` is this array with an item appended.
    pub open spec fn item_pushed(self, item: Option<Seq<u8>>, next: BinViewModel) -> bool {
        ||| next == self.push_item(item, true)
        ||| self.in_progress.len() <= u32::MAX && next == self.push_item(item, false)
    }

    /// Whether `next` is this array with all the items appended, one after the other.
    pub open spec fn items_pushed(self, items: Seq<Option<Seq<u8>>>, next: BinViewModel) -> bool {
        exists|trace: Seq<BinViewModel>| #[trigger]
            is_trace(trace, items) && trace[0] == self && trace.last() == next
    }

    /// The bitmap after all the items have been appended: one bit per item follows those that were
    /// there. Where there was no bitmap there still is none, unless an item is null.
    pub open spec fn validity_after(self, items: Seq<Option<Seq<u8>>>) -> Option<Seq<bool>> {
        if self.validity is Some || has_null(items) {
            Some(self.with_bitmap().validity->0 + items_validity(items))
        } else {
            None
        }
    }

    /// Whether `next` has the length, the bitmap and the totals of this array with all the items
    /// appended.
    pub open spec fn items_accounted(self, items: Seq<Option<Seq<u8>>>, next: BinViewModel) -> bool {
        &&& next.views.len() == self.views.len() + items.len()
        &&& next.validity == self.validity_after(items)
        &&& next.total_bytes_len == self.total_bytes_len + items_len(items)
        &&& next.total_buffer_len == self.total_buffer_len + long_items_len(items)
    }

    /// Whether two arrays say the same: their values, their bitmaps, their elements and the total of
    /// the elements' bytes are equal. Where the bytes are stored does not matter.
    pub open spec fn says_the_same(self, other: BinViewModel) -> bool {
        &&& self.values() == other.values()
        &&& self.validity == other.validity
        &&& self.elements() == other.elements()
        &&& self.total_bytes_len == other.total_bytes_len
    }

    /// The same item is appended `additional` times; its bytes are stored once.
    pub open spec fn extend_constant(
        self,
        additional: nat,
        item: Option<Seq<u8>>,
        new_block: bool,
    ) -> BinViewModel {
        match item {
            Some(bytes) => {
                let stored = self.mark(additional, true).store(bytes, new_block);
                BinViewModel {
                    views: self.views + Seq::new(additional, |i: int| stored.views.last()),
                    total_bytes_len: self.total_bytes_len + additional * bytes.len(),
                    ..stored
                }
            },
            None => self.with_bitmap().mark(additional, false).repeat_view(
                ViewModel::empty(),
                additional,
            ),
        }
    }

    /// Whether `next` is this array with the same item appended `additional` times.
    pub open spec fn constant_extended(
        self,
        additional: nat,
        item: Option<Seq<u8>>,
        next: BinViewModel,
    ) -> bool {
        ||| next == self.extend_constant(additional, item, true)
        ||| self.in_progress.len() <= u32::MAX && next == self.extend_constant(
            additional,
            item,
            false,
        )
    }

    /// A finished buffer is added after the growing one has been finished.
    pub open spec fn push_buffer(self, buffer: Seq<u8>) -> BinViewModel {
        let base = self.flushed();
        BinViewModel {
            completed: base.completed.push(buffer),
            total_buffer_len: self.total_buffer_len + buffer.len(),
            ..base
        }
    }

    /// Whether the elements from `views_offset` on pass for UTF-8. Those that are stored in their
    /// view are looked at one by one. So are the others, unless the buffers from `buffer_offset`
    /// on hold nothing but ASCII characters.
    pub open spec fn passes_utf8(self, buffer_offset: int, views_offset: int) -> bool {
        let buffers = self.flushed().completed;
        forall|i: int|
            views_offset <= i < self.views.len() && (self.views[i].is_inlined() || !all_ascii(
                buffers.skip(buffer_offset),
            )) ==> vstd::utf8::valid_utf8(#[trigger] self.views[i].bytes_in(buffers))
    }
}

/// A growable array together with the room of its growing buffer, which decides where the next long
/// element goes.
#[verifier::ext_equal]
pub struct GrowState {
    pub array: BinViewModel,
    /// The number of bytes that the growing buffer was made for.
    pub room: nat,
}

impl GrowState {
    /// Whether an element of `len` bytes starts a new data buffer.
    pub open spec fn starts_new_block(self, len: nat) -> bool {
        starts_new_block(self.array.in_progress.len(), len, self.room)
    }

    /// The room of the growing buffer after an element of `len` bytes has been stored.
    pub open spec fn room_after(self, len: nat) -> nat {
        if is_long(len) && self.starts_new_block(len) {
            crate::mutable::spec_next_block_capacity(self.room as int, len as int) as nat
        } else {
            self.room
        }
    }

    /// An element is appended, and the bitmap left alone.
    pub open spec fn store(self, bytes: Seq<u8>) -> GrowState {
        GrowState {
            array: self.array.store(bytes, self.starts_new_block(bytes.len())),
            room: self.room_after(bytes.len()),
        }
    }

    /// An item is appended, and marked in the bitmap.
    pub open spec fn push(self, item: Option<Seq<u8>>) -> GrowState {
        GrowState {
            array: self.array.push_item(item, self.starts_new_block(item_len(item))),
            room: self.room_after(item_len(item)),
        }
    }

    /// All the items are appended, one after the other.
    pub open spec fn push_all(self, items: Seq<Option<Seq<u8>>>) -> GrowState
        decreases items.len(),
    {
        if items.len() == 0 {
            self
        } else {
            self.push_all(items.drop_last()).push(items.last())
        }
    }

    /// The same item is appended `additional` times; its bytes are stored once.
    pub open spec fn extend_constant(self, additional: nat, item: Option<Seq<u8>>) -> GrowState {
        GrowState {
            array: self.array.extend_constant(
                additional,
                item,
                self.starts_new_block(item_len(item)),
            ),
            room: self.room_after(item_len(item)),
        }
    }

    /// The growing buffer is finished, if there is anything in it. A new one is made when it is
    /// needed.
    pub open spec fn flushed(self) -> GrowState {
        GrowState {
            array: self.array.flushed(),
            room: if self.array.in_progress.len() > 0 {
                0
            } else {
                self.room
            },
        }
    }
}

} // verus!
