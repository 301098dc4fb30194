//! Growable arrays.
use crate::array::BinaryViewArrayGeneric;
use crate::bitmap::{Bitmap, MutableBitmap};
use crate::buffer::Buffer;
use crate::laws;
use crate::lemmas;
use crate::model;
use crate::model::{BinViewModel, GrowState};
use crate::std_ext;
use crate::utf8;
use crate::utf8::ArrayError;
use crate::view;
use crate::view::{BinaryView, ViewModel, MAX_INLINE_SIZE};
use crate::view_type::{ArrowDataType, ViewType};
use vstd::prelude::*;

verus! {

/// The room of the first data buffer, in bytes.
pub const DEFAULT_BLOCK_SIZE: usize = 8 * 1024;

/// The room up to which a new data buffer gets twice the room of the one before, in bytes.
pub const MAX_EXP_BLOCK_SIZE: usize = 16 * 1024 * 1024;

/// The number of bytes that a view takes.
pub const VIEW_SIZE: usize = 16;

/// A growable array of byte strings (`T` is `[u8]`) or of strings (`T` is `str`).
pub struct MutableBinaryViewArray<T: ViewType + ?Sized> {
    views: Vec<BinaryView>,
    completed_buffers: Vec<Buffer>,
    in_progress_buffer: Vec<u8>,
    /// The number of bytes that the growing buffer was made for.
    in_progress_room: usize,
    validity: Option<MutableBitmap>,
    phantom: std::marker::PhantomData<T>,
    /// Total bytes length if we would concatenate them all.
    total_bytes_len: usize,
    /// Total bytes in the buffer (excluding remaining capacity)
    total_buffer_len: usize,
}

impl<T: ViewType + ?Sized> View for MutableBinaryViewArray<T> {
    type V = BinViewModel;

    closed spec fn view(&self) -> BinViewModel {
        BinViewModel {
            views: view::models(self.views@),
            completed: crate::buffer::contents(self.completed_buffers@),
            in_progress: self.in_progress_buffer@,
            validity: match self.validity {
                Some(bits) => Some(bits@),
                None => None,
            },
            total_bytes_len: self.total_bytes_len as nat,
            total_buffer_len: self.total_buffer_len as nat,
        }
    }
}

/// The room of a new data buffer for an element of `needed` bytes, when the buffer before it had
/// room for `capacity`.
pub open spec fn spec_next_block_capacity(capacity: int, needed: int) -> int {
    let doubled = if 2 * capacity < DEFAULT_BLOCK_SIZE {
        DEFAULT_BLOCK_SIZE as int
    } else if 2 * capacity > MAX_EXP_BLOCK_SIZE {
        MAX_EXP_BLOCK_SIZE as int
    } else {
        2 * capacity
    };
    if doubled < needed {
        needed
    } else {
        doubled
    }
}

/// The room of a new data buffer for an element of `needed` bytes, when the buffer before it had
/// room for `capacity`: twice as much, but no less than the default, no more than the maximum
/// unless the element needs it.
pub fn next_block_capacity(capacity: usize, needed: usize) -> (next: usize)
    ensures
        next == spec_next_block_capacity(capacity as int, needed as int),
{
    let doubled: usize = if capacity < DEFAULT_BLOCK_SIZE / 2 {
        DEFAULT_BLOCK_SIZE
    } else if capacity > MAX_EXP_BLOCK_SIZE / 2 {
        MAX_EXP_BLOCK_SIZE
    } else {
        capacity * 2
    };
    if doubled < needed {
        needed
    } else {
        doubled
    }
}

/// What an optional value says.
pub open spec fn item_of<T: ViewType + ?Sized>(value: Option<&T>) -> Option<Seq<u8>> {
    match value {
        Some(value) => Some(value.bytes()),
        None => None,
    }
}

/// What each optional value of a list says.
pub open spec fn items_of<T: ViewType + ?Sized>(values: Seq<Option<&T>>) -> Seq<Option<Seq<u8>>> {
    Seq::new(values.len(), |i: int| item_of(values[i]))
}

/// What each value of a list says.
pub open spec fn items_of_values<T: ViewType + ?Sized>(values: Seq<&T>) -> Seq<Option<Seq<u8>>> {
    Seq::new(values.len(), |i: int| Some(values[i].bytes()))
}

impl<T: ViewType + ?Sized> MutableBinaryViewArray<T> {
    /// Whether the total of the buffers' bytes is right. It is for every array.
    pub open spec fn inv(&self) -> bool {
        self@.counts_buffers()
    }

    /// The number of bytes that the growing buffer was made for.
    pub closed spec fn room(&self) -> nat {
        self.in_progress_room as nat
    }

    /// What the array says, with the room of its growing buffer.
    pub open spec fn state(&self) -> GrowState {
        GrowState { array: self@, room: self.room() }
    }

    /// Whether every element can be read: its view describes bytes that are there, and they stand
    /// for a value.
    pub open spec fn wf(&self) -> bool {
        &&& self@.readable()
        &&& forall|i: int| 0 <= i < self@.views.len() ==> T::valid_bytes(#[trigger] self@.values()[i])
    }

    /// Every array has room for an element without bytes, and for no more bits.
    pub proof fn lemma_room_for_nothing(&self)
        ensures
            self@.has_room(0),
            self@.has_bit_room(0),
    {
        assert(self.views.len() == self.views@.len());
        if let Some(bits) = self.validity {
            bits.lemma_len_in_range();
        }
    }

    /// Appends an element and leaves the bitmap alone. `capacity` is the room of the growing data
    /// buffer.
    pub fn push_value_in_block(&mut self, value: &T, capacity: usize)
        requires
            old(self)@.has_room(value.bytes().len()),
        ensures
            final(self)@ == old(self)@.store(
                value.bytes(),
                model::starts_new_block(
                    old(self)@.in_progress.len(),
                    value.bytes().len(),
                    capacity as nat,
                ),
            ),
            value.bytes().len() <= 12 ==> final(self)@.completed == old(self)@.completed && final(self)@.in_progress == old(self)@.in_progress && final(self).room() == old(self).room(),
            value.bytes().len() > 12 && old(self)@.in_progress.len() + value.bytes().len() <= capacity
                && old(self)@.in_progress.len() <= u32::MAX ==> final(self)@.completed == old(
                self,
            )@.completed && final(self)@.in_progress == old(self)@.in_progress + value.bytes()
                && final(self).room() == capacity,
            value.bytes().len() > 12 && !(old(self)@.in_progress.len() + value.bytes().len()
                <= capacity && old(self)@.in_progress.len() <= u32::MAX) ==> final(self)@.completed == (
            if old(self)@.in_progress.len() > 0 {
                old(self)@.completed.push(old(self)@.in_progress)
            } else {
                old(self)@.completed
            }) && final(self)@.in_progress == value.bytes() && final(self).room()
                == spec_next_block_capacity(capacity as int, value.bytes().len() as int),
            old(self).inv() ==> final(self).inv(),
            old(self).wf() ==> final(self).wf() && final(self)@.values() == old(self)@.values().push(
                value.bytes(),
            ),
    {
        let bytes = value.to_bytes();
        self.total_bytes_len += bytes.len();

        // An element has at most 4GB.
        let len: u32 = bytes.len() as u32;
        let ghost new_block = model::starts_new_block(
            old(self)@.in_progress.len(),
            bytes@.len(),
            capacity as nat,
        );

        let view = if len <= MAX_INLINE_SIZE {
            BinaryView::new_inline(bytes)
        } else {
            self.total_buffer_len += bytes.len();

            // Bytes are never moved from one buffer to another. If the growing buffer has not
            // enough room, a new one is made with more.
            let required_capacity: usize = self.in_progress_buffer.len() + bytes.len();
            let does_not_fit_in_buffer = capacity < required_capacity;

            // An offset has to fit into 32 bits.
            let offset_will_not_fit = self.in_progress_buffer.len() > u32::MAX as usize;

            if does_not_fit_in_buffer || offset_will_not_fit {
                let new_capacity = next_block_capacity(capacity, bytes.len());
                let mut flushed: Vec<u8> = Vec::with_capacity(new_capacity);
                std::mem::swap(&mut self.in_progress_buffer, &mut flushed);
                self.in_progress_room = new_capacity;
                if !flushed.is_empty() {
                    self.completed_buffers.push(Buffer::from(flushed));
                }
                proof {
                    assert(self@.completed =~= old(self)@.flushed().completed);
                    assert(self@.in_progress =~= Seq::empty());
                }
            } else {
                self.in_progress_room = capacity;
            }
            let ghost base = if new_block {
                old(self)@.flushed()
            } else {
                old(self)@
            };
            assert(self@.completed == base.completed && self@.in_progress == base.in_progress);

            let offset: u32 = self.in_progress_buffer.len() as u32;
            self.in_progress_buffer.extend_from_slice(bytes);
            assert(self.in_progress_buffer@ =~= base.in_progress + bytes@);

            let buffer_idx: u32 = self.completed_buffers.len() as u32;

            BinaryView::new_from_bytes(bytes, buffer_idx, offset)
        };

        self.views.push(view);
        proof {
            assert(self@.views =~= old(self)@.views.push(view@));
            assert(self@ =~= old(self)@.store(bytes@, new_block));
            assert(Seq::<u8>::empty() + bytes@ =~= bytes@);
            lemmas::lemma_store_counts(old(self)@, bytes@, new_block);
            if old(self).wf() {
                lemmas::lemma_stored(old(self)@, bytes@, self@);
            }
        }
    }

    /// Appends an element and leaves the bitmap alone. The room that the growing data buffer was made
    /// with decides whether a long element follows what is in it or starts a new one.
    pub fn push_value_ignore_validity(&mut self, value: &T)
        requires
            old(self)@.has_room(value.bytes().len()),
        ensures
            final(self).state() == old(self).state().store(value.bytes()),
            old(self)@.stored(value.bytes(), final(self)@),
            old(self).inv() ==> final(self).inv(),
            old(self).wf() ==> final(self).wf() && final(self)@.values() == old(self)@.values().push(
                value.bytes(),
            ),
    {
        self.push_value_in_block(value, self.in_progress_room);
    }

    /// Makes a bitmap in which no element is null, but for the last one if `unset_last` says so.
    fn init_validity(&mut self, unset_last: bool)
        requires
            unset_last ==> old(self)@.views.len() > 0,
        ensures
            final(self)@ == (BinViewModel {
                validity: Some(
                    Seq::new(
                        old(self)@.views.len(),
                        |i: int| !(unset_last && i == old(self)@.views.len() - 1),
                    ),
                ),
                ..old(self)@
            }),
            final(self).room() == old(self).room(),
    {
        let mut validity = MutableBitmap::with_capacity(std_ext::vec_capacity(&self.views));
        validity.extend_constant(self.views.len(), true);
        if unset_last {
            validity.set(self.views.len() - 1, false);
        }
        assert(validity@ =~= Seq::new(
            old(self)@.views.len(),
            |i: int| !(unset_last && i == old(self)@.views.len() - 1),
        ));
        self.validity = Some(validity);
    }

    /// Appends an element that is not null.
    pub fn push_value(&mut self, value: &T)
        requires
            old(self)@.has_room(value.bytes().len()),
            old(self)@.has_bit_room(1),
        ensures
            final(self).state() == old(self).state().push(Some(value.bytes())),
            old(self)@.item_pushed(Some(value.bytes()), final(self)@),
            old(self).inv() ==> final(self).inv(),
            old(self).wf() ==> final(self).wf(),
            old(self).wf() && old(self)@.validity_matches() ==> final(self)@.validity_matches()
                && final(self)@.elements() == old(self)@.elements().push(Some(value.bytes())),
    {
        if let Some(validity) = &mut self.validity {
            validity.push(true);
        }
        proof {
            assert(self@ =~= old(self)@.mark(1, true)) by {
                if let Some(bits) = old(self)@.validity {
                    assert(self@.validity->0 =~= bits + Seq::new(1, |i: int| true));
                }
            }
            assert(self@.values() =~= old(self)@.values());
        }
        self.push_value_ignore_validity(value);
        proof {
            if old(self).wf() {
                lemmas::lemma_item_pushed(old(self)@, Some(value.bytes()), self@);
            }
        }
    }

    /// Appends a null.
    pub fn push_null(&mut self)
        requires
            old(self)@.has_bit_room(1),
        ensures
            final(self).state() == old(self).state().push(None),
            final(self)@ == old(self)@.push_null(),
            old(self).inv() ==> final(self).inv(),
            old(self).wf() ==> final(self).wf(),
            old(self).wf() && old(self)@.validity_matches() ==> final(self)@.validity_matches()
                && final(self)@.elements() == old(self)@.elements().push(None),
    {
        self.views.push(BinaryView::default());
        match &mut self.validity {
            Some(validity) => validity.push(false),
            None => self.init_validity(true),
        }
        proof {
            let next = old(self)@.push_null();
            assert(self@.views =~= next.views);
            assert(self@.validity->0 =~= next.validity->0);
            assert(self@ =~= next);
            if old(self).wf() {
                lemmas::lemma_item_pushed(old(self)@, None, self@);
                T::lemma_empty_is_valid();
            }
        }
    }

    /// Whether an item can be pushed: its length, its place and the totals stay within the range of
    /// their types.
    pub fn can_push(&self, value: Option<&T>) -> (possible: bool)
        ensures
            possible == (self@.has_room(model::item_len(item_of(value))) && self@.has_bit_room(1)),
    {
        let len: usize = match value {
            Some(value) => value.to_bytes().len(),
            None => 0,
        };
        let bits: usize = match &self.validity {
            Some(validity) => validity.len(),
            None => self.views.len(),
        };
        if bits == usize::MAX || len > u32::MAX as usize || self.total_bytes_len > usize::MAX - len {
            return false;
        }
        if len <= MAX_INLINE_SIZE as usize {
            return true;
        }
        let finished: usize = self.completed_buffers.len();
        let limit: usize = if self.in_progress_buffer.is_empty() {
            u32::MAX as usize
        } else {
            u32::MAX as usize - 1
        };
        self.total_buffer_len <= usize::MAX - len && self.in_progress_buffer.len() <= usize::MAX - len
            && finished <= limit
    }

    /// Appends an item.
    pub fn push(&mut self, value: Option<&T>)
        requires
            old(self)@.has_room(model::item_len(item_of(value))),
            old(self)@.has_bit_room(1),
        ensures
            final(self).state() == old(self).state().push(item_of(value)),
            old(self)@.item_pushed(item_of(value), final(self)@),
            old(self).inv() ==> final(self).inv(),
            old(self).wf() ==> final(self).wf(),
            old(self).wf() && old(self)@.validity_matches() ==> final(self)@.validity_matches()
                && final(self)@.elements() == old(self)@.elements().push(item_of(value)),
    {
        if let Some(value) = value {
            self.push_value(value)
        } else {
            self.push_null()
        }
    }

    /// Appends the same view `additional` times.
    fn append_views(&mut self, view: BinaryView, additional: usize)
        ensures
            final(self)@ == old(self)@.repeat_view(view@, additional as nat),
            final(self).room() == old(self).room(),
    {
        let mut done: usize = 0;
        assert(self@ =~= old(self)@.repeat_view(view@, 0));
        while done < additional
            invariant
                done <= additional,
                self@ == old(self)@.repeat_view(view@, done as nat),
                self.room() == old(self).room(),
            decreases additional - done,
        {
            let ghost before = self@.views;
            self.views.push(view);
            done += 1;
            assert(self@.views =~= before.push(view@));
            assert(self@.views =~= old(self)@.repeat_view(view@, done as nat).views);
            assert(self@ =~= old(self)@.repeat_view(view@, done as nat));
        }
    }

    /// Appends `additional` nulls.
    pub fn extend_null(&mut self, additional: usize)
        requires
            old(self)@.has_bit_room(additional as nat),
        ensures
            final(self)@ == old(self)@.extend_null(additional as nat),
            final(self).room() == old(self).room(),
            old(self).inv() ==> final(self).inv(),
            old(self).wf() ==> final(self).wf(),
            old(self).wf() && old(self)@.validity_matches() ==> final(self)@.validity_matches()
                && final(self)@.elements() == old(self)@.elements() + Seq::new(
                additional as nat,
                |i: int| None::<Seq<u8>>,
            ),
    {
        if self.validity.is_none() && additional > 0 {
            self.init_validity(false);
        }
        let ghost with_bitmap = self@;
        assert(additional > 0 ==> with_bitmap =~= old(self)@.with_bitmap());
        self.append_views(BinaryView::default(), additional);
        if let Some(validity) = &mut self.validity {
            validity.extend_constant(additional, false);
        }
        proof {
            let n = additional as nat;
            assert(self@ =~= old(self)@.extend_null(n)) by {
                if additional == 0 {
                    assert(self@.views =~= old(self)@.views);
                    if let Some(bits) = old(self)@.validity {
                        assert(self@.validity->0 =~= bits);
                    }
                }
            }
            if additional > 0 {
                lemmas::lemma_constant_extended(old(self)@, n, None, self@);
            }
            T::lemma_empty_is_valid();
            if old(self).wf() {
                assert(self@.values() =~= old(self)@.values() + Seq::new(
                    n,
                    |i: int| Seq::<u8>::empty(),
                ));
                assert(old(self)@.validity_matches() ==> self@.elements() =~= old(self)@.elements()
                    + Seq::new(n, |i: int| None::<Seq<u8>>));
            }
        }
    }

    /// Appends the same item `additional` times. A long one is stored only once.
    pub fn extend_constant(&mut self, additional: usize, value: Option<&T>)
        requires
            old(self)@.has_room(model::item_len(item_of(value))),
            old(self)@.total_bytes_len + additional * model::item_len(item_of(value)) <= usize::MAX,
            old(self)@.has_bit_room(additional as nat),
        ensures
            final(self).state() == old(self).state().extend_constant(
                additional as nat,
                item_of(value),
            ),
            old(self)@.constant_extended(additional as nat, item_of(value), final(self)@),
            old(self).inv() ==> final(self).inv(),
            old(self).wf() ==> final(self).wf(),
            old(self).wf() && old(self)@.validity_matches() ==> final(self)@.validity_matches()
                && final(self)@.elements() == old(self)@.elements() + Seq::new(
                additional as nat,
                |i: int| item_of(value),
            ),
    {
        if value.is_none() && self.validity.is_none() {
            self.init_validity(false);
        }
        let ghost with_bitmap = self@;
        assert(with_bitmap =~= if value is None {
            old(self)@.with_bitmap()
        } else {
            old(self)@
        });
        if let Some(validity) = &mut self.validity {
            validity.extend_constant(additional, value.is_some());
        }
        let ghost marked = self@;
        assert(marked =~= with_bitmap.mark(additional as nat, value is Some));

        // The value is pushed and popped to get its view. So a long value is stored once, and all
        // the new elements refer to it.
        match value {
            Some(value) => {
                let len: usize = value.to_bytes().len();
                let total: usize = self.total_bytes_len;
                self.push_value_ignore_validity(value);
                let ghost stored = self@;
                assert(stored.views.len() == marked.views.len() + 1);
                assert(stored.views.drop_last() =~= old(self)@.views);
                assert(stored.views =~= view::models(self.views@));
                let view_value = self.views.pop().unwrap();
                self.total_bytes_len = total + additional * len;
                proof {
                    assert(view_value@ == stored.views.last());
                    assert(self@.views =~= stored.views.drop_last());
                }
                self.append_views(view_value, additional);
                proof {
                    let new_block = old(self).state().starts_new_block(value.bytes().len());
                    assert(self@ =~= old(self)@.extend_constant(
                        additional as nat,
                        Some(value.bytes()),
                        new_block,
                    ));
                }
            },
            None => self.append_views(BinaryView::default(), additional),
        }
        proof {
            lemmas::lemma_constant_extended(old(self)@, additional as nat, item_of(value), self@);
            T::lemma_empty_is_valid();
        }
    }

    /// Reserves room for `additional` more elements. The array says the same as before; how much room
    /// the allocator gives is not stated.
    pub fn reserve(&mut self, additional: usize)
        requires
            (old(self)@.views.len() + additional) * VIEW_SIZE <= isize::MAX,
        ensures
            final(self)@ == old(self)@,
            final(self).room() == old(self).room(),
    {
        self.views.reserve(additional);
    }

    /// Reserves room for as many more elements as an iterator says, if that many are possible. Callers
    /// rely on the array saying the same as before, and on nothing else.
    fn reserve_hint(&mut self, hint: usize)
        ensures
            final(self)@ == old(self)@,
            final(self).room() == old(self).room(),
    {
        let limit: usize = isize::MAX as usize / VIEW_SIZE;
        if self.views.len() <= limit && hint <= limit - self.views.len() {
            self.reserve(hint);
        }
    }

    /// Appends the items that the iterator yields.
    pub fn extend<'a, I: Iterator<Item = Option<&'a T>>>(&mut self, iterator: I) where T: 'a
        requires
            vstd::std_specs::iter::IteratorSpec::obeys_prophetic_iter_laws(&iterator),
            vstd::std_specs::iter::IteratorSpec::decrease(&iterator) is Some,
            old(self)@.has_room_for_all(
                items_of(vstd::std_specs::iter::IteratorSpec::remaining(&iterator)),
            ),
        ensures
            final(self).state() == old(self).state().push_all(
                items_of(vstd::std_specs::iter::IteratorSpec::remaining(&iterator)),
            ),
            old(self)@.items_pushed(
                items_of(vstd::std_specs::iter::IteratorSpec::remaining(&iterator)),
                final(self)@,
            ),
            old(self)@.items_accounted(
                items_of(vstd::std_specs::iter::IteratorSpec::remaining(&iterator)),
                final(self)@,
            ),
            old(self).inv() ==> final(self).inv(),
            old(self).wf() ==> final(self).wf(),
            old(self).wf() && old(self)@.validity_matches() ==> final(self)@.validity_matches()
                && final(self)@.elements() == old(self)@.elements() + items_of(
                vstd::std_specs::iter::IteratorSpec::remaining(&iterator),
            ),
    {
        self.reserve_hint(std_ext::size_hint_lower(&iterator));
        let mut iterator = iterator;
        let ghost all = items_of(vstd::std_specs::iter::IteratorSpec::remaining(&iterator));
        let ghost mut done: int = 0;
        proof {
            lemmas::lemma_trace_empty(old(self)@);
            assert(all.take(0) =~= Seq::empty());
            assert(all.skip(0) =~= all);
            assert(old(self)@.elements() + all.take(0) =~= old(self)@.elements());
        }
        loop
            invariant
                vstd::std_specs::iter::IteratorSpec::obeys_prophetic_iter_laws(&iterator),
                vstd::std_specs::iter::IteratorSpec::decrease(&iterator) is Some,
                0 <= done <= all.len(),
                items_of(vstd::std_specs::iter::IteratorSpec::remaining(&iterator)) == all.skip(done),
                self@.has_room_for_all(all.skip(done)),
                self.state() == old(self).state().push_all(all.take(done)),
                old(self)@.items_pushed(all.take(done), self@),
                old(self).inv() ==> self.inv(),
                old(self).wf() ==> self.wf(),
                old(self).wf() && old(self)@.validity_matches() ==> self@.validity_matches()
                    && self@.elements() == old(self)@.elements() + all.take(done),
            ensures
                done == all.len(),
            decreases vstd::std_specs::iter::IteratorSpec::decrease(&iterator)->0,
        {
            let ghost rest = vstd::std_specs::iter::IteratorSpec::remaining(&iterator);
            let ghost before = self@;
            match iterator.next() {
                Some(value) => {
                    proof {
                        assert(all.skip(done)[0] == items_of(rest)[0]);
                        assert(all.skip(done)[0] == item_of(value));
                        lemmas::lemma_room_for_first(self@, all.skip(done));
                    }
                    self.push(value);
                    proof {
                        lemmas::lemma_room_after_push(before, all.skip(done), self@);
                        assert(all.skip(done).drop_first() =~= all.skip(done + 1));
                        assert(items_of(rest.drop_first()) =~= items_of(rest).drop_first());
                        lemmas::lemma_trace_grows(
                            old(self)@,
                            all.take(done),
                            before,
                            item_of(value),
                            self@,
                        );
                        assert(all.take(done).push(item_of(value)) =~= all.take(done + 1));
                        assert(all.take(done + 1).drop_last() =~= all.take(done));
                        assert((old(self)@.elements() + all.take(done)).push(item_of(value)) =~= old(
                            self,
                        )@.elements() + all.take(done + 1));
                        done = done + 1;
                    }
                },
                None => {
                    assert(items_of(rest).len() == 0);
                    break ;
                },
            }
        }
        proof {
            assert(all.take(done) =~= all);
            laws::law_pushed_items_are_accounted(old(self)@, all, self@);
        }
    }

    /// Appends the values that the iterator yields; none of them is null.
    pub fn extend_values<'a, I: Iterator<Item = &'a T>>(&mut self, iterator: I) where T: 'a
        requires
            vstd::std_specs::iter::IteratorSpec::obeys_prophetic_iter_laws(&iterator),
            vstd::std_specs::iter::IteratorSpec::decrease(&iterator) is Some,
            old(self)@.has_room_for_all(
                items_of_values(vstd::std_specs::iter::IteratorSpec::remaining(&iterator)),
            ),
        ensures
            final(self).state() == old(self).state().push_all(
                items_of_values(vstd::std_specs::iter::IteratorSpec::remaining(&iterator)),
            ),
            old(self)@.items_pushed(
                items_of_values(vstd::std_specs::iter::IteratorSpec::remaining(&iterator)),
                final(self)@,
            ),
            old(self)@.items_accounted(
                items_of_values(vstd::std_specs::iter::IteratorSpec::remaining(&iterator)),
                final(self)@,
            ),
            old(self).inv() ==> final(self).inv(),
            old(self).wf() ==> final(self).wf(),
            old(self).wf() && old(self)@.validity_matches() ==> final(self)@.validity_matches()
                && final(self)@.elements() == old(self)@.elements() + items_of_values(
                vstd::std_specs::iter::IteratorSpec::remaining(&iterator),
            ),
    {
        self.reserve_hint(std_ext::size_hint_lower(&iterator));
        let mut iterator = iterator;
        let ghost all = items_of_values(vstd::std_specs::iter::IteratorSpec::remaining(&iterator));
        let ghost mut done: int = 0;
        proof {
            lemmas::lemma_trace_empty(old(self)@);
            assert(all.take(0) =~= Seq::empty());
            assert(all.skip(0) =~= all);
            assert(old(self)@.elements() + all.take(0) =~= old(self)@.elements());
        }
        loop
            invariant
                vstd::std_specs::iter::IteratorSpec::obeys_prophetic_iter_laws(&iterator),
                vstd::std_specs::iter::IteratorSpec::decrease(&iterator) is Some,
                0 <= done <= all.len(),
                items_of_values(vstd::std_specs::iter::IteratorSpec::remaining(&iterator)) == all.skip(done),
                self@.has_room_for_all(all.skip(done)),
                self.state() == old(self).state().push_all(all.take(done)),
                old(self)@.items_pushed(all.take(done), self@),
                old(self).inv() ==> self.inv(),
                old(self).wf() ==> self.wf(),
                old(self).wf() && old(self)@.validity_matches() ==> self@.validity_matches()
                    && self@.elements() == old(self)@.elements() + all.take(done),
            ensures
                done == all.len(),
            decreases vstd::std_specs::iter::IteratorSpec::decrease(&iterator)->0,
        {
            let ghost rest = vstd::std_specs::iter::IteratorSpec::remaining(&iterator);
            let ghost before = self@;
            match iterator.next() {
                Some(value) => {
                    proof {
                        assert(all.skip(done)[0] == items_of_values(rest)[0]);
                        assert(all.skip(done)[0] == Some(value.bytes()));
                        lemmas::lemma_room_for_first(self@, all.skip(done));
                    }
                    self.push_value(value);
                    proof {
                        lemmas::lemma_room_after_push(before, all.skip(done), self@);
                        assert(all.skip(done).drop_first() =~= all.skip(done + 1));
                        assert(items_of_values(rest.drop_first()) =~= items_of_values(rest).drop_first());
                        lemmas::lemma_trace_grows(
                            old(self)@,
                            all.take(done),
                            before,
                            Some(value.bytes()),
                            self@,
                        );
                        assert(all.take(done).push(Some(value.bytes())) =~= all.take(done + 1));
                        assert(all.take(done + 1).drop_last() =~= all.take(done));
                        assert((old(self)@.elements() + all.take(done)).push(Some(value.bytes())) =~= old(
                            self,
                        )@.elements() + all.take(done + 1));
                        done = done + 1;
                    }
                },
                None => {
                    assert(items_of_values(rest).len() == 0);
                    break ;
                },
            }
        }
        proof {
            assert(all.take(done) =~= all);
            laws::law_pushed_items_are_accounted(old(self)@, all, self@);
        }
    }

    /// Appends the items that an iterator of known length yields.
    pub fn extend_trusted_len<'a, I: Iterator<Item = Option<&'a T>>>(&mut self, iterator: I) where T: 'a
        requires
            vstd::std_specs::iter::IteratorSpec::obeys_prophetic_iter_laws(&iterator),
            vstd::std_specs::iter::IteratorSpec::decrease(&iterator) is Some,
            old(self)@.has_room_for_all(
                items_of(vstd::std_specs::iter::IteratorSpec::remaining(&iterator)),
            ),
        ensures
            final(self).state() == old(self).state().push_all(
                items_of(vstd::std_specs::iter::IteratorSpec::remaining(&iterator)),
            ),
            old(self)@.items_pushed(
                items_of(vstd::std_specs::iter::IteratorSpec::remaining(&iterator)),
                final(self)@,
            ),
            old(self)@.items_accounted(
                items_of(vstd::std_specs::iter::IteratorSpec::remaining(&iterator)),
                final(self)@,
            ),
            old(self).inv() ==> final(self).inv(),
            old(self).wf() ==> final(self).wf(),
            old(self).wf() && old(self)@.validity_matches() ==> final(self)@.validity_matches()
                && final(self)@.elements() == old(self)@.elements() + items_of(
                vstd::std_specs::iter::IteratorSpec::remaining(&iterator),
            ),
    {
        self.extend(iterator);
    }

    /// Appends the values that an iterator of known length yields; none of them is null.
    pub fn extend_trusted_len_values<'a, I: Iterator<Item = &'a T>>(&mut self, iterator: I) where T: 'a
        requires
            vstd::std_specs::iter::IteratorSpec::obeys_prophetic_iter_laws(&iterator),
            vstd::std_specs::iter::IteratorSpec::decrease(&iterator) is Some,
            old(self)@.has_room_for_all(
                items_of_values(vstd::std_specs::iter::IteratorSpec::remaining(&iterator)),
            ),
        ensures
            final(self).state() == old(self).state().push_all(
                items_of_values(vstd::std_specs::iter::IteratorSpec::remaining(&iterator)),
            ),
            old(self)@.items_pushed(
                items_of_values(vstd::std_specs::iter::IteratorSpec::remaining(&iterator)),
                final(self)@,
            ),
            old(self)@.items_accounted(
                items_of_values(vstd::std_specs::iter::IteratorSpec::remaining(&iterator)),
                final(self)@,
            ),
            old(self).inv() ==> final(self).inv(),
            old(self).wf() ==> final(self).wf(),
            old(self).wf() && old(self)@.validity_matches() ==> final(self)@.validity_matches()
                && final(self)@.elements() == old(self)@.elements() + items_of_values(
                vstd::std_specs::iter::IteratorSpec::remaining(&iterator),
            ),
    {
        self.extend_values(iterator);
    }

    /// Appends the items that the iterator yields. This is infallible.
    pub fn try_extend<'a, I: Iterator<Item = Option<&'a T>>>(&mut self, iterator: I) -> (result: Result<(), ArrayError>) where T: 'a
        requires
            vstd::std_specs::iter::IteratorSpec::obeys_prophetic_iter_laws(&iterator),
            vstd::std_specs::iter::IteratorSpec::decrease(&iterator) is Some,
            old(self)@.has_room_for_all(
                items_of(vstd::std_specs::iter::IteratorSpec::remaining(&iterator)),
            ),
        ensures
            result is Ok,
            final(self).state() == old(self).state().push_all(
                items_of(vstd::std_specs::iter::IteratorSpec::remaining(&iterator)),
            ),
            old(self)@.items_pushed(
                items_of(vstd::std_specs::iter::IteratorSpec::remaining(&iterator)),
                final(self)@,
            ),
            old(self)@.items_accounted(
                items_of(vstd::std_specs::iter::IteratorSpec::remaining(&iterator)),
                final(self)@,
            ),
            old(self).inv() ==> final(self).inv(),
            old(self).wf() ==> final(self).wf(),
            old(self).wf() && old(self)@.validity_matches() ==> final(self)@.validity_matches()
                && final(self)@.elements() == old(self)@.elements() + items_of(
                vstd::std_specs::iter::IteratorSpec::remaining(&iterator),
            ),
    {
        self.extend(iterator);
        Ok(())
    }

    /// Appends an item. This is infallible.
    pub fn try_push(&mut self, item: Option<&T>) -> (result: Result<(), ArrayError>)
        requires
            old(self)@.has_room(model::item_len(item_of(item))),
            old(self)@.has_bit_room(1),
        ensures
            result is Ok,
            final(self).state() == old(self).state().push(item_of(item)),
            old(self)@.item_pushed(item_of(item), final(self)@),
            old(self).inv() ==> final(self).inv(),
            old(self).wf() ==> final(self).wf(),
            old(self).wf() && old(self)@.validity_matches() ==> final(self)@.validity_matches()
                && final(self)@.elements() == old(self)@.elements().push(item_of(item)),
    {
        self.push(item);
        Ok(())
    }

    /// An array without elements.
    pub fn new() -> (array: Self)
        ensures
            array@ == BinViewModel::empty(),
            array.room() == 0,
            array.inv(),
            array.wf(),
    {
        Self::with_capacity(0)
    }

    /// An array without elements, made with room for `capacity` of them. How much room the allocator
    /// gives is not stated.
    pub fn with_capacity(capacity: usize) -> (array: Self)
        requires
            capacity * VIEW_SIZE <= isize::MAX,
        ensures
            array@ == BinViewModel::empty(),
            array.room() == 0,
            array.inv(),
            array.wf(),
    {
        let array = MutableBinaryViewArray {
            views: Vec::with_capacity(capacity),
            completed_buffers: Vec::new(),
            in_progress_buffer: Vec::new(),
            in_progress_room: 0,
            validity: None,
            phantom: std::marker::PhantomData,
            total_bytes_len: 0,
            total_buffer_len: 0,
        };
        proof {
            assert(array@ =~= BinViewModel::empty());
            lemmas::lemma_buffers_len_push(Seq::empty(), Seq::empty());
        }
        array
    }

    /// An array without elements, made with room for as many as an iterator says, if that many are
    /// possible. Callers rely on there being no elements, and on nothing else.
    fn with_hint(hint: usize) -> (array: Self)
        ensures
            array@ == BinViewModel::empty(),
            array.room() == 0,
            array.inv(),
            array.wf(),
    {
        if hint <= isize::MAX as usize / VIEW_SIZE {
            Self::with_capacity(hint)
        } else {
            Self::with_capacity(0)
        }
    }

    /// The array of the items that the iterator yields.
    pub fn from_iterator<'a, I: Iterator<Item = Option<&'a T>>>(iterator: I) -> (array: Self) where T: 'a
        requires
            vstd::std_specs::iter::IteratorSpec::obeys_prophetic_iter_laws(&iterator),
            vstd::std_specs::iter::IteratorSpec::decrease(&iterator) is Some,
            BinViewModel::empty().has_room_for_all(
                items_of(vstd::std_specs::iter::IteratorSpec::remaining(&iterator)),
            ),
        ensures
            array.state() == (GrowState { array: BinViewModel::empty(), room: 0 }).push_all(
                items_of(vstd::std_specs::iter::IteratorSpec::remaining(&iterator)),
            ),
            BinViewModel::empty().items_pushed(
                items_of(vstd::std_specs::iter::IteratorSpec::remaining(&iterator)),
                array@,
            ),
            BinViewModel::empty().items_accounted(
                items_of(vstd::std_specs::iter::IteratorSpec::remaining(&iterator)),
                array@,
            ),
            array.inv(),
            array.wf(),
            array@.validity_matches(),
            array@.elements() == items_of(
                vstd::std_specs::iter::IteratorSpec::remaining(&iterator),
            ),
    {
        let ghost items = items_of(vstd::std_specs::iter::IteratorSpec::remaining(&iterator));
        let mut mutable = Self::with_hint(std_ext::size_hint_lower(&iterator));
        mutable.extend(iterator);
        assert(BinViewModel::empty().elements() + items =~= items);
        mutable
    }

    /// The array of the values that the iterator yields; none of them is null.
    pub fn from_values_iter<'a, I: Iterator<Item = &'a T>>(iterator: I) -> (array: Self) where T: 'a
        requires
            vstd::std_specs::iter::IteratorSpec::obeys_prophetic_iter_laws(&iterator),
            vstd::std_specs::iter::IteratorSpec::decrease(&iterator) is Some,
            BinViewModel::empty().has_room_for_all(
                items_of_values(vstd::std_specs::iter::IteratorSpec::remaining(&iterator)),
            ),
        ensures
            array.state() == (GrowState { array: BinViewModel::empty(), room: 0 }).push_all(
                items_of_values(vstd::std_specs::iter::IteratorSpec::remaining(&iterator)),
            ),
            BinViewModel::empty().items_pushed(
                items_of_values(vstd::std_specs::iter::IteratorSpec::remaining(&iterator)),
                array@,
            ),
            BinViewModel::empty().items_accounted(
                items_of_values(vstd::std_specs::iter::IteratorSpec::remaining(&iterator)),
                array@,
            ),
            array.inv(),
            array.wf(),
            array@.validity_matches(),
            array@.elements() == items_of_values(
                vstd::std_specs::iter::IteratorSpec::remaining(&iterator),
            ),
    {
        let ghost items = items_of_values(vstd::std_specs::iter::IteratorSpec::remaining(&iterator));
        let mut mutable = Self::with_hint(std_ext::size_hint_lower(&iterator));
        mutable.extend_values(iterator);
        assert(BinViewModel::empty().elements() + items =~= items);
        mutable
    }

    /// The array of the items of a slice.
    pub fn from(slice: &[Option<&T>]) -> (array: Self)
        requires
            BinViewModel::empty().has_room_for_all(items_of(slice@)),
        ensures
            array.state() == (GrowState { array: BinViewModel::empty(), room: 0 }).push_all(
                items_of(slice@),
            ),
            BinViewModel::empty().items_pushed(items_of(slice@), array@),
            BinViewModel::empty().items_accounted(items_of(slice@), array@),
            array.inv(),
            array.wf(),
            array@.validity_matches(),
            array@.elements() == items_of(slice@),
    {
        let mut mutable = Self::with_hint(slice.len());
        let ghost all = items_of(slice@);
        let mut i: usize = 0;
        proof {
            lemmas::lemma_trace_empty(BinViewModel::empty());
            assert(all.take(0) =~= Seq::empty());
            assert(all.skip(0) =~= all);
            assert(mutable@.elements() =~= all.take(0));
        }
        while i < slice.len()
            invariant
                i <= slice@.len(),
                all == items_of(slice@),
                mutable@.has_room_for_all(all.skip(i as int)),
                mutable.state() == (GrowState { array: BinViewModel::empty(), room: 0 }).push_all(
                    all.take(i as int),
                ),
                BinViewModel::empty().items_pushed(all.take(i as int), mutable@),
                mutable.inv(),
                mutable.wf(),
                mutable@.validity_matches(),
                mutable@.elements() == all.take(i as int),
            decreases slice@.len() - i,
        {
            let ghost before = mutable@;
            let ghost rest = all.skip(i as int);
            let value = slice[i];
            assert(rest[0] == item_of(value));
            proof {
                lemmas::lemma_room_for_first(before, rest);
            }
            mutable.push(value);
            proof {
                lemmas::lemma_room_after_push(before, rest, mutable@);
                lemmas::lemma_trace_grows(
                    BinViewModel::empty(),
                    all.take(i as int),
                    before,
                    item_of(value),
                    mutable@,
                );
                assert(rest.drop_first() =~= all.skip(i + 1));
                assert(all.take(i as int).push(item_of(value)) =~= all.take(i + 1));
                assert(all.take(i + 1).drop_last() =~= all.take(i as int));
            }
            i += 1;
        }
        proof {
            assert(all.take(i as int) =~= all);
            laws::law_pushed_items_are_accounted(BinViewModel::empty(), all, mutable@);
        }
        mutable
    }

    /// The views, to be changed at will. Whoever changes them answers for what they describe.
    pub fn views_mut(&mut self) -> (views: &mut Vec<BinaryView>)
        ensures
            view::models(views@) == old(self)@.views,
            final(self)@ == (BinViewModel { views: view::models(final(views)@), ..old(self)@ }),
            final(self).room() == old(self).room(),
    {
        &mut self.views
    }

    /// The views of the elements.
    pub fn views(&self) -> (views: &[BinaryView])
        ensures
            view::models(views@) == self@.views,
    {
        self.views.as_slice()
    }

    /// The data buffers that are finished.
    pub fn completed_buffers(&self) -> (buffers: &[Buffer])
        ensures
            crate::buffer::contents(buffers@) == self@.completed,
    {
        self.completed_buffers.as_slice()
    }

    /// The bitmap, if there is one, to be changed at will.
    pub fn validity(&mut self) -> (validity: Option<&mut MutableBitmap>)
        ensures
            match validity {
                Some(bits) => {
                    &&& old(self)@.validity == Some(bits@)
                    &&& final(self)@ == (BinViewModel {
                        validity: Some(final(bits)@),
                        ..old(self)@
                    })
                },
                None => old(self)@.validity is None && final(self)@ == old(self)@,
            },
            final(self).room() == old(self).room(),
    {
        self.validity.as_mut()
    }

    /// The bitmap, if there is one.
    pub fn validity_ref(&self) -> (validity: Option<&MutableBitmap>)
        ensures
            match validity {
                Some(bits) => self@.validity == Some(bits@),
                None => self@.validity is None,
            },
    {
        self.validity.as_ref()
    }

    /// The number of elements.
    pub fn len(&self) -> (len: usize)
        ensures
            len == self@.views.len(),
    {
        self.views.len()
    }

    /// The number of elements that there is room for, which is at least the number of elements. How
    /// much larger it is, is up to the allocator and not stated.
    pub fn capacity(&self) -> (capacity: usize)
        ensures
            capacity >= self@.views.len(),
    {
        std_ext::vec_capacity(&self.views)
    }

    /// Gives back room that no element needs. The array says the same as before; how much room is left
    /// is up to the allocator and not stated.
    pub fn shrink_to_fit(&mut self)
        ensures
            final(self)@ == old(self)@,
            final(self).room() == old(self).room(),
    {
        std_ext::vec_shrink_to_fit(&mut self.views)
    }

    /// The logical type of the array.
    pub fn data_type(&self) -> (data_type: ArrowDataType)
        ensures
            data_type == T::data_type(),
    {
        T::dtype()
    }

    /// The name under which the array is shown to a developer.
    pub fn debug_name(&self) -> (name: String)
        ensures
            name@ == match T::data_type() {
                ArrowDataType::BinaryView => "mutable-binviewBinaryView"@,
                ArrowDataType::Utf8View => "mutable-binviewUtf8View"@,
            },
    {
        match T::dtype() {
            ArrowDataType::BinaryView => "mutable-binviewBinaryView".to_owned(),
            ArrowDataType::Utf8View => "mutable-binviewUtf8View".to_owned(),
        }
    }

    /// Appends the element that a view into other buffers describes, and leaves the bitmap alone.
    /// A long element is copied into the buffers of this array.
    pub fn push_view(&mut self, v: BinaryView, buffers: &[Buffer])
        requires
            old(self)@.has_room(v.length as nat),
            v@.fits_in(crate::buffer::contents(buffers@)),
            v@.is_inlined() || T::valid_bytes(v@.bytes_in(crate::buffer::contents(buffers@))),
        ensures
            if v@.is_inlined() {
                final(self)@ == (BinViewModel {
                    views: old(self)@.views.push(v@),
                    total_bytes_len: old(self)@.total_bytes_len + v.length as nat,
                    ..old(self)@
                }) && final(self).room() == old(self).room()
            } else {
                final(self).state() == old(self).state().store(
                    v@.bytes_in(crate::buffer::contents(buffers@)),
                ) && old(self)@.stored(
                    v@.bytes_in(crate::buffer::contents(buffers@)),
                    final(self)@,
                )
            },
            old(self).inv() ==> final(self).inv(),
            old(self).wf() && T::valid_bytes(v@.bytes_in(crate::buffer::contents(buffers@)))
                ==> final(self).wf() && final(self)@.values() == old(self)@.values().push(
                v@.bytes_in(crate::buffer::contents(buffers@)),
            ),
    {
        if v.length <= MAX_INLINE_SIZE {
            self.total_bytes_len += v.length as usize;
            self.views.push(v);
            proof {
                assert(self@.views =~= old(self)@.views.push(v@));
                if old(self).wf() {
                    lemmas::lemma_keeps_bytes_refl(self@.buffers());
                    assert(self@.views =~= old(self)@.views + Seq::new(1, |i: int| v@));
                    lemmas::lemma_views_appended(old(self)@, self@, v@, 1);
                    assert(self@.values() =~= old(self)@.values().push(
                        v@.bytes_in(crate::buffer::contents(buffers@)),
                    ));
                }
            }
        } else {
            let bytes = utf8::view_bytes(&v, buffers);
            let t = T::from_bytes_unchecked(bytes);
            self.push_value_ignore_validity(t);
        }
    }

    /// Adds a finished data buffer, and returns the index under which views refer to it. The
    /// growing buffer is finished first.
    pub fn push_buffer(&mut self, buffer: Buffer) -> (buffer_idx: u32)
        requires
            old(self)@.total_buffer_len + buffer@.len() <= usize::MAX,
        ensures
            final(self)@ == old(self)@.push_buffer(buffer@),
            final(self).room() == old(self).state().flushed().room,
            buffer_idx == old(self)@.flushed().completed.len() as u32,
            old(self).inv() ==> final(self).inv(),
            old(self).wf() ==> final(self).wf() && final(self)@.values() == old(self)@.values(),
    {
        self.finish_in_progress();
        let ghost flushed = self@;
        let buffer_idx: usize = self.completed_buffers.len();
        self.total_buffer_len += buffer.len();
        self.completed_buffers.push(buffer);
        proof {
            assert(self@.completed =~= flushed.completed.push(buffer@));
            assert(self@ =~= old(self)@.push_buffer(buffer@));
            lemmas::lemma_push_buffer(old(self)@, buffer@);
        }
        #[verifier::truncate]
        (buffer_idx as u32)
    }

    /// Finishes the growing buffer if there is anything in it, and says whether there was.
    fn finish_in_progress(&mut self) -> (pushed: bool)
        ensures
            final(self).state() == old(self).state().flushed(),
            pushed == (old(self)@.in_progress.len() > 0),
            old(self).inv() ==> final(self).inv(),
    {
        proof {
            lemmas::lemma_flush_counts(self@);
        }
        if !self.in_progress_buffer.is_empty() {
            let mut finished: Vec<u8> = Vec::new();
            std::mem::swap(&mut self.in_progress_buffer, &mut finished);
            self.completed_buffers.push(Buffer::from(finished));
            self.in_progress_room = 0;
            assert(self@.completed =~= old(self)@.flushed().completed);
            assert(self@ =~= old(self)@.flushed());
            true
        } else {
            assert(self@ =~= old(self)@.flushed());
            false
        }
    }

    /// Finishes the array.
    pub fn freeze(self) -> (array: BinaryViewArrayGeneric<T>)
        ensures
            array@ == self@.flushed(),
            self.wf() ==> array.wf() && array@.values() == self@.values() && array@.elements()
                == self@.elements(),
    {
        BinaryViewArrayGeneric::from(self)
    }

    /// Finishes the array and leaves one without elements in its place.
    pub fn as_box(&mut self) -> (array: Box<BinaryViewArrayGeneric<T>>)
        ensures
            array@ == old(self)@.flushed(),
            old(self).wf() ==> array.wf() && array@.elements() == old(self)@.elements(),
            final(self)@ == BinViewModel::empty(),
            final(self).room() == 0,
            final(self).inv(),
            final(self).wf(),
    {
        let mut mutable = Self::new();
        std::mem::swap(self, &mut mutable);
        Box::new(mutable.freeze())
    }

    /// The element with the given index, null or not.
    pub fn value(&self, i: usize) -> (value: &T)
        requires
            i < self@.views.len(),
            self@.views[i as int].fits_in(self@.buffers()),
            T::valid_bytes(self@.values()[i as int]),
        ensures
            value.bytes() == self@.values()[i as int],
    {
        self.value_unchecked(i)
    }

    /// The element with the given index, null or not.
    pub fn value_unchecked(&self, i: usize) -> (value: &T)
        requires
            i < self@.views.len(),
            self@.views[i as int].fits_in(self@.buffers()),
            T::valid_bytes(self@.values()[i as int]),
        ensures
            value.bytes() == self@.values()[i as int],
    {
        assert(self.views@[i as int]@ == self@.views[i as int]);
        assert(self@.values()[i as int] == self@.views[i as int].bytes_in(self@.buffers()));
        self.value_from_view_unchecked(&self.views[i])
    }

    /// The element that a view into the buffers of this array describes.
    pub fn value_from_view_unchecked<'a>(&'a self, view: &'a BinaryView) -> (value: &'a T)
        requires
            view@.fits_in(self@.buffers()),
            T::valid_bytes(view@.bytes_in(self@.buffers())),
        ensures
            value.bytes() == view@.bytes_in(self@.buffers()),
    {
        let len: u32 = view.length;
        let bytes = if len <= MAX_INLINE_SIZE {
            view.inlined_bytes()
        } else {
            let buffer_idx: usize = view.buffer_idx() as usize;
            let offset: usize = view.offset() as usize;
            let data: &[u8] = if buffer_idx == self.completed_buffers.len() {
                self.in_progress_buffer.as_slice()
            } else {
                self.completed_buffers[buffer_idx].as_slice()
            };
            assert(data@ == self@.buffers()[buffer_idx as int]);
            assert(offset + len <= data.len());
            vstd::slice::slice_subrange(data, offset, offset + len as usize)
        };
        T::from_bytes_unchecked(bytes)
    }

    /// All the elements in order, null or not.
    pub fn values_iter(&self) -> (values: Vec<&T>)
        requires
            self.wf(),
        ensures
            values@.len() == self@.views.len(),
            forall|i: int|
                0 <= i < values@.len() ==> (#[trigger] values@[i]).bytes() == self@.values()[i],
    {
        let mut values: Vec<&T> = Vec::with_capacity(self.views.len());
        let mut i: usize = 0;
        while i < self.views.len()
            invariant
                self.wf(),
                i <= self.views@.len(),
                values@.len() == i,
                forall|j: int| 0 <= j < i ==> (#[trigger] values@[j]).bytes() == self@.values()[j],
            decreases self.views@.len() - i,
        {
            assert(self@.views[i as int].fits_in(self@.buffers()));
            assert(T::valid_bytes(self@.values()[i as int]));
            values.push(self.value_unchecked(i));
            i += 1;
        }
        values
    }
}

impl MutableBinaryViewArray<[u8]> {
    /// Checks that the elements from `views_offset` on are UTF-8, where the buffers before
    /// `buffer_offset` need no validation.
    ///
    /// The growing buffer is finished for the check. If the check passes it goes on growing after
    /// it, so that buffers do not get too small, and the array is as it was before. If the check
    /// fails the buffer stays finished.
    pub fn validate_utf8(&mut self, buffer_offset: usize, views_offset: usize) -> (result: Result<
        (),
        ArrayError,
    >)
        requires
            views_offset <= old(self)@.views.len(),
            buffer_offset <= old(self)@.flushed().completed.len(),
            forall|i: int|
                views_offset <= i < old(self)@.views.len() ==> #[trigger] old(
                    self,
                )@.views[i].fits_in(old(self)@.buffers()),
        ensures
            result is Ok <==> old(self)@.passes_utf8(buffer_offset as int, views_offset as int),
            result is Ok ==> final(self).state() == old(self).state(),
            result is Err ==> final(self).state() == old(self).state().flushed(),
            result matches Err(error) ==> error == ArrayError::InvalidUtf8 && final(self)@ == old(
                self,
            )@.flushed(),
            old(self).inv() ==> final(self).inv(),
            old(self).wf() ==> final(self).wf() && final(self)@.values() == old(self)@.values(),
    {
        // The growing buffer may be needed for the check.
        let room: usize = self.in_progress_room;
        let pushed = self.finish_in_progress();
        let all_buffers = self.completed_buffers.as_slice();
        let views = vstd::slice::slice_subrange(
            self.views.as_slice(),
            views_offset,
            self.views.len(),
        );
        let buffers = vstd::slice::slice_subrange(all_buffers, buffer_offset, all_buffers.len());
        let ghost contents = old(self)@.flushed().completed;
        proof {
            lemmas::lemma_flush_keeps_bytes(old(self)@);
            assert(crate::buffer::contents(all_buffers@) =~= contents);
            assert(crate::buffer::contents(buffers@) =~= contents.skip(buffer_offset as int));
            assert forall|i: int| 0 <= i < views@.len() implies (#[trigger] views@[i])@.fits_in(
                contents,
            ) by {
                let view = old(self)@.views[views_offset + i];
                assert(views@[i]@ == view);
                assert(view.fits_in(old(self)@.buffers()));
                lemmas::lemma_view_kept(view, old(self)@.buffers(), contents);
            }
        }
        let result = utf8::validate_utf8_only(views, buffers, all_buffers);
        proof {
            let ascii = model::all_ascii(contents.skip(buffer_offset as int));
            assert forall|i: int| 0 <= i < views@.len() implies (#[trigger] views@[i])@ == old(
                self,
            )@.views[views_offset + i] by {}
            if old(self)@.passes_utf8(buffer_offset as int, views_offset as int) {
                assert forall|i: int| 0 <= i < views@.len() implies utf8::passes(
                    (#[trigger] views@[i])@,
                    contents,
                    ascii,
                ) by {
                    assert(views@[i]@ == old(self)@.views[views_offset + i]);
                }
            }
            if result is Ok {
                assert forall|i: int|
                    views_offset <= i < old(self)@.views.len() && (old(self)@.views[i].is_inlined()
                        || !ascii) implies vstd::utf8::valid_utf8(
                    #[trigger] old(self)@.views[i].bytes_in(contents),
                ) by {
                    assert(utf8::passes(views@[i - views_offset]@, contents, ascii));
                }
            }
        }
        proof {
            if old(self).wf() {
                lemmas::lemma_flushed_values(old(self)@);
            }
        }
        if result.is_err() {
            return result;
        }
        // The growing buffer is restored, so that buffers do not get too small.
        if pushed {
            let ghost flushed = self@;
            if let Some(last) = self.completed_buffers.pop() {
                assert(self@.completed =~= flushed.completed.drop_last());
                self.in_progress_buffer = last.into_mut();
                self.in_progress_room = room;
            }
        }
        assert(self@ =~= old(self)@);
        Ok(())
    }
}

impl<T: ViewType + ?Sized> From<MutableBinaryViewArray<T>> for BinaryViewArrayGeneric<T> {
    /// Finishes the array.
    fn from(value: MutableBinaryViewArray<T>) -> (array: Self)
        ensures
            array@ == value@.flushed(),
            value.wf() ==> array.wf() && array@.values() == value@.values() && array@.elements()
                == value@.elements(),
    {
        let mut value = value;
        let ghost whole = value;
        value.finish_in_progress();
        let validity = match value.validity {
            Some(bits) => Some(Bitmap::from(bits)),
            None => None,
        };
        let array = BinaryViewArrayGeneric::new_unchecked(
            value.views,
            value.completed_buffers,
            validity,
            value.total_bytes_len,
            value.total_buffer_len,
        );
        proof {
            assert(array@ =~= whole@.flushed());
            if whole.wf() {
                lemmas::lemma_flushed_values(whole@);
                assert(array@.elements() =~= whole@.elements());
            }
        }
        array
    }
}

impl<T: ViewType + ?Sized> vstd::std_specs::convert::FromSpecImpl<MutableBinaryViewArray<T>> for BinaryViewArrayGeneric<T> {
    /// Two arrays made of one are the same in what they say, not in where they say it.
    open spec fn obeys_from_spec() -> bool {
        false
    }

    open spec fn from_spec(value: MutableBinaryViewArray<T>) -> Self {
        arbitrary()
    }
}

impl<T: ViewType + ?Sized> Default for MutableBinaryViewArray<T> {
    fn default() -> (array: Self)
        ensures
            array@ == BinViewModel::empty(),
            array.room() == 0,
            array.inv(),
            array.wf(),
    {
        Self::new()
    }
}

impl<T: ViewType + ?Sized> Clone for MutableBinaryViewArray<T> {
    /// A copy, whose growing buffer has room for no more than what is in it.
    fn clone(&self) -> (array: Self)
        ensures
            array@ == self@,
            array.room() == self@.in_progress.len(),
    {
        let array = MutableBinaryViewArray {
            views: self.views.clone(),
            completed_buffers: self.completed_buffers.clone(),
            in_progress_buffer: self.in_progress_buffer.clone(),
            in_progress_room: self.in_progress_buffer.len(),
            validity: self.validity.clone(),
            phantom: std::marker::PhantomData,
            total_bytes_len: self.total_bytes_len,
            total_buffer_len: self.total_buffer_len,
        };
        proof {
            assert(array@.views =~= self@.views);
            assert(array@.completed =~= self@.completed);
            assert(array@.in_progress =~= self@.in_progress);
            assert(array@ =~= self@);
        }
        array
    }
}

} // verus!
