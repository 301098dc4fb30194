//! What the terms of the contracts come down to: bytes, numbers and bits.
//!
//! Each law here says of one term, or of one operation, what it is in plain bytes and numbers.
use crate::array::BinaryViewArrayGeneric;
use crate::buffer::Buffer;
use crate::laws;
use crate::lemmas;
use crate::model;
use crate::model::{BinViewModel, GrowState};
use crate::mutable;
use crate::mutable::MutableBinaryViewArray;
use crate::utf8;
use crate::view;
use crate::view::{BinaryView, ViewModel};
use crate::view_type::{ArrowDataType, ViewType};
use vstd::prelude::*;

verus! {

/// The sizes that the layout fixes: 12 bytes fit into a view of 16, and data buffers have room for
/// 8 KiB at first and get twice as large up to 16 MiB.
pub proof fn law_sizes()
    ensures
        view::MAX_INLINE_SIZE == 12,
        mutable::VIEW_SIZE == 16,
        mutable::DEFAULT_BLOCK_SIZE == 8192,
        mutable::MAX_EXP_BLOCK_SIZE == 16_777_216,
{
}

/// Byte strings are stored as they are, and any bytes are one.
pub proof fn law_bytes_of_slice(value: &[u8], bytes: Seq<u8>)
    ensures
        ViewType::bytes(value) == value@,
        <[u8]>::valid_bytes(bytes),
        <[u8]>::data_type() == ArrowDataType::BinaryView,
{
}

/// Strings are stored in UTF-8, and bytes are a string if and only if they are valid UTF-8.
pub proof fn law_bytes_of_str(value: &str, bytes: Seq<u8>)
    ensures
        ViewType::bytes(value) == vstd::utf8::encode_utf8(value@),
        str::valid_bytes(bytes) <==> vstd::utf8::valid_utf8(bytes),
        str::data_type() == ArrowDataType::Utf8View,
{
}

/// An optional value says its bytes, whatever they are, if it is there, and is a null if and only if
/// it is not.
pub proof fn law_item_of_value<T: ViewType + ?Sized>(value: Option<&T>)
    ensures
        value matches Some(v) ==> mutable::item_of(value) == Some(v.bytes()),
        mutable::item_of(value) is None <==> value is None,
{
}

/// A list of optional values says as many items as it has values, and each item is what its value is.
pub proof fn law_items_of_values_or_nulls<T: ViewType + ?Sized>(values: Seq<Option<&T>>)
    ensures
        mutable::items_of(values).len() == values.len(),
        forall|i: int|
            0 <= i < values.len() ==> match #[trigger] values[i] {
                Some(v) => mutable::items_of(values)[i] == Some(v.bytes()),
                None => mutable::items_of(values)[i] is None,
            },
{
}

/// A list of values says as many items as it has values, each item is the bytes of its value, and
/// none is null.
pub proof fn law_items_of_values<T: ViewType + ?Sized>(values: Seq<&T>)
    ensures
        mutable::items_of_values(values).len() == values.len(),
        forall|i: int|
            0 <= i < values.len() ==> mutable::items_of_values(values)[i] == Some(
                (#[trigger] values[i]).bytes(),
            ),
        !model::has_null(mutable::items_of_values(values)),
{
}

/// The length, the bytes, the bit and the size of an item.
pub proof fn law_item_terms(bytes: Seq<u8>)
    ensures
        model::item_len(Some(bytes)) == bytes.len(),
        model::item_len(None) == 0,
        model::item_bytes(Some(bytes)) == bytes,
        model::item_bytes(None).len() == 0,
        model::is_long(bytes.len()) <==> bytes.len() > 12,
{
}

/// The bytes and the bits of a list of items, and whether it has a null.
pub proof fn law_items_terms(items: Seq<Option<Seq<u8>>>)
    ensures
        model::items_bytes(items).len() == items.len(),
        model::items_validity(items).len() == items.len(),
        forall|i: int|
            0 <= i < items.len() ==> match #[trigger] items[i] {
                Some(bytes) => model::items_bytes(items)[i] == bytes && model::items_validity(
                    items,
                )[i],
                None => model::items_bytes(items)[i].len() == 0 && !model::items_validity(items)[i],
            },
        model::has_null(items) <==> !(forall|i: int|
            0 <= i < items.len() ==> (#[trigger] items[i]) is Some),
{
    if model::has_null(items) {
        let i = choose|i: int| 0 <= i < items.len() && (#[trigger] items[i]) is None;
        assert(!(items[i] is Some));
    }
}

/// The lengths of lists of items start at nothing and grow with each item.
pub proof fn law_items_lengths(items: Seq<Option<Seq<u8>>>, bytes: Seq<u8>)
    ensures
        items.len() == 0 ==> model::items_len(items) == 0 && model::long_items_len(items) == 0
            && model::long_items_count(items) == 0,
        model::items_len(items.push(Some(bytes))) == model::items_len(items) + bytes.len(),
        model::items_len(items.push(None)) == model::items_len(items),
        bytes.len() > 12 ==> model::long_items_len(items.push(Some(bytes)))
            == model::long_items_len(items) + bytes.len() && model::long_items_count(
            items.push(Some(bytes)),
        ) == model::long_items_count(items) + 1,
        bytes.len() <= 12 ==> model::long_items_len(items.push(Some(bytes)))
            == model::long_items_len(items) && model::long_items_count(items.push(Some(bytes)))
            == model::long_items_count(items),
        model::long_items_len(items.push(None)) == model::long_items_len(items),
        model::long_items_count(items.push(None)) == model::long_items_count(items),
{
    lemmas::lemma_items_len_push(items, Some(bytes));
    lemmas::lemma_items_len_push(items, None);
    lemma_long_items_count_push(items, Some(bytes));
    lemma_long_items_count_push(items, None);
}

/// The number of long items grows with a long item at the end.
proof fn lemma_long_items_count_push(items: Seq<Option<Seq<u8>>>, item: Option<Seq<u8>>)
    ensures
        model::long_items_count(items.push(item)) == model::long_items_count(items) + (
        if model::is_long(model::item_len(item)) {
            1nat
        } else {
            0
        }),
    decreases items.len(),
{
    let longer = items.push(item);
    if items.len() == 0 {
        assert(longer.drop_first() =~= items);
    } else {
        lemma_long_items_count_push(items.drop_first(), item);
        assert(longer.drop_first() =~= items.drop_first().push(item));
        assert(longer[0] == items[0]);
    }
}

/// The lengths of lists of views and of buffers start at nothing and grow with each.
pub proof fn law_lists_lengths(
    views: Seq<ViewModel>,
    view: ViewModel,
    buffers: Seq<Seq<u8>>,
    buffer: Seq<u8>,
)
    ensures
        views.len() == 0 ==> model::views_len(views) == 0,
        model::views_len(views.push(view)) == model::views_len(views) + view.length,
        buffers.len() == 0 ==> model::buffers_len(buffers) == 0,
        model::buffers_len(buffers.push(buffer)) == model::buffers_len(buffers) + buffer.len(),
{
    assert(views.push(view).drop_last() =~= views);
    assert(buffers.push(buffer).drop_last() =~= buffers);
}

/// The totals are right if and only if they are the lengths of all the views, and of all the finished
/// buffers and the growing one.
pub proof fn law_totals(m: BinViewModel)
    ensures
        m.counts_elements() <==> m.total_bytes_len == model::views_len(m.views),
        m.counts_buffers() <==> m.total_buffer_len == model::buffers_len(m.completed)
            + m.in_progress.len(),
{
    lemmas::lemma_buffers_len_push(m.completed, m.in_progress);
}

/// What a view says is its two fields.
pub proof fn law_fields_of_view(v: BinaryView)
    ensures
        v@.length == v.length,
        v@.data == v.data@,
{
}

/// Lists of views and of buffers are taken one by one.
pub proof fn law_lists_one_by_one(views: Seq<BinaryView>, buffers: Seq<Buffer>)
    ensures
        view::models(views).len() == views.len(),
        forall|i: int| 0 <= i < views.len() ==> view::models(views)[i] == (#[trigger] views[i])@,
        crate::buffer::contents(buffers).len() == buffers.len(),
        forall|i: int|
            0 <= i < buffers.len() ==> crate::buffer::contents(buffers)[i] == (
            #[trigger] buffers[i])@,
{
}

/// The three numbers of a view are in its twelve bytes, the least significant byte of each first.
pub proof fn law_numbers_of_view(v: ViewModel)
    ensures
        v.prefix() == v.data[0] + 256 * (v.data[1] + 256 * (v.data[2] + 256 * v.data[3])),
        v.buffer_idx() == v.data[4] + 256 * (v.data[5] + 256 * (v.data[6] + 256 * v.data[7])),
        v.offset() == v.data[8] + 256 * (v.data[9] + 256 * (v.data[10] + 256 * v.data[11])),
        v.is_inlined() <==> v.length <= 12,
{
}

/// Four bytes spell a number, the least significant byte first.
pub proof fn law_little_endian(bytes: Seq<u8>, at: int)
    ensures
        view::le_value(bytes, at) == bytes[at] + 256 * (bytes[at + 1] + 256 * (bytes[at + 2] + 256
            * bytes[at + 3])),
{
}

/// The view of a short element has its length and its bytes, and zeros after them.
pub proof fn law_short_view(bytes: Seq<u8>)
    requires
        bytes.len() <= 12,
    ensures
        ViewModel::inlined(bytes).length == bytes.len(),
        ViewModel::inlined(bytes).data.len() == 12,
        forall|j: int|
            0 <= j < 12 ==> #[trigger] ViewModel::inlined(bytes).data[j] == (if j < bytes.len() {
                bytes[j]
            } else {
                0
            }),
{
}

/// The view of a long element has its length, its first four bytes, and the place that it was given.
pub proof fn law_long_view(bytes: Seq<u8>, buffer_idx: int, offset: int)
    requires
        bytes.len() > 12,
        0 <= buffer_idx <= u32::MAX,
        0 <= offset <= u32::MAX,
    ensures
        ViewModel::reference(bytes, buffer_idx, offset).length == bytes.len(),
        ViewModel::reference(bytes, buffer_idx, offset).data.len() == 12,
        forall|j: int|
            0 <= j < 4 ==> #[trigger] ViewModel::reference(bytes, buffer_idx, offset).data[j]
                == bytes[j],
        ViewModel::reference(bytes, buffer_idx, offset).buffer_idx() == buffer_idx,
        ViewModel::reference(bytes, buffer_idx, offset).offset() == offset,
{
    view::lemma_reference_fields(bytes, buffer_idx, offset);
}

/// The view in the place of a null has no length and no bits set.
pub proof fn law_null_view()
    ensures
        ViewModel::empty().length == 0,
        ViewModel::empty().data.len() == 12,
        forall|j: int| 0 <= j < 12 ==> #[trigger] ViewModel::empty().data[j] == 0,
{
}

/// A short view describes the first bytes of its data, whatever the buffers; a long one as many bytes
/// as its length says, from its offset on, of the buffer that it names, if they are there.
pub proof fn law_view_is_read(v: ViewModel, buffers: Seq<Seq<u8>>)
    requires
        v.length <= 12 ==> v.length <= v.data.len(),
    ensures
        v.length <= 12 ==> v.fits_in(buffers),
        v.length > 12 ==> (v.fits_in(buffers) <==> v.buffer_idx() < buffers.len() && v.offset()
            + v.length <= buffers[v.buffer_idx()].len()),
        v.fits_in(buffers) ==> v.bytes_in(buffers).len() == v.length,
        v.length <= 12 ==> forall|j: int|
            0 <= j < v.length ==> #[trigger] v.bytes_in(buffers)[j] == v.data[j],
        v.length > 12 && v.fits_in(buffers) ==> forall|j: int|
            0 <= j < v.length ==> #[trigger] v.bytes_in(buffers)[j]
                == buffers[v.buffer_idx()][v.offset() + j],
{
}

/// Views look for their bytes in the finished buffers and, last, in the growing one.
pub proof fn law_buffers_of_array(m: BinViewModel)
    ensures
        m.buffers().len() == m.completed.len() + 1,
        forall|k: int| 0 <= k < m.completed.len() ==> #[trigger] m.buffers()[k] == m.completed[k],
        m.buffers()[m.completed.len() as int] == m.in_progress,
{
}

/// There is a value for each view, which is what the view describes, and an element for each view,
/// which is that value unless the bitmap says that it is null.
pub proof fn law_elements_of_array(m: BinViewModel)
    ensures
        m.values().len() == m.views.len(),
        m.elements().len() == m.views.len(),
        forall|i: int|
            0 <= i < m.views.len() ==> #[trigger] m.values()[i] == m.views[i].bytes_in(m.buffers()),
        forall|i: int|
            0 <= i < m.views.len() ==> #[trigger] m.elements()[i] == match m.validity {
                Some(bits) => if bits[i] {
                    Some(m.values()[i])
                } else {
                    None
                },
                None => Some(m.values()[i]),
            },
        m.readable() <==> forall|i: int|
            0 <= i < m.views.len() ==> #[trigger] m.views[i].fits_in(m.buffers()),
        m.validity_matches() <==> (m.validity matches Some(bits) ==> bits.len() == m.views.len()),
{
}

/// An array is well-formed if and only if every view fits and describes a value, and its invariant is
/// that the total of the buffers' bytes is right.
pub proof fn law_well_formed_array<T: ViewType + ?Sized>(array: &MutableBinaryViewArray<T>)
    ensures
        array.wf() <==> forall|i: int|
            0 <= i < array@.views.len() ==> (#[trigger] array@.views[i]).fits_in(array@.buffers())
                && T::valid_bytes(array@.views[i].bytes_in(array@.buffers())),
        array.inv() <==> array@.total_buffer_len == model::buffers_len(array@.completed)
            + array@.in_progress.len(),
        array.state().array == array@,
        array.state().room == array.room(),
{
    law_totals(array@);
    if array.wf() {
        assert forall|i: int| 0 <= i < array@.views.len() implies (
        #[trigger] array@.views[i]).fits_in(array@.buffers()) && T::valid_bytes(
            array@.views[i].bytes_in(array@.buffers()),
        ) by {
            assert(T::valid_bytes(array@.values()[i]));
        }
    }
}

/// A finished array is well-formed if and only if every view fits and describes a value.
pub proof fn law_well_formed_finished_array<T: ViewType + ?Sized>(array: &BinaryViewArrayGeneric<T>)
    ensures
        array.wf() <==> forall|i: int|
            0 <= i < array@.views.len() ==> (#[trigger] array@.views[i]).fits_in(array@.buffers())
                && T::valid_bytes(array@.views[i].bytes_in(array@.buffers())),
{
    if array.wf() {
        assert forall|i: int| 0 <= i < array@.views.len() implies (
        #[trigger] array@.views[i]).fits_in(array@.buffers()) && T::valid_bytes(
            array@.views[i].bytes_in(array@.buffers()),
        ) by {
            assert(T::valid_bytes(array@.values()[i]));
        }
    }
}

/// An element can be pushed if and only if no length, total, offset or index leaves its type.
pub proof fn law_room_for_element(m: BinViewModel, len: nat)
    ensures
        len <= 12 ==> (m.has_room(len) <==> m.total_bytes_len + len <= usize::MAX),
        len > 12 ==> (m.has_room(len) <==> len <= u32::MAX && m.total_bytes_len + len <= usize::MAX
            && m.total_buffer_len + len <= usize::MAX && m.in_progress.len() + len <= usize::MAX
            && m.completed.len() + (if m.in_progress.len() > 0 {
            1int
        } else {
            0
        }) <= u32::MAX),
{
}

/// More bits can be added if and only if their number stays within its type.
pub proof fn law_room_for_bits(m: BinViewModel, n: nat)
    ensures
        m.has_bit_room(n) <==> match m.validity {
            Some(bits) => bits.len() + n <= usize::MAX,
            None => m.views.len() + n <= usize::MAX,
        },
{
}

/// Items can be pushed if no length, total, offset or index leaves its type even where each long item
/// starts a buffer.
pub proof fn law_room_for_items(m: BinViewModel, items: Seq<Option<Seq<u8>>>)
    ensures
        m.has_room_for_all(items) <==> {
            &&& forall|i: int|
                0 <= i < items.len() ==> ((#[trigger] items[i]) matches Some(bytes) ==> bytes.len()
                    <= u32::MAX)
            &&& m.total_bytes_len + model::items_len(items) <= usize::MAX
            &&& m.total_buffer_len + model::long_items_len(items) <= usize::MAX
            &&& m.in_progress.len() + model::long_items_len(items) <= usize::MAX
            &&& model::long_items_count(items) > 0 ==> m.completed.len() + (
            if m.in_progress.len() > 0 {
                1int
            } else {
                0
            }) + model::long_items_count(items) <= u32::MAX + 1
            &&& m.has_bit_room(items.len())
        },
{
}

/// Where bytes stay, each byte is found at the same place of the same buffer.
pub proof fn law_bytes_stay(old_buffers: Seq<Seq<u8>>, new_buffers: Seq<Seq<u8>>, k: int, j: int)
    requires
        model::keeps_bytes(old_buffers, new_buffers),
        0 <= k < old_buffers.len(),
        0 <= j < old_buffers[k].len(),
    ensures
        k < new_buffers.len(),
        j < new_buffers[k].len(),
        new_buffers[k][j] == old_buffers[k][j],
{
    let len = old_buffers[k].len() as int;
    assert(old_buffers[k] == new_buffers[k].take(len));
    assert(new_buffers[k].take(len)[j] == new_buffers[k][j]);
}

/// Pushing items moves no byte: each is found at the same place of the same buffer.
pub proof fn law_no_byte_moves(
    m: BinViewModel,
    items: Seq<Option<Seq<u8>>>,
    next: BinViewModel,
    k: int,
    j: int,
)
    requires
        m.items_pushed(items, next),
        0 <= k < m.buffers().len(),
        0 <= j < m.buffers()[k].len(),
    ensures
        k < next.buffers().len(),
        j < next.buffers()[k].len(),
        next.buffers()[k][j] == m.buffers()[k][j],
{
    laws::law_pushing_many_keeps_bytes_and_totals(m, items, next);
    law_bytes_stay(m.buffers(), next.buffers(), k, j);
}

/// The array without elements has nothing in it.
pub proof fn law_empty_array()
    ensures
        BinViewModel::empty().views.len() == 0,
        BinViewModel::empty().completed.len() == 0,
        BinViewModel::empty().in_progress.len() == 0,
        BinViewModel::empty().validity is None,
        BinViewModel::empty().total_bytes_len == 0,
        BinViewModel::empty().total_buffer_len == 0,
{
}

/// Finishing the growing buffer appends it to the finished ones if there is anything in it, and
/// changes nothing else.
pub proof fn law_finishing(m: BinViewModel)
    ensures
        m.flushed().in_progress.len() == 0,
        m.in_progress.len() > 0 ==> m.flushed().completed == m.completed.push(m.in_progress),
        m.in_progress.len() == 0 ==> m.flushed().completed == m.completed,
        m.flushed().views == m.views,
        m.flushed().validity == m.validity,
        m.flushed().total_bytes_len == m.total_bytes_len,
        m.flushed().total_buffer_len == m.total_buffer_len,
{
}

/// Adding a buffer finishes the growing one, appends the new one after it and counts its bytes.
pub proof fn law_adding_a_buffer(m: BinViewModel, buffer: Seq<u8>)
    ensures
        m.push_buffer(buffer).in_progress.len() == 0,
        m.in_progress.len() > 0 ==> m.push_buffer(buffer).completed == m.completed.push(
            m.in_progress,
        ).push(buffer),
        m.in_progress.len() == 0 ==> m.push_buffer(buffer).completed == m.completed.push(buffer),
        m.push_buffer(buffer).views == m.views,
        m.push_buffer(buffer).validity == m.validity,
        m.push_buffer(buffer).total_bytes_len == m.total_bytes_len,
        m.push_buffer(buffer).total_buffer_len == m.total_buffer_len + buffer.len(),
{
}

/// Storing an element appends one view with its length and leaves the other views and the bitmap
/// alone. A short element is in its view. A long one follows what is in the growing buffer, or starts
/// a new one after that has been finished; its view has its first four bytes and its place.
pub proof fn law_storing(m: BinViewModel, bytes: Seq<u8>, next: BinViewModel)
    requires
        m.has_room(bytes.len()),
        m.stored(bytes, next),
    ensures
        next.views.len() == m.views.len() + 1,
        forall|i: int| 0 <= i < m.views.len() ==> #[trigger] next.views[i] == m.views[i],
        next.views.last().length == bytes.len(),
        next.views.last().data.len() == 12,
        next.validity == m.validity,
        next.total_bytes_len == m.total_bytes_len + bytes.len(),
        bytes.len() <= 12 ==> {
            &&& next.completed == m.completed
            &&& next.in_progress == m.in_progress
            &&& next.total_buffer_len == m.total_buffer_len
            &&& forall|j: int|
                0 <= j < 12 ==> #[trigger] next.views.last().data[j] == (if j < bytes.len() {
                    bytes[j]
                } else {
                    0
                })
        },
        bytes.len() > 12 ==> {
            &&& next.total_buffer_len == m.total_buffer_len + bytes.len()
            &&& forall|j: int| 0 <= j < 4 ==> #[trigger] next.views.last().data[j] == bytes[j]
            &&& next.views.last().buffer_idx() == next.completed.len()
            &&& next.views.last().offset() == next.in_progress.len() - bytes.len()
            &&& {
                ||| next.completed == m.completed && next.in_progress == m.in_progress + bytes
                ||| m.in_progress.len() > 0 && next.completed == m.completed.push(m.in_progress)
                    && next.in_progress == bytes
            }
        },
{
    if bytes.len() > 12 {
        let new_block = next == m.store(bytes, true);
        let base = if new_block {
            m.flushed()
        } else {
            m
        };
        law_long_view(bytes, base.completed.len() as int, base.in_progress.len() as int);
        assert(Seq::<u8>::empty() + bytes =~= bytes);
        assert(m.in_progress.len() == 0 ==> m.in_progress + bytes =~= bytes);
    } else {
        law_short_view(bytes);
    }
}

/// Pushing a value, whatever its length, is storing it and adding a set bit to the bitmap if there is
/// one.
pub proof fn law_pushing_a_value(m: BinViewModel, bytes: Seq<u8>, next: BinViewModel)
    requires
        m.item_pushed(Some(bytes), next),
    ensures
        m.stored(bytes, (BinViewModel { validity: m.validity, ..next })),
        m.validity is None ==> next.validity is None,
        m.validity matches Some(bits) ==> next.validity == Some(bits.push(true)),
{
    if let Some(bits) = m.validity {
        assert(bits + Seq::new(1, |i: int| true) =~= bits.push(true));
    }
}

/// A pushed value is the last element, and a pushed null is a null; the others stay what they were.
pub proof fn law_pushed_item_is_last(m: BinViewModel, item: Option<Seq<u8>>, next: BinViewModel)
    requires
        m.readable(),
        m.validity_matches(),
        match item {
            Some(bytes) => m.has_room(bytes.len()),
            None => true,
        },
        m.item_pushed(item, next),
    ensures
        next.elements().len() == m.elements().len() + 1,
        next.elements().last() == item,
        forall|i: int| 0 <= i < m.elements().len() ==> #[trigger] next.elements()[i] == m.elements()[i],
        next.values().last() == match item {
            Some(bytes) => bytes,
            None => Seq::empty(),
        },
{
    match item {
        Some(bytes) => lemmas::lemma_item_pushed(m, item, next),
        None => {
            lemmas::lemma_keeps_bytes_refl(m.buffers());
            lemmas::lemma_empty_view(next.buffers());
            lemmas::lemma_views_appended(m, next, ViewModel::empty(), 1);
            assert(next.values() =~= m.values().push(Seq::empty()));
            assert forall|i: int| 0 <= i < m.views.len() implies #[trigger] next.elements()[i]
                == m.elements()[i] by {
                assert(next.values()[i] == m.values()[i]);
            }
        },
    }
}

/// Appending nulls appends as many views without length or bits, and as many cleared bits to a bitmap
/// in which the elements that were there are as they were. It stores nothing.
pub proof fn law_appending_nulls(m: BinViewModel, n: nat)
    ensures
        m.extend_null(n).views.len() == m.views.len() + n,
        forall|i: int|
            0 <= i < m.views.len() ==> #[trigger] m.extend_null(n).views[i] == m.views[i],
        forall|i: int|
            m.views.len() <= i < m.views.len() + n ==> (#[trigger] m.extend_null(
                n,
            ).views[i]).length == 0,
        forall|i: int, j: int|
            m.views.len() <= i < m.views.len() + n && 0 <= j < 12 ==> #[trigger] m.extend_null(
                n,
            ).views[i].data[j] == 0,
        m.extend_null(n).completed == m.completed,
        m.extend_null(n).in_progress == m.in_progress,
        m.extend_null(n).total_bytes_len == m.total_bytes_len,
        m.extend_null(n).total_buffer_len == m.total_buffer_len,
        n == 0 ==> m.extend_null(n).validity == m.validity,
        n > 0 ==> (m.extend_null(n).validity matches Some(after) && match m.validity {
            Some(bits) => {
                &&& after.len() == bits.len() + n
                &&& forall|i: int| 0 <= i < after.len() ==> #[trigger] after[i] == (i < bits.len() && bits[i])
            },
            None => {
                &&& after.len() == m.views.len() + n
                &&& forall|i: int| 0 <= i < after.len() ==> #[trigger] after[i] == (i < m.views.len())
            },
        }),
        m.push_null() == m.extend_null(1),
        forall|next: BinViewModel| #[trigger] m.item_pushed(None, next) ==> next == m.extend_null(1),
{
}

/// Appending a constant some times appends, as often, the very view that pushing it appends, and
/// stores what pushing it stores. Only the bits and the bytes of the elements are counted as often.
pub proof fn law_appending_a_constant(s: GrowState, n: nat, item: Option<Seq<u8>>)
    ensures
        s.extend_constant(n, item).array.views.len() == s.array.views.len() + n,
        forall|i: int|
            0 <= i < s.array.views.len() ==> #[trigger] s.extend_constant(n, item).array.views[i]
                == s.array.views[i],
        forall|i: int|
            s.array.views.len() <= i < s.array.views.len() + n ==> #[trigger] s.extend_constant(
                n,
                item,
            ).array.views[i] == s.push(item).array.views.last(),
        s.extend_constant(n, item).array.completed == s.push(item).array.completed,
        s.extend_constant(n, item).array.in_progress == s.push(item).array.in_progress,
        s.extend_constant(n, item).array.total_buffer_len == s.push(item).array.total_buffer_len,
        s.extend_constant(n, item).room == s.push(item).room,
        s.extend_constant(n, item).array.total_bytes_len == s.array.total_bytes_len + match item {
            Some(bytes) => n * bytes.len(),
            None => 0,
        },
        s.array.validity is None && item is Some ==> s.extend_constant(n, item).array.validity is None,
        s.array.validity is None && item is None ==> (s.extend_constant(
            n,
            item,
        ).array.validity matches Some(after) && after.len() == s.array.views.len() + n && forall|
            i: int,
        |
            0 <= i < after.len() ==> #[trigger] after[i] == (i < s.array.views.len())),
        s.array.validity matches Some(bits) ==> (s.extend_constant(
            n,
            item,
        ).array.validity matches Some(after) && after.len() == bits.len() + n && forall|i: int|
            0 <= i < after.len() ==> #[trigger] after[i] == (if i < bits.len() {
                bits[i]
            } else {
                item is Some
            })),
{
}

/// However often a long constant is appended, each of its views has its length, its first four bytes,
/// and the place at the end of the growing buffer where its bytes are.
pub proof fn law_views_of_a_constant(m: BinViewModel, n: nat, bytes: Seq<u8>, next: BinViewModel)
    requires
        m.has_room(bytes.len()),
        m.constant_extended(n, Some(bytes), next),
    ensures
        next.views.len() == m.views.len() + n,
        bytes.len() <= 12 ==> forall|i: int, j: int|
            m.views.len() <= i < next.views.len() && 0 <= j < 12 ==> (
            #[trigger] next.views[i].data[j]) == (if j < bytes.len() {
                bytes[j]
            } else {
                0
            }),
        forall|i: int|
            m.views.len() <= i < next.views.len() ==> (#[trigger] next.views[i]).length == bytes.len(),
        bytes.len() > 12 ==> forall|i: int|
            m.views.len() <= i < next.views.len() ==> {
                &&& (#[trigger] next.views[i]).prefix() == view::le_value(bytes, 0)
                &&& next.views[i].buffer_idx() == next.completed.len()
                &&& next.views[i].offset() == next.in_progress.len() - bytes.len()
            },
        bytes.len() > 12 ==> {
            ||| next.completed == m.completed && next.in_progress == m.in_progress + bytes
            ||| m.in_progress.len() > 0 && next.completed == m.completed.push(m.in_progress)
                && next.in_progress == bytes
        },
        bytes.len() <= 12 ==> next.completed == m.completed && next.in_progress == m.in_progress,
{
    let new_block = next == m.extend_constant(n, Some(bytes), true);
    let marked = m.mark(n, true);
    let stored = marked.store(bytes, new_block);
    law_storing(marked, bytes, stored);
    assert forall|i: int| m.views.len() <= i < next.views.len() implies #[trigger] next.views[i]
        == stored.views.last() by {}
}

/// A new data buffer is started if and only if an element does not fit into the room of the growing
/// one, or its offset could not be written down.
pub proof fn law_new_block(pending: nat, len: nat, capacity: nat)
    ensures
        pending + len <= capacity && pending <= u32::MAX ==> !model::starts_new_block(
            pending,
            len,
            capacity,
        ),
        pending + len > capacity || pending > u32::MAX ==> model::starts_new_block(
            pending,
            len,
            capacity,
        ),
{
}

/// A long element that fits into the room of the growing buffer is appended to it, and the finished
/// buffers stay as they are. One that does not fit starts a buffer, whose room is chosen for it, after
/// the growing one has been finished. A short element touches none of this.
pub proof fn law_blocks(s: GrowState, bytes: Seq<u8>)
    ensures
        bytes.len() <= 12 ==> {
            &&& s.store(bytes).array.completed == s.array.completed
            &&& s.store(bytes).array.in_progress == s.array.in_progress
            &&& s.store(bytes).room == s.room
        },
        bytes.len() > 12 && s.array.in_progress.len() + bytes.len() <= s.room
            && s.array.in_progress.len() <= u32::MAX ==> {
            &&& s.store(bytes).array.completed == s.array.completed
            &&& s.store(bytes).array.in_progress == s.array.in_progress + bytes
            &&& s.store(bytes).room == s.room
        },
        bytes.len() > 12 && (s.array.in_progress.len() + bytes.len() > s.room
            || s.array.in_progress.len() > u32::MAX) ==> {
            &&& s.store(bytes).array.completed == (if s.array.in_progress.len() > 0 {
                s.array.completed.push(s.array.in_progress)
            } else {
                s.array.completed
            })
            &&& s.store(bytes).array.in_progress == bytes
            &&& s.store(bytes).room == mutable::spec_next_block_capacity(
                s.room as int,
                bytes.len() as int,
            )
            &&& s.store(bytes).room >= bytes.len()
            &&& s.store(bytes).room >= 8192
        },
        s.array.stored(bytes, s.store(bytes).array),
{
    assert(Seq::<u8>::empty() + bytes =~= bytes);
}

/// The room of a new data buffer is twice that of the one before, but at least 8 KiB, at most 16 MiB,
/// and never less than what is needed.
pub proof fn law_room_of_a_block(capacity: nat, needed: nat)
    ensures
        2 * capacity <= 8192 && needed <= 8192 ==> mutable::spec_next_block_capacity(
            capacity as int,
            needed as int,
        ) == 8192,
        8192 <= 2 * capacity <= 16_777_216 && needed <= 2 * capacity
            ==> mutable::spec_next_block_capacity(capacity as int, needed as int) == 2 * capacity,
        2 * capacity >= 16_777_216 && needed <= 16_777_216 ==> mutable::spec_next_block_capacity(
            capacity as int,
            needed as int,
        ) == 16_777_216,
        needed >= 8192 && (needed >= 2 * capacity || needed >= 16_777_216)
            ==> mutable::spec_next_block_capacity(capacity as int, needed as int) == needed,
{
}

/// Pushing onto an array with a growing buffer is pushing onto the array, where the room decides
/// whether a buffer is started. A null, and a short value, leave the room alone.
pub proof fn law_pushing_with_room(s: GrowState, item: Option<Seq<u8>>)
    ensures
        s.array.item_pushed(item, s.push(item).array),
        item is None ==> s.push(item).array == s.array.extend_null(1) && s.push(item).room == s.room,
        item matches Some(bytes) ==> {
            &&& s.push(item).array.completed == s.store(bytes).array.completed
            &&& s.push(item).array.in_progress == s.store(bytes).array.in_progress
            &&& s.push(item).array.views == s.store(bytes).array.views
            &&& s.push(item).room == s.store(bytes).room
        },
        s.flushed().array == s.array.flushed(),
        s.flushed().room == if s.array.in_progress.len() > 0 {
            0
        } else {
            s.room
        },
{
}

/// Pushing no items changes nothing, and pushing items is pushing the last one after the others.
pub proof fn law_pushing_one_by_one(
    s: GrowState,
    items: Seq<Option<Seq<u8>>>,
    item: Option<Seq<u8>>,
)
    ensures
        s.push_all(Seq::empty()) == s,
        s.push_all(items.push(item)) == s.push_all(items).push(item),
{
    assert(items.push(item).drop_last() =~= items);
}

/// Pushing some items and then some more is pushing them all, down to where each byte is stored.
pub proof fn law_pushing_piece_by_piece(
    s: GrowState,
    first: Seq<Option<Seq<u8>>>,
    second: Seq<Option<Seq<u8>>>,
)
    ensures
        s.push_all(first + second) == s.push_all(first).push_all(second),
    decreases second.len(),
{
    let all = first + second;
    if second.len() == 0 {
        assert(all =~= first);
    } else {
        law_pushing_piece_by_piece(s, first, second.drop_last());
        assert(all.drop_last() =~= first + second.drop_last());
        assert(all.last() == second.last());
    }
}

/// Pushing items one after the other, as the room decides, is one of the ways to push them.
pub proof fn law_pushing_all_is_pushing(s: GrowState, items: Seq<Option<Seq<u8>>>)
    ensures
        s.array.items_pushed(items, s.push_all(items).array),
        s.push_all(items).array.views.len() == s.array.views.len() + items.len(),
    decreases items.len(),
{
    if items.len() == 0 {
        lemmas::lemma_trace_empty(s.array);
        assert(items =~= Seq::empty());
    } else {
        let front = items.drop_last();
        let mid = s.push_all(front);
        law_pushing_all_is_pushing(s, front);
        law_pushing_with_room(mid, items.last());
        lemmas::lemma_trace_grows(
            s.array,
            front,
            mid.array,
            items.last(),
            s.push_all(items).array,
        );
        assert(front.push(items.last()) =~= items);
    }
    laws::law_pushed_items_are_accounted(s.array, items, s.push_all(items).array);
}

/// Items whose long ones all fit into the room of the growing buffer finish no buffer: what they store
/// follows, in one piece, what is in the growing one.
pub proof fn law_items_fill_the_block(s: GrowState, items: Seq<Option<Seq<u8>>>)
    requires
        s.array.in_progress.len() + model::long_items_len(items) <= s.room,
        s.array.in_progress.len() + model::long_items_len(items) <= u32::MAX,
    ensures
        s.push_all(items).array.completed == s.array.completed,
        s.push_all(items).room == s.room,
        s.push_all(items).array.in_progress.len() == s.array.in_progress.len()
            + model::long_items_len(items),
        s.array.in_progress.is_prefix_of(s.push_all(items).array.in_progress),
    decreases items.len(),
{
    if items.len() > 0 {
        let front = items.drop_last();
        let item = items.last();
        assert(front.push(item) =~= items);
        lemmas::lemma_items_len_push(front, item);
        law_items_fill_the_block(s, front);
        law_pushing_with_room(s.push_all(front), item);
        if let Some(bytes) = item {
            law_blocks(s.push_all(front), bytes);
        }
    }
}

/// An array comes of pushing items if and only if it comes of pushing the last one onto one that comes
/// of pushing the others.
pub proof fn law_pushes_in_a_row(
    m: BinViewModel,
    items: Seq<Option<Seq<u8>>>,
    item: Option<Seq<u8>>,
    next: BinViewModel,
)
    ensures
        m.items_pushed(items.push(item), next) <==> exists|mid: BinViewModel|
            m.items_pushed(items, mid) && #[trigger] mid.item_pushed(item, next),
{
    let all = items.push(item);
    if m.items_pushed(all, next) {
        let trace = choose|trace: Seq<BinViewModel>| #[trigger]
            model::is_trace(trace, all) && trace[0] == m && trace.last() == next;
        let shorter = trace.drop_last();
        let mid = shorter.last();
        assert forall|i: int| 0 <= i < items.len() implies shorter[i].item_pushed(
            #[trigger] items[i],
            shorter[i + 1],
        ) by {
            assert(all[i] == items[i]);
            assert(trace[i].item_pushed(all[i], trace[i + 1]));
        }
        assert(model::is_trace(shorter, items));
        let last = items.len() as int;
        assert(trace[last].item_pushed(all[last], trace[last + 1]));
        assert(mid.item_pushed(item, next));
    }
    if exists|mid: BinViewModel|
        m.items_pushed(items, mid) && #[trigger] mid.item_pushed(item, next) {
        let mid = choose|mid: BinViewModel|
            m.items_pushed(items, mid) && #[trigger] mid.item_pushed(item, next);
        lemmas::lemma_trace_grows(m, items, mid, item, next);
    }
}

/// After items have been pushed, each of them is an element, in order, after those that were there.
pub proof fn law_pushed_items_follow(m: BinViewModel, items: Seq<Option<Seq<u8>>>, next: BinViewModel)
    requires
        m.readable(),
        m.validity_matches(),
        m.has_room_for_all(items),
        m.items_pushed(items, next),
    ensures
        next.views.len() == m.views.len() + items.len(),
        forall|i: int|
            0 <= i < items.len() ==> next.elements()[m.views.len() + i] == #[trigger] items[i],
        forall|i: int| 0 <= i < m.views.len() ==> #[trigger] next.elements()[i] == m.elements()[i],
{
    laws::law_pushed_items_are_read_back(m, items, next);
    laws::law_pushed_items_are_accounted(m, items, next);
}

/// Pushing an optional value, whatever its length, appends one element: the bytes of the value if it
/// is there, and a null only if it is not.
pub proof fn law_push_keeps_the_value<T: ViewType + ?Sized>(
    m: BinViewModel,
    value: Option<&T>,
    next: BinViewModel,
)
    requires
        m.readable(),
        m.validity_matches(),
        m.has_room(model::item_len(mutable::item_of(value))),
        m.item_pushed(mutable::item_of(value), next),
    ensures
        next.views.len() == m.views.len() + 1,
        match value {
            Some(v) => {
                &&& next.elements()[m.views.len() as int] == Some(v.bytes())
                &&& next.values()[m.views.len() as int] == v.bytes()
                &&& m.validity is None ==> next.validity is None
                &&& next.total_bytes_len == m.total_bytes_len + v.bytes().len()
            },
            None => {
                &&& next.elements()[m.views.len() as int] is None
                &&& next.validity matches Some(bits) && !bits[m.views.len() as int]
                &&& next.total_bytes_len == m.total_bytes_len
            },
        },
{
    law_item_of_value(value);
    lemmas::lemma_item_pushed(m, mutable::item_of(value), next);
}

/// Appending an optional value many times appends as many elements: the bytes of the value if it is
/// there, whatever its length, and nulls only if it is not.
pub proof fn law_constant_keeps_the_value<T: ViewType + ?Sized>(
    m: BinViewModel,
    n: nat,
    value: Option<&T>,
    next: BinViewModel,
)
    requires
        m.readable(),
        m.validity_matches(),
        m.has_room(model::item_len(mutable::item_of(value))),
        m.constant_extended(n, mutable::item_of(value), next),
    ensures
        next.views.len() == m.views.len() + n,
        forall|i: int|
            m.views.len() <= i < next.views.len() ==> #[trigger] next.elements()[i] == match value {
                Some(v) => Some(v.bytes()),
                None => None,
            },
        value is Some && m.validity is None ==> next.validity is None,
        next.total_bytes_len == m.total_bytes_len + match value {
            Some(v) => n * v.bytes().len(),
            None => 0,
        },
{
    law_item_of_value(value);
    lemmas::lemma_constant_extended(m, n, mutable::item_of(value), next);
}

/// Extending by optional values appends one element for each of them, in order and whatever their
/// number: the bytes of a value that is there, and a null for one that is not.
pub proof fn law_extend_keeps_every_value<T: ViewType + ?Sized>(
    m: BinViewModel,
    values: Seq<Option<&T>>,
    next: BinViewModel,
)
    requires
        m.readable(),
        m.validity_matches(),
        m.has_room_for_all(mutable::items_of(values)),
        m.items_pushed(mutable::items_of(values), next),
    ensures
        next.views.len() == m.views.len() + values.len(),
        forall|i: int|
            0 <= i < values.len() ==> next.elements()[m.views.len() + i] == match #[trigger] values[i] {
                Some(v) => Some(v.bytes()),
                None => None,
            },
        forall|i: int| 0 <= i < m.views.len() ==> #[trigger] next.elements()[i] == m.elements()[i],
{
    let items = mutable::items_of(values);
    law_items_of_values_or_nulls(values);
    law_pushed_items_follow(m, items, next);
    assert forall|i: int| 0 <= i < values.len() implies next.elements()[m.views.len() + i]
        == match #[trigger] values[i] {
        Some(v) => Some(v.bytes()),
        None => None,
    } by {
        assert(next.elements()[m.views.len() + i] == items[i]);
    }
}

/// Extending by values appends the bytes of each of them, in order and whatever their number and
/// length, and makes no null and no bitmap.
pub proof fn law_extend_values_keeps_every_value<T: ViewType + ?Sized>(
    m: BinViewModel,
    values: Seq<&T>,
    next: BinViewModel,
)
    requires
        m.readable(),
        m.validity_matches(),
        m.has_room_for_all(mutable::items_of_values(values)),
        m.items_pushed(mutable::items_of_values(values), next),
    ensures
        next.views.len() == m.views.len() + values.len(),
        forall|i: int|
            0 <= i < values.len() ==> next.elements()[m.views.len() + i] == Some(
                (#[trigger] values[i]).bytes(),
            ),
        forall|i: int| 0 <= i < m.views.len() ==> #[trigger] next.elements()[i] == m.elements()[i],
        m.validity is None ==> next.validity is None,
{
    let items = mutable::items_of_values(values);
    law_items_of_values(values);
    law_pushed_items_follow(m, items, next);
    law_bitmap_after_items(m, items, next);
    assert forall|i: int| 0 <= i < values.len() implies next.elements()[m.views.len() + i] == Some(
        (#[trigger] values[i]).bytes(),
    ) by {
        assert(next.elements()[m.views.len() + i] == items[i]);
    }
}

/// After items have been pushed there is a bitmap if and only if there was one or an item is null, and
/// its bits are those that were there, or set ones, followed by one for each item.
pub proof fn law_bitmap_after_items(m: BinViewModel, items: Seq<Option<Seq<u8>>>, next: BinViewModel)
    requires
        m.items_pushed(items, next),
    ensures
        m.validity is None && (forall|i: int| 0 <= i < items.len() ==> (#[trigger] items[i]) is Some)
            ==> next.validity is None,
        m.validity is None && !(forall|i: int|
            0 <= i < items.len() ==> (#[trigger] items[i]) is Some) ==> (
        next.validity matches Some(after) && after.len() == m.views.len() + items.len() && forall|
            i: int,
        |
            0 <= i < after.len() ==> #[trigger] after[i] == (i < m.views.len() || items[i
                - m.views.len()] is Some)),
        m.validity matches Some(bits) ==> (next.validity matches Some(after) && after.len()
            == bits.len() + items.len() && forall|i: int|
            0 <= i < after.len() ==> #[trigger] after[i] == (if i < bits.len() {
                bits[i]
            } else {
                items[i - bits.len()] is Some
            })),
        next.total_bytes_len == m.total_bytes_len + model::items_len(items),
        next.total_buffer_len == m.total_buffer_len + model::long_items_len(items),
{
    laws::law_pushed_items_are_accounted(m, items, next);
    law_items_terms(items);
}

/// Where a byte of the buffers to be validated is no ASCII character, elements pass the check if and
/// only if each of them is valid UTF-8.
pub proof fn law_utf8_check_of_each(
    m: BinViewModel,
    buffer_offset: int,
    views_offset: int,
    k: int,
    j: int,
)
    requires
        forall|i: int|
            views_offset <= i < m.views.len() ==> #[trigger] m.views[i].fits_in(m.buffers()),
        0 <= buffer_offset <= k < m.flushed().completed.len(),
        0 <= views_offset <= m.views.len(),
        0 <= j < m.flushed().completed[k].len(),
        m.flushed().completed[k][j] >= 0x80,
    ensures
        m.passes_utf8(buffer_offset, views_offset) <==> forall|i: int|
            views_offset <= i < m.views.len() ==> vstd::utf8::valid_utf8(#[trigger] m.values()[i]),
{
    let buffers = m.flushed().completed;
    let checked = buffers.skip(buffer_offset);
    assert(checked[k - buffer_offset][j] >= 0x80);
    assert(!model::all_ascii(checked));
    lemma_values_after_finishing(m, views_offset);
    if m.passes_utf8(buffer_offset, views_offset) {
        assert forall|i: int| views_offset <= i < m.views.len() implies vstd::utf8::valid_utf8(
            #[trigger] m.values()[i],
        ) by {
            assert(m.values()[i] == m.views[i].bytes_in(buffers));
        }
    }
    if forall|i: int|
        views_offset <= i < m.views.len() ==> vstd::utf8::valid_utf8(#[trigger] m.values()[i]) {
        assert forall|i: int| views_offset <= i < m.views.len() implies vstd::utf8::valid_utf8(
            #[trigger] m.views[i].bytes_in(buffers),
        ) by {
            assert(m.values()[i] == m.views[i].bytes_in(buffers));
        }
    }
}

/// Where all the bytes of the buffers to be validated are ASCII characters, elements pass the check if
/// and only if each of them that is stored in its view is valid UTF-8.
pub proof fn law_utf8_check_of_short_ones(m: BinViewModel, buffer_offset: int, views_offset: int)
    requires
        forall|i: int|
            views_offset <= i < m.views.len() ==> #[trigger] m.views[i].fits_in(m.buffers()),
        0 <= buffer_offset <= m.flushed().completed.len(),
        0 <= views_offset <= m.views.len(),
        forall|k: int, j: int|
            buffer_offset <= k < m.flushed().completed.len() && 0 <= j < m.flushed().completed[k].len()
                ==> #[trigger] m.flushed().completed[k][j] < 0x80,
    ensures
        m.passes_utf8(buffer_offset, views_offset) <==> forall|i: int|
            views_offset <= i < m.views.len() && m.views[i].length <= 12 ==> vstd::utf8::valid_utf8(
                #[trigger] m.values()[i],
            ),
{
    let buffers = m.flushed().completed;
    let checked = buffers.skip(buffer_offset);
    assert forall|i: int, j: int|
        0 <= i < checked.len() && 0 <= j < checked[i].len() implies #[trigger] checked[i][j] < 0x80 by {
        assert(buffers[i + buffer_offset][j] < 0x80);
    }
    lemma_values_after_finishing(m, views_offset);
    if m.passes_utf8(buffer_offset, views_offset) {
        assert forall|i: int|
            views_offset <= i < m.views.len() && m.views[i].length <= 12 implies vstd::utf8::valid_utf8(
            #[trigger] m.values()[i],
        ) by {
            assert(m.values()[i] == m.views[i].bytes_in(buffers));
        }
    }
    if forall|i: int|
        views_offset <= i < m.views.len() && m.views[i].length <= 12 ==> vstd::utf8::valid_utf8(
            #[trigger] m.values()[i],
        ) {
        assert forall|i: int|
            views_offset <= i < m.views.len() && m.views[i].is_inlined() implies vstd::utf8::valid_utf8(
            #[trigger] m.views[i].bytes_in(buffers),
        ) by {
            assert(m.values()[i] == m.views[i].bytes_in(buffers));
        }
    }
}

/// The values can be found in the finished buffers once the growing one is among them.
proof fn lemma_values_after_finishing(m: BinViewModel, views_offset: int)
    requires
        0 <= views_offset,
        forall|i: int|
            views_offset <= i < m.views.len() ==> #[trigger] m.views[i].fits_in(m.buffers()),
    ensures
        forall|i: int|
            views_offset <= i < m.views.len() ==> #[trigger] m.values()[i] == m.views[i].bytes_in(
                m.flushed().completed,
            ),
{
    lemmas::lemma_flush_keeps_bytes(m);
    assert forall|i: int| views_offset <= i < m.views.len() implies #[trigger] m.values()[i]
        == m.views[i].bytes_in(m.flushed().completed) by {
        assert(m.views[i].fits_in(m.buffers()));
        lemmas::lemma_view_kept(m.views[i], m.buffers(), m.flushed().completed);
    }
}

/// A long element passes without being looked at if and only if its buffers are known to be ASCII;
/// every other element passes if and only if it is valid UTF-8.
pub proof fn law_passing_elements(v: ViewModel, buffers: Seq<Seq<u8>>)
    ensures
        v.length > 12 ==> utf8::passes(v, buffers, true),
        utf8::passes(v, buffers, false) <==> vstd::utf8::valid_utf8(v.bytes_in(buffers)),
        v.length <= 12 ==> (utf8::passes(v, buffers, true) <==> vstd::utf8::valid_utf8(
            v.bytes_in(buffers),
        )),
        model::all_ascii(buffers) <==> forall|k: int, j: int|
            0 <= k < buffers.len() && 0 <= j < buffers[k].len() ==> #[trigger] buffers[k][j] < 0x80,
{
}

} // verus!
