//! What holds of the array as a whole.
use crate::lemmas;
use crate::model;
use crate::model::BinViewModel;
use crate::mutable;
use crate::view;
use crate::view::{ViewModel, MAX_INLINE_SIZE};
use vstd::prelude::*;

verus! {

/// What holds at each step of a trace.
proof fn lemma_along_trace(items: Seq<Option<Seq<u8>>>, trace: Seq<BinViewModel>, k: int)
    requires
        model::is_trace(trace, items),
        0 <= k <= items.len(),
    ensures
        model::keeps_bytes(trace[0].buffers(), trace[k].buffers()),
        trace[0].completed.is_prefix_of(trace[k].completed),
        trace[0].counts_buffers() ==> trace[k].counts_buffers(),
        trace[0].counts_elements() ==> trace[k].counts_elements(),
    decreases k,
{
    if k == 0 {
        lemmas::lemma_keeps_bytes_refl(trace[0].buffers());
    } else {
        lemma_along_trace(items, trace, k - 1);
        let before = trace[k - 1];
        let after = trace[k];
        let item = items[k - 1];
        assert(before.item_pushed(item, after));
        law_pushing_moves_no_bytes(before, item, after);
        law_pushing_keeps_totals(before, item, after);
        lemmas::lemma_keeps_bytes_trans(trace[0].buffers(), before.buffers(), after.buffers());
    }
}

/// The account is right at each step of a trace.
proof fn lemma_account_along_trace(items: Seq<Option<Seq<u8>>>, trace: Seq<BinViewModel>, k: int)
    requires
        model::is_trace(trace, items),
        0 <= k <= items.len(),
    ensures
        trace[0].items_accounted(items.take(k), trace[k]),
    decreases k,
{
    if k == 0 {
        let none = items.take(0);
        if trace[0].validity is Some {
            assert(trace[0].validity->0 + model::items_validity(none) =~= trace[0].validity->0);
        }
    } else {
        lemma_account_along_trace(items, trace, k - 1);
        assert(trace[k - 1].item_pushed(items[k - 1], trace[k]));
        lemmas::lemma_account_grows(
            trace[0],
            items.take(k - 1),
            trace[k - 1],
            items[k - 1],
            trace[k],
        );
        assert(items.take(k - 1).push(items[k - 1]) =~= items.take(k));
    }
}

/// What holds at each step of a trace that starts from an array whose elements can be read.
proof fn lemma_values_along_trace(items: Seq<Option<Seq<u8>>>, trace: Seq<BinViewModel>, k: int)
    requires
        model::is_trace(trace, items),
        0 <= k <= items.len(),
        trace[0].readable(),
        trace[0].has_room_for_all(items),
    ensures
        trace[k].readable(),
        trace[k].has_room_for_all(items.skip(k)),
        trace[k].values() == trace[0].values() + model::items_bytes(items.take(k)),
        trace[0].validity_matches() ==> trace[k].validity_matches() && trace[k].elements()
            == trace[0].elements() + items.take(k),
    decreases k,
{
    if k == 0 {
        assert(items.skip(0) =~= items);
        assert(trace[0].values() + model::items_bytes(items.take(0)) =~= trace[0].values());
        assert(trace[0].elements() + items.take(0) =~= trace[0].elements());
    } else {
        lemma_values_along_trace(items, trace, k - 1);
        let before = trace[k - 1];
        let after = trace[k];
        let rest = items.skip(k - 1);
        assert(before.item_pushed(items[k - 1], after));
        assert(rest[0] == items[k - 1]);
        lemmas::lemma_room_for_first(before, rest);
        lemmas::lemma_room_after_push(before, rest, after);
        lemmas::lemma_item_pushed(before, rest[0], after);
        assert(rest.drop_first() =~= items.skip(k));
        assert((trace[0].values() + model::items_bytes(items.take(k - 1))).push(
            model::item_bytes(rest[0]),
        ) =~= trace[0].values() + model::items_bytes(items.take(k)));
        assert((trace[0].elements() + items.take(k - 1)).push(rest[0]) =~= trace[0].elements()
            + items.take(k));
    }
}

/// What has been pushed is read back: the items follow the elements that were there before, in
/// order, and nulls stay nulls. It does not matter which items started a new data buffer.
pub proof fn law_pushed_items_are_read_back(
    m: BinViewModel,
    items: Seq<Option<Seq<u8>>>,
    next: BinViewModel,
)
    requires
        m.readable(),
        m.has_room_for_all(items),
        m.items_pushed(items, next),
    ensures
        next.readable(),
        next.values() == m.values() + model::items_bytes(items),
        m.validity_matches() ==> next.validity_matches() && next.elements() == m.elements() + items,
{
    let trace = choose|trace: Seq<BinViewModel>| #[trigger]
        model::is_trace(trace, items) && trace[0] == m && trace.last() == next;
    lemma_values_along_trace(items, trace, items.len() as int);
    assert(items.take(items.len() as int) =~= items);
}

/// Pushing items adds one element and, where there is a bitmap, one bit for each; it makes a bitmap
/// if and only if one of them is null; and it adds their lengths to the totals, those of the long
/// ones to the total of the buffers.
pub proof fn law_pushed_items_are_accounted(
    m: BinViewModel,
    items: Seq<Option<Seq<u8>>>,
    next: BinViewModel,
)
    requires
        m.items_pushed(items, next),
    ensures
        m.items_accounted(items, next),
{
    let trace = choose|trace: Seq<BinViewModel>| #[trigger]
        model::is_trace(trace, items) && trace[0] == m && trace.last() == next;
    lemma_account_along_trace(items, trace, items.len() as int);
    assert(items.take(items.len() as int) =~= items);
}

/// Pushing the same items twice over, in whichever way, gives arrays that say the same, with the
/// same number of bytes in their buffers.
pub proof fn law_same_items_same_array(
    m: BinViewModel,
    items: Seq<Option<Seq<u8>>>,
    a: BinViewModel,
    b: BinViewModel,
)
    requires
        m.readable(),
        m.has_room_for_all(items),
        m.items_pushed(items, a),
        m.items_pushed(items, b),
    ensures
        a.says_the_same(b),
        a.total_buffer_len == b.total_buffer_len,
{
    law_pushed_items_are_read_back(m, items, a);
    law_pushed_items_are_read_back(m, items, b);
    law_pushed_items_are_accounted(m, items, a);
    law_pushed_items_are_accounted(m, items, b);
    assert(a.elements() =~= b.elements());
}

/// Pushing no items changes nothing.
pub proof fn law_pushing_nothing(m: BinViewModel, next: BinViewModel)
    requires
        m.items_pushed(Seq::empty(), next),
    ensures
        next == m,
{
}

/// Pushing some items and then some more gives an array that says the same as the one that comes of
/// pushing them all at once, with the same number of bytes in its buffers.
pub proof fn law_two_goes_or_one(
    m: BinViewModel,
    first: Seq<Option<Seq<u8>>>,
    mid: BinViewModel,
    second: Seq<Option<Seq<u8>>>,
    twice: BinViewModel,
    once: BinViewModel,
)
    requires
        m.readable(),
        m.has_room_for_all(first + second),
        m.items_pushed(first, mid),
        mid.items_pushed(second, twice),
        m.items_pushed(first + second, once),
    ensures
        twice.says_the_same(once),
        twice.total_buffer_len == once.total_buffer_len,
{
    law_pushing_in_two_goes(m, first, mid, second, twice);
    law_same_items_same_array(m, first + second, twice, once);
}

/// The array of some items has these for its elements, and has a bitmap if and only if one of them is
/// null; the bitmap then says which are not.
pub proof fn law_array_of_items(items: Seq<Option<Seq<u8>>>, array: BinViewModel)
    requires
        BinViewModel::empty().has_room_for_all(items),
        BinViewModel::empty().items_pushed(items, array),
    ensures
        array.readable(),
        array.elements() == items,
        array.values() == model::items_bytes(items),
        array.validity is Some <==> model::has_null(items),
        array.validity matches Some(bits) ==> bits == model::items_validity(items),
        array.total_bytes_len == model::items_len(items),
        array.total_buffer_len == model::long_items_len(items),
{
    let empty = BinViewModel::empty();
    law_pushed_items_are_read_back(empty, items, array);
    law_pushed_items_are_accounted(empty, items, array);
    assert(empty.elements() + items =~= items);
    assert(empty.values() + model::items_bytes(items) =~= model::items_bytes(items));
    assert(empty.with_bitmap().validity->0 + model::items_validity(items)
        =~= model::items_validity(items));
}

/// Appending a constant some times gives an array that says the same as the one that comes of pushing
/// it as often.
pub proof fn law_constant_is_pushes(
    m: BinViewModel,
    n: nat,
    item: Option<Seq<u8>>,
    at_once: BinViewModel,
    one_by_one: BinViewModel,
)
    requires
        n > 0,
        m.readable(),
        m.has_room_for_all(Seq::new(n, |i: int| item)),
        m.constant_extended(n, item, at_once),
        m.items_pushed(Seq::new(n, |i: int| item), one_by_one),
    ensures
        at_once.says_the_same(one_by_one),
{
    let items = Seq::new(n, |i: int| item);
    assert(items[0] == item);
    lemmas::lemma_room_for_first(m, items);
    lemmas::lemma_constant_extended(m, n, item, at_once);
    lemmas::lemma_items_len_repeat(item, n);
    law_pushed_items_are_read_back(m, items, one_by_one);
    law_pushed_items_are_accounted(m, items, one_by_one);
    assert(at_once.values() =~= one_by_one.values());
    assert(model::has_null(items) == (item is None));
    assert(model::items_validity(items) =~= Seq::new(n, |i: int| item is Some));
    if one_by_one.validity is Some {
        assert(at_once.validity->0 =~= one_by_one.validity->0);
    }
    assert(at_once.elements() =~= one_by_one.elements());
}

/// Finishing the growing buffer twice is finishing it once.
pub proof fn law_finishing_twice_is_once(m: BinViewModel)
    ensures
        m.flushed().flushed() == m.flushed(),
{
}

/// Pushing some items and then some more is pushing them all.
pub proof fn law_pushing_in_two_goes(
    m: BinViewModel,
    first: Seq<Option<Seq<u8>>>,
    mid: BinViewModel,
    second: Seq<Option<Seq<u8>>>,
    next: BinViewModel,
)
    requires
        m.items_pushed(first, mid),
        mid.items_pushed(second, next),
    ensures
        m.items_pushed(first + second, next),
{
    let a = choose|trace: Seq<BinViewModel>| #[trigger]
        model::is_trace(trace, first) && trace[0] == m && trace.last() == mid;
    let b = choose|trace: Seq<BinViewModel>| #[trigger]
        model::is_trace(trace, second) && trace[0] == mid && trace.last() == next;
    let trace = a + b.drop_first();
    let items = first + second;
    assert forall|i: int| 0 <= i < items.len() implies trace[i].item_pushed(
        #[trigger] items[i],
        trace[i + 1],
    ) by {
        if i < first.len() {
            assert(items[i] == first[i]);
            assert(a[i].item_pushed(first[i], a[i + 1]));
        } else {
            let j = i - first.len();
            assert(items[i] == second[j]);
            assert(b[j].item_pushed(second[j], b[j + 1]));
            assert(trace[i] == b[j]);
        }
    }
    assert(model::is_trace(trace, items));
}

/// Bytes that are stored never move: what a view could find before a push, it finds after it, and
/// finished buffers stay as they are.
pub proof fn law_pushing_moves_no_bytes(
    m: BinViewModel,
    item: Option<Seq<u8>>,
    next: BinViewModel,
)
    requires
        m.item_pushed(item, next),
    ensures
        model::keeps_bytes(m.buffers(), next.buffers()),
        m.completed.is_prefix_of(next.completed),
{
    lemmas::lemma_keeps_bytes_refl(m.buffers());
    if let Some(bytes) = item {
        let new_block = next == m.push_item(item, true);
        let base = if new_block {
            m.flushed()
        } else {
            m
        };
        if model::is_long(bytes.len()) {
            lemmas::lemma_flush_keeps_bytes(m);
            lemmas::lemma_append_keeps_bytes(base, bytes);
            lemmas::lemma_keeps_bytes_trans(m.buffers(), base.buffers(), next.buffers());
        }
    }
}

/// Pushing an item keeps both totals right: that of the elements' bytes and that of the bytes in
/// the data buffers.
pub proof fn law_pushing_keeps_totals(m: BinViewModel, item: Option<Seq<u8>>, next: BinViewModel)
    requires
        m.item_pushed(item, next),
    ensures
        m.counts_buffers() ==> next.counts_buffers(),
        m.counts_elements() ==> next.counts_elements(),
{
    match item {
        Some(bytes) => {
            let new_block = next == m.push_item(item, true);
            lemmas::lemma_store_counts(m.mark(1, true), bytes, new_block);
        },
        None => {
            lemmas::lemma_views_len_repeat(m.views, ViewModel::empty(), 1);
        },
    }
}

/// Pushing any number of items moves no bytes and keeps the totals right.
pub proof fn law_pushing_many_keeps_bytes_and_totals(
    m: BinViewModel,
    items: Seq<Option<Seq<u8>>>,
    next: BinViewModel,
)
    requires
        m.items_pushed(items, next),
    ensures
        model::keeps_bytes(m.buffers(), next.buffers()),
        m.completed.is_prefix_of(next.completed),
        m.counts_buffers() ==> next.counts_buffers(),
        m.counts_elements() ==> next.counts_elements(),
{
    let trace = choose|trace: Seq<BinViewModel>| #[trigger]
        model::is_trace(trace, items) && trace[0] == m && trace.last() == next;
    lemma_along_trace(items, trace, items.len() as int);
}

/// Storing an element without marking it in the bitmap moves no bytes and keeps the totals right,
/// and the element is the last value.
pub proof fn law_stored_value_is_read_back(m: BinViewModel, bytes: Seq<u8>, next: BinViewModel)
    requires
        m.has_room(bytes.len()),
        m.stored(bytes, next),
    ensures
        model::keeps_bytes(m.buffers(), next.buffers()),
        m.counts_buffers() ==> next.counts_buffers(),
        m.counts_elements() ==> next.counts_elements(),
        m.readable() ==> next.readable() && next.values() == m.values().push(bytes),
{
    let new_block = next == m.store(bytes, true);
    lemmas::lemma_store(m, bytes, new_block);
    lemmas::lemma_store_counts(m, bytes, new_block);
    if m.readable() {
        lemmas::lemma_stored(m, bytes, next);
    }
}

/// A short element or a null takes no room in the data buffers.
pub proof fn law_short_items_use_no_buffer(
    m: BinViewModel,
    item: Option<Seq<u8>>,
    next: BinViewModel,
)
    requires
        m.item_pushed(item, next),
        model::item_len(item) <= MAX_INLINE_SIZE,
    ensures
        next.completed == m.completed,
        next.in_progress == m.in_progress,
        next.total_buffer_len == m.total_buffer_len,
{
}

/// A long element is stored in one piece at the end of the data buffers, and its view starts with
/// its first four bytes.
pub proof fn law_long_items_end_the_buffers(
    m: BinViewModel,
    bytes: Seq<u8>,
    next: BinViewModel,
)
    requires
        m.has_room(bytes.len()),
        m.item_pushed(Some(bytes), next),
        bytes.len() > MAX_INLINE_SIZE,
    ensures
        next.in_progress.len() >= bytes.len(),
        next.in_progress.skip(next.in_progress.len() - bytes.len()) == bytes,
        next.views.last().buffer_idx() == next.completed.len(),
        next.views.last().offset() == next.in_progress.len() - bytes.len(),
        next.views.last().prefix() == view::le_value(bytes, 0),
{
    let new_block = next == m.push_item(Some(bytes), true);
    let base = if new_block {
        m.flushed()
    } else {
        m
    };
    view::lemma_reference_fields(
        bytes,
        base.completed.len() as int,
        base.in_progress.len() as int,
    );
    assert(next.in_progress.skip(next.in_progress.len() - bytes.len()) =~= bytes);
}

/// Appending several nulls at once is appending one null after the other.
pub proof fn law_nulls_one_by_one(m: BinViewModel, n: nat)
    ensures
        m.extend_null(0) == m,
        m.extend_null(n + 1) == m.extend_null(n).push_null(),
{
    let all = m.extend_null(n + 1);
    let step = m.extend_null(n).push_null();
    assert(all.views =~= step.views);
    assert(all.validity->0 =~= step.validity->0);
    assert(all =~= step);
}

/// Appending several nulls keeps the totals and the data buffers.
pub proof fn law_nulls_keep_totals(m: BinViewModel, n: nat)
    ensures
        m.extend_null(n).buffers() == m.buffers(),
        m.counts_buffers() ==> m.extend_null(n).counts_buffers(),
        m.counts_elements() ==> m.extend_null(n).counts_elements(),
{
    lemmas::lemma_views_len_repeat(m.views, ViewModel::empty(), n);
}

/// Appending the null constant is appending nulls. Only where none are appended to an array without
/// a bitmap is there a difference: the constant makes a bitmap all the same.
pub proof fn law_null_constant_is_nulls(m: BinViewModel, n: nat, new_block: bool)
    requires
        n > 0 || m.validity is Some,
    ensures
        m.extend_constant(n, None, new_block) == m.extend_null(n),
{
    if n == 0 {
        let next = m.extend_constant(n, None, new_block);
        assert(next.views =~= m.views);
        assert(next.validity->0 =~= m.validity->0);
        assert(next =~= m);
    }
}

/// Appending a constant once is pushing it.
pub proof fn law_constant_once_is_push(m: BinViewModel, item: Option<Seq<u8>>, new_block: bool)
    ensures
        m.extend_constant(1, item, new_block) == m.push_item(item, new_block),
{
    let next = m.extend_constant(1, item, new_block);
    let pushed = m.push_item(item, new_block);
    assert(next.views =~= pushed.views);
    assert(1 * model::item_len(item) == model::item_len(item));
    assert(next =~= pushed);
}

/// A constant is read back as often as it was appended, but its bytes are stored once: the data
/// buffers grow by its length if it is long, and otherwise not at all, and all the new elements
/// have the same view.
pub proof fn law_constant_is_stored_once(
    m: BinViewModel,
    n: nat,
    item: Option<Seq<u8>>,
    next: BinViewModel,
)
    requires
        m.has_room(model::item_len(item)),
        m.constant_extended(n, item, next),
    ensures
        model::keeps_bytes(m.buffers(), next.buffers()),
        m.readable() && m.validity_matches() ==> next.readable() && next.validity_matches()
            && next.elements() == m.elements() + Seq::new(n, |i: int| item),
        m.counts_buffers() ==> next.counts_buffers(),
        m.counts_elements() ==> next.counts_elements(),
        next.total_buffer_len == m.total_buffer_len + if model::is_long(model::item_len(item)) {
            model::item_len(item)
        } else {
            0
        },
        next.views.len() == m.views.len() + n,
        forall|i: int, j: int|
            m.views.len() <= i < next.views.len() && m.views.len() <= j < next.views.len()
                ==> next.views[i] == next.views[j],
{
    lemmas::lemma_constant_extended(m, n, item, next);
    match item {
        Some(bytes) => {
            let new_block = next == m.extend_constant(n, item, true);
            lemmas::lemma_store(m.mark(n, true), bytes, new_block);
        },
        None => lemmas::lemma_keeps_bytes_refl(m.buffers()),
    }
}

/// A buffer that was added is found under the index that was returned, and the elements stay as they
/// are.
pub proof fn law_pushed_buffer_is_found(m: BinViewModel, buffer: Seq<u8>)
    ensures
        m.push_buffer(buffer).buffers()[m.flushed().completed.len() as int] == buffer,
        model::keeps_bytes(m.buffers(), m.push_buffer(buffer).buffers()),
        m.readable() ==> m.push_buffer(buffer).readable() && m.push_buffer(buffer).elements()
            == m.elements(),
        m.counts_buffers() ==> m.push_buffer(buffer).counts_buffers(),
        m.counts_elements() ==> m.push_buffer(buffer).counts_elements(),
{
    let next = m.push_buffer(buffer);
    let base = m.flushed();
    lemmas::lemma_push_buffer(m, buffer);
    lemmas::lemma_flush_keeps_bytes(m);
    lemmas::lemma_keeps_bytes_refl(base.completed);
    lemmas::lemma_keeps_bytes_trans(m.buffers(), base.completed, next.buffers());
    if m.readable() {
        assert(next.elements() =~= m.elements());
    }
}

/// A finished array has the same elements, totals and bitmap as the growing one.
pub proof fn law_freezing_keeps_elements(m: BinViewModel)
    requires
        m.readable(),
    ensures
        m.flushed().readable(),
        m.flushed().elements() == m.elements(),
        m.flushed().validity == m.validity,
        m.counts_buffers() ==> m.flushed().counts_buffers(),
        m.counts_elements() ==> m.flushed().counts_elements(),
        m.flushed().in_progress.len() == 0,
{
    lemmas::lemma_flushed_values(m);
    lemmas::lemma_flush_counts(m);
    assert(m.flushed().elements() =~= m.elements());
}

/// ASCII characters are valid UTF-8.
proof fn lemma_ascii_is_utf8(bytes: Seq<u8>)
    requires
        forall|j: int| 0 <= j < bytes.len() ==> #[trigger] bytes[j] < 0x80,
    ensures
        vstd::utf8::valid_utf8(bytes),
{
    assert forall|i: int| 0 <= i < bytes.len() implies #[trigger]
        vstd::utf8::is_leading_byte_width_1(bytes[i]) by {
        assert(bytes[i] < 0x80);
    }
    assert(bytes.subrange(0, 0) =~= Seq::empty());
    vstd::utf8::partial_valid_utf8_extend_ascii_block(bytes, 0, bytes.len() as int);
    assert(bytes.subrange(0, bytes.len() as int) =~= bytes);
}

/// The elements from `views_offset` on pass the UTF-8 check if and only if each of them is valid
/// UTF-8, provided that those that are stored in a data buffer are in one from `buffer_offset` on.
pub proof fn law_utf8_check_is_exact(m: BinViewModel, buffer_offset: int, views_offset: int)
    requires
        m.readable(),
        0 <= buffer_offset <= m.flushed().completed.len(),
        0 <= views_offset <= m.views.len(),
        forall|i: int|
            views_offset <= i < m.views.len() && !(#[trigger] m.views[i]).is_inlined()
                ==> buffer_offset <= m.views[i].buffer_idx(),
    ensures
        m.passes_utf8(buffer_offset, views_offset) <==> forall|i: int|
            views_offset <= i < m.views.len() ==> vstd::utf8::valid_utf8(#[trigger] m.values()[i]),
{
    let buffers = m.flushed().completed;
    let checked = buffers.skip(buffer_offset);
    lemmas::lemma_flush_keeps_bytes(m);
    assert forall|i: int| 0 <= i < m.views.len() implies m.values()[i] == (
    #[trigger] m.views[i]).bytes_in(buffers) && m.views[i].fits_in(buffers) by {
        assert(m.views[i].fits_in(m.buffers()));
        lemmas::lemma_view_kept(m.views[i], m.buffers(), buffers);
    }
    if m.passes_utf8(buffer_offset, views_offset) {
        assert forall|i: int| views_offset <= i < m.views.len() implies vstd::utf8::valid_utf8(
            #[trigger] m.values()[i],
        ) by {
            let view = m.views[i];
            let bytes = view.bytes_in(buffers);
            assert(m.values()[i] == bytes);
            if !view.is_inlined() && model::all_ascii(checked) {
                let k = view.buffer_idx();
                assert(buffers[k] == checked[k - buffer_offset]);
                assert forall|j: int| 0 <= j < bytes.len() implies #[trigger] bytes[j] < 0x80 by {
                    assert(checked[k - buffer_offset][view.offset() + j] < 0x80);
                }
                lemma_ascii_is_utf8(bytes);
            }
        }
    }
    if forall|i: int|
        views_offset <= i < m.views.len() ==> vstd::utf8::valid_utf8(#[trigger] m.values()[i]) {
        assert forall|i: int|
            views_offset <= i < m.views.len() && (m.views[i].is_inlined() || !model::all_ascii(
                checked,
            )) implies vstd::utf8::valid_utf8(#[trigger] m.views[i].bytes_in(buffers)) by {
            assert(m.values()[i] == m.views[i].bytes_in(buffers));
        }
    }
}

/// A new data buffer has room for the element that it is made for, is never smaller than the
/// default, and is larger than the maximum only for an element that needs it.
pub proof fn law_block_capacity_bounds(capacity: nat, needed: nat)
    ensures
        mutable::spec_next_block_capacity(capacity as int, needed as int) >= needed,
        mutable::spec_next_block_capacity(capacity as int, needed as int)
            >= mutable::DEFAULT_BLOCK_SIZE,
        needed <= mutable::MAX_EXP_BLOCK_SIZE ==> mutable::spec_next_block_capacity(
            capacity as int,
            needed as int,
        ) <= mutable::MAX_EXP_BLOCK_SIZE,
        needed > mutable::MAX_EXP_BLOCK_SIZE ==> mutable::spec_next_block_capacity(
            capacity as int,
            needed as int,
        ) == needed,
{
}

} // verus!
