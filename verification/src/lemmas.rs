//! Facts about the operations on the model that the implementation rests on.
use crate::model;
use crate::model::BinViewModel;
use crate::view::ViewModel;
use vstd::prelude::*;

verus! {

/// A view that fits keeps fitting, and describes the same bytes.
pub proof fn lemma_view_kept(view: ViewModel, old_buffers: Seq<Seq<u8>>, new_buffers: Seq<Seq<u8>>)
    requires
        view.fits_in(old_buffers),
        model::keeps_bytes(old_buffers, new_buffers),
    ensures
        view.fits_in(new_buffers),
        view.bytes_in(new_buffers) == view.bytes_in(old_buffers),
{
    if !view.is_inlined() {
        let k = view.buffer_idx();
        let old_buffer = old_buffers[k];
        let new_buffer = new_buffers[k];
        assert(old_buffer == new_buffer.take(old_buffer.len() as int));
        assert(view.bytes_in(new_buffers) =~= view.bytes_in(old_buffers));
    }
}

/// Bytes are found where they are.
pub proof fn lemma_keeps_bytes_refl(buffers: Seq<Seq<u8>>)
    ensures
        model::keeps_bytes(buffers, buffers),
{
    assert forall|k: int| #![trigger buffers[k]] 0 <= k < buffers.len() implies buffers[k]
        == buffers[k].take(buffers[k].len() as int) by {
        assert(buffers[k] =~= buffers[k].take(buffers[k].len() as int));
    }
}

/// Finishing the growing buffer moves no bytes.
pub proof fn lemma_flush_keeps_bytes(m: BinViewModel)
    ensures
        model::keeps_bytes(m.buffers(), m.flushed().buffers()),
        model::keeps_bytes(m.buffers(), m.flushed().completed),
{
    lemma_keeps_bytes_refl(m.buffers());
    assert forall|k: int|
        #![trigger m.buffers()[k]]
        0 <= k < m.buffers().len() && m.buffers()[k].len() > 0 implies k < m.flushed().completed.len()
        && m.buffers()[k] == m.flushed().completed[k] by {
        if k == m.completed.len() {
            assert(m.buffers()[k] == m.in_progress);
        }
    }
}

/// Appending to the growing buffer moves no bytes.
pub proof fn lemma_append_keeps_bytes(m: BinViewModel, bytes: Seq<u8>)
    ensures
        model::keeps_bytes(m.buffers(), m.completed.push(m.in_progress + bytes)),
{
    lemma_keeps_bytes_refl(m.buffers());
    assert((m.in_progress + bytes).take(m.in_progress.len() as int) =~= m.in_progress);
}

/// Bytes that stay twice stay.
pub proof fn lemma_keeps_bytes_trans(a: Seq<Seq<u8>>, b: Seq<Seq<u8>>, c: Seq<Seq<u8>>)
    requires
        model::keeps_bytes(a, b),
        model::keeps_bytes(b, c),
    ensures
        model::keeps_bytes(a, c),
{
    assert forall|k: int| #![trigger a[k]] 0 <= k < a.len() && a[k].len() > 0 implies {
        &&& k < c.len()
        &&& a[k].len() <= c[k].len()
        &&& a[k] == c[k].take(a[k].len() as int)
    } by {
        assert(b[k].len() > 0);
        assert(a[k] == b[k].take(a[k].len() as int));
        assert(b[k] == c[k].take(b[k].len() as int));
        assert(a[k] =~= c[k].take(a[k].len() as int));
    }
}

/// Storing an element moves no bytes, and the element can be read back.
pub proof fn lemma_store(m: BinViewModel, bytes: Seq<u8>, new_block: bool)
    requires
        bytes.len() > 12 ==> m.completed.len() + m.pending() <= u32::MAX,
        new_block || m.in_progress.len() <= u32::MAX,
    ensures
        model::keeps_bytes(m.buffers(), m.store(bytes, new_block).buffers()),
        m.store(bytes, new_block).views.drop_last() == m.views,
        m.store(bytes, new_block).views.last().fits_in(m.store(bytes, new_block).buffers()),
        m.store(bytes, new_block).views.last().bytes_in(m.store(bytes, new_block).buffers()) == bytes,
        m.store(bytes, new_block).views.last().length == bytes.len(),
{
    let next = m.store(bytes, new_block);
    assert(next.views.drop_last() =~= m.views);
    if bytes.len() > 12 {
        let base = if new_block {
            m.flushed()
        } else {
            m
        };
        let idx = base.completed.len() as int;
        let offset = base.in_progress.len() as int;
        lemma_flush_keeps_bytes(m);
        lemma_keeps_bytes_refl(m.buffers());
        lemma_append_keeps_bytes(base, bytes);
        lemma_keeps_bytes_trans(m.buffers(), base.buffers(), next.buffers());
        crate::view::lemma_reference_fields(bytes, idx, offset);
        assert(next.buffers()[idx] == base.in_progress + bytes);
        assert((base.in_progress + bytes).subrange(offset, offset + bytes.len()) =~= bytes);
    } else {
        lemma_keeps_bytes_refl(m.buffers());
        crate::view::lemma_inlined_bytes(bytes, next.buffers());
    }
}

/// Appending views that fit leaves the other elements as they are.
pub proof fn lemma_views_appended(m: BinViewModel, next: BinViewModel, view: ViewModel, n: nat)
    requires
        model::keeps_bytes(m.buffers(), next.buffers()),
        next.views == m.views + Seq::new(n, |i: int| view),
        n > 0 ==> view.fits_in(next.buffers()),
        m.readable(),
    ensures
        next.readable(),
        next.values() == m.values() + Seq::new(n, |i: int| view.bytes_in(next.buffers())),
{
    let appended = m.values() + Seq::new(n, |i: int| view.bytes_in(next.buffers()));
    assert forall|i: int| 0 <= i < next.views.len() implies #[trigger] next.views[i].fits_in(
        next.buffers(),
    ) by {
        if i < m.views.len() {
            assert(next.views[i] == m.views[i]);
            lemma_view_kept(m.views[i], m.buffers(), next.buffers());
        }
    }
    assert forall|i: int| 0 <= i < next.views.len() implies #[trigger] next.values()[i]
        == appended[i] by {
        if i < m.views.len() {
            assert(next.views[i] == m.views[i]);
            assert(m.views[i].fits_in(m.buffers()));
            lemma_view_kept(m.views[i], m.buffers(), next.buffers());
        }
    }
    assert(next.values() =~= appended);
}

/// The empty view fits anywhere and describes no bytes.
pub proof fn lemma_empty_view(buffers: Seq<Seq<u8>>)
    ensures
        ViewModel::empty().fits_in(buffers),
        ViewModel::empty().bytes_in(buffers) == Seq::<u8>::empty(),
{
    assert(ViewModel::empty().bytes_in(buffers) =~= Seq::<u8>::empty());
}

/// A stored element joins the values, and the others stay.
pub proof fn lemma_stored(m: BinViewModel, bytes: Seq<u8>, next: BinViewModel)
    requires
        m.has_room(bytes.len()),
        m.stored(bytes, next),
        m.readable(),
    ensures
        next.readable(),
        next.values() == m.values().push(bytes),
        next.validity == m.validity,
{
    let new_block = next == m.store(bytes, true);
    lemma_store(m, bytes, new_block);
    let view = next.views.last();
    assert(next.views =~= m.views + Seq::new(1, |i: int| view));
    lemma_views_appended(m, next, view, 1);
    assert(next.values() =~= m.values().push(bytes));
}

/// A pushed item joins the elements, and the others stay.
pub proof fn lemma_item_pushed(m: BinViewModel, item: Option<Seq<u8>>, next: BinViewModel)
    requires
        m.has_room(model::item_len(item)),
        m.item_pushed(item, next),
        m.readable(),
    ensures
        next.readable(),
        next.values() == m.values().push(model::item_bytes(item)),
        m.validity_matches() ==> next.validity_matches() && next.elements() == m.elements().push(item),
{
    match item {
        Some(bytes) => {
            let marked = m.mark(1, true);
            assert(marked.buffers() == m.buffers());
            assert(marked.values() =~= m.values());
            assert(marked.stored(bytes, next));
            lemma_stored(marked, bytes, next);
        },
        None => {
            lemma_keeps_bytes_refl(m.buffers());
            lemma_empty_view(next.buffers());
            lemma_views_appended(m, next, ViewModel::empty(), 1);
            assert(next.values() =~= m.values().push(Seq::<u8>::empty()));
        },
    }
    if m.validity_matches() {
        assert forall|i: int| 0 <= i < next.views.len() implies #[trigger] next.elements()[i]
            == m.elements().push(item)[i] by {
            assert(next.values()[i] == m.values().push(model::item_bytes(item))[i]);
        }
        assert(next.elements() =~= m.elements().push(item));
    }
}

/// After an item has been pushed there is still room for the others.
pub proof fn lemma_room_after_push(m: BinViewModel, items: Seq<Option<Seq<u8>>>, next: BinViewModel)
    requires
        items.len() > 0,
        m.has_room_for_all(items),
        m.item_pushed(items[0], next),
    ensures
        next.has_room_for_all(items.drop_first()),
{
    let rest = items.drop_first();
    assert forall|i: int| 0 <= i < rest.len() implies model::item_len(#[trigger] rest[i])
        <= u32::MAX by {
        assert(rest[i] == items[i + 1]);
    }
}

/// Where there is room for all items, there is room for the first.
pub proof fn lemma_room_for_first(m: BinViewModel, items: Seq<Option<Seq<u8>>>)
    requires
        items.len() > 0,
        m.has_room_for_all(items),
    ensures
        m.has_room(model::item_len(items[0])),
        m.has_bit_room(1),
{
}

/// A trace grows by one item at its end.
pub proof fn lemma_trace_grows(
    start: BinViewModel,
    items: Seq<Option<Seq<u8>>>,
    mid: BinViewModel,
    item: Option<Seq<u8>>,
    next: BinViewModel,
)
    requires
        start.items_pushed(items, mid),
        mid.item_pushed(item, next),
    ensures
        start.items_pushed(items.push(item), next),
{
    let trace = choose|trace: Seq<BinViewModel>| #[trigger]
        model::is_trace(trace, items) && trace[0] == start && trace.last() == mid;
    let longer = trace.push(next);
    assert forall|i: int| 0 <= i < items.push(item).len() implies longer[i].item_pushed(
        #[trigger] items.push(item)[i],
        longer[i + 1],
    ) by {
        if i < items.len() {
            assert(items.push(item)[i] == items[i]);
            assert(trace[i].item_pushed(items[i], trace[i + 1]));
        }
    }
    assert(model::is_trace(longer, items.push(item)));
}

/// The lengths of a list of items grow by those of the item at its end.
pub proof fn lemma_items_len_push(items: Seq<Option<Seq<u8>>>, item: Option<Seq<u8>>)
    ensures
        model::items_len(items.push(item)) == model::items_len(items) + model::item_len(item),
        model::long_items_len(items.push(item)) == model::long_items_len(items) + (
        if model::is_long(model::item_len(item)) {
            model::item_len(item)
        } else {
            0
        }),
    decreases items.len(),
{
    let longer = items.push(item);
    if items.len() == 0 {
        assert(longer.drop_first() =~= items);
    } else {
        lemma_items_len_push(items.drop_first(), item);
        assert(longer.drop_first() =~= items.drop_first().push(item));
        assert(longer[0] == items[0]);
    }
}

/// The length of a list of equal items.
pub proof fn lemma_items_len_repeat(item: Option<Seq<u8>>, n: nat)
    ensures
        model::items_len(Seq::new(n, |i: int| item)) == n * model::item_len(item),
    decreases n,
{
    let items = Seq::new(n, |i: int| item);
    if n > 0 {
        let m = (n - 1) as nat;
        let len = model::item_len(item);
        lemma_items_len_repeat(item, m);
        assert(items.drop_first() =~= Seq::new(m, |i: int| item));
        assert(n * len == m * len + len) by (nonlinear_arith)
            requires
                n == m + 1,
        ;
    }
}

/// One more item keeps the account right.
pub proof fn lemma_account_grows(
    start: BinViewModel,
    items: Seq<Option<Seq<u8>>>,
    mid: BinViewModel,
    item: Option<Seq<u8>>,
    next: BinViewModel,
)
    requires
        start.items_accounted(items, mid),
        mid.item_pushed(item, next),
    ensures
        start.items_accounted(items.push(item), next),
{
    let longer = items.push(item);
    let bits = start.with_bitmap().validity->0;
    lemma_items_len_push(items, item);
    assert(model::items_validity(longer) =~= model::items_validity(items).push(item is Some));
    assert(longer[items.len() as int] == item);
    assert forall|i: int| 0 <= i < items.len() implies #[trigger] longer[i] == items[i] by {}
    assert(model::has_null(longer) == (model::has_null(items) || item is None)) by {
        if model::has_null(items) {
            let i = choose|i: int| 0 <= i < items.len() && (#[trigger] items[i]) is None;
            assert(longer[i] is None);
        }
        if model::has_null(longer) && item is Some {
            let i = choose|i: int| 0 <= i < longer.len() && (#[trigger] longer[i]) is None;
            assert(items[i] is None);
        }
    }
    if start.validity is Some || model::has_null(longer) {
        if mid.validity is None {
            assert(mid.with_bitmap().validity->0 =~= bits + model::items_validity(items));
        }
        assert(next.validity->0 =~= bits + model::items_validity(longer));
    }
}

/// Pushing no items changes nothing.
pub proof fn lemma_trace_empty(start: BinViewModel)
    ensures
        start.items_pushed(Seq::empty(), start),
{
    let trace = seq![start];
    assert(model::is_trace(trace, Seq::empty()));
}

/// The bytes of a list of buffers grow by those of the buffer that is added.
pub proof fn lemma_buffers_len_push(buffers: Seq<Seq<u8>>, buffer: Seq<u8>)
    ensures
        model::buffers_len(buffers.push(buffer)) == model::buffers_len(buffers)
            + buffer.len(),
{
    assert(buffers.push(buffer).drop_last() =~= buffers);
}

/// The bytes of a list of elements grow by those of the elements that are added.
pub proof fn lemma_views_len_repeat(views: Seq<ViewModel>, view: ViewModel, n: nat)
    ensures
        model::views_len(views + Seq::new(n, |i: int| view)) == model::views_len(views)
            + n * view.length,
    decreases n,
{
    let all = views + Seq::new(n, |i: int| view);
    if n == 0 {
        assert(all =~= views);
    } else {
        let m = (n - 1) as nat;
        assert(all.drop_last() =~= views + Seq::new(m, |i: int| view));
        lemma_views_len_repeat(views, view, m);
        assert(n * view.length == m * view.length + view.length) by (nonlinear_arith)
            requires
                n == m + 1,
        ;
    }
}

/// Finishing the growing buffer keeps the total of the buffers' bytes right.
pub proof fn lemma_flush_counts(m: BinViewModel)
    ensures
        m.counts_buffers() ==> m.flushed().counts_buffers(),
{
    lemma_buffers_len_push(m.completed, m.in_progress);
    lemma_buffers_len_push(m.flushed().completed, m.flushed().in_progress);
}

/// Storing an element keeps the totals right.
pub proof fn lemma_store_counts(m: BinViewModel, bytes: Seq<u8>, new_block: bool)
    ensures
        m.counts_buffers() ==> m.store(bytes, new_block).counts_buffers(),
        m.counts_elements() ==> m.store(bytes, new_block).counts_elements(),
{
    let next = m.store(bytes, new_block);
    let base = if new_block {
        m.flushed()
    } else {
        m
    };
    lemma_flush_counts(m);
    lemma_buffers_len_push(base.completed, base.in_progress);
    lemma_buffers_len_push(base.completed, base.in_progress + bytes);
    assert(next.views.drop_last() =~= m.views);
}

/// Items that are pushed over and over join the elements, and the others stay.
pub proof fn lemma_constant_extended(
    m: BinViewModel,
    additional: nat,
    item: Option<Seq<u8>>,
    next: BinViewModel,
)
    requires
        m.has_room(model::item_len(item)),
        m.constant_extended(additional, item, next),
    ensures
        m.readable() ==> next.readable() && next.values() == m.values() + Seq::new(
            additional,
            |i: int| model::item_bytes(item),
        ),
        m.readable() && m.validity_matches() ==> next.validity_matches() && next.elements()
            == m.elements() + Seq::new(additional, |i: int| item),
        m.counts_buffers() ==> next.counts_buffers(),
        m.counts_elements() ==> next.counts_elements(),
{
    let bytes = model::item_bytes(item);
    let appended = Seq::new(additional, |i: int| bytes);
    match item {
        Some(_) => {
            let new_block = next == m.extend_constant(additional, item, true);
            let marked = m.mark(additional, true);
            let stored = marked.store(bytes, new_block);
            let view = stored.views.last();
            lemma_store(marked, bytes, new_block);
            lemma_store_counts(marked, bytes, new_block);
            lemma_views_len_repeat(m.views, view, additional);
            assert(marked.buffers() == m.buffers());
            assert(next.buffers() == stored.buffers());
            if m.readable() {
                lemma_views_appended(m, next, view, additional);
            }
        },
        None => {
            lemma_keeps_bytes_refl(m.buffers());
            lemma_empty_view(next.buffers());
            lemma_views_len_repeat(m.views, ViewModel::empty(), additional);
            if m.readable() {
                lemma_views_appended(m, next, ViewModel::empty(), additional);
            }
        },
    }
    if m.readable() {
        assert(next.values() =~= m.values() + appended);
        if m.validity_matches() {
            let items = m.elements() + Seq::new(additional, |i: int| item);
            assert forall|i: int| 0 <= i < next.views.len() implies #[trigger] next.elements()[i]
                == items[i] by {
                assert(next.values()[i] == (m.values() + appended)[i]);
            }
            assert(next.elements() =~= items);
        }
    }
}

/// Finishing the growing buffer leaves every element as it is.
pub proof fn lemma_flushed_values(m: BinViewModel)
    requires
        m.readable(),
    ensures
        m.flushed().readable(),
        m.flushed().values() == m.values(),
{
    lemma_flush_keeps_bytes(m);
    lemma_views_appended(m, m.flushed(), ViewModel::empty(), 0);
    assert(m.flushed().values() =~= m.values());
}

/// Adding a finished buffer leaves every element as it is.
pub proof fn lemma_push_buffer(m: BinViewModel, buffer: Seq<u8>)
    ensures
        m.readable() ==> m.push_buffer(buffer).readable() && m.push_buffer(buffer).values()
            == m.values(),
        m.counts_buffers() ==> m.push_buffer(buffer).counts_buffers(),
{
    let next = m.push_buffer(buffer);
    let base = m.flushed();
    lemma_flush_counts(m);
    lemma_buffers_len_push(base.completed, base.in_progress);
    lemma_buffers_len_push(base.completed, buffer);
    lemma_buffers_len_push(next.completed, next.in_progress);
    if m.readable() {
        lemma_flush_keeps_bytes(m);
        lemma_keeps_bytes_refl(base.completed);
        assert(model::keeps_bytes(base.completed, next.buffers()));
        lemma_keeps_bytes_trans(m.buffers(), base.completed, next.buffers());
        assert(next.views =~= m.views + Seq::new(0, |i: int| ViewModel::empty()));
        lemma_views_appended(m, next, ViewModel::empty(), 0);
        assert(next.values() =~= m.values());
    }
}

} // verus!
