//! The 16 byte descriptor of an element.
use vstd::prelude::*;

verus! {

/// The descriptor of one element.
///
/// It is the length of the element followed by 12 bytes. Those hold the element itself where it
/// fits, padded with zeros. Otherwise they hold its first four bytes, the index of the buffer that
/// stores it and the offset of the element in that buffer, the two numbers in little-endian order.
#[derive(Clone, Copy, Debug)]
pub struct BinaryView {
    /// The number of bytes of the element.
    pub length: u32,
    /// The element, or where to find it.
    pub data: [u8; 12],
}

/// The number of bytes that fit into a view.
pub const MAX_INLINE_SIZE: u32 = 12;

/// What a [`BinaryView`] says.
#[verifier::ext_equal]
pub struct ViewModel {
    pub length: nat,
    pub data: Seq<u8>,
}

/// The number that the four bytes from `at` on spell, least significant byte first.
pub open spec fn le_value(bytes: Seq<u8>, at: int) -> int {
    bytes[at] + 0x100 * bytes[at + 1] + 0x1_0000 * bytes[at + 2] + 0x100_0000 * bytes[at + 3]
}

/// The four bytes that spell `x`, least significant byte first.
pub open spec fn le_bytes(x: int) -> Seq<u8> {
    seq![
        (x % 0x100) as u8,
        (x / 0x100 % 0x100) as u8,
        (x / 0x1_0000 % 0x100) as u8,
        (x / 0x100_0000 % 0x100) as u8,
    ]
}

/// `n` zero bytes.
pub open spec fn zeros(n: nat) -> Seq<u8> {
    Seq::new(n, |i: int| 0u8)
}

impl ViewModel {
    /// The view of an element that is stored in the view itself.
    pub open spec fn inlined(bytes: Seq<u8>) -> ViewModel {
        ViewModel { length: bytes.len(), data: bytes + zeros((MAX_INLINE_SIZE - bytes.len()) as nat) }
    }

    /// The view of an element that is stored at `offset` in the buffer with index `buffer_idx`.
    pub open spec fn reference(bytes: Seq<u8>, buffer_idx: int, offset: int) -> ViewModel {
        ViewModel {
            length: bytes.len(),
            data: bytes.take(4) + le_bytes(buffer_idx) + le_bytes(offset),
        }
    }

    /// The view of no bytes, which also stands where an element is null.
    pub open spec fn empty() -> ViewModel {
        ViewModel { length: 0, data: zeros(12) }
    }

    /// Whether the element is stored in the view itself.
    pub open spec fn is_inlined(self) -> bool {
        self.length <= MAX_INLINE_SIZE
    }

    /// The first four bytes of the element, as a number.
    pub open spec fn prefix(self) -> int {
        le_value(self.data, 0)
    }

    /// The index of the buffer that stores the element.
    pub open spec fn buffer_idx(self) -> int {
        le_value(self.data, 4)
    }

    /// Where the element starts in its buffer.
    pub open spec fn offset(self) -> int {
        le_value(self.data, 8)
    }

    /// Whether the view describes bytes that are there, given the data buffers.
    pub open spec fn fits_in(self, buffers: Seq<Seq<u8>>) -> bool {
        self.is_inlined() || {
            &&& self.buffer_idx() < buffers.len()
            &&& self.offset() + self.length <= buffers[self.buffer_idx()].len()
        }
    }

    /// The bytes of the element, given the data buffers.
    pub open spec fn bytes_in(self, buffers: Seq<Seq<u8>>) -> Seq<u8> {
        if self.is_inlined() {
            self.data.take(self.length as int)
        } else {
            buffers[self.buffer_idx()].subrange(self.offset(), self.offset() + self.length)
        }
    }
}

impl View for BinaryView {
    type V = ViewModel;

    open spec fn view(&self) -> ViewModel {
        ViewModel { length: self.length as nat, data: self.data@ }
    }
}

/// What each view of a list says.
pub open spec fn models(views: Seq<BinaryView>) -> Seq<ViewModel> {
    Seq::new(views.len(), |i: int| views[i]@)
}

/// Spelling a number and reading it back gives the number.
pub proof fn lemma_le_bytes_value(x: int, before: Seq<u8>, after: Seq<u8>)
    requires
        0 <= x <= u32::MAX,
    ensures
        le_value(before + le_bytes(x) + after, before.len() as int) == x,
{
    let all = before + le_bytes(x) + after;
    let n = before.len() as int;
    assert(all[n] == le_bytes(x)[0]);
    assert(all[n + 1] == le_bytes(x)[1]);
    assert(all[n + 2] == le_bytes(x)[2]);
    assert(all[n + 3] == le_bytes(x)[3]);
}

/// The view of an inlined element gives its bytes back, whatever the buffers.
pub proof fn lemma_inlined_bytes(bytes: Seq<u8>, buffers: Seq<Seq<u8>>)
    requires
        bytes.len() <= MAX_INLINE_SIZE,
    ensures
        ViewModel::inlined(bytes).is_inlined(),
        ViewModel::inlined(bytes).fits_in(buffers),
        ViewModel::inlined(bytes).bytes_in(buffers) == bytes,
{
    assert(ViewModel::inlined(bytes).data.take(bytes.len() as int) =~= bytes);
}

/// A reference view names the buffer and the offset that it was made from, and starts with the
/// first four bytes of its element.
pub proof fn lemma_reference_fields(bytes: Seq<u8>, buffer_idx: int, offset: int)
    requires
        bytes.len() >= 4,
        0 <= buffer_idx <= u32::MAX,
        0 <= offset <= u32::MAX,
    ensures
        ViewModel::reference(bytes, buffer_idx, offset).buffer_idx() == buffer_idx,
        ViewModel::reference(bytes, buffer_idx, offset).offset() == offset,
        ViewModel::reference(bytes, buffer_idx, offset).prefix() == le_value(bytes, 0),
{
    let view = ViewModel::reference(bytes, buffer_idx, offset);
    lemma_le_bytes_value(buffer_idx, bytes.take(4), le_bytes(offset));
    lemma_le_bytes_value(offset, bytes.take(4) + le_bytes(buffer_idx), Seq::<u8>::empty());
    assert(view.data =~= bytes.take(4) + le_bytes(buffer_idx) + le_bytes(offset) + Seq::<u8>::empty());
    assert(view.data[0] == bytes[0]);
    assert(view.data[1] == bytes[1]);
    assert(view.data[2] == bytes[2]);
    assert(view.data[3] == bytes[3]);
}

/// The byte of `x` whose weight is `divisor`.
fn le_byte(x: u32, divisor: u32) -> (byte: u8)
    requires
        divisor > 0,
    ensures
        byte == x / divisor % 0x100,
{
    (x / divisor % 0x100) as u8
}

impl BinaryView {
    /// The view of an element that is stored in the view itself.
    pub fn new_inline(bytes: &[u8]) -> (view: BinaryView)
        requires
            bytes@.len() <= MAX_INLINE_SIZE,
        ensures
            view@ == ViewModel::inlined(bytes@),
    {
        let mut data: [u8; 12] = [0u8; 12];
        let mut i: usize = 0;
        while i < bytes.len()
            invariant
                i <= bytes@.len() <= 12,
                data@.len() == 12,
                forall|j: int| 0 <= j < i ==> data@[j] == bytes@[j],
                forall|j: int| i <= j < 12 ==> data@[j] == 0,
            decreases bytes@.len() - i,
        {
            data[i] = bytes[i];
            i += 1;
        }
        let view = BinaryView { length: bytes.len() as u32, data };
        assert(view@ =~= ViewModel::inlined(bytes@));
        view
    }

    /// The view of the element `bytes`, which is stored at `offset` in the buffer with index
    /// `buffer_idx` unless it fits into the view.
    pub fn new_from_bytes(bytes: &[u8], buffer_idx: u32, offset: u32) -> (view: BinaryView)
        requires
            bytes@.len() <= u32::MAX,
        ensures
            view@ == if bytes@.len() <= MAX_INLINE_SIZE {
                ViewModel::inlined(bytes@)
            } else {
                ViewModel::reference(bytes@, buffer_idx as int, offset as int)
            },
    {
        if bytes.len() <= MAX_INLINE_SIZE as usize {
            return BinaryView::new_inline(bytes);
        }
        let data: [u8; 12] = [
            bytes[0],
            bytes[1],
            bytes[2],
            bytes[3],
            le_byte(buffer_idx, 1),
            le_byte(buffer_idx, 0x100),
            le_byte(buffer_idx, 0x1_0000),
            le_byte(buffer_idx, 0x100_0000),
            le_byte(offset, 1),
            le_byte(offset, 0x100),
            le_byte(offset, 0x1_0000),
            le_byte(offset, 0x100_0000),
        ];
        let view = BinaryView { length: bytes.len() as u32, data };
        assert(view@ =~= ViewModel::reference(bytes@, buffer_idx as int, offset as int));
        view
    }

    /// The number that the four bytes of `data` from `at` on spell.
    fn field(&self, at: usize) -> (x: u32)
        requires
            at <= 8,
        ensures
            x == le_value(self@.data, at as int),
    {
        self.data[at] as u32 + 0x100 * (self.data[at + 1] as u32) + 0x1_0000 * (self.data[at
            + 2] as u32) + 0x100_0000 * (self.data[at + 3] as u32)
    }

    /// The first four bytes of the element, as a number.
    pub fn prefix(&self) -> (prefix: u32)
        ensures
            prefix == self@.prefix(),
    {
        self.field(0)
    }

    /// The index of the buffer that stores the element.
    pub fn buffer_idx(&self) -> (buffer_idx: u32)
        ensures
            buffer_idx == self@.buffer_idx(),
    {
        self.field(4)
    }

    /// Where the element starts in its buffer.
    pub fn offset(&self) -> (offset: u32)
        ensures
            offset == self@.offset(),
    {
        self.field(8)
    }

    /// The bytes of an element that is stored in the view itself.
    pub fn inlined_bytes(&self) -> (bytes: &[u8])
        requires
            self@.is_inlined(),
        ensures
            bytes@ == self@.data.take(self.length as int),
    {
        vstd::slice::slice_subrange(self.data.as_slice(), 0, self.length as usize)
    }
}

impl Default for BinaryView {
    fn default() -> (view: BinaryView)
        ensures
            view@ == ViewModel::empty(),
    {
        let view = BinaryView { length: 0, data: [0u8; 12] };
        assert(view@ =~= ViewModel::empty());
        view
    }
}

} // verus!
