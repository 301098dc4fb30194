//! Packed bitmaps.
use vstd::prelude::*;

verus! {

/// A growable sequence of booleans, eight to the byte, least significant bit first.
#[derive(Debug)]
pub struct MutableBitmap {
    buffer: Vec<u8>,
    length: usize,
}

/// The bit of `byte` with weight `2^place`.
spec fn bit(byte: u8, place: int) -> bool {
    (byte >> (place as u8)) & 1u8 == 1u8
}

/// The first `length` bits of `buffer`.
spec fn bits(buffer: Seq<u8>, length: nat) -> Seq<bool> {
    Seq::new(length, |i: int| bit(buffer[i / 8], i % 8))
}

/// Whether `buffer` has the bytes that `length` bits take, and no more.
spec fn holds(buffer: Seq<u8>, length: nat) -> bool {
    buffer.len() == (length + 7) / 8
}

/// `byte` with the bit at `place` set to `value`.
fn with_bit(byte: u8, place: u8, value: bool) -> (changed: u8)
    requires
        place < 8,
    ensures
        bit(changed, place as int) == value,
        forall|other: int| 0 <= other < 8 && other != place ==> bit(changed, other) == bit(byte, other),
{
    let changed: u8 = if value {
        byte | (1u8 << place)
    } else {
        byte & !(1u8 << place)
    };
    assert forall|other: int| 0 <= other < 8 implies bit(changed, other) == (if other == place {
        value
    } else {
        bit(byte, other)
    }) by {
        let o = other as u8;
        assert((((byte | (1u8 << place)) >> o) & 1u8 == 1u8) == (o == place || (byte >> o) & 1u8
            == 1u8)) by (bit_vector)
            requires
                place < 8,
                o < 8,
        ;
        assert((((byte & !(1u8 << place)) >> o) & 1u8 == 1u8) == (o != place && (byte >> o) & 1u8
            == 1u8)) by (bit_vector)
            requires
                place < 8,
                o < 8,
        ;
    }
    changed
}

/// Appends one bit to a buffer that holds `length` bits.
fn push_bit(buffer: &mut Vec<u8>, length: usize, value: bool)
    requires
        holds(old(buffer)@, length as nat),
        length < usize::MAX,
    ensures
        holds(final(buffer)@, (length + 1) as nat),
        bits(final(buffer)@, (length + 1) as nat) == bits(old(buffer)@, length as nat).push(value),
{
    let ghost before = buffer@;
    if length % 8 == 0 {
        buffer.push(0);
    }
    let index: usize = length / 8;
    let ghost padded = buffer@;
    let byte = with_bit(buffer[index], (length % 8) as u8, value);
    buffer[index] = byte;
    proof {
        let after = buffer@;
        assert(after =~= padded.update(index as int, byte));
        let expected = bits(before, length as nat).push(value);
        assert forall|i: int| 0 <= i <= length implies bits(after, (length + 1) as nat)[i]
            == expected[i] by {
            if i < length {
                assert(padded[i / 8] == before[i / 8]);
                if i / 8 == index {
                    assert(i % 8 != length % 8);
                } else {
                    assert(after[i / 8] == padded[i / 8]);
                }
            }
        }
        assert(bits(after, (length + 1) as nat) =~= expected);
    }
}

impl View for MutableBitmap {
    type V = Seq<bool>;

    closed spec fn view(&self) -> Seq<bool> {
        bits(self.buffer@, self.length as nat)
    }
}

impl MutableBitmap {
    #[verifier::type_invariant]
    spec fn inv(self) -> bool {
        holds(self.buffer@, self.length as nat)
    }

    /// The number of bits is in the range of its type.
    pub proof fn lemma_len_in_range(&self)
        ensures
            self@.len() <= usize::MAX,
    {
    }

    /// A bitmap without bits.
    pub fn new() -> (bitmap: MutableBitmap)
        ensures
            bitmap@ == Seq::<bool>::empty(),
    {
        let bitmap = MutableBitmap { buffer: Vec::new(), length: 0 };
        assert(bitmap@ =~= Seq::<bool>::empty());
        bitmap
    }

    /// A bitmap without bits, made with room for `capacity` of them. How much room the allocator gives
    /// is not stated.
    pub fn with_capacity(capacity: usize) -> (bitmap: MutableBitmap)
        ensures
            bitmap@ == Seq::<bool>::empty(),
    {
        let bitmap = MutableBitmap {
            buffer: Vec::with_capacity(capacity.saturating_add(7) / 8),
            length: 0,
        };
        assert(bitmap@ =~= Seq::<bool>::empty());
        bitmap
    }

    /// The number of bits.
    pub fn len(&self) -> (len: usize)
        ensures
            len == self@.len(),
    {
        self.length
    }

    /// The bit with the given index.
    pub fn get(&self, index: usize) -> (value: bool)
        requires
            index < self@.len(),
        ensures
            value == self@[index as int],
    {
        proof {
            use_type_invariant(&*self);
        }
        let place: u8 = (index % 8) as u8;
        (self.buffer[index / 8] >> place) & 1 == 1
    }

    /// Takes the parts out, and leaves a bitmap without bits.
    fn take_parts(&mut self) -> (parts: (Vec<u8>, usize))
        ensures
            holds(parts.0@, parts.1 as nat),
            bits(parts.0@, parts.1 as nat) == old(self)@,
    {
        let mut taken = MutableBitmap::new();
        std::mem::swap(self, &mut taken);
        proof {
            use_type_invariant(&taken);
        }
        (taken.buffer, taken.length)
    }

    /// Appends a bit.
    pub fn push(&mut self, value: bool)
        requires
            old(self)@.len() < usize::MAX,
        ensures
            final(self)@ == old(self)@.push(value),
    {
        let (mut buffer, length) = self.take_parts();
        assert(bits(buffer@, length as nat).len() == length);
        push_bit(&mut buffer, length, value);
        *self = MutableBitmap { buffer, length: length + 1 };
    }

    /// Appends `additional` bits of the same value.
    pub fn extend_constant(&mut self, additional: usize, value: bool)
        requires
            old(self)@.len() + additional <= usize::MAX,
        ensures
            final(self)@ == old(self)@ + Seq::new(additional as nat, |i: int| value),
    {
        let (mut buffer, length) = self.take_parts();
        assert(bits(buffer@, length as nat).len() == length);
        let ghost start = old(self)@;
        let mut done: usize = 0;
        assert(start + Seq::new(0, |i: int| value) =~= start);
        while done < additional
            invariant
                done <= additional,
                length + additional <= usize::MAX,
                holds(buffer@, (length + done) as nat),
                bits(buffer@, (length + done) as nat) == start + Seq::new(done as nat, |i: int| value),
            decreases additional - done,
        {
            push_bit(&mut buffer, length + done, value);
            done += 1;
            assert((start + Seq::new((done - 1) as nat, |i: int| value)).push(value) =~= start
                + Seq::new(done as nat, |i: int| value));
        }
        *self = MutableBitmap { buffer, length: length + additional };
    }

    /// Overwrites the bit with the given index.
    pub fn set(&mut self, index: usize, value: bool)
        requires
            index < old(self)@.len(),
        ensures
            final(self)@ == old(self)@.update(index as int, value),
    {
        let (mut buffer, length) = self.take_parts();
        let ghost before = buffer@;
        assert(bits(before, length as nat).len() == length);
        let byte = with_bit(buffer[index / 8], (index % 8) as u8, value);
        buffer[index / 8] = byte;
        proof {
            let after = buffer@;
            assert(after =~= before.update(index as int / 8, byte));
            let expected = bits(before, length as nat).update(index as int, value);
            assert forall|i: int| 0 <= i < length implies bits(after, length as nat)[i]
                == expected[i] by {
                if i / 8 == index as int / 8 {
                    assert(i != index ==> i % 8 != index as int % 8);
                } else {
                    assert(after[i / 8] == before[i / 8]);
                }
            }
            assert(bits(after, length as nat) =~= expected);
        }
        *self = MutableBitmap { buffer, length };
    }
}

impl Clone for MutableBitmap {
    fn clone(&self) -> (bitmap: MutableBitmap)
        ensures
            bitmap@ == self@,
    {
        proof {
            use_type_invariant(&*self);
        }
        let buffer = self.buffer.clone();
        assert(buffer@ =~= self.buffer@);
        MutableBitmap { buffer, length: self.length }
    }
}

/// A finished sequence of booleans.
#[derive(Debug)]
pub struct Bitmap {
    bits: MutableBitmap,
}

impl View for Bitmap {
    type V = Seq<bool>;

    closed spec fn view(&self) -> Seq<bool> {
        self.bits@
    }
}

impl Bitmap {
    /// The number of bits.
    pub fn len(&self) -> (len: usize)
        ensures
            len == self@.len(),
    {
        self.bits.len()
    }

    /// The bit with the given index.
    pub fn get(&self, index: usize) -> (value: bool)
        requires
            index < self@.len(),
        ensures
            value == self@[index as int],
    {
        self.bits.get(index)
    }
}

impl From<MutableBitmap> for Bitmap {
    /// Finishes a bitmap.
    fn from(bits: MutableBitmap) -> (bitmap: Bitmap)
        ensures
            bitmap@ == bits@,
    {
        Bitmap { bits }
    }
}

impl vstd::std_specs::convert::FromSpecImpl<MutableBitmap> for Bitmap {
    open spec fn obeys_from_spec() -> bool {
        true
    }

    closed spec fn from_spec(bits: MutableBitmap) -> Bitmap {
        Bitmap { bits }
    }
}

} // verus!
