//! Immutable data buffers.
use vstd::prelude::*;

verus! {

/// A finished run of bytes.
#[derive(Debug)]
pub struct Buffer {
    bytes: Vec<u8>,
}

impl View for Buffer {
    type V = Seq<u8>;

    closed spec fn view(&self) -> Seq<u8> {
        self.bytes@
    }
}

/// The bytes of each buffer of a list.
pub open spec fn contents(buffers: Seq<Buffer>) -> Seq<Seq<u8>> {
    Seq::new(buffers.len(), |i: int| buffers[i]@)
}

impl Buffer {
    /// The bytes of the buffer.
    pub fn as_slice(&self) -> (bytes: &[u8])
        ensures
            bytes@ == self@,
    {
        self.bytes.as_slice()
    }

    /// The number of bytes in the buffer.
    pub fn len(&self) -> (len: usize)
        ensures
            len == self@.len(),
    {
        self.bytes.len()
    }

    /// Gives the bytes back for further writing.
    pub fn into_mut(self) -> (bytes: Vec<u8>)
        ensures
            bytes@ == self@,
    {
        self.bytes
    }
}

impl From<Vec<u8>> for Buffer {
    /// A buffer that holds the bytes of `bytes`.
    fn from(bytes: Vec<u8>) -> (buffer: Buffer)
        ensures
            buffer@ == bytes@,
    {
        Buffer { bytes }
    }
}

impl vstd::std_specs::convert::FromSpecImpl<Vec<u8>> for Buffer {
    open spec fn obeys_from_spec() -> bool {
        true
    }

    closed spec fn from_spec(bytes: Vec<u8>) -> Buffer {
        Buffer { bytes }
    }
}

impl Clone for Buffer {
    fn clone(&self) -> (buffer: Buffer)
        ensures
            buffer@ == self@,
    {
        let bytes = self.bytes.clone();
        assert(bytes@ =~= self.bytes@);
        Buffer { bytes }
    }
}

} // verus!
