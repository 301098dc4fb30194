//! Checking that binary elements are UTF-8.
use crate::buffer::Buffer;
use crate::std_ext;
use crate::view::{BinaryView, ViewModel, MAX_INLINE_SIZE};
use vstd::prelude::*;

verus! {

/// Why an operation on an array failed.
#[derive(Clone, Copy, Debug, PartialEq, Eq, Structural)]
pub enum ArrayError {
    /// An element is not valid UTF-8.
    InvalidUtf8,
}

/// Whether the bytes are valid UTF-8.
fn is_valid_utf8(bytes: &[u8]) -> (valid: bool)
    ensures
        valid == vstd::utf8::valid_utf8(bytes@),
{
    std_ext::str_from_utf8(bytes).is_some()
}

/// Whether all bytes are ASCII characters.
fn is_ascii(bytes: &[u8]) -> (ascii: bool)
    ensures
        ascii <==> forall|j: int| 0 <= j < bytes@.len() ==> #[trigger] bytes@[j] < 0x80,
{
    let mut i: usize = 0;
    while i < bytes.len()
        invariant
            i <= bytes@.len(),
            forall|j: int| 0 <= j < i ==> #[trigger] bytes@[j] < 0x80,
        decreases bytes@.len() - i,
    {
        if bytes[i] >= 0x80 {
            return false;
        }
        i += 1;
    }
    true
}

/// Whether all bytes of all buffers are ASCII characters.
fn all_ascii(buffers: &[Buffer]) -> (ascii: bool)
    ensures
        ascii == crate::model::all_ascii(crate::buffer::contents(buffers@)),
{
    let ghost all = crate::buffer::contents(buffers@);
    let mut i: usize = 0;
    while i < buffers.len()
        invariant
            i <= buffers@.len(),
            all == crate::buffer::contents(buffers@),
            forall|k: int, j: int|
                0 <= k < i && 0 <= j < all[k].len() ==> #[trigger] all[k][j] < 0x80,
        decreases buffers@.len() - i,
    {
        let bytes = buffers[i].as_slice();
        assert(bytes@ == all[i as int]);
        if !is_ascii(bytes) {
            proof {
                let j = choose|j: int| 0 <= j < bytes@.len() && !(#[trigger] bytes@[j] < 0x80);
                assert(!(all[i as int][j] < 0x80));
            }
            return false;
        }
        i += 1;
    }
    true
}

/// The bytes of the element that `view` describes.
pub fn view_bytes<'a>(view: &'a BinaryView, buffers: &'a [Buffer]) -> (bytes: &'a [u8])
    requires
        view@.fits_in(crate::buffer::contents(buffers@)),
    ensures
        bytes@ == view@.bytes_in(crate::buffer::contents(buffers@)),
{
    if view.length <= MAX_INLINE_SIZE {
        view.inlined_bytes()
    } else {
        let buffer = buffers[view.buffer_idx() as usize].as_slice();
        let offset: usize = view.offset() as usize;
        assert(offset + view.length <= buffer.len());
        vstd::slice::slice_subrange(buffer, offset, offset + view.length as usize)
    }
}

/// Whether an element passes: one that is stored in its view has to be valid UTF-8, and so has
/// every other one unless the buffers to be validated are known to be ASCII.
pub open spec fn passes(view: ViewModel, buffers: Seq<Seq<u8>>, ascii: bool) -> bool {
    view.is_inlined() || !ascii ==> vstd::utf8::valid_utf8(view.bytes_in(buffers))
}

/// Checks the elements that the views describe, of which only those stored in `buffers` are not
/// known to be UTF-8. If `buffers` holds nothing but ASCII characters, so does every element in it,
/// and only the elements that are stored in their view are left to be looked at.
pub fn validate_utf8_only(
    views: &[BinaryView],
    buffers: &[Buffer],
    all_buffers: &[Buffer],
) -> (result: Result<(), ArrayError>)
    requires
        forall|i: int|
            0 <= i < views@.len() ==> (#[trigger] views@[i])@.fits_in(
                crate::buffer::contents(all_buffers@),
            ),
    ensures
        result is Ok <==> forall|i: int|
            0 <= i < views@.len() ==> passes(
                (#[trigger] views@[i])@,
                crate::buffer::contents(all_buffers@),
                crate::model::all_ascii(crate::buffer::contents(buffers@)),
            ),
        result matches Err(error) ==> error == ArrayError::InvalidUtf8,
{
    let ghost contents = crate::buffer::contents(all_buffers@);
    let ascii = all_ascii(buffers);
    let mut i: usize = 0;
    while i < views.len()
        invariant
            i <= views@.len(),
            contents == crate::buffer::contents(all_buffers@),
            forall|k: int| 0 <= k < views@.len() ==> (#[trigger] views@[k])@.fits_in(contents),
            forall|k: int| 0 <= k < i ==> passes((#[trigger] views@[k])@, contents, ascii),
            ascii == crate::model::all_ascii(crate::buffer::contents(buffers@)),
        decreases views@.len() - i,
    {
        let view = &views[i];
        if view.length <= MAX_INLINE_SIZE || !ascii {
            if !is_valid_utf8(view_bytes(view, all_buffers)) {
                assert(!passes(views@[i as int]@, contents, ascii));
                return Err(ArrayError::InvalidUtf8);
            }
        }
        i += 1;
    }
    Ok(())
}

} // verus!
