//! Finished arrays.
use crate::bitmap::Bitmap;
use crate::buffer::Buffer;
use crate::model::BinViewModel;
use crate::utf8;
use crate::view::BinaryView;
use crate::view_type::{ArrowDataType, ViewType};
use vstd::prelude::*;

verus! {

/// An array that no longer changes.
pub struct BinaryViewArrayGeneric<T: ViewType + ?Sized> {
    views: Vec<BinaryView>,
    buffers: Vec<Buffer>,
    validity: Option<Bitmap>,
    phantom: std::marker::PhantomData<T>,
    total_bytes_len: usize,
    total_buffer_len: usize,
}

impl<T: ViewType + ?Sized> View for BinaryViewArrayGeneric<T> {
    type V = BinViewModel;

    /// A finished array is one in which nothing is growing.
    closed spec fn view(&self) -> BinViewModel {
        BinViewModel {
            views: crate::view::models(self.views@),
            completed: crate::buffer::contents(self.buffers@),
            in_progress: Seq::empty(),
            validity: match self.validity {
                Some(bits) => Some(bits@),
                None => None,
            },
            total_bytes_len: self.total_bytes_len as nat,
            total_buffer_len: self.total_buffer_len as nat,
        }
    }
}

impl<T: ViewType + ?Sized> BinaryViewArrayGeneric<T> {
    /// Whether every element can be read.
    pub open spec fn wf(&self) -> bool {
        &&& self@.readable()
        &&& forall|i: int| 0 <= i < self@.views.len() ==> T::valid_bytes(#[trigger] self@.values()[i])
    }

    /// An array made of its parts.
    pub fn new_unchecked(
        views: Vec<BinaryView>,
        buffers: Vec<Buffer>,
        validity: Option<Bitmap>,
        total_bytes_len: usize,
        total_buffer_len: usize,
    ) -> (array: Self)
        ensures
            array@ == (BinViewModel {
                views: crate::view::models(views@),
                completed: crate::buffer::contents(buffers@),
                in_progress: Seq::empty(),
                validity: match validity {
                    Some(bits) => Some(bits@),
                    None => None,
                },
                total_bytes_len: total_bytes_len as nat,
                total_buffer_len: total_buffer_len as nat,
            }),
    {
        BinaryViewArrayGeneric {
            views,
            buffers,
            validity,
            phantom: std::marker::PhantomData,
            total_bytes_len,
            total_buffer_len,
        }
    }

    /// The logical type of the array.
    pub fn data_type(&self) -> (data_type: ArrowDataType)
        ensures
            data_type == T::data_type(),
    {
        T::dtype()
    }

    /// The number of elements.
    pub fn len(&self) -> (len: usize)
        ensures
            len == self@.views.len(),
    {
        self.views.len()
    }

    /// The views of the elements.
    pub fn views(&self) -> (views: &[BinaryView])
        ensures
            crate::view::models(views@) == self@.views,
    {
        self.views.as_slice()
    }

    /// The data buffers.
    pub fn data_buffers(&self) -> (buffers: &[Buffer])
        ensures
            crate::buffer::contents(buffers@) == self@.completed,
    {
        self.buffers.as_slice()
    }

    /// Which elements are not null, if any is.
    pub fn validity(&self) -> (validity: Option<&Bitmap>)
        ensures
            match validity {
                Some(bits) => self@.validity == Some(bits@),
                None => self@.validity is None,
            },
    {
        self.validity.as_ref()
    }

    /// The number of bytes of all elements together.
    pub fn total_bytes_len(&self) -> (len: usize)
        ensures
            len == self@.total_bytes_len,
    {
        self.total_bytes_len
    }

    /// The number of bytes in the data buffers.
    pub fn total_buffer_len(&self) -> (len: usize)
        ensures
            len == self@.total_buffer_len,
    {
        self.total_buffer_len
    }

    /// The element with the given index, null or not.
    pub fn value(&self, i: usize) -> (value: &T)
        requires
            i < self@.views.len(),
            self@.views[i as int].fits_in(self@.buffers()),
            T::valid_bytes(self@.values()[i as int]),
        ensures
            value.bytes() == self@.values()[i as int],
    {
        let view = &self.views[i];
        let bytes = utf8::view_bytes(view, self.buffers.as_slice());
        assert(view@ == self@.views[i as int]);
        assert(bytes@ == self@.values()[i as int]);
        T::from_bytes_unchecked(bytes)
    }
}

} // verus!
