//! A growable array of byte strings or UTF-8 strings in the binary-view layout.
//!
//! Every element is described by a 16 byte view. Elements of at most 12 bytes live inside their
//! view; longer ones live in a list of data buffers, of which the last is still growing. Elements
//! that are null are marked in a validity bitmap, which only exists once there is one.

pub mod array;
pub mod bitmap;
pub mod buffer;
pub mod laws;
mod lemmas;
pub mod meaning;
pub mod model;
pub mod mutable;
mod std_ext;
pub mod utf8;
pub mod view;
pub mod view_type;

pub use crate::array::BinaryViewArrayGeneric;
pub use crate::bitmap::{Bitmap, MutableBitmap};
pub use crate::buffer::Buffer;
pub use crate::mutable::MutableBinaryViewArray;
pub use crate::utf8::ArrayError;
pub use crate::view::BinaryView;
pub use crate::view_type::{ArrowDataType, ViewType};
