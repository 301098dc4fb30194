//! The two kinds of element an array can hold.
use vstd::prelude::*;

verus! {

/// The logical type of an array.
#[derive(Clone, Copy, Debug, PartialEq, Eq, Structural)]
pub enum ArrowDataType {
    /// Arbitrary bytes.
    BinaryView,
    /// UTF-8 encoded strings.
    Utf8View,
}

/// A type whose values are stored as bytes: `[u8]` and `str`.
pub trait ViewType {
    /// The bytes that stand for this value.
    spec fn bytes(&self) -> Seq<u8>;

    /// Whether `bytes` stands for a value of this type.
    spec fn valid_bytes(bytes: Seq<u8>) -> bool;

    /// The logical type of an array of these values.
    spec fn data_type() -> ArrowDataType;

    /// The empty byte string stands for a value of every kind.
    proof fn lemma_empty_is_valid()
        ensures
            Self::valid_bytes(Seq::<u8>::empty()),
    ;

    /// The bytes that stand for this value.
    fn to_bytes(&self) -> (bytes: &[u8])
        ensures
            bytes@ == self.bytes(),
            Self::valid_bytes(bytes@),
    ;

    /// The value that `bytes` stands for.
    fn from_bytes_unchecked(bytes: &[u8]) -> (value: &Self)
        requires
            Self::valid_bytes(bytes@),
        ensures
            value.bytes() == bytes@,
    ;

    /// The logical type of an array of these values.
    fn dtype() -> (dtype: ArrowDataType)
        ensures
            dtype == Self::data_type(),
    ;
}

impl ViewType for [u8] {
    open spec fn bytes(&self) -> Seq<u8> {
        self@
    }

    open spec fn valid_bytes(bytes: Seq<u8>) -> bool {
        true
    }

    open spec fn data_type() -> ArrowDataType {
        ArrowDataType::BinaryView
    }

    proof fn lemma_empty_is_valid() {
    }

    fn to_bytes(&self) -> (bytes: &[u8]) {
        self
    }

    fn from_bytes_unchecked(bytes: &[u8]) -> (value: &Self) {
        bytes
    }

    fn dtype() -> (dtype: ArrowDataType) {
        ArrowDataType::BinaryView
    }
}

impl ViewType for str {
    open spec fn bytes(&self) -> Seq<u8> {
        vstd::utf8::encode_utf8(self@)
    }

    open spec fn valid_bytes(bytes: Seq<u8>) -> bool {
        vstd::utf8::valid_utf8(bytes)
    }

    open spec fn data_type() -> ArrowDataType {
        ArrowDataType::Utf8View
    }

    proof fn lemma_empty_is_valid() {
    }

    fn to_bytes(&self) -> (bytes: &[u8]) {
        proof {
            vstd::utf8::encode_utf8_valid_utf8(self@);
        }
        self.as_bytes()
    }

    fn from_bytes_unchecked(bytes: &[u8]) -> (value: &Self) {
        crate::std_ext::str_from_utf8(bytes).unwrap()
    }

    fn dtype() -> (dtype: ArrowDataType) {
        ArrowDataType::Utf8View
    }
}

} // verus!
