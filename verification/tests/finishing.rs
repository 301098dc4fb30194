use binview::{ArrayError, ArrowDataType, BinaryView, BinaryViewArrayGeneric, Buffer, MutableBinaryViewArray};

const LONG: &[u8] = b"bytes that need a data buffer";

#[test]
fn frozen_array_has_the_same_elements() {
    let mut array = MutableBinaryViewArray::<[u8]>::new();
    array.push_value(LONG);
    array.push_null();
    array.push_value(b"\xff".as_slice());
    let frozen = array.freeze();
    assert_eq!(frozen.len(), 3);
    assert_eq!(frozen.value(0), LONG);
    assert_eq!(frozen.value(1), b"");
    assert_eq!(frozen.value(2), b"\xff");
    let bits = frozen.validity().unwrap();
    assert_eq!((bits.len(), bits.get(0), bits.get(1), bits.get(2)), (3, true, false, true));
    assert_eq!(frozen.views().len(), 3);
    assert_eq!(frozen.data_type(), ArrowDataType::BinaryView);
}

#[test]
fn frozen_array_without_nulls_has_no_bitmap() {
    let array = MutableBinaryViewArray::<str>::from(&[Some("a")]);
    let frozen = BinaryViewArrayGeneric::from(array);
    assert!(frozen.validity().is_none());
    assert!(frozen.data_buffers().is_empty());
    assert_eq!(frozen.data_type(), ArrowDataType::Utf8View);
}

#[test]
fn boxing_leaves_an_empty_array() {
    let mut array = MutableBinaryViewArray::<[u8]>::new();
    array.push_value(LONG);
    array.push_null();
    let boxed = array.as_box();
    assert_eq!(boxed.len(), 2);
    assert_eq!(boxed.value(0), LONG);
    assert_eq!(array.len(), 0);
    assert!(array.validity_ref().is_none());
    assert_eq!(array.freeze().total_bytes_len(), 0);
}

#[test]
fn names_and_types() {
    let bytes = MutableBinaryViewArray::<[u8]>::new();
    assert_eq!(bytes.data_type(), ArrowDataType::BinaryView);
    assert_eq!(bytes.debug_name(), "mutable-binviewBinaryView");
    let strings = MutableBinaryViewArray::<str>::new();
    assert_eq!(strings.data_type(), ArrowDataType::Utf8View);
    assert_eq!(strings.debug_name(), "mutable-binviewUtf8View");
}

#[test]
fn valid_utf8_passes() {
    let mut array = MutableBinaryViewArray::<[u8]>::new();
    array.push_value(b"ascii".as_slice());
    array.push_value("long enough and \u{e4}\u{f6}\u{fc}".as_bytes());
    array.push_null();
    assert_eq!(array.validate_utf8(0, 0), Ok(()));
    assert!(array.completed_buffers().is_empty());
    array.push_value(LONG);
    assert!(array.completed_buffers().is_empty());
    assert_eq!(array.value(3), LONG);
    assert_eq!(array.value(1), "long enough and \u{e4}\u{f6}\u{fc}".as_bytes());
}

#[test]
fn invalid_short_element_fails() {
    let mut array = MutableBinaryViewArray::<[u8]>::new();
    array.push_value(b"ok".as_slice());
    array.push_value(b"\xc3".as_slice());
    assert_eq!(array.validate_utf8(0, 0), Err(ArrayError::InvalidUtf8));
    assert_eq!(array.validate_utf8(0, 2), Ok(()));
}

#[test]
fn invalid_long_element_fails_and_stays_finished() {
    let bad = b"long enough but \xff not valid";
    let mut array = MutableBinaryViewArray::<[u8]>::new();
    array.push_value(LONG);
    array.push_value(bad.as_slice());
    assert_eq!(array.validate_utf8(0, 0), Err(ArrayError::InvalidUtf8));
    assert_eq!(array.completed_buffers().len(), 1);
    assert_eq!(array.value(0), LONG);
    assert_eq!(array.value(1), bad);
}

#[test]
fn an_element_may_split_a_character() {
    let mut array = MutableBinaryViewArray::<[u8]>::new();
    let text = "0123456789abcd\u{e9}".as_bytes();
    array.push_value(text);
    array.views_mut().push(BinaryView::new_from_bytes(&text[..15], 0, 0));
    assert_eq!(array.validate_utf8(0, 1), Err(ArrayError::InvalidUtf8));
}

#[test]
fn buffers_before_the_offset_are_not_validated() {
    let bad = b"long enough but \xff not valid";
    let mut array = MutableBinaryViewArray::<[u8]>::new();
    array.push_buffer(Buffer::from(bad.to_vec()));
    array.views_mut().push(BinaryView::new_from_bytes(bad, 0, 0));
    array.push_value(LONG);
    assert_eq!(array.validate_utf8(1, 0), Ok(()));
    assert_eq!(array.validate_utf8(1, 1), Ok(()));
    assert_eq!(array.completed_buffers().len(), 1);
    assert_eq!(array.validate_utf8(0, 0), Err(ArrayError::InvalidUtf8));
}

#[test]
fn passing_with_nothing_growing_keeps_the_buffers() {
    let mut array = MutableBinaryViewArray::<[u8]>::new();
    array.push_buffer(Buffer::from(b"first".to_vec()));
    array.push_buffer(Buffer::from(b"second".to_vec()));
    array.push_value(b"short".as_slice());
    assert_eq!(array.validate_utf8(0, 0), Ok(()));
    assert_eq!(array.completed_buffers().len(), 2);
    assert_eq!(array.completed_buffers()[0].as_slice(), b"first");
    assert_eq!(array.completed_buffers()[1].as_slice(), b"second");
    assert_eq!(array.value(0), b"short");
    assert_eq!(array.freeze().total_buffer_len(), 11);
}

#[test]
fn a_lone_pushed_buffer_survives_the_check() {
    let mut array = MutableBinaryViewArray::<[u8]>::new();
    array.push_buffer(Buffer::from(b"0123456789abcdef".to_vec()));
    array.views_mut().push(BinaryView::new_from_bytes(b"0123456789abcdef", 0, 0));
    assert_eq!(array.validate_utf8(0, 0), Ok(()));
    assert_eq!(array.completed_buffers().len(), 1);
    assert_eq!(array.completed_buffers()[0].as_slice(), b"0123456789abcdef");
    assert_eq!(array.value(0), b"0123456789abcdef");
}

#[test]
fn finishing_twice_adds_no_buffer() {
    let mut array = MutableBinaryViewArray::<[u8]>::new();
    array.push_value(LONG);
    array.push_value(b"\xff".as_slice());
    assert_eq!(array.validate_utf8(0, 0), Err(ArrayError::InvalidUtf8));
    assert_eq!(array.completed_buffers().len(), 1);
    assert_eq!(array.validate_utf8(0, 0), Err(ArrayError::InvalidUtf8));
    assert_eq!(array.completed_buffers().len(), 1);
    assert_eq!(array.freeze().data_buffers().len(), 1);
}

#[test]
fn buffers_give_their_bytes_back() {
    let buffer = Buffer::from(b"bytes".to_vec());
    assert_eq!(buffer.len(), 5);
    assert_eq!(buffer.clone().into_mut(), b"bytes");
    assert_eq!(buffer.as_slice(), b"bytes");
}
