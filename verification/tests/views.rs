use binview::BinaryView;

#[test]
fn inline_view_holds_its_bytes_and_zeros() {
    let view = BinaryView::new_inline(b"hello");
    assert_eq!(view.length, 5);
    assert_eq!(view.data, *b"hello\0\0\0\0\0\0\0");
    assert_eq!(view.inlined_bytes(), b"hello");
}

#[test]
fn inline_view_takes_twelve_bytes() {
    let view = BinaryView::new_inline(b"abcdefghijkl");
    assert_eq!(view.length, 12);
    assert_eq!(view.inlined_bytes(), b"abcdefghijkl");
}

#[test]
fn reference_view_layout() {
    let view = BinaryView::new_from_bytes(b"abcdefghijklm", 0x0403_0201, 0xff00_0080);
    assert_eq!(view.length, 13);
    assert_eq!(view.data, [b'a', b'b', b'c', b'd', 1, 2, 3, 4, 0x80, 0, 0, 0xff]);
    assert_eq!(view.prefix(), 0x6463_6261);
    assert_eq!(view.buffer_idx(), 0x0403_0201);
    assert_eq!(view.offset(), 0xff00_0080);
}

#[test]
fn short_bytes_ignore_the_place() {
    let view = BinaryView::new_from_bytes(b"abc", 7, 9);
    assert_eq!(view.data, BinaryView::new_inline(b"abc").data);
}

#[test]
fn default_view_is_empty() {
    let view = BinaryView::default();
    assert_eq!(view.length, 0);
    assert_eq!(view.data, [0u8; 12]);
    assert_eq!(view.inlined_bytes(), b"");
}

#[test]
fn view_takes_sixteen_bytes() {
    assert_eq!(std::mem::size_of::<BinaryView>(), binview::mutable::VIEW_SIZE);
}
