use binview::mutable::{next_block_capacity, DEFAULT_BLOCK_SIZE, MAX_EXP_BLOCK_SIZE};
use binview::{BinaryView, Buffer, MutableBinaryViewArray};

const LONG: &str = "a string of more than twelve bytes";
const OTHER: &str = "another string that does not fit";

fn elements(array: &MutableBinaryViewArray<str>) -> Vec<Option<String>> {
    (0..array.len())
        .map(|i| {
            let valid = match array.validity_ref() {
                Some(bits) => bits.get(i),
                None => true,
            };
            if valid {
                Some(array.value(i).to_string())
            } else {
                None
            }
        })
        .collect()
}

fn some(values: &[&str]) -> Vec<Option<String>> {
    values.iter().map(|v| Some(v.to_string())).collect()
}

fn totals(array: &MutableBinaryViewArray<str>) -> (usize, usize) {
    let frozen = array.clone().freeze();
    (frozen.total_bytes_len(), frozen.total_buffer_len())
}

#[test]
fn new_array_is_empty() {
    let mut array = MutableBinaryViewArray::<str>::new();
    assert_eq!(array.len(), 0);
    assert!(array.views().is_empty());
    assert!(array.completed_buffers().is_empty());
    assert!(array.validity().is_none());
    assert_eq!(MutableBinaryViewArray::<str>::default().len(), 0);
    assert!(MutableBinaryViewArray::<str>::with_capacity(100).capacity() >= 100);
}

#[test]
fn pushed_items_are_read_back() {
    let mut array = MutableBinaryViewArray::<str>::new();
    array.push(Some("short"));
    array.push(Some(LONG));
    array.push(None);
    array.push(Some(""));
    array.push_value(OTHER);
    let mut expected = some(&["short", LONG]);
    expected.push(None);
    expected.extend(some(&["", OTHER]));
    assert_eq!(elements(&array), expected);
    assert_eq!(array.value(2), "");
    assert_eq!(array.values_iter(), vec!["short", LONG, "", "", OTHER]);
    assert_eq!(totals(&array), (5 + LONG.len() + OTHER.len(), LONG.len() + OTHER.len()));
}

#[test]
fn twelve_bytes_stay_in_the_view() {
    let mut array = MutableBinaryViewArray::<[u8]>::new();
    array.push_value(b"abcdefghijkl".as_slice());
    array.push_value(b"abcdefghijklm".as_slice());
    assert_eq!(array.views()[0].inlined_bytes(), b"abcdefghijkl");
    assert_eq!(array.views()[1].buffer_idx(), 0);
    assert_eq!(array.views()[1].offset(), 0);
    let frozen = array.freeze();
    assert_eq!(frozen.total_bytes_len(), 25);
    assert_eq!(frozen.total_buffer_len(), 13);
    assert_eq!(frozen.data_buffers().len(), 1);
    assert_eq!(frozen.data_buffers()[0].as_slice(), b"abcdefghijklm");
}

#[test]
fn long_values_follow_each_other() {
    let mut array = MutableBinaryViewArray::<str>::new();
    array.push_value(LONG);
    array.push_value(OTHER);
    assert!(array.completed_buffers().is_empty());
    assert_eq!(array.views()[1].offset() as usize, LONG.len());
    assert_eq!(array.views()[1].prefix(), u32::from_le_bytes(*b"anot"));
}

#[test]
fn full_block_is_finished() {
    let mut array = MutableBinaryViewArray::<str>::new();
    array.push_value_in_block(LONG, 0);
    array.push_value_in_block(OTHER, LONG.len() + OTHER.len());
    assert_eq!(array.completed_buffers().len(), 0);
    array.push_value_in_block(LONG, LONG.len() + OTHER.len());
    assert_eq!(array.completed_buffers().len(), 1);
    let joined = format!("{LONG}{OTHER}");
    assert_eq!(array.completed_buffers()[0].as_slice(), joined.as_bytes());
    assert_eq!(array.views()[2].buffer_idx(), 1);
    assert_eq!(array.views()[2].offset(), 0);
    array.push_value_in_block("short", 0);
    assert_eq!(array.completed_buffers().len(), 1);
    assert_eq!(elements(&array), some(&[LONG, OTHER, LONG, "short"]));
}

#[test]
fn blocks_of_their_own_accord() {
    let big: String = "x".repeat(5000);
    let mut array = MutableBinaryViewArray::<str>::new();
    for _ in 0..4 {
        array.push_value(&big);
    }
    assert!(array.completed_buffers().len() >= 1);
    for i in 0..4 {
        assert_eq!(array.value(i), big);
    }
    assert_eq!(totals(&array), (20_000, 20_000));
}

#[test]
fn block_capacities() {
    assert_eq!(DEFAULT_BLOCK_SIZE, 8192);
    assert_eq!(MAX_EXP_BLOCK_SIZE, 16_777_216);
    assert_eq!(next_block_capacity(0, 20), 8192);
    assert_eq!(next_block_capacity(4096, 20), 8192);
    assert_eq!(next_block_capacity(8192, 20), 16384);
    assert_eq!(next_block_capacity(8192, 20_000), 20_000);
    assert_eq!(next_block_capacity(8_388_608, 20), 16_777_216);
    assert_eq!(next_block_capacity(16_777_216, 20), 16_777_216);
    assert_eq!(next_block_capacity(16_777_216, 16_777_217), 16_777_217);
    assert_eq!(next_block_capacity(usize::MAX, 1), 16_777_216);
}

#[test]
fn first_null_makes_the_bitmap() {
    let mut array = MutableBinaryViewArray::<str>::new();
    array.push_value("a");
    array.push_value("b");
    assert!(array.validity_ref().is_none());
    array.push_null();
    let bits = array.validity_ref().unwrap();
    assert_eq!((bits.len(), bits.get(0), bits.get(1), bits.get(2)), (3, true, true, false));
    array.push_value("c");
    let bits = array.validity_ref().unwrap();
    assert_eq!((bits.len(), bits.get(3)), (4, true));
}

#[test]
fn ignoring_validity_leaves_the_bitmap() {
    let mut array = MutableBinaryViewArray::<str>::new();
    array.push_null();
    array.push_value_ignore_validity(LONG);
    assert_eq!(array.len(), 2);
    assert_eq!(array.validity_ref().unwrap().len(), 1);
    array.validity().unwrap().push(true);
    assert_eq!(elements(&array), vec![None, Some(LONG.to_string())]);
}

#[test]
fn nulls_at_once_or_one_by_one() {
    let mut at_once = MutableBinaryViewArray::<str>::new();
    at_once.push_value("a");
    let mut one_by_one = at_once.clone();
    at_once.extend_null(0);
    assert!(at_once.validity_ref().is_none());
    at_once.extend_null(3);
    for _ in 0..3 {
        one_by_one.push_null();
    }
    assert_eq!(elements(&at_once), elements(&one_by_one));
    assert_eq!(elements(&at_once).len(), 4);
    assert_eq!(totals(&at_once), (1, 0));
    assert_eq!(totals(&one_by_one), (1, 0));
    at_once.extend_null(1);
    assert_eq!(at_once.validity_ref().unwrap().len(), 5);
}

#[test]
fn constant_is_stored_once() {
    let mut array = MutableBinaryViewArray::<str>::new();
    array.push_value("a");
    array.extend_constant(3, Some(LONG));
    assert_eq!(elements(&array), some(&["a", LONG, LONG, LONG]));
    assert!(array.validity_ref().is_none());
    assert_eq!(array.views()[1].data, array.views()[3].data);
    assert_eq!(totals(&array), (1 + 3 * LONG.len(), LONG.len()));
}

#[test]
fn constant_once_is_push() {
    let mut constant = MutableBinaryViewArray::<str>::new();
    constant.extend_constant(1, Some(LONG));
    let mut pushed = MutableBinaryViewArray::<str>::new();
    pushed.push_value(LONG);
    assert_eq!(elements(&constant), elements(&pushed));
    assert_eq!(totals(&constant), totals(&pushed));
}

#[test]
fn constant_null_makes_the_bitmap() {
    let mut array = MutableBinaryViewArray::<str>::new();
    array.push_value("a");
    array.extend_constant(0, None);
    assert_eq!(array.validity_ref().unwrap().len(), 1);
    let mut nulls = array.clone();
    nulls.extend_null(2);
    array.extend_constant(2, None);
    assert_eq!(elements(&array), elements(&nulls));
    assert_eq!(totals(&array), totals(&nulls));
    array.extend_constant(2, Some("b"));
    let mut expected = some(&["a"]);
    expected.extend([None, None]);
    expected.extend(some(&["b", "b"]));
    assert_eq!(elements(&array), expected);
}

#[test]
fn iterators_extend() {
    let mut array = MutableBinaryViewArray::<str>::new();
    array.extend_values(vec!["a", LONG].into_iter());
    array.extend(vec![Some("b"), None].into_iter());
    array.extend_trusted_len(vec![None, Some("c")].into_iter());
    array.extend_trusted_len_values(vec![OTHER].into_iter());
    assert!(array.try_extend(vec![Some("d")].into_iter()).is_ok());
    assert!(array.try_push(None).is_ok());
    let expected = vec![
        Some("a"),
        Some(LONG),
        Some("b"),
        None,
        None,
        Some("c"),
        Some(OTHER),
        Some("d"),
        None,
    ];
    let from_slice = MutableBinaryViewArray::<str>::from(&expected);
    let from_iter = MutableBinaryViewArray::<str>::from_iterator(expected.iter().copied());
    let expected: Vec<Option<String>> =
        expected.into_iter().map(|v| v.map(|v| v.to_string())).collect();
    assert_eq!(elements(&array), expected);
    assert_eq!(elements(&from_slice), expected);
    assert_eq!(elements(&from_iter), expected);
    assert!(from_iter.capacity() >= 9);
}

#[test]
fn values_iterator_makes_an_array() {
    let array = MutableBinaryViewArray::<str>::from_values_iter(vec![LONG, "", "x"].into_iter());
    assert_eq!(elements(&array), some(&[LONG, "", "x"]));
    assert!(array.validity_ref().is_none());
}

#[test]
fn constant_is_as_many_pushes() {
    let mut start = MutableBinaryViewArray::<str>::new();
    start.push_value("a");
    for item in [Some("b"), Some(LONG), None] {
        let mut at_once = start.clone();
        at_once.extend_constant(3, item);
        let mut one_by_one = start.clone();
        for _ in 0..3 {
            one_by_one.push(item);
        }
        assert_eq!(elements(&at_once), elements(&one_by_one));
        assert_eq!(at_once.values_iter(), one_by_one.values_iter());
        assert_eq!(at_once.validity_ref().is_some(), one_by_one.validity_ref().is_some());
        assert_eq!(totals(&at_once).0, totals(&one_by_one).0);
    }
}

#[test]
fn ways_to_extend_agree() {
    let items = [Some("a"), None, Some(LONG)];
    let values = ["a", LONG, OTHER];
    let start = MutableBinaryViewArray::<str>::from(&[Some(OTHER)]);

    let mut plain = start.clone();
    plain.extend(items.into_iter());
    let mut trusted = start.clone();
    trusted.extend_trusted_len(items.into_iter());
    let mut tried = start.clone();
    assert!(tried.try_extend(items.into_iter()).is_ok());
    for other in [&trusted, &tried] {
        assert_eq!(elements(&plain), elements(other));
        assert_eq!(totals(&plain), totals(other));
    }
    let short_and_long = 1 + LONG.len() + OTHER.len();
    assert_eq!(totals(&plain), (short_and_long, LONG.len() + OTHER.len()));

    let mut plain = start.clone();
    plain.extend_values(values.into_iter());
    let mut trusted = start.clone();
    trusted.extend_trusted_len_values(values.into_iter());
    assert_eq!(elements(&plain), elements(&trusted));
    assert_eq!(totals(&plain), totals(&trusted));
    assert!(plain.validity_ref().is_none() && trusted.validity_ref().is_none());
}

#[test]
fn extending_by_nothing_changes_nothing() {
    let mut array = MutableBinaryViewArray::<str>::from(&[Some("a")]);
    array.extend(Vec::new().into_iter());
    assert_eq!(elements(&array), some(&["a"]));
    assert!(array.validity_ref().is_none());
}

#[test]
fn array_of_a_slice_has_a_bitmap_only_for_nulls() {
    let without = MutableBinaryViewArray::<str>::from(&[Some("a"), Some("b")]);
    assert!(without.validity_ref().is_none());
    let with = MutableBinaryViewArray::<str>::from(&[Some("a"), None]);
    let bits = with.validity_ref().unwrap();
    assert_eq!((bits.len(), bits.get(0), bits.get(1)), (2, true, false));
}

#[test]
fn two_goes_are_one() {
    let mut twice = MutableBinaryViewArray::<str>::new();
    twice.extend(vec![Some("a"), None].into_iter());
    twice.extend(vec![Some(LONG)].into_iter());
    let once = MutableBinaryViewArray::<str>::from(&[Some("a"), None, Some(LONG)]);
    assert_eq!(elements(&twice), elements(&once));
    assert_eq!(totals(&twice), totals(&once));
}

#[test]
fn views_into_other_buffers_are_copied() {
    let data = Buffer::from(format!("....{LONG}....").into_bytes());
    let empty = Buffer::from(Vec::new());
    let view = BinaryView::new_from_bytes(LONG.as_bytes(), 1, 4);
    let mut array = MutableBinaryViewArray::<str>::with_capacity(2);
    array.push_view(view, &[empty, data]);
    array.push_view(BinaryView::new_inline(b"short"), &[]);
    assert_eq!(elements(&array), some(&[LONG, "short"]));
    assert_eq!(array.views()[0].buffer_idx(), 0);
    assert_eq!(totals(&array), (LONG.len() + 5, LONG.len()));
}

#[test]
fn pushed_buffer_is_found() {
    let mut array = MutableBinaryViewArray::<str>::new();
    array.push_value(LONG);
    let idx = array.push_buffer(Buffer::from(OTHER.as_bytes().to_vec()));
    assert_eq!(idx, 1);
    assert_eq!(array.completed_buffers().len(), 2);
    assert_eq!(array.completed_buffers()[0].as_slice(), LONG.as_bytes());
    array.views_mut().push(BinaryView::new_from_bytes(OTHER.as_bytes(), idx, 0));
    array.push_value(LONG);
    assert_eq!(elements(&array), some(&[LONG, OTHER, LONG]));
    assert_eq!(array.views()[2].buffer_idx(), 2);
    assert_eq!(array.push_buffer(Buffer::from(Vec::new())), 3);
    assert_eq!(totals(&array).1, 2 * LONG.len() + OTHER.len());
}

#[test]
fn views_of_the_array_are_read() {
    let mut array = MutableBinaryViewArray::<str>::new();
    array.push_value(LONG);
    let tail = BinaryView::new_from_bytes(&LONG.as_bytes()[2..], 0, 2);
    assert_eq!(array.value_from_view_unchecked(&tail), &LONG[2..]);
    assert_eq!(array.value_unchecked(0), LONG);
    let inline = BinaryView::new_inline(b"xyz");
    assert_eq!(array.value_from_view_unchecked(&inline), "xyz");
}

#[test]
fn room_does_not_change_the_elements() {
    let mut array = MutableBinaryViewArray::<str>::from(&[Some("a"), None]);
    array.reserve(1000);
    assert!(array.capacity() >= 1002);
    array.shrink_to_fit();
    assert!(array.capacity() >= 2 && array.capacity() < 1002);
    assert_eq!(elements(&array), vec![Some("a".to_string()), None]);
}

#[test]
fn clone_is_independent() {
    let mut array = MutableBinaryViewArray::<str>::from(&[Some(LONG), None]);
    let copy = array.clone();
    array.push_value(OTHER);
    assert_eq!(copy.len(), 2);
    assert_eq!(elements(&copy), vec![Some(LONG.to_string()), None]);
}

#[test]
fn everyday_items_can_be_pushed() {
    let array = MutableBinaryViewArray::<str>::from(&[Some(LONG), None]);
    assert!(array.can_push(None));
    assert!(array.can_push(Some("short")));
    assert!(array.can_push(Some(LONG)));
}

#[test]
fn multibyte_strings_are_read_back() {
    let text = "gr\u{fc}\u{df}e an alle \u{1f980}";
    let mut array = MutableBinaryViewArray::<str>::new();
    array.push_value(text);
    array.push_value("\u{e9}");
    assert_eq!(array.value(0), text);
    assert_eq!(array.value(1), "\u{e9}");
}
