use binview::{Bitmap, MutableBitmap};

fn bits(bitmap: &MutableBitmap) -> Vec<bool> {
    (0..bitmap.len()).map(|i| bitmap.get(i)).collect()
}

#[test]
fn bits_are_pushed_and_read() {
    let mut bitmap = MutableBitmap::new();
    let expected: Vec<bool> = (0..21).map(|i| i % 3 == 0).collect();
    for b in &expected {
        bitmap.push(*b);
    }
    assert_eq!(bits(&bitmap), expected);
}

#[test]
fn bits_are_overwritten() {
    let mut bitmap = MutableBitmap::with_capacity(10);
    assert_eq!(bitmap.len(), 0);
    bitmap.extend_constant(10, true);
    bitmap.set(8, false);
    bitmap.set(3, false);
    bitmap.set(3, true);
    let mut expected = vec![true; 10];
    expected[8] = false;
    assert_eq!(bits(&bitmap), expected);
}

#[test]
fn bits_are_extended_across_bytes() {
    let mut bitmap = MutableBitmap::new();
    bitmap.extend_constant(5, true);
    bitmap.extend_constant(9, false);
    bitmap.extend_constant(0, true);
    bitmap.extend_constant(2, true);
    let mut expected = vec![true; 5];
    expected.extend(vec![false; 9]);
    expected.extend(vec![true; 2]);
    assert_eq!(bits(&bitmap), expected);
    let copy = bitmap.clone();
    assert_eq!(bits(&copy), expected);
    let finished = Bitmap::from(bitmap);
    assert_eq!(finished.len(), 16);
    assert!(finished.get(4) && !finished.get(5) && finished.get(15));
}
