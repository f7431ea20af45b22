use printa_ble::bitmap::{ink, Bitmap, BYTES_PER_ROW, WIDTH};

#[test]
fn a_new_bitmap_is_white() {
    let b = Bitmap::new(3);
    assert_eq!(b.height(), 3);
    assert!((0..3).all(|y| (0..WIDTH).all(|x| !b.get(x, y))));
    assert_eq!(WIDTH, 8 * BYTES_PER_ROW);
}

#[test]
fn pixels_are_packed_with_the_leftmost_in_the_highest_bit() {
    let mut b = Bitmap::new(2);
    b.set(0, 1, true);
    b.set(9, 1, true);
    b.set(383, 1, true);
    assert_eq!(b.row(1)[0], 0x80);
    assert_eq!(b.row(1)[1], 0x40);
    assert_eq!(b.row(1)[47], 0x01);
    assert!(b.row(0).iter().all(|&byte| byte == 0));
    b.set(9, 1, false);
    assert_eq!(b.row(1)[1], 0);
    assert!(b.get(0, 1) && !b.get(9, 1) && b.get(383, 1));
}

#[test]
fn ink_off_the_paper_is_dropped() {
    let mut b = Bitmap::new(2);
    for (x, y) in [(-1, 0), (384, 0), (0, -1), (0, 2), (i128::MAX, i128::MIN)] {
        ink(&mut b, x, y);
    }
    assert!(b.row(0).iter().chain(b.row(1)).all(|&byte| byte == 0));
    ink(&mut b, 383, 1);
    assert!(b.get(383, 1));
}

#[test]
fn appending_stacks_rows() {
    let mut a = Bitmap::new(1);
    a.set(5, 0, true);
    let mut b = a.clone();
    b.push_blank(2);
    b.append(&a);
    assert_eq!(b.height(), 4);
    assert!(b.get(5, 0) && !b.get(5, 1) && !b.get(5, 2) && b.get(5, 3));
}
