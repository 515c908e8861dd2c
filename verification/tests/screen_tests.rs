use src_utils::screen::Screen;

#[test]
fn create_and_fill() {
    let mut s = Screen::new(10, 5);
    assert_eq!(s.width(), 10);
    assert_eq!(s.height(), 5);
    s.fill(0x12, 0x34, 0x56);
    assert_eq!(s.get_pixel(0, 0).unwrap(), (0x12, 0x34, 0x56));
    assert_eq!(s.get_pixel(9, 4).unwrap(), (0x12, 0x34, 0x56));
}

#[test]
fn set_and_get_pixel() {
    let mut s = Screen::new(3, 3);
    assert!(s.set_pixel(1, 1, 10, 20, 30));
    assert_eq!(s.get_pixel(1, 1).unwrap(), (10, 20, 30));
    assert!(!s.set_pixel(4, 4, 1, 2, 3));
}

#[test]
fn resize_keeps_correct_length() {
    let mut s = Screen::new(4, 4);
    let old_len = s.raw_pixels().len();
    s.resize(2, 2);
    assert_eq!(s.raw_pixels().len(), 2 * 2 * 3);
    assert!(s.raw_pixels().len() < old_len);
}

#[test]
fn new_screen_is_black() {
    let s = Screen::new(2, 3);
    assert_eq!(s.raw_pixels(), &[0u8; 18][..]);
    assert_eq!(s.get_pixel(1, 2), Some((0, 0, 0)));
    assert_eq!(s.get_pixel(2, 0), None);
    assert_eq!(s.get_pixel(0, 3), None);
}

#[test]
fn set_pixel_leaves_others() {
    let mut s = Screen::new(3, 2);
    s.fill(1, 2, 3);
    assert!(s.set_pixel(2, 1, 9, 8, 7));
    assert_eq!(s.get_pixel(2, 1), Some((9, 8, 7)));
    assert_eq!(s.get_pixel(1, 1), Some((1, 2, 3)));
    assert_eq!(s.get_pixel(2, 0), Some((1, 2, 3)));
    assert!(!s.set_pixel(3, 0, 0, 0, 0));
    assert_eq!(s.get_pixel(0, 0), Some((1, 2, 3)));
}

#[test]
fn resize_grows_with_black() {
    let mut s = Screen::new(1, 1);
    s.fill(5, 6, 7);
    s.resize(2, 1);
    assert_eq!(s.raw_pixels(), &[5, 6, 7, 0, 0, 0][..]);
    assert_eq!(s.width(), 2);
}

#[test]
fn raw_pixels_mut_writes_through() {
    let mut s = Screen::new(1, 1);
    s.raw_pixels_mut()[1] = 99;
    assert_eq!(s.get_pixel(0, 0), Some((0, 99, 0)));
}

#[test]
fn zero_sized_screen() {
    let mut s = Screen::new(0, 7);
    assert!(s.raw_pixels().is_empty());
    s.fill(1, 1, 1);
    assert_eq!(s.get_pixel(0, 0), None);
}
