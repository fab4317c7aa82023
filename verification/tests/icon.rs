use qol_tray::tray::icon::{
    add_notification_dot, dot_color, is_within_dot, set_pixel, DOT_RADIUS, ICON_SIZE,
};

#[test]
fn points_are_in_the_dot_up_to_its_radius() {
    assert!(is_within_dot(5, 5, 5, 5, 0));
    assert!(is_within_dot(8, 9, 5, 5, 25));
    assert!(!is_within_dot(8, 10, 5, 5, 25));
    assert!(is_within_dot(-3, -4, 0, 0, 25));
    assert!(!is_within_dot(i32::MAX, i32::MIN, i32::MIN, i32::MAX, i32::MAX));
    assert!(!is_within_dot(0, 0, 0, 0, -1));
}

#[test]
fn a_pixel_is_four_bytes() {
    let mut data = vec![0u8; 4 * 3 * 3];
    set_pixel(&mut data, 2, 1, 3, [1, 2, 3, 4]);
    let mut expected = vec![0u8; 36];
    expected[20..24].copy_from_slice(&[1, 2, 3, 4]);
    assert_eq!(data, expected);
    set_pixel(&mut data, 0, 0, 3, [9, 9, 9, 9]);
    expected[0..4].copy_from_slice(&[9, 9, 9, 9]);
    assert_eq!(data, expected);
}

#[test]
fn the_dot_is_drawn_into_the_upper_right_corner() {
    let size = ICON_SIZE;
    assert_eq!(size, 64);
    assert_eq!(DOT_RADIUS, 8);
    assert_eq!(dot_color(), [230, 150, 0, 255]);
    let mut data = vec![7u8; (4 * size * size) as usize];
    add_notification_dot(&mut data, size);
    let mut painted = 0;
    for y in 0..size as i32 {
        for x in 0..size as i32 {
            let idx = ((y * size as i32 + x) * 4) as usize;
            let dx = x - 54;
            let dy = y - 10;
            if dx * dx + dy * dy <= 64 {
                assert_eq!(&data[idx..idx + 4], &[230, 150, 0, 255], "pixel {},{}", x, y);
                painted += 1;
            } else {
                assert_eq!(&data[idx..idx + 4], &[7, 7, 7, 7], "pixel {},{}", x, y);
            }
        }
    }
    assert_eq!(painted, 197);

    let mut small = vec![1u8; 4 * 4 * 4];
    add_notification_dot(&mut small, 4);
    assert_eq!(&small[0..4], &[1, 1, 1, 1]);
    let mut none: Vec<u8> = vec![];
    add_notification_dot(&mut none, 0);
    assert!(none.is_empty());
}
