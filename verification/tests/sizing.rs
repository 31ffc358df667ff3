use blind_image_steganography::sizing::pixels_after_resizing;

#[test]
fn image_is_shrunk_towards_what_the_payload_needs() {
    assert_eq!(pixels_after_resizing(1000, 100, Some(50), None), Some(100));
    assert_eq!(pixels_after_resizing(1000, 100, Some(400), None), Some(400));
    assert_eq!(pixels_after_resizing(1000, 100, Some(1000), None), None);
    assert_eq!(pixels_after_resizing(1000, 100, Some(2000), Some(5000)), None);
    assert_eq!(pixels_after_resizing(1000, 100, None, Some(5000)), None);
}

#[test]
fn image_is_grown_towards_what_the_payload_needs() {
    assert_eq!(pixels_after_resizing(100, 1000, None, Some(5000)), Some(1000));
    assert_eq!(pixels_after_resizing(100, 1000, Some(10), Some(400)), Some(400));
    assert_eq!(pixels_after_resizing(100, 1000, None, Some(100)), None);
    assert_eq!(pixels_after_resizing(100, 1000, None, Some(50)), None);
    assert_eq!(pixels_after_resizing(100, 1000, Some(10), None), None);
}

#[test]
fn image_of_the_needed_size_stays() {
    assert_eq!(pixels_after_resizing(100, 100, Some(10), Some(5000)), None);
    assert_eq!(pixels_after_resizing(0, 0, Some(0), Some(0)), None);
}
