//! An image block's room.

use mail_app::image::{placeholder_ratio, spacer};

#[test]
fn a_one_pixel_image_is_a_spacer() {
    assert!(spacer(Some(1), Some(1)));
    assert!(spacer(Some(600), Some(1)));
    assert!(spacer(None, Some(0)));
    assert!(!spacer(Some(600), Some(300)));
    assert!(!spacer(None, None));
}

#[test]
fn a_placeholder_holds_the_declared_shape_within_eight_to_one() {
    assert_eq!(placeholder_ratio(Some(600), Some(300)), "aspect-ratio: 600 / 300");
    assert_eq!(placeholder_ratio(Some(800), Some(100)), "aspect-ratio: 800 / 100");
    assert_eq!(placeholder_ratio(Some(801), Some(100)), "");
    assert_eq!(placeholder_ratio(Some(100), Some(4_000_000_000)), "");
    assert_eq!(placeholder_ratio(Some(0), Some(10)), "");
    assert_eq!(placeholder_ratio(None, Some(10)), "");
}
