use ncspot_core::ui::slots::SlotImage;

#[test]
fn slot_image_change_detection() {
    let a = SlotImage::Image("url-a".into());
    let b = SlotImage::Image("url-b".into());
    assert_ne!(a, b);
    assert_eq!(a, SlotImage::Image("url-a".into()));
    assert_ne!(SlotImage::Blank, SlotImage::Empty);
}
