use ncspot_core::geometry::Vec2;
use ncspot_core::ui::cover::sixel::{emit, CacheKey, SixelImageCache};
use ncspot_core::ui::slots::{SlotImage, SlotRequest, SlotRule, Slots};
use ncspot_core::ui::thumbnail::{prepare, written, ThumbnailStep};

const HERE: Vec2 = Vec2 { x: 1, y: 2 };

fn image(url: &str) -> SlotImage {
    SlotImage::Image(url.into())
}

fn key(url: &str) -> CacheKey {
    CacheKey {
        url: url.into(),
        width: 6,
        height: 6,
    }
}

#[test]
fn a_stale_image_is_blanked_meanwhile() {
    let mut slots = Slots::new(SlotRule::Once);
    let mut images = SixelImageCache::new();
    images.store(&key("a"), "A".into());
    let step = prepare(&slots, &mut images, 0, &image("a"), HERE, 6);
    assert_eq!(
        step,
        ThumbnailStep::Write {
            text: emit("A", HERE),
            meanwhile: false
        }
    );
    assert!(!written(&mut slots, 0, &image("a"), HERE, false));
    assert_eq!(
        prepare(&slots, &mut images, 0, &image("a"), HERE, 6),
        ThumbnailStep::Nothing
    );
    // The image of another address is not ready.
    let blank = images.blank(6, 6).unwrap();
    let step = prepare(&slots, &mut images, 0, &image("b"), HERE, 6);
    assert_eq!(
        step,
        ThumbnailStep::Write {
            text: emit(&blank, HERE),
            meanwhile: true
        }
    );
    assert!(!written(&mut slots, 0, &image("b"), HERE, true));
    assert_eq!(
        prepare(&slots, &mut images, 0, &image("b"), HERE, 6),
        ThumbnailStep::Nothing
    );
    assert_eq!(images.take_job(), Some(key("b")));
    assert!(images.take_job().is_none());
}

#[test]
fn an_untouched_slot_is_not_blanked() {
    let slots = Slots::new(SlotRule::Once);
    let mut images = SixelImageCache::new();
    let origin = Vec2 { x: 0, y: 0 };
    assert_eq!(
        prepare(&slots, &mut images, 3, &SlotImage::Blank, origin, 6),
        ThumbnailStep::Nothing
    );
    assert_eq!(
        prepare(&slots, &mut images, 3, &image("a"), HERE, 6),
        ThumbnailStep::Nothing
    );
    assert_eq!(
        prepare(&slots, &mut images, 3, &image("a"), HERE, 0),
        ThumbnailStep::Nothing
    );
    assert!(matches!(
        prepare(&slots, &mut images, 3, &SlotImage::Blank, HERE, 6),
        ThumbnailStep::Write {
            meanwhile: false,
            ..
        }
    ));
}

#[test]
fn lists_emit_a_thumbnail_twice() {
    let mut slots = Slots::new(SlotRule::Twice);
    let mut images = SixelImageCache::new();
    images.store(&key("a"), "A".into());
    assert!(written(&mut slots, 0, &image("a"), HERE, false));
    assert!(matches!(
        prepare(&slots, &mut images, 0, &image("a"), HERE, 6),
        ThumbnailStep::Write {
            meanwhile: false,
            ..
        }
    ));
    assert!(!written(&mut slots, 0, &image("a"), HERE, false));
    assert_eq!(
        prepare(&slots, &mut images, 0, &image("a"), HERE, 6),
        ThumbnailStep::Nothing
    );
    // A slot of a list is blanked whatever it showed.
    assert!(matches!(
        prepare(&slots, &mut images, 1, &image("b"), HERE, 6),
        ThumbnailStep::Write {
            meanwhile: true,
            ..
        }
    ));
}

#[test]
fn slots_that_show_something_are_occupied() {
    let mut slots = Slots::new(SlotRule::Once);
    assert!(slots.occupied().is_empty());
    slots.emitted(2, &image("a"), HERE);
    slots.emitted(0, &SlotImage::Empty, Vec2 { x: 7, y: 7 });
    assert_eq!(slots.occupied(), vec![HERE]);
    assert_eq!(slots.request(2, &image("a"), HERE), SlotRequest::Nothing);
    assert_eq!(
        slots.request(2, &image("b"), HERE),
        SlotRequest::Image("b".into())
    );
    assert_eq!(slots.request(2, &SlotImage::Blank, HERE), SlotRequest::Blank);
    slots.clear();
    assert!(slots.occupied().is_empty());
}
