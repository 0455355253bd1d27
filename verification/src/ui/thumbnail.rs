//! How the thumbnails of a list get to the terminal: its slots and the image cache together.

use vstd::prelude::*;

use super::cover::sixel::{
    blank_of, emission, emit, image_of, joined_by_blank, schedules, KeyView, SixelImageCache,
};
use super::slots::{blanks_meanwhile, request_for, RequestView, SlotImage, SlotRequest, Slots};
use crate::geometry::Vec2;

verus! {

/// What has to be written to the terminal for a slot.
#[derive(Clone, Debug, PartialEq, Eq)]
pub enum ThumbnailStep {
    Nothing,
    /// Write this, and call [`written`] if that succeeds.
    Write {
        text: String,
        /// Whether it blanks out the slot while its image is not ready.
        meanwhile: bool,
    },
}

/// [`ThumbnailStep`] with its text as a sequence of characters.
pub ghost enum StepView {
    Nothing,
    Write { text: Seq<char>, meanwhile: bool },
}

impl View for ThumbnailStep {
    type V = StepView;

    open spec fn view(&self) -> StepView {
        match self {
            ThumbnailStep::Nothing => StepView::Nothing,
            ThumbnailStep::Write { text, meanwhile } => StepView::Write {
                text: text@,
                meanwhile: *meanwhile,
            },
        }
    }
}

/// The step that writes an image, if there is one.
pub open spec fn writes(image: Option<Seq<char>>, position: Vec2, meanwhile: bool) -> StepView {
    match image {
        Some(image) => StepView::Write {
            text: emission(image, position.x as int, position.y as int),
            meanwhile,
        },
        None => StepView::Nothing,
    }
}

fn write_image(image: Option<String>, position: Vec2, meanwhile: bool) -> (step: ThumbnailStep)
    requires
        position.x < usize::MAX,
        position.y < usize::MAX,
    ensures
        step@ == writes(crate::text::maybe_text(image), position, meanwhile),
{
    match image {
        Some(image) => ThumbnailStep::Write { text: emit(image.as_str(), position), meanwhile },
        None => ThumbnailStep::Nothing,
    }
}

proof fn lemma_pushed_blank(
    images: Seq<((usize, usize), Seq<char>)>,
    size: (usize, usize),
    image: Seq<char>,
)
    requires
        blank_of(images, size) is None,
    ensures
        blank_of(images.push((size, image)), size) == Some(image),
    decreases images.len(),
{
    let longer = images.push((size, image));
    if images.len() == 0 {
        assert(longer[0].0 == size);
    } else {
        assert(longer[0] == images[0]);
        assert(longer.skip(1) =~= images.skip(1).push((size, image)));
        lemma_pushed_blank(images.skip(1), size, image);
    }
}

fn blank_image(images: &mut SixelImageCache, side_px: usize) -> (image: Option<String>)
    requires
        old(images).wf(),
        4 * (side_px * side_px) <= isize::MAX,
    ensures
        final(images).wf(),
        final(images).ready() == old(images).ready(),
        final(images).awaited() == old(images).awaited(),
        final(images).queue() == old(images).queue(),
        crate::text::maybe_text(image) == if side_px == 0 {
            None
        } else {
            blank_of(final(images).blank_images(), (side_px, side_px))
        },
        joined_by_blank(
            old(images).blank_images(),
            final(images).blank_images(),
            (side_px, side_px),
        ),
{
    let image = images.blank(side_px, side_px);
    proof {
        if side_px > 0 && blank_of(old(images).blank_images(), (side_px, side_px)) is None {
            if image is Some {
                lemma_pushed_blank(
                    old(images).blank_images(),
                    (side_px, side_px),
                    image->0@,
                );
                assert(images.blank_images().last() == ((side_px, side_px), image->0@));
            }
        }
    }
    image
}

/// What has to be written to the terminal so that a slot shows `desired` at `position`. Where its
/// image is not ready, it is put to the jobs of the cache.
pub fn prepare(
    slots: &Slots,
    images: &mut SixelImageCache,
    slot: usize,
    desired: &SlotImage,
    position: Vec2,
    side_px: usize,
) -> (step: ThumbnailStep)
    requires
        old(images).wf(),
        4 * (side_px * side_px) <= isize::MAX,
        position.x < usize::MAX,
        position.y < usize::MAX,
    ensures
        final(images).wf(),
        final(images).ready() == old(images).ready(),
        ({
            let state = slots.at(slot as int);
            let blank = if side_px == 0 {
                None
            } else {
                blank_of(final(images).blank_images(), (side_px, side_px))
            };
            match request_for(state, desired@, position) {
                RequestView::Nothing => {
                    &&& step@ == StepView::Nothing
                    &&& *final(images) == *old(images)
                },
                RequestView::Image(url) => {
                    let key = KeyView { url, width: side_px, height: side_px };
                    let image = if side_px == 0 {
                        None
                    } else {
                        image_of(old(images).ready(), key)
                    };
                    let scheduled = schedules(old(images).ready(), old(images).awaited(), key);
                    &&& if image is None && blanks_meanwhile(state, slots.follows()) {
                        joined_by_blank(
                            old(images).blank_images(),
                            final(images).blank_images(),
                            (side_px, side_px),
                        )
                    } else {
                        final(images).blank_images() == old(images).blank_images()
                    }
                    &&& step@ == if image is Some {
                        writes(image, position, false)
                    } else if blanks_meanwhile(state, slots.follows()) {
                        writes(blank, position, true)
                    } else {
                        StepView::Nothing
                    }
                    &&& final(images).queue() == if scheduled {
                        old(images).queue().push(key)
                    } else {
                        old(images).queue()
                    }
                    &&& final(images).awaited() == if scheduled {
                        old(images).awaited().push(key)
                    } else {
                        old(images).awaited()
                    }
                },
                RequestView::Blank => {
                    &&& step@ == writes(blank, position, false)
                    &&& joined_by_blank(
                        old(images).blank_images(),
                        final(images).blank_images(),
                        (side_px, side_px),
                    )
                    &&& final(images).queue() == old(images).queue()
                    &&& final(images).awaited() == old(images).awaited()
                },
            }
        }),
{
    match slots.request(slot, desired, position) {
        SlotRequest::Nothing => ThumbnailStep::Nothing,
        SlotRequest::Image(url) => {
            let image = images.get(url.as_str(), side_px, side_px);
            if image.is_some() {
                write_image(image, position, false)
            } else if slots.wants_blank(slot) {
                let blank = blank_image(images, side_px);
                write_image(blank, position, true)
            } else {
                ThumbnailStep::Nothing
            }
        },
        SlotRequest::Blank => {
            let blank = blank_image(images, side_px);
            write_image(blank, position, false)
        },
    }
}

/// Keeps what was written for a slot. Tells whether another frame is needed for it to stick.
pub fn written(
    slots: &mut Slots,
    slot: usize,
    desired: &SlotImage,
    position: Vec2,
    meanwhile: bool,
) -> (again: bool)
    requires
        slot < usize::MAX,
    ensures
        final(slots).follows() == old(slots).follows(),
        final(slots).at(slot as int) == if meanwhile {
            super::slots::SlotView { image: super::slots::Shown::Blank, position }
        } else {
            super::slots::after_emission(
                old(slots).at(slot as int),
                old(slots).follows(),
                desired@,
                position,
            )
        },
        forall|i: int| i != slot ==> #[trigger] final(slots).at(i) == old(slots).at(i),
        again == (!meanwhile && old(slots).follows() == super::slots::SlotRule::Twice && old(
            slots,
        ).at(slot as int).image != super::slots::Shown::Pending),
{
    if meanwhile {
        slots.blanked(slot, position);
        false
    } else {
        slots.emitted(slot, desired, position)
    }
}

/// An image that is ready is written at its cell; one that is not is not written.
pub proof fn lemma_ready_images_are_written(image: Seq<char>, position: Vec2, meanwhile: bool)
    ensures
        writes(None, position, meanwhile) is Nothing,
        writes(Some(image), position, meanwhile) matches StepView::Write { text, meanwhile: m }
            && m == meanwhile && text == emission(image, position.x as int, position.y as int),
{
}

} // verus!
