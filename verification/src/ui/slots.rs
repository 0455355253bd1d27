//! What the thumbnail slots of a list last emitted to the terminal.
//!
//! Thumbnails are emitted out-of-band of the cells of the screen, so each slot remembers what it
//! last emitted and only writes to the terminal when its image or position changes.

use vstd::prelude::*;

use crate::geometry::Vec2;
use crate::text::same_text;

verus! {

/// What a thumbnail slot last emitted to the terminal.
#[derive(Clone, Debug, PartialEq, Eq)]
pub enum SlotImage {
    Empty,
    /// The image was emitted on the first frame after invalidation, but the cells of that frame
    /// may have overwritten it. It is emitted again on a second frame, where it sticks.
    Pending,
    Blank,
    Image(String),
}

/// What a slot shows, with the address of an image as a sequence of characters.
pub ghost enum Shown {
    Empty,
    Pending,
    Blank,
    Image(Seq<char>),
}

impl View for SlotImage {
    type V = Shown;

    open spec fn view(&self) -> Shown {
        match self {
            SlotImage::Empty => Shown::Empty,
            SlotImage::Pending => Shown::Pending,
            SlotImage::Blank => Shown::Blank,
            SlotImage::Image(url) => Shown::Image(url@),
        }
    }
}

impl SlotImage {
    pub fn same_as(&self, other: &SlotImage) -> (same: bool)
        ensures
            same == (self@ == other@),
    {
        match (self, other) {
            (SlotImage::Empty, SlotImage::Empty) => true,
            (SlotImage::Pending, SlotImage::Pending) => true,
            (SlotImage::Blank, SlotImage::Blank) => true,
            (SlotImage::Image(a), SlotImage::Image(b)) => same_text(a.as_str(), b.as_str()),
            _ => false,
        }
    }

    /// A copy that shows the same.
    pub fn copy(&self) -> (copy: SlotImage)
        ensures
            copy@ == self@,
    {
        match self {
            SlotImage::Empty => SlotImage::Empty,
            SlotImage::Pending => SlotImage::Pending,
            SlotImage::Blank => SlotImage::Blank,
            SlotImage::Image(url) => SlotImage::Image(url.clone()),
        }
    }
}

#[derive(Clone, Debug, PartialEq, Eq)]
pub struct SlotState {
    pub image: SlotImage,
    pub position: Vec2,
}

pub ghost struct SlotView {
    pub image: Shown,
    pub position: Vec2,
}

impl View for SlotState {
    type V = SlotView;

    open spec fn view(&self) -> SlotView {
        SlotView { image: self.image@, position: self.position }
    }
}

/// When a slot is sure to show what was emitted, and what it shows while an image is not ready.
#[derive(Clone, Copy, Debug, PartialEq, Eq, Structural)]
pub enum SlotRule {
    /// An emission sticks at once. While an image is not ready, only a stale image is blanked.
    Once,
    /// An emission sticks when it is made a second time. While an image is not ready, the slot is
    /// blanked whatever it showed.
    Twice,
}

/// The slots of a list.
#[derive(Clone, Debug)]
pub struct Slots {
    states: Vec<SlotState>,
    rule: SlotRule,
}

/// What has to be fetched to bring a slot up to date.
#[derive(Clone, Debug, PartialEq, Eq)]
pub enum SlotRequest {
    /// The slot is up to date.
    Nothing,
    /// The image at an address.
    Image(String),
    /// An image of the background.
    Blank,
}

pub ghost enum RequestView {
    Nothing,
    Image(Seq<char>),
    Blank,
}

impl View for SlotRequest {
    type V = RequestView;

    open spec fn view(&self) -> RequestView {
        match self {
            SlotRequest::Nothing => RequestView::Nothing,
            SlotRequest::Image(url) => RequestView::Image(url@),
            SlotRequest::Blank => RequestView::Blank,
        }
    }
}

/// What a slot has shown before anything was emitted.
pub open spec fn untouched() -> SlotView {
    SlotView { image: Shown::Empty, position: Vec2 { x: 0, y: 0 } }
}

/// What has to be fetched for a slot that shall show `desired` at `position`. A slot that showed
/// nothing there is not blanked.
pub open spec fn request_for(state: SlotView, desired: Shown, position: Vec2) -> RequestView {
    if state.image == desired && state.position == position {
        RequestView::Nothing
    } else {
        match desired {
            Shown::Image(url) => RequestView::Image(url),
            _ => if state.image == Shown::Empty && state.position == position {
                RequestView::Nothing
            } else {
                RequestView::Blank
            },
        }
    }
}

/// What a slot shows once what was desired has been emitted.
pub open spec fn after_emission(
    state: SlotView,
    rule: SlotRule,
    desired: Shown,
    position: Vec2,
) -> SlotView {
    SlotView {
        image: if rule == SlotRule::Twice && state.image != Shown::Pending {
            Shown::Pending
        } else {
            desired
        },
        position,
    }
}

/// Whether a slot is blanked while its image is not ready.
pub open spec fn blanks_meanwhile(state: SlotView, rule: SlotRule) -> bool {
    match rule {
        SlotRule::Once => state.image is Image,
        SlotRule::Twice => state.image != Shown::Blank,
    }
}

impl Slots {
    pub closed spec fn list(self) -> Seq<SlotView> {
        self.states@.map_values(|s: SlotState| s@)
    }

    pub closed spec fn follows(self) -> SlotRule {
        self.rule
    }

    /// What a slot shows; slots beyond those that were used are untouched.
    pub open spec fn at(self, slot: int) -> SlotView {
        if 0 <= slot < self.list().len() {
            self.list()[slot]
        } else {
            untouched()
        }
    }

    pub fn new(rule: SlotRule) -> (slots: Slots)
        ensures
            slots.list() == Seq::<SlotView>::empty(),
            slots.follows() == rule,
    {
        let slots = Slots { states: Vec::new(), rule };
        assert(slots.list() =~= Seq::<SlotView>::empty());
        slots
    }

    /// Forgets what was emitted, so that everything is emitted again.
    pub fn clear(&mut self)
        ensures
            final(self).list() == Seq::<SlotView>::empty(),
            final(self).follows() == old(self).follows(),
    {
        self.states = Vec::new();
        assert(self.list() =~= Seq::<SlotView>::empty());
    }

    /// Makes room for a slot.
    fn reach(&mut self, slot: usize)
        requires
            slot < usize::MAX,
        ensures
            final(self).list().len() >= slot + 1,
            final(self).list().len() >= old(self).list().len(),
            final(self).follows() == old(self).follows(),
            forall|i: int| #[trigger] final(self).at(i) == old(self).at(i),
    {
        while self.states.len() <= slot
            invariant
                slot < usize::MAX,
                self.list().len() >= old(self).list().len(),
                self.list().len() == self.states@.len(),
                self.follows() == old(self).follows(),
                forall|i: int| #[trigger] self.at(i) == old(self).at(i),
            decreases slot + 1 - self.states@.len(),
        {
            let ghost before = *self;
            let ghost list = self.list();
            self.states.push(SlotState { image: SlotImage::Empty, position: Vec2 { x: 0, y: 0 } });
            assert(self.list() =~= list.push(untouched()));
            assert forall|i: int| #[trigger] self.at(i) == old(self).at(i) by {
                assert(self.at(i) == before.at(i));
            }
        }
    }

    fn put(&mut self, slot: usize, image: SlotImage, position: Vec2)
        requires
            slot < usize::MAX,
        ensures
            final(self).follows() == old(self).follows(),
            final(self).at(slot as int) == (SlotView { image: image@, position }),
            forall|i: int| i != slot ==> #[trigger] final(self).at(i) == old(self).at(i),
    {
        self.reach(slot);
        let ghost before = *self;
        self.states.set(slot, SlotState { image, position });
        assert(self.list() =~= before.list().update(
            slot as int,
            SlotView { image: image@, position },
        ));
        assert forall|i: int| i != slot implies #[trigger] self.at(i) == old(self).at(i) by {
            assert(self.at(i) == before.at(i));
        }
    }

    fn image_at(&self, slot: usize) -> (state: SlotState)
        ensures
            state@ == self.at(slot as int),
    {
        if slot < self.states.len() {
            let state = &self.states[slot];
            assert(self.list()[slot as int] == state@);
            SlotState { image: state.image.copy(), position: state.position }
        } else {
            SlotState { image: SlotImage::Empty, position: Vec2 { x: 0, y: 0 } }
        }
    }

    /// What has to be fetched for a slot that shall show `desired` at `position`.
    pub fn request(&self, slot: usize, desired: &SlotImage, position: Vec2) -> (request:
        SlotRequest)
        ensures
            request@ == request_for(self.at(slot as int), desired@, position),
    {
        let state = self.image_at(slot);
        let here = state.position.x == position.x && state.position.y == position.y;
        if state.image.same_as(desired) && here {
            return SlotRequest::Nothing;
        }
        match desired {
            SlotImage::Image(url) => SlotRequest::Image(url.clone()),
            _ => if matches!(state.image, SlotImage::Empty) && here {
                SlotRequest::Nothing
            } else {
                SlotRequest::Blank
            },
        }
    }

    /// Keeps that what was desired for a slot has been emitted. Tells whether it has to be emitted
    /// once more on another frame.
    pub fn emitted(&mut self, slot: usize, desired: &SlotImage, position: Vec2) -> (again: bool)
        requires
            slot < usize::MAX,
        ensures
            final(self).follows() == old(self).follows(),
            final(self).at(slot as int) == after_emission(
                old(self).at(slot as int),
                old(self).follows(),
                desired@,
                position,
            ),
            forall|i: int| i != slot ==> #[trigger] final(self).at(i) == old(self).at(i),
            again == (old(self).follows() == SlotRule::Twice && old(self).at(slot as int).image
                != Shown::Pending),
    {
        let pending = matches!(self.image_at(slot).image, SlotImage::Pending);
        let again = match self.rule {
            SlotRule::Twice => !pending,
            SlotRule::Once => false,
        };
        let image = if again {
            SlotImage::Pending
        } else {
            desired.copy()
        };
        self.put(slot, image, position);
        again
    }

    /// Whether a slot has to be blanked while its image is not ready, so that it does not show
    /// another one.
    pub fn wants_blank(&self, slot: usize) -> (yes: bool)
        ensures
            yes == blanks_meanwhile(self.at(slot as int), self.follows()),
    {
        let state = self.image_at(slot);
        match self.rule {
            SlotRule::Once => matches!(state.image, SlotImage::Image(_)),
            SlotRule::Twice => !matches!(state.image, SlotImage::Blank),
        }
    }

    /// Keeps that a slot has been blanked while its image is not ready.
    pub fn blanked(&mut self, slot: usize, position: Vec2)
        requires
            slot < usize::MAX,
        ensures
            final(self).follows() == old(self).follows(),
            final(self).at(slot as int) == (SlotView { image: Shown::Blank, position }),
            forall|i: int| i != slot ==> #[trigger] final(self).at(i) == old(self).at(i),
    {
        self.put(slot, SlotImage::Blank, position);
    }

    /// The places of the slots that show something.
    pub fn occupied(&self) -> (positions: Vec<Vec2>)
        ensures
            positions@ == occupied_positions(self.list()),
    {
        let mut positions: Vec<Vec2> = Vec::new();
        let mut i: usize = 0;
        assert(self.list().take(0) =~= Seq::<SlotView>::empty());
        while i < self.states.len()
            invariant
                i <= self.states@.len(),
                positions@ == occupied_positions(self.list().take(i as int)),
            decreases self.states@.len() - i,
        {
            let ghost head = self.list().take(i + 1);
            assert(head.drop_last() =~= self.list().take(i as int));
            assert(head.last() == self.states@[i as int]@);
            if !matches!(self.states[i].image, SlotImage::Empty) {
                positions.push(self.states[i].position);
            }
            i += 1;
        }
        assert(self.list().take(i as int) =~= self.list());
        positions
    }
}

/// The places of the slots that show something.
pub open spec fn occupied_positions(list: Seq<SlotView>) -> Seq<Vec2>
    decreases list.len(),
{
    if list.len() == 0 {
        Seq::empty()
    } else {
        let before = occupied_positions(list.drop_last());
        if list.last().image == Shown::Empty {
            before
        } else {
            before.push(list.last().position)
        }
    }
}

/// What is desired is emitted once, or twice by the other rule unless the first emission was made
/// already; from there on the slot is left alone.
pub proof fn lemma_emission_settles(
    state: SlotView,
    rule: SlotRule,
    desired: Shown,
    position: Vec2,
)
    requires
        desired != Shown::Pending,
    ensures
        ({
            let once = after_emission(state, rule, desired, position);
            let twice = after_emission(once, rule, desired, position);
            if rule == SlotRule::Once || state.image == Shown::Pending {
                request_for(once, desired, position) == RequestView::Nothing
            } else {
                request_for(twice, desired, position) == RequestView::Nothing
            }
        }),
{
}

/// An image is fetched just where it is desired and does not show yet in that place; what shows
/// there already is left alone.
pub proof fn lemma_only_what_is_missing_is_fetched(state: SlotView, desired: Shown, position: Vec2)
    ensures
        state.image == desired && state.position == position ==> request_for(
            state,
            desired,
            position,
        ) is Nothing,
        desired matches Shown::Image(url) ==> (request_for(state, desired, position)
            == RequestView::Image(url) <==> !(state.image == desired && state.position
            == position)),
        !(desired is Image) ==> !(request_for(state, desired, position) is Image),
        !(desired is Image) && state.image is Image ==> request_for(state, desired, position)
            is Blank,
{
}

/// A slot of an image that is not ready is blanked if it may show another one.
pub proof fn lemma_slots_are_blanked_meanwhile(state: SlotView)
    ensures
        state.image is Image ==> blanks_meanwhile(state, SlotRule::Once) && blanks_meanwhile(
            state,
            SlotRule::Twice,
        ),
        state.image is Blank ==> !blanks_meanwhile(state, SlotRule::Once) && !blanks_meanwhile(
            state,
            SlotRule::Twice,
        ),
        state.image is Empty ==> !blanks_meanwhile(state, SlotRule::Once),
{
}

/// What was emitted is held in the place in which it was; by the second rule it counts only after
/// the second emission.
pub proof fn lemma_emissions_are_held(state: SlotView, desired: Shown, position: Vec2)
    ensures
        after_emission(state, SlotRule::Once, desired, position) == (SlotView {
            image: desired,
            position,
        }),
        after_emission(state, SlotRule::Twice, desired, position).position == position,
        !(state.image is Pending) ==> after_emission(
            state,
            SlotRule::Twice,
            desired,
            position,
        ).image is Pending,
        state.image is Pending ==> after_emission(
            state,
            SlotRule::Twice,
            desired,
            position,
        ).image == desired,
{
}

/// The places are those of all slots that show something, in their order.
pub proof fn lemma_places_of_what_shows(list: Seq<SlotView>, slot: SlotView)
    ensures
        slot.image is Empty ==> occupied_positions(list.push(slot)) == occupied_positions(list),
        !(slot.image is Empty) ==> occupied_positions(list.push(slot)) == occupied_positions(
            list,
        ).push(slot.position),
        occupied_positions(Seq::empty()).len() == 0,
{
    assert(list.push(slot).drop_last() =~= list);
}

/// A slot shows what was emitted for it, and one for which nothing was emitted shows nothing.
pub proof fn lemma_unused_slots_show_nothing(slots: Slots, slot: int)
    ensures
        0 <= slot < slots.list().len() ==> slots.at(slot) == slots.list()[slot],
        slot >= slots.list().len() ==> slots.at(slot).image is Empty,
{
}

} // verus!
