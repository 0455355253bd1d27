//! Multi-line track list with album-art thumbnails, a persistent filter row and configurable
//! sorting.
//!
//! Rows are fixed-height "slots" (default 2 cells): a square thumbnail on the left and
//! title/artist text beside it.

use vstd::prelude::*;

use super::event::{local, local_position, Event, Key, MouseButton, MouseEvent};
use super::listview::{cell_fits, text_column, ListTarget};
use super::paint::{
    blank_at, colors, highlight_style, primary_style, secondary_style, text_at, CustomColor,
    Effect, Frame, InkView, PaletteColor, Shade, StrokeView, Style,
};
use super::scroll::MOST_CELLS;
use super::slots::{Shown, SlotImage, SlotRule, Slots};
use super::width::{cells_left, cut, cut_to, text_width, width};
use crate::command::{
    Command, GotoMode, JumpMode, MoveAmount, MoveMode, SortDirection, SortKey, TargetMode,
};
use crate::config::{
    icon_text, ConfigValues, IconKind, PlaylistOrders, SortingOrder, TracksPaneConfig,
};
use crate::geometry::{
    div_up, larger, less, max, min, monus, moved, smaller, Vec2,
};
use crate::text::{
    chars_of, contains, decimal, decimal_text, has_part, lowercase, maybe_text, string_of,
};

verus! {

/// What the list reads of a track or an episode.
#[derive(Clone, Debug)]
pub struct TrackRow {
    pub title: String,
    /// The names of the artists, with commas between them.
    pub artist_names: String,
    pub album: String,
    /// The artists and the album, as they are shown.
    pub subtitle: String,
    /// How long the item plays, as it is shown.
    pub duration: String,
    pub is_playing: bool,
    /// Whether the item is a track, and not an episode.
    pub is_track: bool,
    /// How many artists the item has, if it is of a kind that has artists.
    pub artists: Option<usize>,
    pub cover_url: Option<String>,
    pub share_url: Option<String>,
}

/// The state of a track list.
#[derive(Debug)]
pub struct TrackListView {
    pub title: String,
    /// Identifier under which a chosen sort order is persisted (playlist id).
    pub sort_context: Option<String>,
    /// Live filter; matching is case-insensitive over title/artists/album.
    pub filter: String,
    pub filter_active: bool,
    /// Indices into the items that match the filter.
    pub filtered: Vec<usize>,
    pub last_content_len: usize,
    /// Selection and scroll position, in `filtered` indices.
    pub selected: usize,
    pub scroll_top: usize,
    pub last_size: Vec2,
    /// Whether thumbnails can be shown.
    pub images: bool,
    /// Last emitted thumbnail per visible slot.
    pub slots: Slots,
}

/// The options for the tracks pane, if any are set.
pub open spec fn tracks_options(values: ConfigValues) -> Option<TracksPaneConfig> {
    match values.layout {
        Some(layout) => layout.tracks,
        None => None,
    }
}

pub open spec fn track_height(values: ConfigValues) -> int {
    match tracks_options(values) {
        Some(tracks) => match tracks.row_height {
            Some(height) => max(height as int, 1),
            None => 2,
        },
        None => 2,
    }
}

pub open spec fn has_filter_row(values: ConfigValues) -> bool {
    match tracks_options(values) {
        Some(tracks) => tracks.filter_row != Some(false),
        None => true,
    }
}

pub open spec fn header_rows(values: ConfigValues) -> int {
    if has_filter_row(values) {
        1
    } else {
        0
    }
}

/// Width in cells reserved for thumbnails, 0 when disabled or unavailable.
pub open spec fn track_thumb_columns(images: bool, values: ConfigValues, cell_px: Vec2) -> int {
    let enabled = match tracks_options(values) {
        Some(tracks) => tracks.thumbnails != Some(false),
        None => true,
    };
    if enabled && images && track_height(values) >= 2 {
        div_up(track_height(values) * cell_px.y, max(cell_px.x as int, 1))
    } else {
        0
    }
}

/// Number of visible row slots for a size.
pub open spec fn slots_in(size: Vec2, values: ConfigValues) -> int {
    monus(size.y as int, header_rows(values)) / track_height(values)
}

/// Whether an item matches a filter: its title, its artists or its album hold the filter, whatever
/// the case. An empty filter matches everything.
pub open spec fn matches_filter(row: TrackRow, filter: Seq<char>) -> bool {
    let wanted = lowercase(filter);
    ||| filter.len() == 0
    ||| contains(lowercase(row.title@), wanted)
    ||| contains(lowercase(row.artist_names@), wanted)
    ||| contains(lowercase(row.album@), wanted)
}

/// The items among the first `n` that match the filter.
pub open spec fn passing(rows: Seq<TrackRow>, filter: Seq<char>, n: nat) -> Seq<usize>
    decreases n,
{
    if n == 0 {
        Seq::empty()
    } else {
        let before = passing(rows, filter, (n - 1) as nat);
        if matches_filter(rows[n - 1], filter) {
            before.push((n - 1) as usize)
        } else {
            before
        }
    }
}

/// The scroll position that brings the selection into view, with as little movement as it takes.
pub open spec fn clamped_top(top: int, selected: int, slots: int) -> int {
    if selected < top {
        selected
    } else if selected >= top + max(slots, 1) {
        selected + 1 - max(slots, 1)
    } else {
        top
    }
}

// What the rest of the client has to do

/// What follows from an event or a command. Items are given by their position in the content.
#[derive(Clone, Copy, Debug, PartialEq, Eq, Structural)]
pub enum TrackAction {
    Ignore,
    Consume,
    Play(usize),
    PlayNext(usize),
    Queue(usize),
    Save(usize),
    Unsave(usize),
    /// A dialog opens in which the user picks a playlist for the track.
    AddToPlaylist(usize),
    /// The address of the item goes to the clipboard.
    Share(ListTarget),
    /// The item's own view opens, or its context menu where it has none.
    Open(usize),
    GotoAlbum(usize),
    GotoArtist(usize),
    /// A dialog opens in which the user picks one of the item's artists.
    SelectArtist(usize),
    ShowRecommendations(usize),
    /// The content is sorted; the filter has to be applied to it again.
    Sort(SortKey, SortDirection),
}

/// What an action comes to, once it is known whether there is a view to show.
#[derive(Clone, Copy, Debug, PartialEq, Eq, Structural)]
pub enum TrackReply {
    Ignored,
    Consumed,
    View,
    Modal,
}

pub open spec fn track_reply_to(action: TrackAction, view: bool) -> TrackReply {
    match action {
        TrackAction::Ignore => TrackReply::Ignored,
        TrackAction::AddToPlaylist(_) => TrackReply::Modal,
        TrackAction::SelectArtist(_) => TrackReply::Modal,
        TrackAction::GotoArtist(_) => TrackReply::View,
        TrackAction::Open(_) => if view {
            TrackReply::View
        } else {
            TrackReply::Modal
        },
        TrackAction::GotoAlbum(_) | TrackAction::ShowRecommendations(_) => if view {
            TrackReply::View
        } else {
            TrackReply::Consumed
        },
        _ => TrackReply::Consumed,
    }
}

/// What an action comes to.
pub fn track_reply(action: TrackAction, view: bool) -> (reply: TrackReply)
    ensures
        reply == track_reply_to(action, view),
{
    match action {
        TrackAction::Ignore => TrackReply::Ignored,
        TrackAction::AddToPlaylist(_) => TrackReply::Modal,
        TrackAction::SelectArtist(_) => TrackReply::Modal,
        TrackAction::GotoArtist(_) => TrackReply::View,
        TrackAction::Open(_) => if view {
            TrackReply::View
        } else {
            TrackReply::Modal
        },
        TrackAction::GotoAlbum(_) | TrackAction::ShowRecommendations(_) => if view {
            TrackReply::View
        } else {
            TrackReply::Consumed
        },
        _ => TrackReply::Consumed,
    }
}

// The configuration

pub fn row_height(values: &ConfigValues) -> (rows: usize)
    ensures
        rows == track_height(*values),
        1 <= rows <= 255,
{
    let set = match &values.layout {
        Some(layout) => match &layout.tracks {
            Some(tracks) => tracks.row_height,
            None => None,
        },
        None => None,
    };
    match set {
        Some(height) => if height >= 1 {
            height as usize
        } else {
            1
        },
        None => 2,
    }
}

pub fn filter_row_enabled(values: &ConfigValues) -> (yes: bool)
    ensures
        yes == has_filter_row(*values),
{
    match &values.layout {
        Some(layout) => match &layout.tracks {
            Some(tracks) => match tracks.filter_row {
                Some(enabled) => enabled,
                None => true,
            },
            None => true,
        },
        None => true,
    }
}

fn header(values: &ConfigValues) -> (rows: usize)
    ensures
        rows == header_rows(*values),
        rows <= 1,
{
    if filter_row_enabled(values) {
        1
    } else {
        0
    }
}

/// Number of visible row slots for a size.
pub fn slot_count(size: Vec2, values: &ConfigValues) -> (slots: usize)
    ensures
        slots == slots_in(size, *values),
{
    less(size.y, header(values)) / row_height(values)
}

/// Whether the lower case of a text holds a part.
fn holds(text: &str, part: &[char]) -> (yes: bool)
    ensures
        yes == contains(lowercase(text@), part@),
{
    has_part(chars_of(text.to_lowercase().as_str()).as_slice(), part)
}

/// Where a list has moved its selection to.
pub open spec fn selects(before: TrackListView, after: TrackListView, to: int, values: ConfigValues) -> bool {
    &&& after.selected == to
    &&& after.scroll_top == clamped_top(
        before.scroll_top as int,
        to,
        slots_in(before.last_size, values),
    )
    &&& after == (TrackListView {
        selected: after.selected,
        scroll_top: after.scroll_top,
        ..before
    })
}

/// Where a list has applied its filter to the content.
pub open spec fn filters(before: TrackListView, after: TrackListView, rows: Seq<TrackRow>) -> bool {
    &&& after.filtered@ == passing(rows, before.filter@, rows.len())
    &&& after.last_content_len == rows.len()
    &&& after.selected == min(before.selected as int, monus(after.filtered@.len() as int, 1))
    &&& after == (TrackListView {
        filtered: after.filtered,
        last_content_len: after.last_content_len,
        selected: after.selected,
        ..before
    })
}

/// A list keeps its order under an id from now on, and is given the order that was kept under it.
pub open spec fn opens_in_context(
    before: TrackListView,
    after: TrackListView,
    id: Seq<char>,
    orders: PlaylistOrders,
    order: Option<SortingOrder>,
) -> bool {
    &&& maybe_text(after.sort_context) == Some(id)
    &&& after == (TrackListView { sort_context: after.sort_context, ..before })
    &&& order == orders.at(id)
}

/// A list has kept an order under its id, and no other order has changed. A list without an id
/// keeps nothing.
pub open spec fn remembers(
    view: TrackListView,
    before: PlaylistOrders,
    after: PlaylistOrders,
    order: SortingOrder,
) -> bool {
    match view.sort_context {
        Some(id) => {
            &&& after.at(id@) == Some(order)
            &&& forall|other: Seq<char>|
                other != id@ ==> #[trigger] after.at(other) == before.at(other)
        },
        None => after == before,
    }
}

impl TrackListView {
    /// The position in the content of the selected item, if there is one.
    pub open spec fn chosen(self, len: int) -> Option<usize> {
        if self.selected < self.filtered@.len() && self.filtered@[self.selected as int] < len {
            Some(self.filtered@[self.selected as int])
        } else {
            None
        }
    }

    /// The position in the content of the item in a slot, if there is one.
    pub open spec fn in_slot(self, slot: int, len: int) -> Option<usize> {
        let at = self.scroll_top + slot;
        if at < self.filtered@.len() && self.filtered@[at] < len {
            Some(self.filtered@[at])
        } else {
            None
        }
    }

    /// A list of all items, the first of them selected.
    pub fn new(rows: &[TrackRow], images: bool) -> (view: TrackListView)
        ensures
            view.title@ == "Tracks"@,
            view.sort_context is None,
            view.filter@ == Seq::<char>::empty(),
            !view.filter_active,
            view.filtered@ == passing(rows@, Seq::empty(), rows@.len()),
            view.last_content_len == rows@.len(),
            view.selected == 0,
            view.scroll_top == 0,
            view.last_size == (Vec2 { x: 0, y: 0 }),
            view.images == images,
            view.slots.list().len() == 0,
            view.slots.follows() == SlotRule::Once,
    {
        let filter = String::new();
        assert(filter@ =~= Seq::<char>::empty());
        let mut view = TrackListView {
            title: "Tracks".to_owned(),
            sort_context: None,
            filter,
            filter_active: false,
            filtered: Vec::new(),
            last_content_len: usize::MAX,
            selected: 0,
            scroll_top: 0,
            last_size: Vec2::zero(),
            images,
            slots: Slots::new(SlotRule::Once),
        };
        view.refresh_filter(rows);
        view
    }

    pub fn with_title(self, title: &str) -> (view: TrackListView)
        ensures
            view.title@ == title@,
            view == (TrackListView { title: view.title, ..self }),
    {
        let mut view = self;
        view.title = title.to_owned();
        view
    }

    /// Persists `sort` commands for this list under the given id. Gives the order that was saved
    /// under it, which has to be applied to the content now.
    pub fn with_sort_context(self, id: &str, orders: &PlaylistOrders) -> (result: (
        TrackListView,
        Option<SortingOrder>,
    ))
        ensures
            opens_in_context(self, result.0, id@, *orders, result.1),
    {
        let mut view = self;
        view.sort_context = Some(id.to_owned());
        let order = match orders.get(id) {
            Some(order) => Some(*order),
            None => None,
        };
        (view, order)
    }

    /// Applies the filter to the content. The selection stays on an item where there is one.
    pub fn refresh_filter(&mut self, rows: &[TrackRow])
        ensures
            filters(*old(self), *final(self), rows@),
    {
        let filtering = chars_of(self.filter.as_str()).len() > 0;
        let lower = chars_of(self.filter.as_str().to_lowercase().as_str());
        let mut filtered: Vec<usize> = Vec::new();
        let mut n: usize = 0;
        while n < rows.len()
            invariant
                n <= rows@.len(),
                lower@ == lowercase(self.filter@),
                filtering == (self.filter@.len() > 0),
                filtered@ == passing(rows@, self.filter@, n as nat),
            decreases rows@.len() - n,
        {
            let row = &rows[n];
            if !filtering || holds(row.title.as_str(), lower.as_slice()) || holds(
                row.artist_names.as_str(),
                lower.as_slice(),
            ) || holds(row.album.as_str(), lower.as_slice()) {
                filtered.push(n);
            }
            n += 1;
        }
        self.filtered = filtered;
        self.last_content_len = rows.len();
        self.selected = smaller(self.selected, less(self.filtered.len(), 1));
    }

    /// Scrolls the selection into view.
    pub fn clamp_scroll(&mut self, values: &ConfigValues)
        ensures
            selects(*old(self), *final(self), old(self).selected as int, *values),
    {
        let slots: usize = larger(slot_count(self.last_size, values), 1);
        if self.selected < self.scroll_top {
            self.scroll_top = self.selected;
        } else if self.selected - self.scroll_top >= slots {
            self.scroll_top = self.selected - slots + 1;
        }
    }

    fn select(&mut self, to: usize, values: &ConfigValues)
        ensures
            selects(*old(self), *final(self), to as int, *values),
    {
        self.selected = to;
        self.clamp_scroll(values);
    }

    /// Moves the selection by `delta` items, but not beyond the ends of the list.
    pub fn move_selection(&mut self, delta: i64, values: &ConfigValues)
        ensures
            selects(
                *old(self),
                *final(self),
                min(
                    moved(old(self).selected as int, delta as int),
                    monus(old(self).filtered@.len() as int, 1),
                ),
                *values,
            ),
    {
        let last: usize = less(self.filtered.len(), 1);
        let target: i128 = self.selected as i128 + delta as i128;
        let to: usize = if target < 0 {
            0
        } else if target > last as i128 {
            last
        } else {
            target as usize
        };
        self.select(to, values);
    }

    /// The position in the content of the selected item, if there is one.
    pub fn selected_item(&self, len: usize) -> (item: Option<usize>)
        ensures
            item == self.chosen(len as int),
    {
        if self.selected < self.filtered.len() && self.filtered[self.selected] < len {
            Some(self.filtered[self.selected])
        } else {
            None
        }
    }

    /// Takes in the size of the list and the number of its items. At a new size all thumbnails are
    /// emitted again; with another number of items the filter is applied again.
    pub fn layout(&mut self, size: Vec2, rows: &[TrackRow], values: &ConfigValues)
        ensures
            exists|sized: TrackListView, filtered: TrackListView|
                {
                    &&& #[trigger] sized_from(*old(self), sized, size)
                    &&& if rows@.len() != old(self).last_content_len {
                        filters(sized, filtered, rows@)
                    } else {
                        filtered == sized
                    }
                    &&& #[trigger] selects(
                        filtered,
                        *final(self),
                        filtered.selected as int,
                        *values,
                    )
                },
    {
        if size.x != self.last_size.x || size.y != self.last_size.y {
            self.slots.clear();
        }
        self.last_size = size;
        let ghost sized = *self;
        assert(sized_from(*old(self), sized, size));
        if rows.len() != self.last_content_len {
            self.refresh_filter(rows);
        }
        self.clamp_scroll(values);
    }
}

/// The list at its new size, with its thumbnails forgotten if the size is another one.
pub open spec fn sized_from(before: TrackListView, after: TrackListView, size: Vec2) -> bool {
    &&& after == (TrackListView { last_size: size, slots: after.slots, ..before })
    &&& size == before.last_size ==> after.slots == before.slots
    &&& size != before.last_size ==> after.slots.list().len() == 0 && after.slots.follows()
        == before.slots.follows()
}

/// The selection is in view once the list has scrolled to it.
pub proof fn lemma_selection_is_in_view(top: int, selected: int, slots: int)
    requires
        0 <= selected,
    ensures
        clamped_top(top, selected, slots) <= selected < clamped_top(top, selected, slots) + max(
            slots,
            1,
        ),
{
}

/// The items that match a filter are items, each of them once and in order.
pub proof fn lemma_passing_is_in_order(rows: Seq<TrackRow>, filter: Seq<char>, n: nat)
    requires
        n <= rows.len() <= usize::MAX,
    ensures
        passing(rows, filter, n).len() <= n,
        forall|i: int|
            0 <= i < passing(rows, filter, n).len() ==> (#[trigger] passing(rows, filter, n)[i])
                < n,
        forall|i: int, j: int|
            0 <= i < j < passing(rows, filter, n).len() ==> (#[trigger] passing(rows, filter, n)[i])
                < (#[trigger] passing(rows, filter, n)[j]),
    decreases n,
{
    if n > 0 {
        lemma_passing_is_in_order(rows, filter, (n - 1) as nat);
    }
}

/// An empty filter lets every item pass.
pub proof fn lemma_no_filter_passes_all(rows: Seq<TrackRow>, filter: Seq<char>, n: nat)
    requires
        n <= rows.len() <= usize::MAX,
        filter.len() == 0,
    ensures
        passing(rows, filter, n) == Seq::new(n, |i: int| i as usize),
    decreases n,
{
    if n > 0 {
        lemma_no_filter_passes_all(rows, filter, (n - 1) as nat);
    }
    assert(passing(rows, filter, n) =~= Seq::new(n, |i: int| i as usize));
}

// Events

/// The state after an event and what it comes to, while the filter is being typed.
pub open spec fn typing_step(
    before: TrackListView,
    after: TrackListView,
    rows: Seq<TrackRow>,
    event: Event,
    action: TrackAction,
) -> bool {
    match event {
        Event::Char(c) => {
            &&& action == TrackAction::Consume
            &&& refilters(before, after, rows, before.filter@.push(c), true)
        },
        Event::Key(Key::Backspace) => {
            &&& action == TrackAction::Consume
            &&& refilters(
                before,
                after,
                rows,
                if before.filter@.len() > 0 {
                    before.filter@.drop_last()
                } else {
                    before.filter@
                },
                true,
            )
        },
        Event::Key(Key::Esc) => {
            &&& action == TrackAction::Consume
            &&& refilters(before, after, rows, Seq::empty(), false)
        },
        Event::Key(Key::Enter) | Event::Key(Key::Down) | Event::Key(Key::Up) => {
            &&& action == TrackAction::Consume
            &&& after == (TrackListView { filter_active: false, ..before })
        },
        _ => {
            &&& action == TrackAction::Ignore
            &&& after == before
        },
    }
}

/// The list has another filter, and has applied it.
pub open spec fn refilters(
    before: TrackListView,
    after: TrackListView,
    rows: Seq<TrackRow>,
    filter: Seq<char>,
    active: bool,
) -> bool {
    let edited = TrackListView { filter: after.filter, filter_active: active, ..before };
    &&& after.filter@ == filter
    &&& filters(edited, after, rows)
}

/// The state after a press of the left button at row `y` of the list and what it comes to. A press
/// on the filter row starts to type the filter; a press on the selected item plays it, any other
/// selects.
pub open spec fn press_step(
    before: TrackListView,
    after: TrackListView,
    len: int,
    y: int,
    values: ConfigValues,
    action: TrackAction,
) -> bool {
    let index = before.scroll_top + (y - header_rows(values)) / track_height(values);
    if has_filter_row(values) && y == 0 {
        &&& action == TrackAction::Consume
        &&& after == (TrackListView { filter_active: true, ..before })
    } else if index < before.filtered@.len() && index == before.selected {
        &&& action == match before.chosen(len) {
            Some(item) => TrackAction::Play(item),
            None => TrackAction::Consume,
        }
        &&& after == before
    } else if index < before.filtered@.len() {
        &&& action == TrackAction::Consume
        &&& selects(before, after, index, values)
    } else {
        &&& action == TrackAction::Consume
        &&& after == before
    }
}

/// The state after an event and what it comes to.
pub open spec fn event_step(
    before: TrackListView,
    after: TrackListView,
    rows: Seq<TrackRow>,
    event: Event,
    values: ConfigValues,
    action: TrackAction,
) -> bool {
    let last = monus(before.filtered@.len() as int, 1);
    if before.filter_active {
        typing_step(before, after, rows, event, action)
    } else {
        match event {
            Event::Char(c) => if c == '/' && has_filter_row(values) {
                &&& action == TrackAction::Consume
                &&& after == (TrackListView { filter_active: true, ..before })
            } else {
                &&& action == TrackAction::Ignore
                &&& after == before
            },
            Event::Mouse { event: MouseEvent::WheelUp, .. } => {
                &&& action == TrackAction::Consume
                &&& selects(
                    before,
                    after,
                    min(moved(before.selected as int, -3), last),
                    values,
                )
            },
            Event::Mouse { event: MouseEvent::WheelDown, .. } => {
                &&& action == TrackAction::Consume
                &&& selects(before, after, min(moved(before.selected as int, 3), last), values)
            },
            Event::Mouse { event: MouseEvent::Press(MouseButton::Left), position, offset } => {
                press_step(
                    before,
                    after,
                    rows.len() as int,
                    local_position(position, offset).y as int,
                    values,
                    action,
                )
            },
            _ => {
                &&& action == TrackAction::Ignore
                &&& after == before
            },
        }
    }
}

impl TrackListView {
    fn set_filter(&mut self, filter: String, active: bool, rows: &[TrackRow])
        ensures
            refilters(*old(self), *final(self), rows@, filter@, active),
    {
        self.filter = filter;
        self.filter_active = active;
        self.refresh_filter(rows);
    }

    fn on_typing(&mut self, event: Event, rows: &[TrackRow]) -> (action: TrackAction)
        ensures
            typing_step(*old(self), *final(self), rows@, event, action),
    {
        match event {
            Event::Char(c) => {
                let mut filter = self.filter.clone();
                filter.push(c);
                self.set_filter(filter, true, rows);
                TrackAction::Consume
            },
            Event::Key(Key::Backspace) => {
                let chars = chars_of(self.filter.as_str());
                let n: usize = less(chars.len(), 1);
                let filter = string_of(&chars.as_slice()[0..n]);
                assert(filter@ =~= if self.filter@.len() > 0 {
                    self.filter@.drop_last()
                } else {
                    self.filter@
                });
                self.set_filter(filter, true, rows);
                TrackAction::Consume
            },
            Event::Key(Key::Esc) => {
                let filter = String::new();
                assert(filter@ =~= Seq::<char>::empty());
                self.set_filter(filter, false, rows);
                TrackAction::Consume
            },
            Event::Key(Key::Enter) | Event::Key(Key::Down) | Event::Key(Key::Up) => {
                self.filter_active = false;
                TrackAction::Consume
            },
            _ => TrackAction::Ignore,
        }
    }

    fn on_press(&mut self, y: usize, len: usize, values: &ConfigValues) -> (action: TrackAction)
        ensures
            press_step(*old(self), *final(self), len as int, y as int, *values, action),
    {
        if filter_row_enabled(values) && y == 0 {
            self.filter_active = true;
            return TrackAction::Consume;
        }
        let slot: usize = (y - header(values)) / row_height(values);
        if self.scroll_top >= self.filtered.len() || slot >= self.filtered.len() - self.scroll_top {
            return TrackAction::Consume;
        }
        let index: usize = self.scroll_top + slot;
        if index == self.selected {
            match self.selected_item(len) {
                Some(item) => TrackAction::Play(item),
                None => TrackAction::Consume,
            }
        } else {
            self.select(index, values);
            TrackAction::Consume
        }
    }

    /// Types into the filter while it is active; else selects and plays with the mouse.
    pub fn on_event(&mut self, event: Event, rows: &[TrackRow], values: &ConfigValues) -> (action:
        TrackAction)
        ensures
            event_step(*old(self), *final(self), rows@, event, *values, action),
    {
        if self.filter_active {
            return self.on_typing(event, rows);
        }
        match event {
            Event::Char(c) => if c == '/' && filter_row_enabled(values) {
                self.filter_active = true;
                TrackAction::Consume
            } else {
                TrackAction::Ignore
            },
            Event::Mouse { event: MouseEvent::WheelUp, .. } => {
                self.move_selection(-3, values);
                TrackAction::Consume
            },
            Event::Mouse { event: MouseEvent::WheelDown, .. } => {
                self.move_selection(3, values);
                TrackAction::Consume
            },
            Event::Mouse { event: MouseEvent::Press(MouseButton::Left), position, offset } => {
                self.on_press(local(position, offset).y, rows.len(), values)
            },
            _ => TrackAction::Ignore,
        }
    }
}

// Commands

/// The number of items that a move to the very end goes.
pub const EXTREME: i64 = 0x3fff_ffff;

/// The action for each command that changes nothing of the list itself.
pub open spec fn track_action(
    view: TrackListView,
    rows: Seq<TrackRow>,
    command: Command,
    playing_shareable: bool,
) -> TrackAction {
    let chosen = view.chosen(rows.len() as int);
    match command {
        Command::Play => if chosen is Some {
            TrackAction::Play(chosen->0)
        } else {
            TrackAction::Consume
        },
        Command::PlayNext => if chosen is Some {
            TrackAction::PlayNext(chosen->0)
        } else {
            TrackAction::Consume
        },
        Command::Queue => if chosen is Some {
            TrackAction::Queue(chosen->0)
        } else {
            TrackAction::Consume
        },
        Command::Save => if chosen is Some {
            TrackAction::Save(chosen->0)
        } else {
            TrackAction::Consume
        },
        Command::Delete => if chosen is Some {
            TrackAction::Unsave(chosen->0)
        } else {
            TrackAction::Consume
        },
        Command::Add => if chosen is Some && rows[chosen->0 as int].is_track {
            TrackAction::AddToPlaylist(chosen->0)
        } else {
            TrackAction::Consume
        },
        Command::Share(TargetMode::Selected) => if chosen is Some && rows[chosen->0 as int].share_url
            is Some {
            TrackAction::Share(ListTarget::Item(chosen->0))
        } else {
            TrackAction::Consume
        },
        Command::Share(TargetMode::Current) => if playing_shareable {
            TrackAction::Share(ListTarget::Playing)
        } else {
            TrackAction::Consume
        },
        Command::Open(TargetMode::Selected) => if chosen is Some {
            TrackAction::Open(chosen->0)
        } else {
            TrackAction::Consume
        },
        Command::Goto(GotoMode::Album) => if chosen is Some {
            TrackAction::GotoAlbum(chosen->0)
        } else {
            TrackAction::Consume
        },
        Command::Goto(GotoMode::Artist) => if chosen is Some {
            match rows[chosen->0 as int].artists {
                Some(0) | None => TrackAction::Consume,
                Some(1) => TrackAction::GotoArtist(chosen->0),
                Some(_) => TrackAction::SelectArtist(chosen->0),
            }
        } else {
            TrackAction::Consume
        },
        Command::ShowRecommendations(TargetMode::Selected) => if chosen is Some {
            TrackAction::ShowRecommendations(chosen->0)
        } else {
            TrackAction::Consume
        },
        Command::Sort(key, direction) => TrackAction::Sort(key, direction),
        _ => TrackAction::Ignore,
    }
}

/// The first place of an item in a list of items, if it is there.
pub open spec fn place_of(filtered: Seq<usize>, item: usize) -> Option<int>
    decreases filtered.len(),
{
    if filtered.len() == 0 {
        None
    } else if filtered[0] == item {
        Some(0)
    } else {
        match place_of(filtered.skip(1), item) {
            Some(i) => Some(i + 1),
            None => None,
        }
    }
}

/// Where a move comes to. A move to what is playing does nothing if that is not shown.
pub open spec fn track_move(
    view: TrackListView,
    mode: MoveMode,
    amount: MoveAmount,
    playing: Option<usize>,
) -> Option<int> {
    let delta = match amount {
        MoveAmount::Extreme => EXTREME as int,
        MoveAmount::Share(n) => n as int,
        MoveAmount::Integer(n) => n as int,
    };
    let last = monus(view.filtered@.len() as int, 1);
    match mode {
        MoveMode::Up => Some(
            if amount is Extreme {
                0
            } else {
                min(moved(view.selected as int, -delta), last)
            },
        ),
        MoveMode::Down => Some(min(moved(view.selected as int, delta), last)),
        MoveMode::Playing => match playing {
            Some(item) => place_of(view.filtered@, item),
            None => None,
        },
        _ => None,
    }
}

/// The state after a command and the action that follows from it.
pub open spec fn track_command_step(
    before: TrackListView,
    after: TrackListView,
    rows: Seq<TrackRow>,
    command: Command,
    values: ConfigValues,
    playing: Option<usize>,
    playing_shareable: bool,
    action: TrackAction,
) -> bool {
    match command {
        Command::Jump(JumpMode::Query(query)) => {
            &&& action == TrackAction::Consume
            &&& refilters(before, after, rows, query@, before.filter_active)
        },
        Command::Move(mode, amount) => {
            &&& action == if mode is Left || mode is Right {
                TrackAction::Ignore
            } else {
                TrackAction::Consume
            }
            &&& match track_move(before, mode, amount, playing) {
                Some(to) => selects(before, after, to, values),
                None => after == before,
            }
        },
        _ => {
            &&& action == track_action(before, rows, command, playing_shareable)
            &&& after == before
        },
    }
}

fn find_place(filtered: &Vec<usize>, item: usize) -> (place: Option<usize>)
    ensures
        match place {
            Some(i) => place_of(filtered@, item) == Some(i as int) && i < filtered@.len(),
            None => place_of(filtered@, item) is None,
        },
{
    let mut i: usize = 0;
    assert(filtered@.skip(0) =~= filtered@);
    while i < filtered.len()
        invariant
            i <= filtered@.len(),
            place_of(filtered@, item) == match place_of(filtered@.skip(i as int), item) {
                Some(j) => Some(i + j),
                None => None,
            },
        decreases filtered@.len() - i,
    {
        assert(filtered@.skip(i as int)[0] == filtered@[i as int]);
        if filtered[i] == item {
            return Some(i);
        }
        assert(filtered@.skip(i as int).skip(1) =~= filtered@.skip(i + 1));
        i += 1;
    }
    assert(filtered@.skip(i as int) =~= Seq::<usize>::empty());
    None
}

impl TrackListView {
    fn action(&self, command: &Command, rows: &[TrackRow], playing_shareable: bool) -> (action:
        TrackAction)
        ensures
            action == track_action(*self, rows@, *command, playing_shareable),
    {
        let chosen = self.selected_item(rows.len());
        match command {
            Command::Share(TargetMode::Current) => {
                return if playing_shareable {
                    TrackAction::Share(ListTarget::Playing)
                } else {
                    TrackAction::Consume
                };
            },
            Command::Sort(key, direction) => return TrackAction::Sort(*key, *direction),
            Command::Open(TargetMode::Current) => return TrackAction::Ignore,
            Command::ShowRecommendations(TargetMode::Current) => return TrackAction::Ignore,
            Command::Play | Command::PlayNext | Command::Queue | Command::Save | Command::Delete
            | Command::Add | Command::Share(_) | Command::Open(_) | Command::Goto(_)
            | Command::ShowRecommendations(_) => {},
            _ => return TrackAction::Ignore,
        }
        let item: usize = match chosen {
            Some(item) => item,
            None => return TrackAction::Consume,
        };
        let row = &rows[item];
        match command {
            Command::Play => TrackAction::Play(item),
            Command::PlayNext => TrackAction::PlayNext(item),
            Command::Queue => TrackAction::Queue(item),
            Command::Save => TrackAction::Save(item),
            Command::Delete => TrackAction::Unsave(item),
            Command::Add => if row.is_track {
                TrackAction::AddToPlaylist(item)
            } else {
                TrackAction::Consume
            },
            Command::Share(_) => if row.share_url.is_some() {
                TrackAction::Share(ListTarget::Item(item))
            } else {
                TrackAction::Consume
            },
            Command::Open(_) => TrackAction::Open(item),
            Command::Goto(GotoMode::Album) => TrackAction::GotoAlbum(item),
            Command::Goto(GotoMode::Artist) => match row.artists {
                Some(artists) => if artists == 0 {
                    TrackAction::Consume
                } else if artists == 1 {
                    TrackAction::GotoArtist(item)
                } else {
                    TrackAction::SelectArtist(item)
                },
                None => TrackAction::Consume,
            },
            Command::ShowRecommendations(_) => TrackAction::ShowRecommendations(item),
            _ => TrackAction::Ignore,
        }
    }

    fn move_by_command(
        &mut self,
        mode: MoveMode,
        amount: MoveAmount,
        values: &ConfigValues,
        playing: Option<usize>,
    ) -> (action: TrackAction)
        ensures
            action == if mode is Left || mode is Right {
                TrackAction::Ignore
            } else {
                TrackAction::Consume
            },
            match track_move(*old(self), mode, amount, playing) {
                Some(to) => selects(*old(self), *final(self), to, *values),
                None => *final(self) == *old(self),
            },
    {
        let (delta, extreme): (i64, bool) = match amount {
            MoveAmount::Extreme => (EXTREME, true),
            MoveAmount::Share(n) => (n as i64, false),
            MoveAmount::Integer(n) => (n as i64, false),
        };
        match mode {
            MoveMode::Up => {
                if extreme {
                    self.select(0, values);
                } else {
                    self.move_selection(-delta, values);
                }
                TrackAction::Consume
            },
            MoveMode::Down => {
                self.move_selection(delta, values);
                TrackAction::Consume
            },
            MoveMode::Playing => {
                if let Some(item) = playing {
                    if let Some(place) = find_place(&self.filtered, item) {
                        self.select(place, values);
                    }
                }
                TrackAction::Consume
            },
            _ => TrackAction::Ignore,
        }
    }

    /// Acts on a command. Tells what is left to do. `playing` is the position in the queue of what
    /// is playing.
    pub fn on_command(
        &mut self,
        command: &Command,
        rows: &[TrackRow],
        values: &ConfigValues,
        playing: Option<usize>,
        playing_shareable: bool,
    ) -> (action: TrackAction)
        ensures
            track_command_step(
                *old(self),
                *final(self),
                rows@,
                *command,
                *values,
                playing,
                playing_shareable,
                action,
            ),
    {
        match command {
            Command::Jump(JumpMode::Query(query)) => {
                let active = self.filter_active;
                self.set_filter(query.clone(), active, rows);
                TrackAction::Consume
            },
            Command::Move(mode, amount) => self.move_by_command(*mode, *amount, values, playing),
            _ => self.action(command, rows, playing_shareable),
        }
    }

    /// Remembers a sort order for the playlist that is shown, if it is one.
    pub fn remember_order(
        &self,
        orders: &mut PlaylistOrders,
        key: SortKey,
        direction: SortDirection,
    )
        ensures
            remembers(*self, *old(orders), *final(orders), SortingOrder { key, direction }),
    {
        if let Some(id) = &self.sort_context {
            orders.insert(id.as_str(), SortingOrder { key, direction });
        }
    }
}

/// An order that is chosen by a command in a list with a playlist's id is given to the next list
/// that opens with that id; a list with another id is given what it was given before. Without an id
/// nothing is kept.
pub proof fn lemma_chosen_order_comes_back(
    view: TrackListView,
    sorted: TrackListView,
    rows: Seq<TrackRow>,
    order: SortingOrder,
    values: ConfigValues,
    playing: Option<usize>,
    playing_shareable: bool,
    action: TrackAction,
    orders: PlaylistOrders,
    kept: PlaylistOrders,
    fresh: TrackListView,
    opened: TrackListView,
    id: Seq<char>,
    given: Option<SortingOrder>,
)
    requires
        track_command_step(
            view,
            sorted,
            rows,
            Command::Sort(order.key, order.direction),
            values,
            playing,
            playing_shareable,
            action,
        ),
        action matches TrackAction::Sort(key, direction) ==> remembers(
            sorted,
            orders,
            kept,
            SortingOrder { key, direction },
        ),
        opens_in_context(fresh, opened, id, kept, given),
    ensures
        action == TrackAction::Sort(order.key, order.direction),
        sorted == view,
        given == if maybe_text(view.sort_context) == Some(id) {
            Some(order)
        } else {
            orders.at(id)
        },
        view.sort_context is None ==> kept == orders,
{
    assert(order == (SortingOrder { key: order.key, direction: order.direction }));
}

/// The filtered list holds a row just if the row matches the filter, each one once and in the order
/// of the content.
pub proof fn lemma_filter_is_exact(rows: Seq<TrackRow>, filter: Seq<char>, n: nat)
    requires
        n <= rows.len(),
        n <= usize::MAX,
    ensures
        forall|i: usize|
            #[trigger] passing(rows, filter, n).contains(i) <==> i < n && matches_filter(
                rows[i as int],
                filter,
            ),
        forall|a: int, b: int|
            0 <= a < b < passing(rows, filter, n).len() ==> passing(rows, filter, n)[a] < passing(
                rows,
                filter,
                n,
            )[b],
        forall|a: int|
            0 <= a < passing(rows, filter, n).len() ==> (#[trigger] passing(rows, filter, n)[a]) < n,
    decreases n,
{
    if n > 0 {
        let before = passing(rows, filter, (n - 1) as nat);
        let after = passing(rows, filter, n);
        let last = (n - 1) as usize;
        lemma_filter_is_exact(rows, filter, (n - 1) as nat);
        assert forall|i: usize|
            #[trigger] after.contains(i) <==> i < n && matches_filter(rows[i as int], filter) by {
            assert(before.contains(i) <==> i < n - 1 && matches_filter(rows[i as int], filter));
            if matches_filter(rows[n - 1], filter) {
                assert(after == before.push(last));
                if before.contains(i) {
                    let a = choose|a: int| 0 <= a < before.len() && before[a] == i;
                    assert(after[a] == i);
                }
                if i == last {
                    assert(after[before.len() as int] == i);
                }
                if after.contains(i) && i != last {
                    let a = choose|a: int| 0 <= a < after.len() && after[a] == i;
                    assert(before[a] == i);
                }
            }
        }
    }
}

/// A selection that is on an item stays on an item, whatever the command.
pub proof fn lemma_track_selection_stays_on_an_item(
    before: TrackListView,
    after: TrackListView,
    rows: Seq<TrackRow>,
    command: Command,
    values: ConfigValues,
    playing: Option<usize>,
    playing_shareable: bool,
    action: TrackAction,
)
    requires
        before.selected < before.filtered@.len(),
        track_command_step(
            before,
            after,
            rows,
            command,
            values,
            playing,
            playing_shareable,
            action,
        ),
    ensures
        after.filtered@.len() > 0 ==> after.selected < after.filtered@.len(),
{
    if playing is Some {
        lemma_place_is_in_range(before.filtered@, playing->0);
    }
}

proof fn lemma_place_is_in_range(filtered: Seq<usize>, item: usize)
    ensures
        place_of(filtered, item) matches Some(i) ==> 0 <= i < filtered.len() && filtered[i] == item,
    decreases filtered.len(),
{
    if filtered.len() > 0 && filtered[0] != item {
        lemma_place_is_in_range(filtered.skip(1), item);
    }
}

// Drawing

/// The text of the filter row: an icon and the filter, with a cursor while it is being typed, or
/// a hint while there is none.
pub open spec fn filter_text(view: TrackListView, values: ConfigValues) -> Seq<char> {
    icon_text(values, IconKind::Filter) + if view.filter@.len() == 0 && !view.filter_active {
        "filter…"@
    } else if view.filter_active {
        view.filter@ + "▏"@
    } else {
        view.filter@
    }
}

/// How many of the items match the filter.
pub open spec fn filter_count(view: TrackListView) -> Seq<char> {
    decimal(view.filtered@.len()) + "/"@ + decimal(view.last_content_len as nat)
}

pub open spec fn filter_style(view: TrackListView) -> Style {
    if view.filter_active {
        highlight_style()
    } else {
        secondary_style()
    }
}

/// The strokes of the filter row.
pub open spec fn filter_strokes(view: TrackListView, columns: int, values: ConfigValues) -> Seq<
    StrokeView,
> {
    let style = filter_style(view);
    let row = seq![
        blank_at(0, 0, columns, style),
        text_at(0, 0, filter_text(view, values), style),
    ];
    if !has_filter_row(values) {
        Seq::empty()
    } else if view.filter@.len() > 0 {
        row.push(
            text_at(
                monus(columns, text_width(filter_count(view)) as int),
                0,
                filter_count(view),
                style,
            ),
        )
    } else {
        row
    }
}

/// The background of the first `n` rows of the selected item.
pub open spec fn selection_strokes(text_x: int, y: int, len: int, n: nat) -> Seq<StrokeView>
    decreases n,
{
    if n == 0 {
        Seq::empty()
    } else {
        selection_strokes(text_x, y, len, (n - 1) as nat).push(
            blank_at(text_x, y + n - 1, len, highlight_style()),
        )
    }
}

pub open spec fn title_style(selected: bool, playing: bool) -> Style {
    if playing {
        Style {
            effect: Effect::Bold,
            ..colors(
                Shade::Custom(CustomColor::Playing),
                if selected {
                    Shade::Palette(PaletteColor::Highlight)
                } else {
                    Shade::Custom(CustomColor::PlayingBg)
                },
            )
        }
    } else if selected {
        highlight_style()
    } else {
        primary_style()
    }
}

pub open spec fn subtitle_style(selected: bool) -> Style {
    if selected {
        Style { effect: Effect::Dim, ..highlight_style() }
    } else {
        secondary_style()
    }
}

/// The strokes of the texts of an item whose first row is row `y`: the title, cut to leave room
/// for the length at the right, and below it the artists and the album.
pub open spec fn track_texts(
    row: TrackRow,
    y: int,
    columns: int,
    text_x: int,
    rows: int,
    selected: bool,
    playing: bool,
) -> Seq<StrokeView> {
    let room = monus(columns, text_x);
    let duration = row.duration@;
    let style = title_style(selected, playing);
    let first = seq![
        text_at(
            text_x,
            y,
            cut_to(row.title@, monus(room, text_width(duration) + 1int)),
            style,
        ),
        text_at(monus(columns, text_width(duration) as int), y, duration, style),
    ];
    if rows >= 2 {
        first.push(
            text_at(text_x, y + 1, cut_to(row.subtitle@, room), subtitle_style(selected)),
        )
    } else {
        first
    }
}

/// The strokes of a slot.
pub open spec fn slot_strokes(
    view: TrackListView,
    rows: Seq<TrackRow>,
    slot: int,
    columns: int,
    text_x: int,
    values: ConfigValues,
    playing: Option<usize>,
) -> Seq<StrokeView> {
    match view.in_slot(slot, rows.len() as int) {
        Some(index) => {
            let height = track_height(values);
            let y = header_rows(values) + slot * height;
            let row = rows[index as int];
            let selected = view.scroll_top + slot == view.selected;
            let background = if selected {
                selection_strokes(text_x, y, monus(columns, text_x), height as nat)
            } else {
                Seq::empty()
            };
            background + track_texts(
                row,
                y,
                columns,
                text_x,
                height,
                selected,
                row.is_playing && playing == Some(index),
            )
        },
        None => Seq::empty(),
    }
}

/// The strokes of the first `n` slots.
pub open spec fn slots_strokes(
    view: TrackListView,
    rows: Seq<TrackRow>,
    columns: int,
    text_x: int,
    values: ConfigValues,
    playing: Option<usize>,
    n: nat,
) -> Seq<StrokeView>
    decreases n,
{
    if n == 0 {
        Seq::empty()
    } else {
        slots_strokes(view, rows, columns, text_x, values, playing, (n - 1) as nat) + slot_strokes(
            view,
            rows,
            n - 1,
            columns,
            text_x,
            values,
            playing,
        )
    }
}

/// What the list paints.
pub open spec fn tracks_frame(
    view: TrackListView,
    rows: Seq<TrackRow>,
    size: Vec2,
    text_x: int,
    values: ConfigValues,
    playing: Option<usize>,
) -> Seq<StrokeView> {
    filter_strokes(view, size.x as int, values) + slots_strokes(
        view,
        rows,
        size.x as int,
        text_x,
        values,
        playing,
        slots_in(size, values) as nat,
    )
}

/// A thumbnail that belongs into a slot, and its place on the screen.
#[derive(Clone, Debug)]
pub struct Thumbnail {
    pub slot: usize,
    pub image: SlotImage,
    pub position: Vec2,
}

pub ghost struct ThumbnailView {
    pub slot: int,
    pub image: Shown,
    pub x: int,
    pub y: int,
}

impl View for Thumbnail {
    type V = ThumbnailView;

    open spec fn view(&self) -> ThumbnailView {
        ThumbnailView {
            slot: self.slot as int,
            image: self.image@,
            x: self.position.x as int,
            y: self.position.y as int,
        }
    }
}

/// What belongs into a slot: the cover of its item, nothing where there is no item. Without
/// columns for thumbnails nothing belongs beside an item.
pub open spec fn slot_image(
    view: TrackListView,
    rows: Seq<TrackRow>,
    slot: int,
    thumb_cols: int,
) -> Option<Shown> {
    match view.in_slot(slot, rows.len() as int) {
        Some(index) => if thumb_cols > 0 {
            match rows[index as int].cover_url {
                Some(url) => Some(Shown::Image(url@)),
                None => Some(Shown::Blank),
            }
        } else {
            None
        },
        None => Some(Shown::Empty),
    }
}

/// The thumbnails of the first `n` slots.
pub open spec fn thumbnails_of(
    view: TrackListView,
    rows: Seq<TrackRow>,
    offset: Vec2,
    thumb_cols: int,
    values: ConfigValues,
    n: nat,
) -> Seq<ThumbnailView>
    decreases n,
{
    if n == 0 {
        Seq::empty()
    } else {
        let before = thumbnails_of(view, rows, offset, thumb_cols, values, (n - 1) as nat);
        match slot_image(view, rows, n - 1, thumb_cols) {
            Some(image) => before.push(
                ThumbnailView {
                    slot: n - 1,
                    image,
                    x: offset.x as int,
                    y: offset.y + header_rows(values) + (n - 1) * track_height(values),
                },
            ),
            None => before,
        }
    }
}

proof fn lemma_slot_is_inside(size: Vec2, values: ConfigValues, slot: int)
    requires
        0 <= slot < slots_in(size, values),
    ensures
        0 <= slot * track_height(values),
        header_rows(values) + slot * track_height(values) + track_height(values) <= size.y,
{
    let h = track_height(values);
    let room = monus(size.y as int, header_rows(values));
    assert(h >= 1);
    assert(0 <= slot * h && slot * h + h <= room) by (nonlinear_arith)
        requires
            0 <= slot < room / h,
            h >= 1,
            room >= 0,
    ;
}

fn draw_selection(text_x: usize, y: usize, len: usize, rows: usize) -> (frame: Frame)
    requires
        y + rows <= usize::MAX,
    ensures
        frame@ == selection_strokes(text_x as int, y as int, len as int, rows as nat),
{
    let mut frame = Frame::new();
    let style = Style::highlight();
    let mut n: usize = 0;
    while n < rows
        invariant
            n <= rows,
            y + rows <= usize::MAX,
            style == highlight_style(),
            frame@ == selection_strokes(text_x as int, y as int, len as int, n as nat),
        decreases rows - n,
    {
        frame.blank(text_x, y + n, len, style);
        n += 1;
    }
    frame
}

fn draw_track_texts(
    row: &TrackRow,
    y: usize,
    columns: usize,
    text_x: usize,
    rows: usize,
    selected: bool,
    playing: bool,
) -> (frame: Frame)
    requires
        y + rows <= usize::MAX,
    ensures
        frame@ == track_texts(
            *row,
            y as int,
            columns as int,
            text_x as int,
            rows as int,
            selected,
            playing,
        ),
{
    let mut frame = Frame::new();
    let style = if playing {
        let back = if selected {
            Shade::Palette(PaletteColor::Highlight)
        } else {
            Shade::Custom(CustomColor::PlayingBg)
        };
        Style::new(Shade::Custom(CustomColor::Playing), back).with(Effect::Bold)
    } else if selected {
        Style::highlight()
    } else {
        Style::primary()
    };
    let room: usize = less(columns, text_x);
    let duration = row.duration.as_str();
    let title = cut(row.title.as_str(), cells_left(room, duration, 1));
    frame.print(text_x, y, title.as_str(), style);
    frame.print(less(columns, width(duration)), y, duration, style);
    if rows >= 2 {
        let below = if selected {
            Style::highlight().with(Effect::Dim)
        } else {
            Style::secondary()
        };
        let subtitle = cut(row.subtitle.as_str(), room);
        frame.print(text_x, y + 1, subtitle.as_str(), below);
    }
    assert(frame@ =~= track_texts(
        *row,
        y as int,
        columns as int,
        text_x as int,
        rows as int,
        selected,
        playing,
    ));
    frame
}

impl TrackListView {
    pub fn thumb_columns(&self, values: &ConfigValues, cell_px: Vec2) -> (columns: usize)
        requires
            cell_fits(cell_px),
        ensures
            columns == track_thumb_columns(self.images, *values, cell_px),
            columns <= 255 * MOST_CELLS,
    {
        let enabled = match &values.layout {
            Some(layout) => match &layout.tracks {
                Some(tracks) => match tracks.thumbnails {
                    Some(enabled) => enabled,
                    None => true,
                },
                None => true,
            },
            None => true,
        };
        let height: usize = row_height(values);
        if enabled && self.images && height >= 2 {
            let across: usize = larger(cell_px.x, 1);
            assert(height * cell_px.y <= 255 * MOST_CELLS) by (nonlinear_arith)
                requires
                    height <= 255,
                    cell_px.y <= MOST_CELLS,
            ;
            let side: usize = height * cell_px.y;
            assert((side + across - 1) / across as int <= side) by (nonlinear_arith)
                requires
                    side >= 0,
                    across >= 1,
            ;
            (side + (across - 1)) / across
        } else {
            0
        }
    }

    fn item_in_slot(&self, slot: usize, len: usize) -> (item: Option<usize>)
        ensures
            item == self.in_slot(slot as int, len as int),
    {
        if self.scroll_top >= self.filtered.len() || slot >= self.filtered.len() - self.scroll_top {
            return None;
        }
        let index: usize = self.filtered[self.scroll_top + slot];
        if index < len {
            Some(index)
        } else {
            None
        }
    }

    fn draw_filter(&self, columns: usize, values: &ConfigValues) -> (frame: Frame)
        ensures
            frame@ == filter_strokes(*self, columns as int, *values),
    {
        let mut frame = Frame::new();
        if !filter_row_enabled(values) {
            return frame;
        }
        let style = if self.filter_active {
            Style::highlight()
        } else {
            Style::secondary()
        };
        let empty = self.filter.as_str().is_empty();
        let mut text = values.icon(IconKind::Filter);
        let ghost icon = text@;
        if empty && !self.filter_active {
            text.append("filter…");
        } else {
            text.append(self.filter.as_str());
            if self.filter_active {
                text.append("▏");
                assert(icon + self.filter@ + "▏"@ =~= icon + (self.filter@ + "▏"@));
            }
        }
        assert(text@ == filter_text(*self, *values));
        frame.blank(0, 0, columns, style);
        frame.print(0, 0, text.as_str(), style);
        if !empty {
            let mut count = decimal_text(self.filtered.len() as u64);
            count.append("/");
            count.append(decimal_text(self.last_content_len as u64).as_str());
            frame.print(less(columns, width(count.as_str())), 0, count.as_str(), style);
        }
        assert(frame@ =~= filter_strokes(*self, columns as int, *values));
        frame
    }

    /// The strokes that paint the list. `playing` is the position in the queue of what is playing.
    pub fn draw(
        &self,
        rows: &[TrackRow],
        size: Vec2,
        values: &ConfigValues,
        cell_px: Vec2,
        playing: Option<usize>,
    ) -> (frame: Frame)
        requires
            cell_fits(cell_px),
        ensures
            frame@ == tracks_frame(
                *self,
                rows@,
                size,
                text_column(track_thumb_columns(self.images, *values, cell_px)),
                *values,
                playing,
            ),
    {
        let height: usize = row_height(values);
        let first: usize = header(values);
        let slots: usize = slot_count(size, values);
        let thumb_cols: usize = self.thumb_columns(values, cell_px);
        let text_x: usize = if thumb_cols > 0 {
            thumb_cols + 1
        } else {
            0
        };
        let mut frame = self.draw_filter(size.x, values);
        let ghost top = frame@;
        let mut slot: usize = 0;
        assert(frame@ =~= top + slots_strokes(
            *self,
            rows@,
            size.x as int,
            text_x as int,
            *values,
            playing,
            0,
        ));
        while slot < slots
            invariant
                slot <= slots,
                slots == slots_in(size, *values),
                height == track_height(*values),
                first == header_rows(*values),
                frame@ == top + slots_strokes(
                    *self,
                    rows@,
                    size.x as int,
                    text_x as int,
                    *values,
                    playing,
                    slot as nat,
                ),
            decreases slots - slot,
        {
            let ghost before = slots_strokes(
                *self,
                rows@,
                size.x as int,
                text_x as int,
                *values,
                playing,
                slot as nat,
            );
            let ghost added = slot_strokes(
                *self,
                rows@,
                slot as int,
                size.x as int,
                text_x as int,
                *values,
                playing,
            );
            proof {
                lemma_slot_is_inside(size, *values, slot as int);
            }
            if let Some(index) = self.item_in_slot(slot, rows.len()) {
                let y: usize = first + slot * height;
                let row = &rows[index];
                let selected = self.selected >= self.scroll_top && self.selected - self.scroll_top
                    == slot;
                let is_current = match playing {
                    Some(playing) => playing == index,
                    None => false,
                };
                if selected {
                    frame.append(draw_selection(text_x, y, less(size.x, text_x), height));
                }
                frame.append(
                    draw_track_texts(
                        row,
                        y,
                        size.x,
                        text_x,
                        height,
                        selected,
                        row.is_playing && is_current,
                    ),
                );
            }
            assert(frame@ =~= top + (before + added));
            slot += 1;
        }
        frame
    }

    /// The thumbnails that belong into the slots of a list whose corner is at `offset` on the
    /// screen.
    pub fn thumbnails(
        &self,
        rows: &[TrackRow],
        offset: Vec2,
        size: Vec2,
        values: &ConfigValues,
        cell_px: Vec2,
    ) -> (thumbnails: Vec<Thumbnail>)
        requires
            cell_fits(cell_px),
            offset.y + size.y <= usize::MAX,
        ensures
            thumbnails@.map_values(|t: Thumbnail| t@) == if self.images {
                thumbnails_of(
                    *self,
                    rows@,
                    offset,
                    track_thumb_columns(self.images, *values, cell_px),
                    *values,
                    slots_in(size, *values) as nat,
                )
            } else {
                Seq::empty()
            },
    {
        let ghost view = |t: Thumbnail| t@;
        let mut thumbnails: Vec<Thumbnail> = Vec::new();
        assert(thumbnails@.map_values(view) =~= Seq::<ThumbnailView>::empty());
        if !self.images {
            return thumbnails;
        }
        let height: usize = row_height(values);
        let first: usize = header(values);
        let slots: usize = slot_count(size, values);
        let thumb_cols: usize = self.thumb_columns(values, cell_px);
        let mut slot: usize = 0;
        while slot < slots
            invariant
                slot <= slots,
                slots == slots_in(size, *values),
                height == track_height(*values),
                first == header_rows(*values),
                offset.y + size.y <= usize::MAX,
                view == (|t: Thumbnail| t@),
                thumbnails@.map_values(view) == thumbnails_of(
                    *self,
                    rows@,
                    offset,
                    thumb_cols as int,
                    *values,
                    slot as nat,
                ),
            decreases slots - slot,
        {
            proof {
                lemma_slot_is_inside(size, *values, slot as int);
            }
            let ghost before = thumbnails@.map_values(view);
            let position = Vec2 { x: offset.x, y: offset.y + (first + slot * height) };
            let image = match self.item_in_slot(slot, rows.len()) {
                Some(index) => if thumb_cols > 0 {
                    match &rows[index].cover_url {
                        Some(url) => Some(SlotImage::Image(url.clone())),
                        None => Some(SlotImage::Blank),
                    }
                } else {
                    None
                },
                None => Some(SlotImage::Empty),
            };
            if let Some(image) = image {
                let thumbnail = Thumbnail { slot, image, position };
                thumbnails.push(thumbnail);
                assert(thumbnails@.map_values(view) =~= before.push(thumbnail@));
            }
            slot += 1;
        }
        thumbnails
    }

    /// The cell of the list that matters most: the row of the selection.
    pub fn important_area(&self, view_size: Vec2) -> (point: Vec2)
        ensures
            point.x == view_size.x,
            point.y == min(self.selected as int, view_size.y as int),
    {
        Vec2 { x: view_size.x, y: smaller(self.selected, view_size.y) }
    }
}

// What holds of the list as a whole

/// All positions in the filtered list are those of items.
pub open spec fn filtered_fits(view: TrackListView, len: int) -> bool {
    forall|i: int| 0 <= i < view.filtered@.len() ==> (#[trigger] view.filtered@[i]) < len
}

/// A press below the header is for the item that is drawn in that row, whatever the list has
/// scrolled to: it is selected afterwards, and played if it was selected before. Where no item is
/// drawn, nothing changes.
pub proof fn lemma_press_hits_what_is_drawn(
    before: TrackListView,
    after: TrackListView,
    len: int,
    y: int,
    values: ConfigValues,
    action: TrackAction,
    slot: int,
)
    requires
        filtered_fits(before, len),
        0 <= slot,
        header_rows(values) + slot * track_height(values) <= y < header_rows(values) + (slot + 1)
            * track_height(values),
        press_step(before, after, len, y, values, action),
    ensures
        match before.in_slot(slot, len) {
            Some(item) => {
                &&& after.chosen(len) == Some(item)
                &&& before.chosen(len) == Some(item) && before.selected == before.scroll_top + slot
                    ==> action == TrackAction::Play(item) && after == before
                &&& before.selected != before.scroll_top + slot ==> action is Consume
            },
            None => action is Consume && after == before,
        },
{
    let height = track_height(values);
    let row = y - header_rows(values);
    assert(row / height == slot) by (nonlinear_arith)
        requires
            height >= 1,
            slot * height <= row < (slot + 1) * height,
    ;
    assert(0 <= slot * height) by (nonlinear_arith)
        requires
            0 <= slot,
            height >= 1,
    ;
}

/// The selected item is drawn in the slot that the selection is at, and each slot draws the item
/// behind the one of the slot before it.
pub proof fn lemma_slots_follow_the_list(view: TrackListView, len: int, slot: int)
    requires
        filtered_fits(view, len),
        0 <= slot,
    ensures
        view.scroll_top <= view.selected ==> view.in_slot(view.selected - view.scroll_top, len)
            == view.chosen(len),
        view.in_slot(slot, len) is Some <==> view.scroll_top + slot < view.filtered@.len(),
        view.in_slot(slot + 1, len) is Some ==> view.in_slot(slot, len) is Some && (forall|i: int|
            0 <= i < view.filtered@.len() - 1 && view.in_slot(slot, len) == Some(
                #[trigger] view.filtered@[i],
            ) && i == view.scroll_top + slot ==> view.in_slot(slot + 1, len) == Some(
                view.filtered@[i + 1],
            )),
        view.scroll_top == 0 && view.filtered@.len() > 0 ==> view.in_slot(0, len) == Some(
            view.filtered@[0],
        ),
{
}

/// An item is drawn in the rows of its slot, with its own title, at the left, and its own length, at
/// the right; it is highlighted just if it is selected.
pub proof fn lemma_slot_draws_its_item(
    view: TrackListView,
    rows: Seq<TrackRow>,
    slot: int,
    columns: int,
    text_x: int,
    values: ConfigValues,
    playing: Option<usize>,
    item: usize,
)
    requires
        view.in_slot(slot, rows.len() as int) == Some(item),
        0 <= slot,
    ensures
        ({
            let strokes = slot_strokes(view, rows, slot, columns, text_x, values, playing);
            let row = rows[item as int];
            let y = header_rows(values) + slot * track_height(values);
            let selected = view.scroll_top + slot == view.selected;
            let first = if selected {
                track_height(values)
            } else {
                0
            };
            let room = monus(columns, text_x);
            &&& strokes.len() >= first + 2
            &&& strokes[first].x == text_x && strokes[first].y == y
            &&& strokes[first].ink == InkView::Text(
                cut_to(row.title@, monus(room, text_width(row.duration@) + 1int)),
            )
            &&& strokes[first + 1].y == y && strokes[first + 1].ink == InkView::Text(row.duration@)
            &&& text_width(row.duration@) <= columns ==> strokes[first + 1].x + text_width(
                row.duration@,
            ) == columns
            &&& selected ==> strokes[0].style == highlight_style() && strokes[0].y == y
            &&& !selected && !row.is_playing ==> strokes[first].style == primary_style()
            &&& row.is_playing && playing == Some(item) ==> strokes[first].style.front
                == Shade::Custom(CustomColor::Playing)
            &&& track_height(values) >= 2 ==> strokes.len() == first + 3 && strokes[first + 2].y
                == y + 1 && strokes[first + 2].ink == InkView::Text(cut_to(row.subtitle@, room))
        }),
{
    let height = track_height(values);
    let y = header_rows(values) + slot * height;
    lemma_selection_rows(text_x, y, monus(columns, text_x), height as nat);
}

proof fn lemma_selection_rows(text_x: int, y: int, len: int, n: nat)
    ensures
        selection_strokes(text_x, y, len, n).len() == n,
        forall|i: int|
            0 <= i < n ==> (#[trigger] selection_strokes(text_x, y, len, n)[i]) == blank_at(
                text_x,
                y + i,
                len,
                highlight_style(),
            ),
    decreases n,
{
    if n > 0 {
        lemma_selection_rows(text_x, y, len, (n - 1) as nat);
    }
}

/// A title that is cut leaves a blank before the length of the item.
pub proof fn lemma_title_leaves_room_for_the_length(
    row: TrackRow,
    y: int,
    columns: int,
    text_x: int,
    height: int,
    selected: bool,
    playing: bool,
)
    requires
        0 <= text_x,
        text_x + text_width(row.duration@) + 1 <= columns,
    ensures
        ({
            let strokes = track_texts(row, y, columns, text_x, height, selected, playing);
            strokes[0].ink matches InkView::Text(title) && (title.len() == 0 || strokes[0].x
                + text_width(title) + 1 <= strokes[1].x)
        }),
{
    super::width::lemma_cut_fits(
        row.title@,
        monus(monus(columns, text_x), text_width(row.duration@) + 1int),
    );
}

/// As many items show as there is room for whole ones below the header.
pub proof fn lemma_slots_fill_the_room(size: Vec2, values: ConfigValues)
    requires
        size.y >= header_rows(values),
    ensures
        ({
            let room = size.y - header_rows(values);
            let height = track_height(values);
            slots_in(size, values) * height <= room < (slots_in(size, values) + 1) * height
        }),
{
    let room = size.y - header_rows(values);
    let height = track_height(values);
    let n = room / height;
    assert(n * height <= room < (n + 1) * height) by (nonlinear_arith)
        requires
            n == room / height,
            height >= 1,
    ;
}

/// The list scrolls only if the selection is out of view, and then no further than it takes.
pub proof fn lemma_list_scrolls_no_further_than_needed(top: int, selected: int, slots: int)
    requires
        1 <= slots,
    ensures
        top <= selected < top + slots ==> clamped_top(top, selected, slots) == top,
        selected < top ==> clamped_top(top, selected, slots) == selected,
        selected >= top + slots ==> clamped_top(top, selected, slots) + slots - 1 == selected,
{
}

/// A turn of the wheel moves the selection by three items, as far as there are any.
pub proof fn lemma_wheel_moves_by_three(
    before: TrackListView,
    after: TrackListView,
    rows: Seq<TrackRow>,
    position: Vec2,
    offset: Vec2,
    values: ConfigValues,
    up: bool,
    action: TrackAction,
)
    requires
        !before.filter_active,
        before.selected < before.filtered@.len(),
        event_step(
            before,
            after,
            rows,
            Event::Mouse {
                position,
                offset,
                event: if up {
                    MouseEvent::WheelUp
                } else {
                    MouseEvent::WheelDown
                },
            },
            values,
            action,
        ),
    ensures
        action is Consume,
        after.filtered == before.filtered,
        up && before.selected >= 3 ==> after.selected == before.selected - 3,
        up && before.selected < 3 ==> after.selected == 0,
        !up && before.selected + 3 < before.filtered@.len() ==> after.selected == before.selected
            + 3,
        !up && before.selected + 3 >= before.filtered@.len() ==> after.selected
            == before.filtered@.len() - 1,
{
}

/// A character that is typed and then deleted leaves the filter, and what it lets pass, as it was.
pub proof fn lemma_deleting_undoes_typing(
    before: TrackListView,
    typed: TrackListView,
    after: TrackListView,
    rows: Seq<TrackRow>,
    c: char,
    values: ConfigValues,
    first: TrackAction,
    second: TrackAction,
)
    requires
        before.filter_active,
        event_step(before, typed, rows, Event::Char(c), values, first),
        event_step(typed, after, rows, Event::Key(Key::Backspace), values, second),
    ensures
        typed.filter@ == before.filter@.push(c),
        typed.filter_active && after.filter_active,
        after.filter@ == before.filter@,
        after.filtered@ == passing(rows, before.filter@, rows.len()),
{
    assert(before.filter@.push(c).drop_last() =~= before.filter@);
}

/// The escape key gives up the filter, so that all items show again; the enter key keeps it.
pub proof fn lemma_leaving_the_filter(
    before: TrackListView,
    left: TrackListView,
    kept: TrackListView,
    rows: Seq<TrackRow>,
    values: ConfigValues,
    first: TrackAction,
    second: TrackAction,
)
    requires
        before.filter_active,
        rows.len() <= usize::MAX,
        event_step(before, left, rows, Event::Key(Key::Esc), values, first),
        event_step(before, kept, rows, Event::Key(Key::Enter), values, second),
    ensures
        !left.filter_active && !kept.filter_active,
        left.filter@.len() == 0,
        left.filtered@ == Seq::new(rows.len(), |i: int| i as usize),
        kept.filter == before.filter && kept.filtered == before.filtered,
        kept.selected == before.selected,
{
    lemma_no_filter_passes_all(rows, left.filter@, rows.len());
}

/// While the filter is not being typed, the slash starts it where there is a filter row, and any
/// other character is left to others.
pub proof fn lemma_slash_starts_the_filter(
    before: TrackListView,
    after: TrackListView,
    rows: Seq<TrackRow>,
    c: char,
    values: ConfigValues,
    action: TrackAction,
)
    requires
        !before.filter_active,
        event_step(before, after, rows, Event::Char(c), values, action),
    ensures
        after.filter_active <==> c == '/' && has_filter_row(values),
        action is Ignore <==> !(c == '/' && has_filter_row(values)),
        after.filter == before.filter && after.selected == before.selected,
{
}

/// Commands on an item are for the selected one; where none is selected, they do nothing.
pub proof fn lemma_commands_are_for_the_selected(
    view: TrackListView,
    rows: Seq<TrackRow>,
    shareable: bool,
    item: usize,
)
    requires
        view.chosen(rows.len() as int) == Some(item),
    ensures
        track_action(view, rows, Command::Play, shareable) == TrackAction::Play(item),
        track_action(view, rows, Command::PlayNext, shareable) == TrackAction::PlayNext(item),
        track_action(view, rows, Command::Queue, shareable) == TrackAction::Queue(item),
        track_action(view, rows, Command::Save, shareable) == TrackAction::Save(item),
        track_action(view, rows, Command::Delete, shareable) == TrackAction::Unsave(item),
        track_action(view, rows, Command::Open(TargetMode::Selected), shareable)
            == TrackAction::Open(item),
        track_action(view, rows, Command::Goto(GotoMode::Album), shareable)
            == TrackAction::GotoAlbum(item),
        track_action(view, rows, Command::ShowRecommendations(TargetMode::Selected), shareable)
            == TrackAction::ShowRecommendations(item),
        track_action(view, rows, Command::Add, shareable) == TrackAction::AddToPlaylist(item)
            <==> rows[item as int].is_track,
        track_action(view, rows, Command::Share(TargetMode::Selected), shareable)
            == TrackAction::Share(ListTarget::Item(item)) <==> rows[item as int].share_url is Some,
        track_action(view, rows, Command::Share(TargetMode::Current), shareable)
            == TrackAction::Share(ListTarget::Playing) <==> shareable,
        track_action(view, rows, Command::Goto(GotoMode::Artist), shareable)
            == TrackAction::GotoArtist(item) <==> rows[item as int].artists == Some(1usize),
        track_action(view, rows, Command::Goto(GotoMode::Artist), shareable)
            == TrackAction::SelectArtist(item) <==> (rows[item as int].artists matches Some(n) && n
            > 1),
{
}

/// Without a selected item a command on one does nothing.
pub proof fn lemma_no_item_no_action(
    view: TrackListView,
    rows: Seq<TrackRow>,
    command: Command,
    shareable: bool,
)
    requires
        view.chosen(rows.len() as int) is None,
        !(command is Sort),
        !(command matches Command::Share(TargetMode::Current)),
    ensures
        ({
            let action = track_action(view, rows, command, shareable);
            action is Consume || action is Ignore
        }),
{
}

/// A move by `n` items and back comes to the same item, where there is room for it; a move to the
/// very end comes to the last item, one to the very start to the first.
pub proof fn lemma_moves_go_as_far_as_they_say(view: TrackListView, n: i32, playing: Option<usize>)
    requires
        0 <= n,
        view.selected < view.filtered@.len(),
    ensures
        ({
            let len = view.filtered@.len() as int;
            let down = track_move(view, MoveMode::Down, MoveAmount::Integer(n), playing);
            let up = track_move(view, MoveMode::Up, MoveAmount::Integer(n), playing);
            let top = track_move(view, MoveMode::Up, MoveAmount::Extreme, playing);
            let end = track_move(view, MoveMode::Down, MoveAmount::Extreme, playing);
            &&& down == Some(if view.selected + n < len {
                view.selected + n
            } else {
                len - 1
            })
            &&& up == Some(if view.selected >= n {
                view.selected - n
            } else {
                0
            })
            &&& top == Some(0int)
            &&& len <= EXTREME ==> end == Some(len - 1)
        }),
{
}

/// A move to what is playing selects it, where it is shown.
pub proof fn lemma_move_finds_what_is_playing(
    view: TrackListView,
    amount: MoveAmount,
    item: usize,
    i: int,
)
    requires
        0 <= i < view.filtered@.len(),
        view.filtered@[i] == item,
    ensures
        track_move(view, MoveMode::Playing, amount, Some(item)) is Some,
        ({
            let to = track_move(view, MoveMode::Playing, amount, Some(item))->0;
            0 <= to < view.filtered@.len() && view.filtered@[to] == item
        }),
        track_move(view, MoveMode::Playing, amount, None) is None,
{
    lemma_place_is_found(view.filtered@, item, i);
    lemma_place_is_in_range(view.filtered@, item);
}

proof fn lemma_place_is_found(filtered: Seq<usize>, item: usize, i: int)
    requires
        0 <= i < filtered.len(),
        filtered[i] == item,
    ensures
        place_of(filtered, item) is Some,
    decreases filtered.len(),
{
    if filtered[0] != item {
        assert(filtered.skip(1)[i - 1] == item);
        lemma_place_is_found(filtered.skip(1), item, i - 1);
    }
}

/// A thumbnail stands beside the item of its slot, in the item's first row, and is the cover of that
/// item.
pub proof fn lemma_thumbnails_stand_beside_their_items(
    view: TrackListView,
    rows: Seq<TrackRow>,
    offset: Vec2,
    thumb_cols: int,
    values: ConfigValues,
    n: nat,
    k: int,
)
    requires
        0 <= k < thumbnails_of(view, rows, offset, thumb_cols, values, n).len(),
    ensures
        ({
            let thumbnail = thumbnails_of(view, rows, offset, thumb_cols, values, n)[k];
            &&& 0 <= thumbnail.slot < n
            &&& thumbnail.x == offset.x
            &&& thumbnail.y == offset.y + header_rows(values) + thumbnail.slot * track_height(values)
            &&& match view.in_slot(thumbnail.slot, rows.len() as int) {
                Some(item) => thumb_cols > 0 && thumbnail.image == match rows[item as int].cover_url {
                    Some(url) => Shown::Image(url@),
                    None => Shown::Blank,
                },
                None => thumbnail.image is Empty,
            }
        }),
    decreases n,
{
    if n > 0 {
        let before = thumbnails_of(view, rows, offset, thumb_cols, values, (n - 1) as nat);
        if k < before.len() {
            lemma_thumbnails_stand_beside_their_items(
                view,
                rows,
                offset,
                thumb_cols,
                values,
                (n - 1) as nat,
                k,
            );
        }
    }
}

/// An action opens a view only where there is one; where there is none, an item that is opened gets
/// its menu.
pub proof fn lemma_replies_to_actions(view: bool, item: usize)
    ensures
        track_reply_to(TrackAction::Ignore, view) is Ignored,
        track_reply_to(TrackAction::Consume, view) is Consumed,
        track_reply_to(TrackAction::Play(item), view) is Consumed,
        track_reply_to(TrackAction::Open(item), view) is View <==> view,
        track_reply_to(TrackAction::Open(item), view) is Modal <==> !view,
        track_reply_to(TrackAction::AddToPlaylist(item), view) is Modal,
        track_reply_to(TrackAction::SelectArtist(item), view) is Modal,
        track_reply_to(TrackAction::GotoArtist(item), view) is View,
{
}

/// Rows are two cells high and have a filter row above them, unless they are configured otherwise;
/// no row is less than a cell high.
pub proof fn lemma_track_options(values: ConfigValues)
    ensures
        1 <= track_height(values) <= 255,
        tracks_options(values) is None ==> track_height(values) == 2 && has_filter_row(values),
        tracks_options(values) matches Some(options) ==> {
            &&& options.row_height matches Some(height) ==> height >= 1 ==> track_height(values)
                == height
            &&& options.filter_row == Some(false) <==> !has_filter_row(values)
        },
        header_rows(values) == 1 <==> has_filter_row(values),
        0 <= header_rows(values) <= 1,
{
}

/// Thumbnails are as wide as they are high, rounded up to whole columns. There are none where they
/// are switched off, where images cannot be shown, and beside rows of one cell.
pub proof fn lemma_track_thumbnails_are_square(images: bool, values: ConfigValues, cell_px: Vec2)
    requires
        cell_px.x > 0,
        cell_px.y > 0,
    ensures
        ({
            let columns = track_thumb_columns(images, values, cell_px);
            let side = track_height(values) * cell_px.y;
            &&& !images || track_height(values) < 2 ==> columns == 0
            &&& tracks_options(values) matches Some(tracks) ==> tracks.thumbnails == Some(false)
                ==> columns == 0
            &&& images && track_height(values) >= 2 && (tracks_options(values) is None
                || tracks_options(values)->0.thumbnails != Some(false)) ==> columns > 0 && (columns
                - 1) * cell_px.x < side <= columns * cell_px.x
        }),
{
    let height = track_height(values);
    if height >= 2 {
        let side = height * cell_px.y;
        let w = cell_px.x as int;
        let cell_y = cell_px.y as int;
        let columns = (side + w - 1) / w;
        assert(side >= 2) by (nonlinear_arith)
            requires
                side == height * cell_y,
                height >= 2,
                cell_y >= 1,
        ;
        assert(columns > 0 && (columns - 1) * w < side <= columns * w) by (nonlinear_arith)
            requires
                columns == (side + w - 1) / w,
                w >= 1,
                side >= 1,
        ;
    }
}

/// The filter row shows the filter behind its icon, with a cursor while it is typed, and at the
/// right how many of the items match. It stands out just while it is typed.
pub proof fn lemma_filter_row_shows_the_filter(
    view: TrackListView,
    columns: int,
    values: ConfigValues,
)
    requires
        has_filter_row(values),
    ensures
        ({
            let strokes = filter_strokes(view, columns, values);
            let icon = icon_text(values, IconKind::Filter);
            let count = decimal(view.filtered@.len()) + "/"@ + decimal(
                view.last_content_len as nat,
            );
            &&& strokes.len() == if view.filter@.len() > 0 {
                3int
            } else {
                2
            }
            &&& strokes[1].x == 0 && strokes[1].y == 0
            &&& strokes[1].style == highlight_style() <==> view.filter_active
            &&& view.filter_active ==> strokes[1].ink == InkView::Text(
                icon + (view.filter@ + "▏"@),
            )
            &&& !view.filter_active && view.filter@.len() > 0 ==> strokes[1].ink == InkView::Text(
                icon + view.filter@,
            )
            &&& !view.filter_active && view.filter@.len() == 0 ==> strokes[1].ink == InkView::Text(
                icon + "filter…"@,
            )
            &&& view.filter@.len() > 0 ==> strokes[2].ink == InkView::Text(count) && strokes[2].y
                == 0
            &&& view.filter@.len() > 0 && text_width(count) <= columns ==> strokes[2].x
                + text_width(count) == columns
        }),
{
}

/// The list paints the filter row and then each slot that shows, and a slot is painted by its own
/// strokes, behind those of the slots before it.
pub proof fn lemma_list_paints_its_slots(
    view: TrackListView,
    rows: Seq<TrackRow>,
    size: Vec2,
    text_x: int,
    values: ConfigValues,
    playing: Option<usize>,
    slot: int,
) -> (around: (Seq<StrokeView>, Seq<StrokeView>))
    requires
        0 <= slot < slots_in(size, values),
    ensures
        tracks_frame(view, rows, size, text_x, values, playing) == around.0 + slot_strokes(
            view,
            rows,
            slot,
            size.x as int,
            text_x,
            values,
            playing,
        ) + around.1,
        filter_strokes(view, size.x as int, values).is_prefix_of(around.0),
{
    let n = slots_in(size, values) as nat;
    let (a, b) = lemma_slot_is_painted(
        view,
        rows,
        size.x as int,
        text_x,
        values,
        playing,
        n,
        slot,
    );
    let head = filter_strokes(view, size.x as int, values);
    let piece = slot_strokes(view, rows, slot, size.x as int, text_x, values, playing);
    assert(head + (a + piece + b) =~= (head + a) + piece + b);
    assert(head =~= (head + a).take(head.len() as int));
    (head + a, b)
}

proof fn lemma_slot_is_painted(
    view: TrackListView,
    rows: Seq<TrackRow>,
    columns: int,
    text_x: int,
    values: ConfigValues,
    playing: Option<usize>,
    n: nat,
    slot: int,
) -> (around: (Seq<StrokeView>, Seq<StrokeView>))
    requires
        0 <= slot < n,
    ensures
        slots_strokes(view, rows, columns, text_x, values, playing, n) == around.0 + slot_strokes(
            view,
            rows,
            slot,
            columns,
            text_x,
            values,
            playing,
        ) + around.1,
    decreases n,
{
    let before = slots_strokes(view, rows, columns, text_x, values, playing, (n - 1) as nat);
    let last = slot_strokes(view, rows, n - 1, columns, text_x, values, playing);
    if slot == n - 1 {
        assert(before + last + Seq::<StrokeView>::empty() =~= before + last);
        (before, Seq::empty())
    } else {
        let (a, b) = lemma_slot_is_painted(
            view,
            rows,
            columns,
            text_x,
            values,
            playing,
            (n - 1) as nat,
            slot,
        );
        let piece = slot_strokes(view, rows, slot, columns, text_x, values, playing);
        assert((a + piece + b) + last =~= a + piece + (b + last));
        (a, b + last)
    }
}

/// The selection has its background, what is playing has a color of its own, and the line below the
/// title looks less than the title.
pub proof fn lemma_styles_of_tracks(selected: bool)
    ensures
        title_style(true, false) == highlight_style(),
        title_style(true, true).back == highlight_style().back,
        title_style(false, false) == primary_style(),
        title_style(selected, true).front == Shade::Custom(CustomColor::Playing),
        title_style(selected, false).front != Shade::Custom(CustomColor::Playing),
        subtitle_style(true).back == highlight_style().back,
        subtitle_style(false) == secondary_style(),
        subtitle_style(selected) != title_style(selected, false),
{
}

/// While the filter is typed, the list takes every character and the keys that edit or leave the
/// filter; all else is for others and changes nothing.
pub proof fn lemma_typing_takes_the_keys(
    before: TrackListView,
    after: TrackListView,
    rows: Seq<TrackRow>,
    event: Event,
    values: ConfigValues,
    action: TrackAction,
)
    requires
        before.filter_active,
        event_step(before, after, rows, event, values, action),
    ensures
        action is Consume || action is Ignore,
        event is Char ==> action is Consume && after.filter_active,
        event == Event::Key(Key::Backspace) ==> action is Consume && after.filter_active,
        event == Event::Key(Key::Esc) || event == Event::Key(Key::Enter) || event == Event::Key(
            Key::Up,
        ) || event == Event::Key(Key::Down) ==> action is Consume && !after.filter_active,
        event is Mouse ==> action is Ignore,
        action is Ignore ==> after == before,
{
}

/// While the filter is not typed, keys are for others and change nothing, but for the slash where
/// there is a filter row.
pub proof fn lemma_keys_are_for_others(
    before: TrackListView,
    after: TrackListView,
    rows: Seq<TrackRow>,
    event: Event,
    values: ConfigValues,
    action: TrackAction,
)
    requires
        !before.filter_active,
        event is Key || event is Char && event != Event::Char('/'),
        event_step(before, after, rows, event, values, action),
    ensures
        action is Ignore,
        after == before,
{
}

/// A list that is laid out at the size that it had keeps its thumbnails; at another size it forgets
/// them. Its items and its selection stay.
pub proof fn lemma_layout_forgets_thumbnails(
    before: TrackListView,
    after: TrackListView,
    size: Vec2,
)
    requires
        sized_from(before, after, size),
    ensures
        after.last_size == size,
        size == before.last_size ==> after.slots == before.slots,
        size != before.last_size ==> after.slots.list().len() == 0,
        after.slots.follows() == before.slots.follows(),
        after.selected == before.selected && after.scroll_top == before.scroll_top,
        after.filter == before.filter && after.filtered == before.filtered,
        after.filter_active == before.filter_active,
{
}

/// A list that opens for a playlist has the order that was kept for that playlist, if any, and keeps
/// its order under that playlist from then on.
pub proof fn lemma_playlists_open_in_their_order(
    before: TrackListView,
    after: TrackListView,
    id: Seq<char>,
    orders: PlaylistOrders,
    order: Option<SortingOrder>,
)
    requires
        opens_in_context(before, after, id, orders, order),
    ensures
        after.sort_context is Some && after.sort_context->0@ == id,
        order == orders.at(id),
        after.selected == before.selected && after.filtered == before.filtered && after.filter
            == before.filter,
{
}

} // verus!
