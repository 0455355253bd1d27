//! A list of items in rows, with a selection, a search and pages that load as the user scrolls.

use cursive::view::scroll::Core;
use vstd::prelude::*;

use super::event::{Event, MouseButton, MouseEvent};
use super::paint::{
    blank_at, colors, highlight_style, primary_style, secondary_style, text_at, CustomColor, Frame,
    InkView, PaletteColor, Shade, StrokeView, Style,
};
use super::scroll::{
    can_scroll_down, content_size, countable, countable_rows, drag, drag_fits, first_shown,
    fresh_core, grab_of, has_bars, holds_bar, is_stale, last_top, lemma_drag_keeps_to_the_content,
    new_core, on_bar, only_scrolled, pressed, release_grab, same_frame, scroll_down, scroll_to_y,
    scroll_up, scrollable, shown_after_drag, shown_after_press, shown_size, shows_bars, stale,
    start_drag, top_row, top_with, MOST_CELLS,
};
use super::slots::{occupied_positions, SlotImage, SlotRule, Slots};
use super::width::{cells_left, text_width, width};
use crate::command::{Command, GotoMode, InsertSource, JumpMode, MoveAmount, MoveMode, TargetMode};
use crate::config::{BrowserConfig, ConfigValues};
use crate::geometry::{
    capped_sum, div_up, larger, less, max, min, monus, moved, plus, smaller, Vec2,
};
use crate::text::{
    byte_len, byte_starts, char_at_byte, chars_of, contains, decimal, decimal_text, find_all,
    has_part, lemma_all_occurrences_are_found, lemma_byte_len_grows, lemma_bytes_add_up,
    lemma_char_at_byte, lemma_characters_start_at_their_byte, lowercase, maybe_text, occurrences,
    position_of_byte, repeat, string_of,
};

verus! {

// Items and state

/// What the list shows of an item that is a single track.
#[derive(Clone, Copy, Debug, PartialEq, Eq, Structural)]
pub struct TrackFlags {
    pub is_local: bool,
    pub is_playable: Option<bool>,
}

/// What the list reads of an item.
#[derive(Clone, Debug)]
pub struct ListRow {
    pub left: String,
    pub center: String,
    pub right: String,
    /// Whether the item, or something in it, is playing.
    pub is_playing: bool,
    /// Set if the item is a single track.
    pub track: Option<TrackFlags>,
    /// How many artists the item has, if it is of a kind that has artists.
    pub artists: Option<usize>,
    pub cover_url: Option<String>,
    pub share_url: Option<String>,
}

/// How much of a list is loaded.
#[derive(Clone, Copy, Debug, PartialEq, Eq, Structural)]
pub struct Pagination {
    /// The number of items there are in all, if that is known.
    pub max_content: Option<usize>,
    /// The number of items that were loaded.
    pub loaded_content: usize,
}

/// A list of items in rows.
pub struct ListView {
    pub last_content_len: usize,
    pub selected: usize,
    pub search_query: String,
    pub search_indexes: Vec<usize>,
    pub search_selected_index: usize,
    pub last_size: Vec2,
    pub scroller: Core,
    pub pagination: Pagination,
    pub title: String,
    /// Whether thumbnails can be shown beside the items.
    pub images: bool,
    pub slots: Slots,
    /// Whether the items are tracks or episodes, which play one after the other.
    pub plays_through: bool,
}

/// The options for the browser pane, if any are set.
pub open spec fn browser_options(values: ConfigValues) -> Option<BrowserConfig> {
    match values.layout {
        Some(layout) => layout.browser,
        None => None,
    }
}

pub open spec fn row_height_of(images: bool, values: ConfigValues) -> int {
    if images {
        let set = match browser_options(values) {
            Some(browser) => browser.row_height,
            None => None,
        };
        match set {
            Some(height) => max(height as int, 1),
            None => 2,
        }
    } else {
        1
    }
}

pub open spec fn thumbnails_enabled(values: ConfigValues) -> bool {
    match browser_options(values) {
        Some(browser) => browser.thumbnails != Some(false),
        None => true,
    }
}

/// The columns that the square thumbnails take up, which are as high as a row.
pub open spec fn thumb_columns_of(images: bool, values: ConfigValues, cell_px: Vec2) -> int {
    let height = row_height_of(images, values);
    if images && thumbnails_enabled(values) && height >= 2 {
        div_up(height * cell_px.y, max(cell_px.x as int, 1))
    } else {
        0
    }
}

/// The column at which the texts start: behind the thumbnails and a blank.
pub open spec fn text_column(thumb_cols: int) -> int {
    if thumb_cols > 0 {
        thumb_cols + 1
    } else {
        0
    }
}

/// The size of a cell in pixels can be counted times the height of a row.
pub open spec fn cell_fits(cell_px: Vec2) -> bool {
    cell_px.x <= MOST_CELLS && cell_px.y <= MOST_CELLS
}

/// The rows that `len` items take up on the screen can be counted.
pub open spec fn rows_fit(len: int, row_height: int) -> bool {
    countable_rows((len * row_height + 1) as nat)
}

/// The items whose left text holds the query, whatever the case, among the first `n`.
pub open spec fn matching(rows: Seq<ListRow>, query: Seq<char>, n: nat) -> Seq<usize>
    decreases n,
{
    if n == 0 {
        Seq::empty()
    } else {
        let before = matching(rows, query, (n - 1) as nat);
        if contains(lowercase(rows[n - 1].left@), lowercase(query)) {
            before.push((n - 1) as usize)
        } else {
            before
        }
    }
}

/// The item that comes into focus for a target.
pub open spec fn focus_for(target: int, len: int) -> int {
    min(target, monus(len, 1))
}

/// Whether more items have to be loaded: there are more, and the last item is selected or there is
/// nothing left to scroll to.
pub open spec fn should_paginate(view: ListView, len: int) -> bool {
    view.has_more() && (view.selected == monus(len, 1) || !(scrollable(view.scroller).1
        && first_shown(view.scroller).1 + shown_size(view.scroller).1 < content_size(
        view.scroller,
    ).1))
}

// What the rest of the client has to do

/// The item that an action is about.
#[derive(Clone, Copy, Debug, PartialEq, Eq, Structural)]
pub enum ListTarget {
    /// What is playing.
    Playing,
    /// An item of the list.
    Item(usize),
}

/// What follows from a command.
#[derive(Clone, Copy, Debug, PartialEq, Eq, Structural)]
pub enum ListAction {
    /// The command is not for the list.
    Ignore,
    /// The list has done what there was to do.
    Consume,
    /// More items are loaded.
    Paginate,
    /// The queue is cleared, this item and all that follow it go into it, and this one is played.
    PlayAll(usize),
    /// The queue is cleared, and the item is played, if there is one.
    PlayItem(Option<usize>),
    PlayNext(usize),
    Queue(usize),
    Save(usize),
    Unsave(usize),
    /// A dialog opens in which the user picks a playlist for the track.
    AddToPlaylist(usize),
    /// The address of the item goes to the clipboard.
    Share(ListTarget),
    /// The item's own view opens, or its context menu if it has none.
    Open(ListTarget),
    /// The item was clicked: its own view opens, if it has one.
    Click(usize),
    /// The context menu of the item opens.
    ContextMenu(usize),
    GotoAlbum(usize),
    GotoArtist(usize),
    /// A dialog opens in which the user picks one of the item's artists.
    SelectArtist(usize),
    /// What the link in the command leads to opens.
    InsertLink,
    /// What the link in the clipboard leads to opens, if there is one.
    InsertClipboard,
    ShowRecommendations(ListTarget),
}

/// What an action comes to, once it is known whether there is something to show.
#[derive(Clone, Copy, Debug, PartialEq, Eq, Structural)]
pub enum ListReply {
    Ignored,
    Consumed,
    /// A view opens.
    View,
    /// A dialog or a menu opens.
    Modal,
}

/// What an action comes to. `item` tells whether there is an item that the action can be about,
/// `view` whether that has a view of its own.
pub open spec fn reply_to(action: ListAction, item: bool, view: bool) -> ListReply {
    match action {
        ListAction::Ignore => ListReply::Ignored,
        ListAction::AddToPlaylist(_) => ListReply::Modal,
        ListAction::SelectArtist(_) => ListReply::Modal,
        ListAction::ContextMenu(_) => ListReply::Modal,
        ListAction::GotoArtist(_) => ListReply::View,
        ListAction::Open(_) => if view {
            ListReply::View
        } else {
            ListReply::Modal
        },
        ListAction::Click(_) => if view {
            ListReply::View
        } else {
            ListReply::Consumed
        },
        ListAction::GotoAlbum(_) => if view {
            ListReply::View
        } else {
            ListReply::Ignored
        },
        ListAction::InsertLink | ListAction::InsertClipboard => if !item {
            ListReply::Consumed
        } else if view {
            ListReply::View
        } else {
            ListReply::Modal
        },
        ListAction::ShowRecommendations(_) => if view {
            ListReply::View
        } else {
            ListReply::Consumed
        },
        _ => ListReply::Consumed,
    }
}

/// What an action comes to. An item without a view of its own gets its context menu instead, but a
/// click on such an item opens nothing.
pub fn reply(action: ListAction, item: bool, view: bool) -> (reply: ListReply)
    ensures
        reply == reply_to(action, item, view),
{
    match action {
        ListAction::Ignore => ListReply::Ignored,
        ListAction::AddToPlaylist(_) => ListReply::Modal,
        ListAction::SelectArtist(_) => ListReply::Modal,
        ListAction::ContextMenu(_) => ListReply::Modal,
        ListAction::GotoArtist(_) => ListReply::View,
        ListAction::Open(_) => if view {
            ListReply::View
        } else {
            ListReply::Modal
        },
        ListAction::Click(_) => if view {
            ListReply::View
        } else {
            ListReply::Consumed
        },
        ListAction::GotoAlbum(_) => if view {
            ListReply::View
        } else {
            ListReply::Ignored
        },
        ListAction::InsertLink | ListAction::InsertClipboard => if !item {
            ListReply::Consumed
        } else if view {
            ListReply::View
        } else {
            ListReply::Modal
        },
        ListAction::ShowRecommendations(_) => if view {
            ListReply::View
        } else {
            ListReply::Consumed
        },
        _ => ListReply::Consumed,
    }
}

/// What is playing, as far as commands are about it.
#[derive(Clone, Copy, Debug, PartialEq, Eq, Structural)]
pub struct NowPlaying {
    /// Whether what is playing has an address that can be shared.
    pub shareable: bool,
}

/// What a mouse event comes to.
#[derive(Clone, Copy, Debug, PartialEq, Eq, Structural)]
pub enum MouseHandleResult {
    /// The list has done what there was to do but for the action.
    Handled(ListAction),
    /// The selected track was clicked once more, and is to be played.
    Play,
}

/// The action for a track that is played, or for an item that is not a track.
pub open spec fn play_action(view: ListView, len: int) -> ListAction {
    if view.plays_through {
        ListAction::PlayAll(view.selected)
    } else if view.selected < len {
        ListAction::PlayItem(Some(view.selected))
    } else {
        ListAction::PlayItem(None)
    }
}

/// The items of a list of `len` items from position `first` on.
pub open spec fn from_on(first: int, len: int) -> Seq<int> {
    Seq::new(monus(len, first) as nat, |i: int| first + i)
}

pub open spec fn positions(items: Seq<usize>) -> Seq<int> {
    items.map_values(|item: usize| item as int)
}

fn items_from(first: usize, len: usize) -> (items: Vec<usize>)
    ensures
        positions(items@) == from_on(first as int, len as int),
{
    let mut items: Vec<usize> = Vec::new();
    let mut next: usize = first;
    while next < len
        invariant
            first <= next,
            first <= len ==> next <= len,
            first > len ==> next == first,
            items@.len() == next - first,
            forall|i: int| 0 <= i < items@.len() ==> (#[trigger] items@[i]) == first + i,
        decreases len - next,
    {
        items.push(next);
        next += 1;
    }
    assert(positions(items@) =~= from_on(first as int, len as int));
    items
}

/// The items that an action puts into the queue in place of what was there, in the order in which
/// they are played.
pub open spec fn played_by(action: ListAction, len: int) -> Seq<int> {
    match action {
        ListAction::PlayAll(first) => from_on(first as int, len),
        ListAction::PlayItem(Some(item)) => seq![item as int],
        _ => Seq::empty(),
    }
}

/// The items of a list of `len` items that an action puts into the queue in place of what was
/// there, in the order in which they are played.
pub fn played_items(action: ListAction, len: usize) -> (items: Vec<usize>)
    ensures
        positions(items@) == played_by(action, len as int),
{
    let items = match action {
        ListAction::PlayAll(first) => items_from(first, len),
        ListAction::PlayItem(Some(item)) => {
            let mut items: Vec<usize> = Vec::new();
            items.push(item);
            items
        },
        _ => Vec::new(),
    };
    assert(positions(items@) =~= played_by(action, len as int));
    items
}

/// Playing starts with the selected item. A list of tracks is played to its end, each of the
/// following items once and in order; of any other list nothing else is played.
pub proof fn lemma_play_starts_with_the_selected(view: ListView, len: int)
    requires
        view.selected < len,
    ensures
        ({
            let played = played_by(play_action(view, len), len);
            &&& played.len() == if view.plays_through {
                len - view.selected
            } else {
                1
            }
            &&& forall|i: int|
                0 <= i < played.len() ==> (#[trigger] played[i]) == view.selected + i
        }),
{
}

/// The item that a target mode is about, if there is one.
pub open spec fn target_of(
    view: ListView,
    len: int,
    mode: TargetMode,
    playing: Option<NowPlaying>,
) -> Option<ListTarget> {
    match mode {
        TargetMode::Current => if playing is Some {
            Some(ListTarget::Playing)
        } else {
            None
        },
        TargetMode::Selected => if view.selected < len {
            Some(ListTarget::Item(view.selected))
        } else {
            None
        },
    }
}

/// The action for each command but jumps and moves.
pub open spec fn action_for(
    view: ListView,
    rows: Seq<ListRow>,
    command: Command,
    playing: Option<NowPlaying>,
) -> ListAction {
    let len = rows.len() as int;
    let selected = view.selected;
    let exists = selected < len;
    match command {
        Command::Play => play_action(view, len),
        Command::PlayNext => if exists {
            ListAction::PlayNext(selected)
        } else {
            ListAction::Consume
        },
        Command::Queue => if exists {
            ListAction::Queue(selected)
        } else {
            ListAction::Consume
        },
        Command::Save => if exists {
            ListAction::Save(selected)
        } else {
            ListAction::Consume
        },
        Command::Delete => if exists {
            ListAction::Unsave(selected)
        } else {
            ListAction::Consume
        },
        Command::Add => if exists && rows[selected as int].track is Some {
            ListAction::AddToPlaylist(selected)
        } else {
            ListAction::Consume
        },
        Command::Share(TargetMode::Selected) => if exists && rows[selected as int].share_url
            is Some {
            ListAction::Share(ListTarget::Item(selected))
        } else {
            ListAction::Consume
        },
        Command::Share(TargetMode::Current) => if playing is Some && playing->0.shareable {
            ListAction::Share(ListTarget::Playing)
        } else {
            ListAction::Consume
        },
        Command::Open(mode) => match target_of(view, len, mode, playing) {
            Some(target) => ListAction::Open(target),
            None => ListAction::Ignore,
        },
        Command::Goto(GotoMode::Album) => if exists {
            ListAction::GotoAlbum(selected)
        } else {
            ListAction::Ignore
        },
        Command::Goto(GotoMode::Artist) => if exists {
            match rows[selected as int].artists {
                Some(0) => ListAction::Consume,
                Some(1) => ListAction::GotoArtist(selected),
                Some(_) => ListAction::SelectArtist(selected),
                None => ListAction::Ignore,
            }
        } else {
            ListAction::Ignore
        },
        Command::Insert(InsertSource::Input(_)) => ListAction::InsertLink,
        Command::Insert(InsertSource::Clipboard) => ListAction::InsertClipboard,
        Command::ShowRecommendations(mode) => match target_of(view, len, mode, playing) {
            Some(target) => ListAction::ShowRecommendations(target),
            None => ListAction::Ignore,
        },
        _ => ListAction::Ignore,
    }
}

/// The item that a move comes to, if it comes to another one.
pub open spec fn move_target(selected: int, len: int, mode: MoveMode, amount: MoveAmount) -> Option<
    int,
> {
    match mode {
        MoveMode::Up => if selected > 0 {
            Some(
                match amount {
                    MoveAmount::Extreme => 0,
                    MoveAmount::Share(n) => moved(selected, -(n as int)),
                    MoveAmount::Integer(n) => moved(selected, -(n as int)),
                },
            )
        } else {
            None
        },
        MoveMode::Down => if selected < monus(len, 1) {
            Some(
                match amount {
                    MoveAmount::Extreme => monus(len, 1),
                    MoveAmount::Share(n) => moved(selected, n as int),
                    MoveAmount::Integer(n) => moved(selected, n as int),
                },
            )
        } else {
            None
        },
        _ => None,
    }
}

impl ListView {
    /// The scroll state can be counted, and the search is at one of its results.
    pub open spec fn wf(self) -> bool {
        &&& countable(self.scroller)
        &&& self.search_selected_index < max(self.search_indexes@.len() as int, 1)
    }

    /// Whether there are items that are not loaded.
    pub open spec fn has_more(self) -> bool {
        match self.pagination.max_content {
            Some(most) => most > self.pagination.loaded_content,
            None => false,
        }
    }

    /// All but the selection, the scroll position and what is grabbed is as it was.
    pub open spec fn same_but_focus(self, before: ListView) -> bool {
        &&& self.same_but_scroll(before)
        &&& self.same_search(before)
    }

    /// The search is as it was.
    pub open spec fn same_search(self, before: ListView) -> bool {
        &&& self.search_query == before.search_query
        &&& self.search_indexes == before.search_indexes
        &&& self.search_selected_index == before.search_selected_index
    }

    /// All but the selection, the search, the scroll position and what is grabbed is as it was.
    pub open spec fn same_but_scroll(self, before: ListView) -> bool {
        &&& self.last_content_len == before.last_content_len
        &&& self.last_size == before.last_size
        &&& self.pagination == before.pagination
        &&& self.title == before.title
        &&& self.images == before.images
        &&& self.slots == before.slots
        &&& self.plays_through == before.plays_through
        &&& same_frame(before.scroller, self.scroller)
    }

    /// The item for `target` has come into focus and into view.
    pub open spec fn focuses(self, before: ListView, target: int, len: int, row_height: int) -> bool {
        &&& self.selected == focus_for(target, len)
        &&& first_shown(self.scroller) == (
            first_shown(before.scroller).0,
            top_with(before.scroller, focus_for(target, len) * row_height) as nat,
        )
        &&& only_scrolled(before.scroller, self.scroller)
    }

    /// A list without thumbnails. More items may have to be loaded at once.
    pub fn new(pagination: Pagination, plays_through: bool, len: usize) -> (result: (ListView, bool))
        ensures
            result.0.wf(),
            result.0.last_content_len == 0,
            result.0.selected == 0,
            result.0.search_query@ == Seq::<char>::empty(),
            result.0.search_indexes@ == Seq::<usize>::empty(),
            result.0.search_selected_index == 0,
            result.0.last_size == (Vec2 { x: 0, y: 0 }),
            result.0.pagination == pagination,
            result.0.title@ == Seq::<char>::empty(),
            !result.0.images,
            result.0.slots.list().len() == 0,
            result.0.slots.follows() == SlotRule::Twice,
            result.0.plays_through == plays_through,
            fresh_core(result.0.scroller),
            result.1 == should_paginate(result.0, len as int),
    {
        let scroller = new_core();
        let title = String::new();
        let query = String::new();
        assert(title@ =~= Seq::<char>::empty());
        assert(query@ =~= Seq::<char>::empty());
        let view = ListView {
            last_content_len: 0,
            selected: 0,
            search_query: query,
            search_indexes: Vec::new(),
            search_selected_index: 0,
            last_size: Vec2::zero(),
            scroller,
            pagination,
            title,
            images: false,
            slots: Slots::new(SlotRule::Twice),
            plays_through,
        };
        let paginate = view.wants_more(len);
        (view, paginate)
    }

    pub fn with_title(self, title: &str) -> (view: ListView)
        ensures
            view.title@ == title@,
            view == (ListView { title: view.title, ..self }),
    {
        let mut view = self;
        view.title = title.to_owned();
        view
    }

    /// The same list with cover thumbnails, as far as they can be shown.
    pub fn with_thumbnails(self, images: bool) -> (view: ListView)
        ensures
            view == (ListView { images, ..self }),
    {
        let mut view = self;
        view.images = images;
        view
    }

    /// Clears the slot cache without erasing terminal content. To be called when another view has
    /// drawn over this view's terminal area, so that the next draw emits all thumbnails again.
    pub fn invalidate_slots(&mut self)
        ensures
            final(self).slots.list().len() == 0,
            final(self).slots.follows() == old(self).slots.follows(),
            *final(self) == (ListView { slots: final(self).slots, ..*old(self) }),
    {
        self.slots.clear();
    }

    pub fn row_height(&self, values: &ConfigValues) -> (rows: usize)
        ensures
            rows == row_height_of(self.images, *values),
            1 <= rows <= 255,
    {
        if !self.images {
            return 1;
        }
        let set = match &values.layout {
            Some(layout) => match &layout.browser {
                Some(browser) => browser.row_height,
                None => None,
            },
            None => None,
        };
        match set {
            Some(height) => if height >= 1 {
                height as usize
            } else {
                1
            },
            None => 2,
        }
    }

    pub fn thumb_columns(&self, values: &ConfigValues, cell_px: Vec2) -> (columns: usize)
        requires
            cell_fits(cell_px),
        ensures
            columns == thumb_columns_of(self.images, *values, cell_px),
            columns <= 255 * MOST_CELLS,
    {
        let enabled = match &values.layout {
            Some(layout) => match &layout.browser {
                Some(browser) => match browser.thumbnails {
                    Some(enabled) => enabled,
                    None => true,
                },
                None => true,
            },
            None => true,
        };
        let height: usize = self.row_height(values);
        if enabled && self.images && height >= 2 {
            let across: usize = larger(cell_px.x, 1);
            assert(height * cell_px.y <= 255 * MOST_CELLS) by (nonlinear_arith)
                requires
                    height <= 255,
                    cell_px.y <= MOST_CELLS,
            ;
            let side: usize = height * cell_px.y;
            proof {
                vstd::arithmetic::div_mod::lemma_div_is_ordered_by_denominator(
                    side + across - 1,
                    1,
                    across as int,
                );
                assert((side + across - 1) / across as int <= side) by (nonlinear_arith)
                    requires
                        side >= 0,
                        across >= 1,
                ;
            }
            (side + (across - 1)) / across
        } else {
            0
        }
    }

    /// The number of items. The row that stands for the items that are not loaded is counted if
    /// `include_paginator` is set.
    pub fn content_len(&self, len: usize, include_paginator: bool) -> (count: usize)
        requires
            len < usize::MAX,
        ensures
            count == if self.has_more() && include_paginator {
                len + 1
            } else {
                len as int
            },
    {
        if self.can_paginate() && include_paginator {
            len + 1
        } else {
            len
        }
    }

    pub fn can_paginate(&self) -> (yes: bool)
        ensures
            yes == self.has_more(),
    {
        match self.pagination.max_content {
            Some(most) => most > self.pagination.loaded_content,
            None => false,
        }
    }

    /// Whether more items have to be loaded.
    pub fn wants_more(&self, len: usize) -> (yes: bool)
        requires
            countable(self.scroller),
        ensures
            yes == should_paginate(*self, len as int),
    {
        self.can_paginate() && (self.selected == less(len, 1) || !can_scroll_down(&self.scroller))
    }

    pub fn has_visible_scrollbars(&self) -> (yes: bool)
        ensures
            yes == shows_bars(self.scroller),
    {
        has_bars(&self.scroller)
    }

    pub fn get_selected_index(&self) -> (index: usize)
        ensures
            index == self.selected,
    {
        self.selected
    }

    pub fn get_pagination(&self) -> (pagination: &Pagination)
        ensures
            *pagination == self.pagination,
    {
        &self.pagination
    }

    /// The items whose left text holds the query, whatever the case.
    pub fn get_indexes_of(rows: &[ListRow], query: &str) -> (indexes: Vec<usize>)
        ensures
            indexes@ == matching(rows@, query@, rows@.len()),
    {
        let lower = chars_of(query.to_lowercase().as_str());
        let mut indexes: Vec<usize> = Vec::new();
        let mut n: usize = 0;
        while n < rows.len()
            invariant
                n <= rows@.len(),
                lower@ == lowercase(query@),
                indexes@ == matching(rows@, query@, n as nat),
            decreases rows@.len() - n,
        {
            let left = chars_of(rows[n].left.as_str().to_lowercase().as_str());
            if has_part(left.as_slice(), lower.as_slice()) {
                indexes.push(n);
            }
            n += 1;
        }
        indexes
    }

    /// Brings the item at `target` into focus, or the last one where there is none, and scrolls
    /// it into view.
    pub fn move_focus_to(&mut self, target: usize, len: usize, row_height: usize)
        requires
            old(self).wf(),
            row_height >= 1,
            rows_fit(len as int, row_height as int),
        ensures
            final(self).wf(),
            final(self).focuses(*old(self), target as int, len as int, row_height as int),
            final(self).same_but_focus(*old(self)),
    {
        let selected: usize = smaller(target, less(len, 1));
        proof {
            assert(selected * row_height <= len * row_height) by (nonlinear_arith)
                requires
                    selected <= len,
                    row_height >= 0,
            ;
        }
        self.selected = selected;
        scroll_to_y(&mut self.scroller, selected * row_height);
    }

    /// Moves the focus by `delta` items, but not beyond the ends of the list.
    pub fn move_focus(&mut self, delta: i64, len: usize, row_height: usize)
        requires
            old(self).wf(),
            row_height >= 1,
            rows_fit(len as int, row_height as int),
        ensures
            final(self).wf(),
            final(self).focuses(
                *old(self),
                moved(old(self).selected as int, delta as int),
                len as int,
                row_height as int,
            ),
            final(self).same_but_focus(*old(self)),
    {
        let target: i128 = self.selected as i128 + delta as i128;
        let last: usize = less(len, 1);
        let to: usize = if target < 0 {
            0
        } else if target > last as i128 {
            last
        } else {
            target as usize
        };
        self.move_focus_to(to, len, row_height);
    }

    /// The item under the mouse, if there is one.
    pub open spec fn row_under(
        self,
        position: Vec2,
        offset: Vec2,
        len: int,
        row_height: int,
    ) -> Option<int> {
        if position.x >= offset.x && position.y >= offset.y {
            let item = (position.y - offset.y + first_shown(self.scroller).1) / row_height;
            if item < len {
                Some(item)
            } else {
                None
            }
        } else {
            None
        }
    }

    fn get_selected_row(
        &self,
        position: Vec2,
        offset: Vec2,
        len: usize,
        row_height: usize,
    ) -> (row: Option<usize>)
        requires
            self.wf(),
            row_height >= 1,
            position.y <= MOST_CELLS,
        ensures
            match row {
                Some(row) => self.row_under(position, offset, len as int, row_height as int)
                    == Some(row as int) && row < len,
                None => self.row_under(position, offset, len as int, row_height as int) is None,
            },
    {
        if position.x < offset.x || position.y < offset.y {
            return None;
        }
        let row: usize = position.y - offset.y + top_row(&self.scroller);
        let item: usize = row / row_height;
        if item < len {
            Some(item)
        } else {
            None
        }
    }
}

// Events

/// The place of a mouse event fits the terminal, and a click is inside the view.
pub open spec fn mouse_fits(event: Event) -> bool {
    match event {
        Event::Mouse { position, offset, event } => {
            &&& position.x <= MOST_CELLS
            &&& position.y <= MOST_CELLS
            &&& event == MouseEvent::Press(MouseButton::Left) ==> position.x >= offset.x
                && position.y >= offset.y
        },
        _ => true,
    }
}

/// Where the left button can press or move a scrollbar, the rows that it moves by can be counted.
pub open spec fn bar_fits(view: ListView, event: Event) -> bool {
    match event {
        Event::Mouse { position, offset, event } => {
            let moves = event == MouseEvent::Press(MouseButton::Left) || event == MouseEvent::Hold(
                MouseButton::Left,
            );
            moves && shows_bars(view.scroller) ==> drag_fits(
                view.scroller,
                monus(position.x as int, offset.x as int),
                monus(position.y as int, offset.y as int),
            )
        },
        _ => true,
    }
}

/// The state after a press of the left button and what it comes to. A press on a scrollbar grabs
/// it. A press on the selected track plays it, any other brings the item into focus and opens its
/// view, if it has one.
pub open spec fn left_press(
    before: ListView,
    after: ListView,
    rows: Seq<ListRow>,
    position: Vec2,
    offset: Vec2,
    row_height: int,
    result: MouseHandleResult,
) -> bool {
    let x = position.x - offset.x;
    let y = position.y - offset.y;
    let len = rows.len() as int;
    if shows_bars(before.scroller) && on_bar(before.scroller, x, y) {
        &&& result == MouseHandleResult::Handled(ListAction::Consume)
        &&& after.selected == before.selected
        &&& first_shown(after.scroller) == shown_after_press(before.scroller, x, y)
    } else {
        match before.row_under(position, offset, len, row_height) {
            Some(row) => if before.selected == row && rows[row].track is Some {
                &&& result == MouseHandleResult::Play
                &&& after.selected == before.selected
                &&& first_shown(after.scroller) == first_shown(before.scroller)
            } else {
                &&& result == MouseHandleResult::Handled(ListAction::Click(row as usize))
                &&& after.focuses(before, row, len, row_height)
            },
            None => {
                &&& result == MouseHandleResult::Handled(ListAction::Consume)
                &&& after.selected == before.selected
                &&& first_shown(after.scroller) == first_shown(before.scroller)
            },
        }
    }
}

/// The state after a press of the right button and what it comes to: the item under the mouse
/// comes into focus, and its context menu opens.
pub open spec fn right_press(
    before: ListView,
    after: ListView,
    len: int,
    position: Vec2,
    offset: Vec2,
    row_height: int,
    result: MouseHandleResult,
) -> bool {
    match before.row_under(position, offset, len, row_height) {
        Some(row) => {
            &&& result == MouseHandleResult::Handled(ListAction::ContextMenu(row as usize))
            &&& after.focuses(before, row, len, row_height)
        },
        None => {
            &&& result == MouseHandleResult::Handled(ListAction::Consume)
            &&& after.selected == before.selected
            &&& first_shown(after.scroller) == first_shown(before.scroller)
        },
    }
}

/// The scrollbar that is grabbed after an event: a press of the left button on one grabs it, and
/// the button's release lets go of it.
pub open spec fn grab_after(before: ListView, event: Event) -> Option<(bool, nat)> {
    match event {
        Event::Mouse { event: MouseEvent::Press(MouseButton::Left), position, offset } => {
            let x = position.x - offset.x;
            let y = position.y - offset.y;
            if shows_bars(before.scroller) && on_bar(before.scroller, x, y) {
                Some(pressed(before.scroller, x, y).1)
            } else {
                grab_of(before.scroller)
            }
        },
        Event::Mouse { event: MouseEvent::Release(MouseButton::Left), .. } => None,
        _ => grab_of(before.scroller),
    }
}

/// The state after a mouse event and what it comes to.
pub open spec fn mouse_step(
    before: ListView,
    after: ListView,
    rows: Seq<ListRow>,
    event: Event,
    row_height: int,
    result: MouseHandleResult,
) -> bool {
    let len = rows.len() as int;
    let consumed = MouseHandleResult::Handled(ListAction::Consume);
    &&& grab_of(after.scroller) == grab_after(before, event)
    &&& match event {
        Event::Mouse { event: MouseEvent::WheelUp, .. } => {
            &&& result == consumed
            &&& after.selected == before.selected
            &&& first_shown(after.scroller) == (
                first_shown(before.scroller).0,
                monus(first_shown(before.scroller).1 as int, 3) as nat,
            )
        },
        Event::Mouse { event: MouseEvent::WheelDown, .. } => {
            &&& result == MouseHandleResult::Handled(
                if should_paginate(after, len) {
                    ListAction::Paginate
                } else {
                    ListAction::Consume
                },
            )
            &&& after.selected == before.selected
            &&& first_shown(after.scroller) == (
                first_shown(before.scroller).0,
                min(last_top(before.scroller), first_shown(before.scroller).1 + 3int) as nat,
            )
        },
        Event::Mouse { event: MouseEvent::Press(MouseButton::Left), position, offset } => left_press(
            before,
            after,
            rows,
            position,
            offset,
            row_height,
            result,
        ),
        Event::Mouse { event: MouseEvent::Press(MouseButton::Right), position, offset } => {
            right_press(before, after, len, position, offset, row_height, result)
        },
        Event::Mouse { event: MouseEvent::Hold(MouseButton::Left), position, offset } => {
            &&& result == consumed
            &&& after.selected == before.selected
            &&& first_shown(after.scroller) == if shows_bars(before.scroller) {
                shown_after_drag(
                    before.scroller,
                    monus(position.x as int, offset.x as int),
                    monus(position.y as int, offset.y as int),
                )
            } else {
                first_shown(before.scroller)
            }
        },
        Event::Mouse { event: MouseEvent::Release(MouseButton::Left), .. } => {
            &&& result == consumed
            &&& after.selected == before.selected
            &&& first_shown(after.scroller) == first_shown(before.scroller)
        },
        _ => {
            &&& result == MouseHandleResult::Handled(ListAction::Ignore)
            &&& after == before
        },
    }
}

impl ListView {
    /// Acts on a mouse event. Tells what is left to do, or that the selected track is to be played.
    pub fn handle_mouse_event(&mut self, event: Event, rows: &[ListRow], values: &ConfigValues) -> (
        result: MouseHandleResult)
        requires
            old(self).wf(),
            mouse_fits(event),
            bar_fits(*old(self), event),
            rows_fit(rows@.len() as int, row_height_of(old(self).images, *values)),
        ensures
            final(self).wf(),
            final(self).same_but_focus(*old(self)),
            mouse_step(
                *old(self),
                *final(self),
                rows@,
                event,
                row_height_of(old(self).images, *values),
                result,
            ),
    {
        let row_height: usize = self.row_height(values);
        let len: usize = rows.len();
        match event {
            Event::Mouse { event: MouseEvent::WheelUp, .. } => {
                scroll_up(&mut self.scroller, 3);
                MouseHandleResult::Handled(ListAction::Consume)
            },
            Event::Mouse { event: MouseEvent::WheelDown, .. } => {
                scroll_down(&mut self.scroller, 3);
                if self.wants_more(len) {
                    MouseHandleResult::Handled(ListAction::Paginate)
                } else {
                    MouseHandleResult::Handled(ListAction::Consume)
                }
            },
            Event::Mouse { event: MouseEvent::Press(MouseButton::Left), position, offset } => {
                proof {
                    lemma_drag_keeps_to_the_content(
                        self.scroller,
                        position.x - offset.x,
                        position.y - offset.y,
                    );
                }
                let dragging = if has_bars(&self.scroller) {
                    start_drag(
                        &mut self.scroller,
                        position.x - offset.x,
                        position.y - offset.y,
                    )
                } else {
                    false
                };
                if dragging {
                    return MouseHandleResult::Handled(ListAction::Consume);
                }
                match self.get_selected_row(position, offset, len, row_height) {
                    Some(row) => {
                        if self.selected == row && rows[row].track.is_some() {
                            return MouseHandleResult::Play;
                        }
                        self.move_focus_to(row, len, row_height);
                        MouseHandleResult::Handled(ListAction::Click(row))
                    },
                    None => MouseHandleResult::Handled(ListAction::Consume),
                }
            },
            Event::Mouse { event: MouseEvent::Press(MouseButton::Right), position, offset } => {
                match self.get_selected_row(position, offset, len, row_height) {
                    Some(row) => {
                        self.move_focus_to(row, len, row_height);
                        MouseHandleResult::Handled(ListAction::ContextMenu(row))
                    },
                    None => MouseHandleResult::Handled(ListAction::Consume),
                }
            },
            Event::Mouse { event: MouseEvent::Hold(MouseButton::Left), position, offset } => {
                proof {
                    lemma_drag_keeps_to_the_content(
                        self.scroller,
                        monus(position.x as int, offset.x as int),
                        monus(position.y as int, offset.y as int),
                    );
                }
                if has_bars(&self.scroller) {
                    drag(
                        &mut self.scroller,
                        less(position.x, offset.x),
                        less(position.y, offset.y),
                    );
                }
                MouseHandleResult::Handled(ListAction::Consume)
            },
            Event::Mouse { event: MouseEvent::Release(MouseButton::Left), .. } => {
                release_grab(&mut self.scroller);
                MouseHandleResult::Handled(ListAction::Consume)
            },
            _ => MouseHandleResult::Handled(ListAction::Ignore),
        }
    }

    /// The items that go into the queue to be played one after the other: the selected one and all
    /// that follow it. None if the items are not of the kind that is played so.
    pub fn attempt_play_all_tracks(&self, len: usize) -> (items: Option<Vec<usize>>)
        ensures
            match items {
                Some(items) => self.plays_through && positions(items@) == from_on(
                    self.selected as int,
                    len as int,
                ),
                None => !self.plays_through,
            },
    {
        if self.plays_through {
            Some(items_from(self.selected, len))
        } else {
            None
        }
    }

    /// What a played track comes to: the list is played from it on if it is a list of tracks, or
    /// else the selected item alone.
    pub fn run_play_command(&self, len: usize) -> (action: ListAction)
        ensures
            action == play_action(*self, len as int),
    {
        if self.plays_through {
            ListAction::PlayAll(self.selected)
        } else if self.selected < len {
            ListAction::PlayItem(Some(self.selected))
        } else {
            ListAction::PlayItem(None)
        }
    }

    /// Acts on an event; a second click on a track plays it.
    pub fn on_event(&mut self, event: Event, rows: &[ListRow], values: &ConfigValues) -> (action:
        ListAction)
        requires
            old(self).wf(),
            mouse_fits(event),
            bar_fits(*old(self), event),
            rows_fit(rows@.len() as int, row_height_of(old(self).images, *values)),
        ensures
            final(self).wf(),
            final(self).same_but_focus(*old(self)),
            exists|result: MouseHandleResult|
                {
                    &&& #[trigger] mouse_step(
                        *old(self),
                        *final(self),
                        rows@,
                        event,
                        row_height_of(old(self).images, *values),
                        result,
                    )
                    &&& action == match result {
                        MouseHandleResult::Handled(action) => action,
                        MouseHandleResult::Play => play_action(*final(self), rows@.len() as int),
                    }
                },
    {
        match self.handle_mouse_event(event, rows, values) {
            MouseHandleResult::Handled(action) => action,
            MouseHandleResult::Play => self.run_play_command(rows.len()),
        }
    }
}

/// Once the left button is released, the scrollbar is let go of: a hold after that moves nothing.
pub proof fn lemma_released_bar_stays(
    held: ListView,
    released: ListView,
    moved: ListView,
    rows: Seq<ListRow>,
    release: Event,
    hold: Event,
    row_height: int,
    first: MouseHandleResult,
    second: MouseHandleResult,
)
    requires
        release matches Event::Mouse { event: MouseEvent::Release(MouseButton::Left), .. },
        hold matches Event::Mouse { event: MouseEvent::Hold(MouseButton::Left), .. },
        mouse_step(held, released, rows, release, row_height, first),
        mouse_step(released, moved, rows, hold, row_height, second),
    ensures
        !holds_bar(released.scroller),
        first_shown(released.scroller) == first_shown(held.scroller),
        first_shown(moved.scroller) == first_shown(released.scroller),
        !holds_bar(moved.scroller),
{
}

/// A press of the left button on a scrollbar grabs it, and it stays grabbed while the button is
/// held.
pub proof fn lemma_pressed_bar_is_held(
    before: ListView,
    pressed: ListView,
    dragged: ListView,
    rows: Seq<ListRow>,
    position: Vec2,
    offset: Vec2,
    hold: Event,
    row_height: int,
    first: MouseHandleResult,
    second: MouseHandleResult,
)
    requires
        shows_bars(before.scroller),
        on_bar(before.scroller, position.x - offset.x, position.y - offset.y),
        hold matches Event::Mouse { event: MouseEvent::Hold(MouseButton::Left), .. },
        mouse_step(
            before,
            pressed,
            rows,
            Event::Mouse { event: MouseEvent::Press(MouseButton::Left), position, offset },
            row_height,
            first,
        ),
        mouse_step(pressed, dragged, rows, hold, row_height, second),
    ensures
        holds_bar(pressed.scroller),
        holds_bar(dragged.scroller),
{
}

// Commands

/// The state after a command and the action that follows from it.
pub open spec fn command_step(
    before: ListView,
    after: ListView,
    rows: Seq<ListRow>,
    command: Command,
    playing: Option<NowPlaying>,
    row_height: int,
    action: ListAction,
) -> bool {
    let len = rows.len() as int;
    match command {
        Command::Jump(JumpMode::Query(query)) => {
            let found = matching(rows, query@, rows.len());
            &&& action == ListAction::Consume
            &&& after.same_but_scroll(before)
            &&& after.search_query@ == lowercase(query@)
            &&& after.search_indexes@ == found
            &&& after.search_selected_index == 0
            &&& if found.len() > 0 {
                after.focuses(before, found[0] as int, len, row_height)
            } else {
                after.selected == before.selected && after.scroller == before.scroller
            }
        },
        Command::Jump(JumpMode::Next) => jump_step(
            before,
            after,
            len,
            row_height,
            action,
            if before.search_selected_index == before.search_indexes@.len() - 1 {
                0
            } else {
                before.search_selected_index + 1
            },
        ),
        Command::Jump(JumpMode::Previous) => jump_step(
            before,
            after,
            len,
            row_height,
            action,
            if before.search_selected_index == 0 {
                before.search_indexes@.len() - 1
            } else {
                before.search_selected_index - 1
            },
        ),
        Command::Move(mode, amount) => {
            &&& after.same_but_focus(before)
            &&& match move_target(before.selected as int, len, mode, amount) {
                Some(target) => after.focuses(before, target, len, row_height),
                None => after.selected == before.selected && after.scroller == before.scroller,
            }
            &&& action == if mode == MoveMode::Down && should_paginate(after, len) {
                ListAction::Paginate
            } else {
                ListAction::Consume
            }
        },
        _ => {
            &&& after == before
            &&& action == action_for(before, rows, command, playing)
        },
    }
}

/// The state after a jump to the search result at position `to`. Without results there is no jump.
pub open spec fn jump_step(
    before: ListView,
    after: ListView,
    len: int,
    row_height: int,
    action: ListAction,
    to: int,
) -> bool {
    if before.search_indexes@.len() == 0 {
        &&& action == ListAction::Ignore
        &&& after == before
    } else {
        &&& action == ListAction::Consume
        &&& after.same_but_scroll(before)
        &&& after.search_query == before.search_query
        &&& after.search_indexes == before.search_indexes
        &&& after.search_selected_index == to
        &&& after.focuses(before, before.search_indexes@[to] as int, len, row_height)
    }
}

impl ListView {
    fn jump_to(&mut self, to: usize, len: usize, row_height: usize)
        requires
            old(self).wf(),
            to < old(self).search_indexes@.len(),
            row_height >= 1,
            rows_fit(len as int, row_height as int),
        ensures
            final(self).wf(),
            jump_step(
                *old(self),
                *final(self),
                len as int,
                row_height as int,
                ListAction::Consume,
                to as int,
            ),
    {
        let target: usize = self.search_indexes[to];
        self.move_focus_to(target, len, row_height);
        self.search_selected_index = to;
    }

    fn jump(&mut self, mode: &JumpMode, rows: &[ListRow], row_height: usize) -> (action: ListAction)
        requires
            old(self).wf(),
            row_height >= 1,
            rows_fit(rows@.len() as int, row_height as int),
        ensures
            final(self).wf(),
            command_step(
                *old(self),
                *final(self),
                rows@,
                Command::Jump(*mode),
                None,
                row_height as int,
                action,
            ),
    {
        let len: usize = rows.len();
        match mode {
            JumpMode::Query(query) => {
                self.search_query = query.as_str().to_lowercase();
                self.search_indexes = ListView::get_indexes_of(rows, query.as_str());
                self.search_selected_index = 0;
                if self.search_indexes.len() > 0 {
                    let first: usize = self.search_indexes[0];
                    self.move_focus_to(first, len, row_height);
                }
                ListAction::Consume
            },
            JumpMode::Next => {
                let count: usize = self.search_indexes.len();
                if count == 0 {
                    return ListAction::Ignore;
                }
                let next: usize = if self.search_selected_index == count - 1 {
                    0
                } else {
                    self.search_selected_index + 1
                };
                self.jump_to(next, len, row_height);
                ListAction::Consume
            },
            JumpMode::Previous => {
                let count: usize = self.search_indexes.len();
                if count == 0 {
                    return ListAction::Ignore;
                }
                let previous: usize = if self.search_selected_index == 0 {
                    count - 1
                } else {
                    self.search_selected_index - 1
                };
                self.jump_to(previous, len, row_height);
                ListAction::Consume
            },
        }
    }

    fn move_by_command(
        &mut self,
        mode: MoveMode,
        amount: MoveAmount,
        rows: &[ListRow],
        row_height: usize,
    ) -> (action: ListAction)
        requires
            old(self).wf(),
            row_height >= 1,
            rows_fit(rows@.len() as int, row_height as int),
        ensures
            final(self).wf(),
            command_step(
                *old(self),
                *final(self),
                rows@,
                Command::Move(mode, amount),
                None,
                row_height as int,
                action,
            ),
    {
        let len: usize = rows.len();
        let last: usize = less(len, 1);
        match mode {
            MoveMode::Up => {
                if self.selected > 0 {
                    match amount {
                        MoveAmount::Extreme => self.move_focus_to(0, len, row_height),
                        MoveAmount::Share(n) => self.move_focus(-(n as i64), len, row_height),
                        MoveAmount::Integer(n) => self.move_focus(-(n as i64), len, row_height),
                    }
                }
                ListAction::Consume
            },
            MoveMode::Down => {
                if self.selected < last {
                    match amount {
                        MoveAmount::Extreme => self.move_focus_to(last, len, row_height),
                        MoveAmount::Share(n) => self.move_focus(n as i64, len, row_height),
                        MoveAmount::Integer(n) => self.move_focus(n as i64, len, row_height),
                    }
                }
                if self.wants_more(len) {
                    ListAction::Paginate
                } else {
                    ListAction::Consume
                }
            },
            _ => ListAction::Consume,
        }
    }

    fn target(&self, len: usize, mode: TargetMode, playing: &Option<NowPlaying>) -> (target: Option<
        ListTarget,
    >)
        ensures
            target == target_of(*self, len as int, mode, *playing),
    {
        match mode {
            TargetMode::Current => if playing.is_some() {
                Some(ListTarget::Playing)
            } else {
                None
            },
            TargetMode::Selected => if self.selected < len {
                Some(ListTarget::Item(self.selected))
            } else {
                None
            },
        }
    }

    fn action(&self, command: &Command, rows: &[ListRow], playing: &Option<NowPlaying>) -> (action:
        ListAction)
        ensures
            action == action_for(*self, rows@, *command, *playing),
    {
        let selected: usize = self.selected;
        let exists = selected < rows.len();
        match command {
            Command::Play => self.run_play_command(rows.len()),
            Command::PlayNext => if exists {
                ListAction::PlayNext(selected)
            } else {
                ListAction::Consume
            },
            Command::Queue => if exists {
                ListAction::Queue(selected)
            } else {
                ListAction::Consume
            },
            Command::Save => if exists {
                ListAction::Save(selected)
            } else {
                ListAction::Consume
            },
            Command::Delete => if exists {
                ListAction::Unsave(selected)
            } else {
                ListAction::Consume
            },
            Command::Add => if exists && rows[selected].track.is_some() {
                ListAction::AddToPlaylist(selected)
            } else {
                ListAction::Consume
            },
            Command::Share(TargetMode::Selected) => if exists && rows[selected].share_url.is_some() {
                ListAction::Share(ListTarget::Item(selected))
            } else {
                ListAction::Consume
            },
            Command::Share(TargetMode::Current) => match playing {
                Some(playing) => if playing.shareable {
                    ListAction::Share(ListTarget::Playing)
                } else {
                    ListAction::Consume
                },
                None => ListAction::Consume,
            },
            Command::Open(mode) => match self.target(rows.len(), *mode, playing) {
                Some(target) => ListAction::Open(target),
                None => ListAction::Ignore,
            },
            Command::Goto(GotoMode::Album) => if exists {
                ListAction::GotoAlbum(selected)
            } else {
                ListAction::Ignore
            },
            Command::Goto(GotoMode::Artist) => if exists {
                match rows[selected].artists {
                    Some(artists) => if artists == 0 {
                        ListAction::Consume
                    } else if artists == 1 {
                        ListAction::GotoArtist(selected)
                    } else {
                        ListAction::SelectArtist(selected)
                    },
                    None => ListAction::Ignore,
                }
            } else {
                ListAction::Ignore
            },
            Command::Insert(InsertSource::Input(_)) => ListAction::InsertLink,
            Command::Insert(InsertSource::Clipboard) => ListAction::InsertClipboard,
            Command::ShowRecommendations(mode) => match self.target(rows.len(), *mode, playing) {
                Some(target) => ListAction::ShowRecommendations(target),
                None => ListAction::Ignore,
            },
            _ => ListAction::Ignore,
        }
    }

    /// Acts on a command. Tells what is left to do.
    pub fn on_command(
        &mut self,
        command: &Command,
        rows: &[ListRow],
        values: &ConfigValues,
        playing: &Option<NowPlaying>,
    ) -> (action: ListAction)
        requires
            old(self).wf(),
            rows_fit(rows@.len() as int, row_height_of(old(self).images, *values)),
        ensures
            final(self).wf(),
            command_step(
                *old(self),
                *final(self),
                rows@,
                *command,
                *playing,
                row_height_of(old(self).images, *values),
                action,
            ),
    {
        let row_height: usize = self.row_height(values);
        match command {
            Command::Jump(mode) => self.jump(mode, rows, row_height),
            Command::Move(mode, amount) => self.move_by_command(*mode, *amount, rows, row_height),
            _ => self.action(command, rows, playing),
        }
    }
}

/// A selection that is on an item stays on an item, whatever the command and as long as the items
/// stay.
pub proof fn lemma_selection_stays_on_an_item(
    before: ListView,
    after: ListView,
    rows: Seq<ListRow>,
    command: Command,
    playing: Option<NowPlaying>,
    row_height: int,
    action: ListAction,
)
    requires
        before.selected < rows.len(),
        command_step(before, after, rows, command, playing, row_height, action),
    ensures
        after.selected < rows.len(),
{
}

/// A selected item is in view once the list has moved to it, as long as the list shows any rows.
pub proof fn lemma_focus_is_in_view(
    before: ListView,
    after: ListView,
    target: int,
    len: int,
    row_height: int,
)
    requires
        after.focuses(before, target, len, row_height),
        0 <= focus_for(target, len) * row_height,
        shown_size(before.scroller).1 > 0,
    ensures
        first_shown(after.scroller).1 <= focus_for(target, len) * row_height < first_shown(
            after.scroller,
        ).1 + shown_size(after.scroller).1,
{
}

/// A search finds an item just if its left text holds the query, whatever the case, each one once
/// and in the order of the list.
pub proof fn lemma_search_is_exact(rows: Seq<ListRow>, query: Seq<char>, n: nat)
    requires
        n <= rows.len(),
        n <= usize::MAX,
    ensures
        forall|i: usize|
            #[trigger] matching(rows, query, n).contains(i) <==> i < n && contains(
                lowercase(rows[i as int].left@),
                lowercase(query),
            ),
        forall|a: int, b: int|
            0 <= a < b < matching(rows, query, n).len() ==> matching(rows, query, n)[a] < matching(
                rows,
                query,
                n,
            )[b],
        forall|a: int|
            0 <= a < matching(rows, query, n).len() ==> (#[trigger] matching(rows, query, n)[a]) < n,
    decreases n,
{
    if n > 0 {
        let before = matching(rows, query, (n - 1) as nat);
        let after = matching(rows, query, n);
        let last = (n - 1) as usize;
        lemma_search_is_exact(rows, query, (n - 1) as nat);
        assert forall|i: usize|
            #[trigger] after.contains(i) <==> i < n && contains(
                lowercase(rows[i as int].left@),
                lowercase(query),
            ) by {
            assert(before.contains(i) <==> i < n - 1 && contains(
                lowercase(rows[i as int].left@),
                lowercase(query),
            ));
            if contains(lowercase(rows[n - 1].left@), lowercase(query)) {
                assert(after == before.push(last));
                if before.contains(i) {
                    let a = choose|a: int| 0 <= a < before.len() && before[a] == i;
                    assert(after[a] == i);
                }
                if i == last {
                    assert(after[before.len() as int] == i);
                }
                if after.contains(i) && i != last {
                    let a = choose|a: int| 0 <= a < after.len() && after[a] == i;
                    assert(before[a] == i);
                }
            }
        }
    }
}

/// The result that the search is at is selected, and all results are items of the list.
pub open spec fn at_result(view: ListView, len: int) -> bool {
    &&& view.search_selected_index < view.search_indexes@.len()
    &&& view.selected == view.search_indexes@[view.search_selected_index as int]
    &&& forall|i: int|
        0 <= i < view.search_indexes@.len() ==> (#[trigger] view.search_indexes@[i]) < len
}

/// After a search the first result is selected, and after `k` jumps to the next one the result that
/// comes `k` places behind it, round and round. Where nothing was found, the selection stays, and
/// jumps are ignored. `states` and `actions` are what the search and the jumps come to, one after
/// the other.
pub proof fn lemma_jumps_walk_the_results(
    before: ListView,
    states: Seq<ListView>,
    actions: Seq<ListAction>,
    rows: Seq<ListRow>,
    query: String,
    playing: Option<NowPlaying>,
    row_height: int,
    k: nat,
)
    requires
        rows.len() <= usize::MAX,
        k < states.len(),
        command_step(
            before,
            states[0],
            rows,
            Command::Jump(JumpMode::Query(query)),
            playing,
            row_height,
            actions[0],
        ),
        forall|j: int|
            0 < j <= k ==> command_step(
                states[j - 1],
                #[trigger] states[j],
                rows,
                Command::Jump(JumpMode::Next),
                playing,
                row_height,
                actions[j],
            ),
    ensures
        ({
            let found = matching(rows, query@, rows.len());
            let view = states[k as int];
            &&& view.search_indexes@ == found
            &&& found.len() > 0 ==> {
                &&& view.search_selected_index == k as int % found.len() as int
                &&& view.selected == found[k as int % found.len() as int]
                &&& at_result(view, rows.len() as int)
                &&& actions[k as int] == ListAction::Consume
            }
            &&& found.len() == 0 ==> {
                &&& view == states[0]
                &&& view.selected == before.selected
                &&& actions[k as int] == if k == 0 {
                    ListAction::Consume
                } else {
                    ListAction::Ignore
                }
            }
        }),
    decreases k,
{
    let found = matching(rows, query@, rows.len());
    let n = found.len() as int;
    lemma_search_is_exact(rows, query@, rows.len());
    if k == 0 {
        if n > 0 {
            assert(found[0] < rows.len());
            assert(0int % n == 0) by (nonlinear_arith)
                requires
                    n > 0,
            ;
        }
    } else {
        let last = states[k - 1];
        lemma_jumps_walk_the_results(
            before,
            states,
            actions,
            rows,
            query,
            playing,
            row_height,
            (k - 1) as nat,
        );
        assert(command_step(
            last,
            states[k as int],
            rows,
            Command::Jump(JumpMode::Next),
            playing,
            row_height,
            actions[k as int],
        ));
        if n > 0 {
            let at = (k - 1) % n;
            assert(k as int % n == if at == n - 1 {
                0
            } else {
                at + 1
            }) by {
                vstd::arithmetic::div_mod::lemma_fundamental_div_mod(k - 1, n);
                let q = (k - 1) / n;
                if at == n - 1 {
                    assert(k as int == n * (q + 1) + 0) by (nonlinear_arith)
                        requires
                            k - 1 == n * q + (n - 1),
                    ;
                    vstd::arithmetic::div_mod::lemma_fundamental_div_mod_converse(
                        k as int,
                        n,
                        q + 1,
                        0,
                    );
                } else {
                    vstd::arithmetic::div_mod::lemma_fundamental_div_mod_converse(
                        k as int,
                        n,
                        q,
                        at + 1,
                    );
                }
            }
            assert(found[k as int % n] < rows.len());
        }
    }
}

/// A jump to the next search result and one to the previous one undo each other, in either order:
/// the same result is selected again. Without results both are ignored.
pub proof fn lemma_jumps_undo_each_other(
    first: ListView,
    second: ListView,
    third: ListView,
    rows: Seq<ListRow>,
    playing: Option<NowPlaying>,
    row_height: int,
    forth: JumpMode,
    back: JumpMode,
    there: ListAction,
    again: ListAction,
)
    requires
        first.wf(),
        first.search_indexes@.len() > 0 ==> at_result(first, rows.len() as int),
        (forth is Next && back is Previous) || (forth is Previous && back is Next),
        command_step(
            first,
            second,
            rows,
            Command::Jump(forth),
            playing,
            row_height,
            there,
        ),
        command_step(
            second,
            third,
            rows,
            Command::Jump(back),
            playing,
            row_height,
            again,
        ),
    ensures
        third.selected == first.selected,
        third.search_selected_index == first.search_selected_index,
        third.search_indexes == first.search_indexes,
        there == again,
        there == if first.search_indexes@.len() > 0 {
            ListAction::Consume
        } else {
            ListAction::Ignore
        },
        first.search_indexes@.len() == 0 ==> third == first,
{
}

// Layout

/// What a new size of the list asks for.
#[derive(Clone, Copy, Debug, PartialEq, Eq, Structural)]
pub struct ListLayout {
    /// Whether the scroll state has to take in the content anew.
    pub relayout: bool,
    /// Whether another frame has to be drawn, so that thumbnails stick.
    pub redraw: bool,
    /// The rows of the content, the row for items that are not loaded included.
    pub content_rows: usize,
}

impl ListView {
    /// Takes in the size of the list. At a new size all thumbnails are emitted again.
    pub fn layout(&mut self, size: Vec2, len: usize, values: &ConfigValues) -> (layout: ListLayout)
        requires
            rows_fit(len as int, row_height_of(old(self).images, *values)),
        ensures
            layout.relayout == (len != old(self).last_content_len),
            layout.redraw == (size != old(self).last_size),
            layout.content_rows == len * row_height_of(old(self).images, *values) + if old(
                self,
            ).has_more() {
                1int
            } else {
                0
            },
            final(self).last_size == size,
            final(self).last_content_len == if old(self).has_more() {
                len + 1
            } else {
                len as int
            },
            final(self).slots.follows() == old(self).slots.follows(),
            size != old(self).last_size ==> final(self).slots.list().len() == 0,
            size == old(self).last_size ==> final(self).slots == old(self).slots,
            *final(self) == (ListView {
                last_size: size,
                last_content_len: final(self).last_content_len,
                slots: final(self).slots,
                ..*old(self)
            }),
    {
        let row_height: usize = self.row_height(values);
        proof {
            assert(len <= len * row_height) by (nonlinear_arith)
                requires
                    row_height >= 1,
                    len >= 0,
            ;
        }
        let redraw = size.x != self.last_size.x || size.y != self.last_size.y;
        if redraw {
            self.slots.clear();
        }
        self.last_size = size;
        let relayout = self.content_len(len, false) != self.last_content_len;
        self.last_content_len = self.content_len(len, true);
        let item_rows: usize = len * row_height;
        let content_rows: usize = if self.can_paginate() {
            item_rows + 1
        } else {
            item_rows
        };
        ListLayout { relayout, redraw, content_rows }
    }

    /// With thumbnails the list is laid out for every frame, so that cleared slots are emitted.
    pub fn needs_relayout(&self) -> (yes: bool)
        ensures
            yes == (self.images || stale(self.scroller)),
    {
        self.images || is_stale(&self.scroller)
    }

    /// The cell of the list that matters most: the row of the selection.
    pub fn important_area(&self, view_size: Vec2, len: usize) -> (point: Vec2)
        ensures
            point == if len > 0 {
                Vec2 { x: view_size.x, y: self.selected }
            } else {
                Vec2 { x: 0, y: 0 }
            },
    {
        if len > 0 {
            Vec2 { x: view_size.x, y: self.selected }
        } else {
            Vec2 { x: 0, y: 0 }
        }
    }
}

// Drawing

/// The background of the thumbnails.
pub open spec fn thumbnail_style() -> Style {
    colors(Shade::Palette(PaletteColor::Background), Shade::Palette(PaletteColor::Background))
}

/// The strokes of the background of the thumbnails in the first `n` rows.
pub open spec fn background_strokes(thumb_cols: int, n: nat) -> Seq<StrokeView>
    decreases n,
{
    if n == 0 {
        Seq::empty()
    } else {
        background_strokes(thumb_cols, (n - 1) as nat).push(
            blank_at(0, n - 1, thumb_cols, thumbnail_style()),
        )
    }
}

/// Fills the thumbnail columns with a stable background, so that the cells there are the same in
/// every frame and never overwrite a thumbnail.
pub fn draw_thumbnail_background(thumb_cols: usize, height: usize) -> (frame: Frame)
    ensures
        frame@ == if thumb_cols > 0 {
            background_strokes(thumb_cols as int, height as nat)
        } else {
            Seq::empty()
        },
{
    let mut frame = Frame::new();
    if thumb_cols == 0 {
        return frame;
    }
    let style = Style::new(
        Shade::Palette(PaletteColor::Background),
        Shade::Palette(PaletteColor::Background),
    );
    let mut y: usize = 0;
    while y < height
        invariant
            y <= height,
            style == thumbnail_style(),
            frame@ == background_strokes(thumb_cols as int, y as nat),
        decreases height - y,
    {
        frame.blank(0, y, thumb_cols, style);
        y += 1;
    }
    frame
}

/// The style of an item.
pub open spec fn item_style(selected: bool, playing: bool, track: Option<TrackFlags>) -> Style {
    let local = track is Some && track->0.is_local;
    let unplayable = track is Some && track->0.is_playable == Some(false);
    if selected {
        if playing {
            colors(
                Shade::Custom(CustomColor::PlayingSelected),
                Shade::Palette(PaletteColor::Highlight),
            )
        } else if local {
            colors(
                Shade::Palette(PaletteColor::Secondary),
                Shade::Palette(PaletteColor::Highlight),
            )
        } else {
            highlight_style()
        }
    } else if playing {
        colors(Shade::Custom(CustomColor::Playing), Shade::Custom(CustomColor::PlayingBg))
    } else if local || unplayable {
        secondary_style()
    } else {
        primary_style()
    }
}

fn style_of(selected: bool, playing: bool, track: &Option<TrackFlags>) -> (style: Style)
    ensures
        style == item_style(selected, playing, *track),
{
    let (local, unplayable) = match track {
        Some(track) => (
            track.is_local,
            match track.is_playable {
                Some(playable) => !playable,
                None => false,
            },
        ),
        None => (false, false),
    };
    if selected {
        if playing {
            Style::new(
                Shade::Custom(CustomColor::PlayingSelected),
                Shade::Palette(PaletteColor::Highlight),
            )
        } else if local {
            Style::new(
                Shade::Palette(PaletteColor::Secondary),
                Shade::Palette(PaletteColor::Highlight),
            )
        } else {
            Style::highlight()
        }
    } else if playing {
        Style::new(Shade::Custom(CustomColor::Playing), Shade::Custom(CustomColor::PlayingBg))
    } else if local || unplayable {
        Style::secondary()
    } else {
        Style::primary()
    }
}

/// The stroke that marks one occurrence of the query, which stands at position `at` of the
/// lower-case text. The mark covers the same bytes of the text itself; where these do not come out
/// at whole characters there is no mark.
pub open spec fn mark(
    left: Seq<char>,
    lower: Seq<char>,
    query: Seq<char>,
    at: int,
    text_x: int,
    style: Style,
) -> Seq<StrokeView> {
    let start = char_at_byte(left, byte_len(lower.take(at)));
    let end = char_at_byte(left, byte_len(lower.take(at)) + byte_len(query));
    if start is Some && end is Some {
        seq![
            text_at(
                capped_sum(text_x, text_width(left.take(start->0)) as int),
                0,
                left.subrange(start->0, end->0),
                style,
            ),
        ]
    } else {
        Seq::empty()
    }
}

/// The strokes that mark the first `n` of the given occurrences of the query.
pub open spec fn marks(
    left: Seq<char>,
    lower: Seq<char>,
    query: Seq<char>,
    found: Seq<int>,
    text_x: int,
    style: Style,
    n: nat,
) -> Seq<StrokeView>
    decreases n,
{
    if n == 0 {
        Seq::empty()
    } else {
        marks(left, lower, query, found, text_x, style, (n - 1) as nat) + mark(
            left,
            lower,
            query,
            found[n - 1],
            text_x,
            style,
        )
    }
}

/// The strokes that mark all occurrences of the query in an item's left text.
pub open spec fn match_strokes(left: Seq<char>, query: Seq<char>, text_x: int, back: Shade) -> Seq<
    StrokeView,
> {
    let lower = lowercase(left);
    let found = occurrences(lower, query, 0);
    marks(
        left,
        lower,
        query,
        found,
        text_x,
        colors(Shade::Custom(CustomColor::SearchMatch), back),
        found.len(),
    )
}

fn draw_marks(left: &str, query: &str, text_x: usize, back: Shade) -> (frame: Frame)
    ensures
        frame@ == match_strokes(left@, query@, text_x as int, back),
{
    let style = Style::new(Shade::Custom(CustomColor::SearchMatch), back);
    let mut frame = Frame::new();
    let own = chars_of(left);
    let lower = chars_of(left.to_lowercase().as_str());
    let wanted = chars_of(query);
    let positions = find_all(lower.as_slice(), wanted.as_slice());
    let ghost found = occurrences(lower@, wanted@, 0);
    assert(found.len() == positions@.len());
    let own_starts = byte_starts(own.as_slice());
    let lower_starts = byte_starts(lower.as_slice());
    let wanted_starts = byte_starts(wanted.as_slice());
    assert(wanted@.take(wanted@.len() as int) =~= wanted@);
    let wanted_bytes: u128 = wanted_starts[wanted.len()];
    let mut n: usize = 0;
    while n < positions.len()
        invariant
            n <= positions@.len(),
            own@ == left@,
            lower@ == lowercase(left@),
            wanted@ == query@,
            style == colors(Shade::Custom(CustomColor::SearchMatch), back),
            found == occurrences(lower@, wanted@, 0),
            found == positions@.map_values(|p: usize| p as int),
            forall|i: int|
                0 <= i < positions@.len() ==> (#[trigger] positions@[i]) + wanted@.len()
                    <= lower@.len(),
            own_starts@.len() == own@.len() + 1,
            forall|i: int|
                0 <= i <= own@.len() ==> #[trigger] own_starts@[i] == byte_len(own@.take(i)),
            lower_starts@.len() == lower@.len() + 1,
            forall|i: int|
                0 <= i <= lower@.len() ==> #[trigger] lower_starts@[i] == byte_len(lower@.take(i)),
            wanted_bytes == byte_len(wanted@),
            wanted_bytes <= 4 * usize::MAX,
            forall|i: int| 0 <= i <= lower@.len() ==> #[trigger] lower_starts@[i] <= 4 * usize::MAX,
            frame@ == marks(
                left@,
                lower@,
                query@,
                found,
                text_x as int,
                style,
                n as nat,
            ),
        decreases positions@.len() - n,
    {
        let at: usize = positions[n];
        assert(found[n as int] == at);
        let first: u128 = lower_starts[at];
        let past: u128 = first + wanted_bytes;
        let ghost before = frame@;
        let start = position_of_byte(own.as_slice(), own_starts.as_slice(), first);
        let end = position_of_byte(own.as_slice(), own_starts.as_slice(), past);
        if let (Some(start), Some(end)) = (start, end) {
            proof {
                lemma_char_at_byte(own@, first as int);
                lemma_char_at_byte(own@, past as int);
                if end < start {
                    lemma_byte_len_grows(own@, end as int, start as int);
                }
            }
            assert(own@.take(start as int) =~= own@.subrange(0, start as int));
            let head = string_of(&own.as_slice()[0..start]);
            let part = string_of(&own.as_slice()[start..end]);
            frame.print(plus(text_x, width(head.as_str())), 0, part.as_str(), style);
        }
        assert(frame@ =~= before + mark(
            left@,
            lower@,
            query@,
            at as int,
            text_x as int,
            style,
        ));
        n += 1;
    }
    frame
}

/// The strokes that cut off a text that ends behind column `end`: two dots, and blanks behind
/// them.
pub open spec fn cut_off(text: Seq<char>, x: int, end: int, columns: int, style: Style) -> Seq<
    StrokeView,
> {
    if end < x + text_width(text) {
        seq![
            blank_at(monus(end, 1), 0, columns, style),
            text_at(monus(end, 1), 0, ".."@, style),
        ]
    } else {
        Seq::empty()
    }
}

/// The strokes of the center text, which starts at column `x` and is cut off with two dots where
/// it ends behind column `end`.
pub open spec fn center_strokes(text: Seq<char>, x: int, end: int, style: Style) -> Seq<StrokeView> {
    if text.len() == 0 {
        Seq::empty()
    } else if end < x + text_width(text) {
        seq![text_at(x, 0, text, style), text_at(monus(end, 1), 0, ".."@, style)]
    } else {
        seq![text_at(x, 0, text, style)]
    }
}

/// The strokes of an item's left text, with the occurrences of a search in it.
pub open spec fn left_strokes(
    text: Seq<char>,
    marked: bool,
    query: Seq<char>,
    x: int,
    room: int,
    style: Style,
) -> Seq<StrokeView> {
    seq![blank_at(x, 0, room, style), text_at(x, 0, text, style)] + if marked {
        match_strokes(text, query, x, style.back)
    } else {
        Seq::empty()
    }
}

/// The strokes of an item's texts: the left one from the start, cut off where it would run into
/// the next one, the center one from the middle, and the right one at the end.
pub open spec fn text_strokes(
    row: ListRow,
    marked: bool,
    query: Seq<char>,
    columns: int,
    text_x: int,
    style: Style,
) -> Seq<StrokeView> {
    let room = monus(columns, text_x);
    let right = row.right@;
    let before_right = monus(columns, text_width(right) + 1int);
    let center_x = text_x + room / 2;
    let left_end = if row.center@.len() > 0 {
        monus(center_x, 1)
    } else {
        before_right
    };
    (left_strokes(row.left@, marked, query, text_x, room, style) + cut_off(
        row.left@,
        text_x,
        left_end,
        columns,
        style,
    ) + center_strokes(row.center@, center_x, before_right, style)).push(
        text_at(monus(columns, text_width(right) as int), 0, right, style),
    )
}

/// The note below the items while there are more.
pub open spec fn more_note(most: int, len: int) -> Seq<char> {
    decimal((most - len) as nat) + " more items, scroll to load"@
}

/// The strokes of line `line` of the content. The texts of an item are in its first line, the
/// other lines of the item are blank.
pub open spec fn line_strokes(
    view: ListView,
    rows: Seq<ListRow>,
    line: int,
    columns: int,
    text_x: int,
    row_height: int,
    playing: Option<usize>,
) -> Seq<StrokeView> {
    let len = rows.len() as int;
    if line >= len * row_height {
        if view.has_more() {
            seq![
                text_at(
                    0,
                    0,
                    more_note(view.pagination.max_content->0 as int, len),
                    secondary_style(),
                ),
            ]
        } else {
            Seq::empty()
        }
    } else {
        let index = line / row_height;
        let row = rows[index];
        let style = item_style(
            view.selected == index,
            row.is_playing && playing == Some(index as usize),
            row.track,
        );
        if line % row_height > 0 {
            seq![blank_at(text_x, 0, monus(columns, text_x), style)]
        } else {
            text_strokes(
                row,
                view.search_indexes@.contains(index as usize),
                view.search_query@,
                columns,
                text_x,
                style,
            )
        }
    }
}

fn draw_left(text: &str, marked: bool, query: &str, x: usize, room: usize, style: Style) -> (frame:
    Frame)
    ensures
        frame@ == left_strokes(text@, marked, query@, x as int, room as int, style),
{
    let mut frame = Frame::new();
    frame.blank(x, 0, room, style);
    frame.print(x, 0, text, style);
    let ghost start = seq![
        blank_at(x as int, 0, room as int, style),
        text_at(x as int, 0, text@, style),
    ];
    assert(frame@ =~= start);
    if marked {
        let marks = draw_marks(text, query, x, style.back);
        frame.append(marks);
    } else {
        assert(start + Seq::<StrokeView>::empty() =~= start);
    }
    frame
}

fn draw_cut_off(text: &str, x: usize, end: usize, columns: usize, style: Style) -> (frame: Frame)
    ensures
        frame@ == cut_off(text@, x as int, end as int, columns as int, style),
{
    let mut frame = Frame::new();
    let cells: usize = width(text);
    if end < x || end - x < cells {
        let at: usize = less(end, 1);
        frame.blank(at, 0, columns, style);
        frame.print(at, 0, "..", style);
    }
    assert(frame@ =~= cut_off(text@, x as int, end as int, columns as int, style));
    frame
}

fn draw_center(text: &str, x: usize, end: usize, style: Style) -> (frame: Frame)
    ensures
        frame@ == center_strokes(text@, x as int, end as int, style),
{
    let mut frame = Frame::new();
    if !text.is_empty() {
        frame.print(x, 0, text, style);
        let cells: usize = width(text);
        if end < x || end - x < cells {
            frame.print(less(end, 1), 0, "..", style);
        }
    }
    assert(frame@ =~= center_strokes(text@, x as int, end as int, style));
    frame
}

fn draw_texts(
    row: &ListRow,
    marked: bool,
    query: &str,
    columns: usize,
    text_x: usize,
    style: Style,
) -> (frame: Frame)
    ensures
        frame@ == text_strokes(*row, marked, query@, columns as int, text_x as int, style),
{
    let room: usize = less(columns, text_x);
    let before_right: usize = cells_left(columns, row.right.as_str(), 1);
    assert(text_x + room / 2 <= max(columns as int, text_x as int));
    let center_x: usize = text_x + room / 2;
    let left_end: usize = if !row.center.as_str().is_empty() {
        less(center_x, 1)
    } else {
        before_right
    };
    let mut frame = draw_left(row.left.as_str(), marked, query, text_x, room, style);
    frame.append(draw_cut_off(row.left.as_str(), text_x, left_end, columns, style));
    frame.append(draw_center(row.center.as_str(), center_x, before_right, style));
    frame.print(less(columns, width(row.right.as_str())), 0, row.right.as_str(), style);
    frame
}

fn holds_index(indexes: &Vec<usize>, index: usize) -> (yes: bool)
    ensures
        yes == indexes@.contains(index),
{
    let mut i: usize = 0;
    while i < indexes.len()
        invariant
            i <= indexes@.len(),
            forall|j: int| 0 <= j < i ==> indexes@[j] != index,
        decreases indexes@.len() - i,
    {
        if indexes[i] == index {
            return true;
        }
        i += 1;
    }
    false
}

impl ListView {
    /// The strokes of line `line` of the content, in a list of `columns` cells. `playing` is the
    /// position in the queue of what is playing.
    pub fn draw_line(
        &self,
        rows: &[ListRow],
        line: usize,
        columns: usize,
        values: &ConfigValues,
        cell_px: Vec2,
        playing: Option<usize>,
    ) -> (frame: Frame)
        requires
            cell_fits(cell_px),
            rows_fit(rows@.len() as int, row_height_of(self.images, *values)),
            self.has_more() ==> self.pagination.max_content->0 >= rows@.len(),
        ensures
            frame@ == line_strokes(
                *self,
                rows@,
                line as int,
                columns as int,
                text_column(thumb_columns_of(self.images, *values, cell_px)),
                row_height_of(self.images, *values),
                playing,
            ),
    {
        let row_height: usize = self.row_height(values);
        let thumb_cols: usize = self.thumb_columns(values, cell_px);
        let text_x: usize = if thumb_cols > 0 {
            thumb_cols + 1
        } else {
            0
        };
        let len: usize = rows.len();
        let mut frame = Frame::new();
        if line >= len * row_height {
            if self.can_paginate() {
                if let Some(most) = self.pagination.max_content {
                    let mut note = decimal_text((most - len) as u64);
                    note.append(" more items, scroll to load");
                    frame.print(0, 0, note.as_str(), Style::secondary());
                }
            }
            assert(frame@ =~= line_strokes(
                *self,
                rows@,
                line as int,
                columns as int,
                text_x as int,
                row_height as int,
                playing,
            ));
            return frame;
        }
        proof {
            assert(0 <= line / row_height < len) by (nonlinear_arith)
                requires
                    0 <= line < len * row_height,
                    row_height >= 1,
            ;
        }
        let index: usize = line / row_height;
        let row = &rows[index];
        let is_current = match playing {
            Some(playing) => playing == index,
            None => false,
        };
        let style = style_of(self.selected == index, row.is_playing && is_current, &row.track);
        if line % row_height > 0 {
            frame.blank(text_x, 0, less(columns, text_x), style);
            assert(frame@ =~= seq![
                blank_at(text_x as int, 0, monus(columns as int, text_x as int), style),
            ]);
            return frame;
        }
        draw_texts(
            row,
            holds_index(&self.search_indexes, index),
            self.search_query.as_str(),
            columns,
            text_x,
            style,
        )
    }

    /// The thumbnail that belongs beside line `line` of the content: the slot, the image, and the
    /// pixels of its side. It stands beside all lines of its item, and belongs to the first.
    pub fn thumbnail(&self, rows: &[ListRow], line: usize, values: &ConfigValues, cell_px: Vec2) -> (
    thumbnail: Option<(usize, SlotImage, usize)>)
        requires
            cell_fits(cell_px),
            rows_fit(rows@.len() as int, row_height_of(self.images, *values)),
        ensures
            ({
                let row_height = row_height_of(self.images, *values);
                if thumb_columns_of(self.images, *values, cell_px) > 0 && line < rows@.len()
                    * row_height && line as int % row_height == 0 {
                    thumbnail matches Some((slot, image, side_px)) && slot == line as int
                        / row_height && image@ == cover_beside(rows@[line as int / row_height])
                        && side_px == row_height * cell_px.y
                } else {
                    thumbnail is None
                }
            }),
    {
        let row_height: usize = self.row_height(values);
        let len: usize = rows.len();
        if self.thumb_columns(values, cell_px) == 0 || line >= len * row_height || line % row_height
            > 0 {
            return None;
        }
        proof {
            assert(0 <= line / row_height < len) by (nonlinear_arith)
                requires
                    0 <= line < len * row_height,
                    row_height >= 1,
            ;
            assert(0 <= row_height * cell_px.y <= 255 * cell_px.y) by (nonlinear_arith)
                requires
                    1 <= row_height <= 255,
                    cell_px.y >= 0,
            ;
        }
        let index: usize = line / row_height;
        let image = match &rows[index].cover_url {
            Some(url) => SlotImage::Image(url.clone()),
            None => SlotImage::Blank,
        };
        Some((index, image, row_height * cell_px.y))
    }

    /// Leaves the view: what the thumbnails covered has to be erased by writing the result to the
    /// terminal, and all of them are to be emitted again. Without thumbnails nothing happens.
    pub fn on_leave(&mut self, values: &ConfigValues, cell_px: Vec2) -> (erase: Option<String>)
        requires
            cell_fits(cell_px),
        ensures
            ({
                let columns = thumb_columns_of(old(self).images, *values, cell_px);
                let positions = occupied_positions(old(self).slots.list());
                if columns == 0 {
                    &&& erase is None
                    &&& *final(self) == *old(self)
                } else {
                    &&& maybe_text(erase) == if positions.len() > 0 {
                        Some(
                            erasure(
                                positions,
                                columns,
                                row_height_of(old(self).images, *values),
                            ),
                        )
                    } else {
                        None
                    }
                    &&& final(self).slots.list().len() == 0
                    &&& final(self).slots.follows() == old(self).slots.follows()
                    &&& *final(self) == (ListView { slots: final(self).slots, ..*old(self) })
                }
            }),
    {
        let columns: usize = self.thumb_columns(values, cell_px);
        if columns == 0 {
            return None;
        }
        let row_height: usize = self.row_height(values);
        let positions = self.slots.occupied();
        self.slots.clear();
        if positions.len() > 0 {
            Some(erasure_text(positions.as_slice(), columns, row_height))
        } else {
            None
        }
    }
}

/// What stands beside an item: its cover, or a blank.
pub open spec fn cover_beside(row: ListRow) -> super::slots::Shown {
    match row.cover_url {
        Some(url) => super::slots::Shown::Image(url@),
        None => super::slots::Shown::Blank,
    }
}

/// The sequence that moves the cursor to a cell of the terminal, counted from 1, and writes blanks
/// from there.
pub open spec fn blank_out(position: Vec2, row: int, columns: int) -> Seq<char> {
    "\u{1b}["@ + decimal(capped_sum(capped_sum(position.y as int, row), 1) as nat) + ";"@ + decimal(
        capped_sum(position.x as int, 1) as nat,
    ) + "H"@ + Seq::new(columns as nat, |i: int| ' ')
}

/// The sequences that blank out the first `n` rows of a thumbnail.
pub open spec fn blank_rows(position: Vec2, columns: int, n: nat) -> Seq<char>
    decreases n,
{
    if n == 0 {
        Seq::empty()
    } else {
        blank_rows(position, columns, (n - 1) as nat) + blank_out(position, n - 1, columns)
    }
}

/// The sequences that blank out the first `n` thumbnails.
pub open spec fn blank_thumbnails(positions: Seq<Vec2>, columns: int, rows: int, n: nat) -> Seq<char>
    decreases n,
{
    if n == 0 {
        Seq::empty()
    } else {
        blank_thumbnails(positions, columns, rows, (n - 1) as nat) + blank_rows(
            positions[n - 1],
            columns,
            rows as nat,
        )
    }
}

/// What erases thumbnails from the terminal, in one update and with the cursor left where it was.
pub open spec fn erasure(positions: Seq<Vec2>, columns: int, rows: int) -> Seq<char> {
    "\u{1b}[?2026h\u{1b}7"@ + blank_thumbnails(positions, columns, rows, positions.len())
        + "\u{1b}8\u{1b}[?2026l"@
}

pub(crate) fn erasure_text(positions: &[Vec2], columns: usize, rows: usize) -> (text: String)
    ensures
        text@ == erasure(positions@, columns as int, rows as int),
{
    let spaces = repeat(' ', columns);
    let opening = "\u{1b}[?2026h\u{1b}7";
    let ghost start = opening@;
    let mut text = opening.to_owned();
    let mut n: usize = 0;
    assert(text@ =~= start + blank_thumbnails(positions@, columns as int, rows as int, 0));
    while n < positions.len()
        invariant
            n <= positions@.len(),
            spaces@ == Seq::new(columns as nat, |i: int| ' '),
            text@ == start + blank_thumbnails(
                positions@,
                columns as int,
                rows as int,
                n as nat,
            ),
        decreases positions@.len() - n,
    {
        let position = positions[n];
        let ghost before = text@;
        let mut row: usize = 0;
        assert(text@ =~= before + blank_rows(position, columns as int, 0));
        while row < rows
            invariant
                row <= rows,
                spaces@ == Seq::new(columns as nat, |i: int| ' '),
                text@ == before + blank_rows(position, columns as int, row as nat),
            decreases rows - row,
        {
            let ghost there = text@;
            let y: usize = plus(plus(position.y, row), 1);
            let x: usize = plus(position.x, 1);
            text.append("\u{1b}[");
            text.append(decimal_text(y as u64).as_str());
            text.append(";");
            text.append(decimal_text(x as u64).as_str());
            text.append("H");
            text.append(spaces.as_str());
            assert(spaces@ =~= Seq::new((columns as int) as nat, |i: int| ' '));
            assert(text@ =~= there + blank_out(position, row as int, columns as int));
            assert(there + blank_out(position, row as int, columns as int) =~= before + (
            blank_rows(position, columns as int, row as nat) + blank_out(
                position,
                row as int,
                columns as int,
            )));
            row += 1;
        }
        assert(text@ =~= start + (blank_thumbnails(
            positions@,
            columns as int,
            rows as int,
            n as nat,
        ) + blank_rows(position, columns as int, rows as nat)));
        n += 1;
    }
    text.append("\u{1b}8\u{1b}[?2026l");
    assert(text@ =~= erasure(positions@, columns as int, rows as int));
    text
}

// What holds of the list as a whole

/// A press on the list is for the item that is drawn in that row, whatever the list has scrolled to:
/// with the left button the item is selected afterwards, or played if it is a track that was
/// selected before; with the right button it is selected, and its menu opens. Below the last item
/// nothing is selected.
pub proof fn lemma_press_is_for_what_is_drawn(
    before: ListView,
    after: ListView,
    rows: Seq<ListRow>,
    position: Vec2,
    offset: Vec2,
    row_height: int,
    right: bool,
    result: MouseHandleResult,
    item: int,
)
    requires
        position.x >= offset.x,
        position.y >= offset.y,
        row_height >= 1,
        0 <= item,
        item * row_height <= first_shown(before.scroller).1 + (position.y - offset.y) < (item + 1)
            * row_height,
        !right ==> !(shows_bars(before.scroller) && on_bar(
            before.scroller,
            position.x - offset.x,
            position.y - offset.y,
        )),
        mouse_step(
            before,
            after,
            rows,
            Event::Mouse {
                position,
                offset,
                event: MouseEvent::Press(
                    if right {
                        MouseButton::Right
                    } else {
                        MouseButton::Left
                    },
                ),
            },
            row_height,
            result,
        ),
    ensures
        item < rows.len() ==> after.selected == item,
        item < rows.len() && right ==> result == MouseHandleResult::Handled(
            ListAction::ContextMenu(item as usize),
        ),
        item < rows.len() && !right && before.selected == item && rows[item].track is Some
            ==> result is Play,
        item < rows.len() && !right && !(before.selected == item && rows[item].track is Some)
            ==> result == MouseHandleResult::Handled(ListAction::Click(item as usize)),
        item >= rows.len() ==> after.selected == before.selected && result
            == MouseHandleResult::Handled(ListAction::Consume),
{
    let line = first_shown(before.scroller).1 + (position.y - offset.y);
    assert(line / row_height == item) by (nonlinear_arith)
        requires
            row_height >= 1,
            item * row_height <= line < (item + 1) * row_height,
    ;
}

/// The lines of an item are those from `item` times the height of a row on: the first of them shows
/// the item's own texts, and the others are blank, all in the style of the item.
pub proof fn lemma_lines_show_their_item(
    view: ListView,
    rows: Seq<ListRow>,
    item: int,
    k: int,
    columns: int,
    text_x: int,
    row_height: int,
    playing: Option<usize>,
)
    requires
        0 <= item < rows.len(),
        0 <= k < row_height,
    ensures
        ({
            let strokes = line_strokes(
                view,
                rows,
                item * row_height + k,
                columns,
                text_x,
                row_height,
                playing,
            );
            let row = rows[item];
            let style = item_style(
                view.selected == item,
                row.is_playing && playing == Some(item as usize),
                row.track,
            );
            &&& strokes.len() > 0
            &&& strokes[0].x == text_x && strokes[0].style == style
            &&& strokes[0].ink is Blank
            &&& k == 0 ==> strokes.len() >= 3 && strokes[1].ink == InkView::Text(row.left@)
                && strokes[1].x == text_x && strokes.last().ink == InkView::Text(row.right@)
                && strokes.last().style == style
            &&& k == 0 && text_width(row.right@) <= columns ==> strokes.last().x + text_width(
                row.right@,
            ) == columns
            &&& k > 0 ==> strokes.len() == 1
        }),
{
    let line = item * row_height + k;
    assert(line / row_height == item && line % row_height == k) by (nonlinear_arith)
        requires
            line == item * row_height + k,
            0 <= k < row_height,
    ;
    assert(line < rows.len() * row_height) by (nonlinear_arith)
        requires
            line == item * row_height + k,
            0 <= k < row_height,
            item + 1 <= rows.len(),
    ;
    let row = rows[item];
    let style = item_style(
        view.selected == item,
        row.is_playing && playing == Some(item as usize),
        row.track,
    );
    if k == 0 {
        let marked = view.search_indexes@.contains(item as usize);
        let room = monus(columns, text_x);
        let left = left_strokes(row.left@, marked, view.search_query@, text_x, room, style);
        assert(left[0] == blank_at(text_x, 0, room, style));
        assert(left[1] == text_at(text_x, 0, row.left@, style));
    }
}

/// Below the last item there is a note on how many are left, while there are any, and nothing else.
pub proof fn lemma_note_below_the_items(
    view: ListView,
    rows: Seq<ListRow>,
    line: int,
    columns: int,
    text_x: int,
    row_height: int,
    playing: Option<usize>,
)
    requires
        line >= rows.len() * row_height,
    ensures
        ({
            let strokes = line_strokes(view, rows, line, columns, text_x, row_height, playing);
            &&& !view.has_more() ==> strokes.len() == 0
            &&& view.has_more() ==> strokes.len() == 1 && strokes[0].ink == InkView::Text(
                decimal((view.pagination.max_content->0 - rows.len()) as nat)
                    + " more items, scroll to load"@,
            )
        }),
{
}

/// A text that runs into what stands behind it is cut off with two dots before that; one that does
/// not is left as it is. The text in the middle starts in the middle.
pub proof fn lemma_texts_do_not_overlap(
    row: ListRow,
    query: Seq<char>,
    columns: int,
    text_x: int,
    style: Style,
)
    requires
        0 <= text_x,
        text_x + text_width(row.right@) + 4 <= columns,
    ensures
        ({
            let strokes = text_strokes(row, false, query, columns, text_x, style);
            let right_x = columns - text_width(row.right@);
            let fits = text_x + text_width(row.left@) < right_x;
            &&& row.center@.len() == 0 && fits ==> strokes.len() == 3
            &&& row.center@.len() == 0 && !fits ==> strokes.len() == 5 && strokes[3].ink is Text
                && strokes[3].ink == InkView::Text(".."@) && strokes[3].x + 2 == right_x
            &&& row.center@.len() > 0 ==> exists|k: int|
                2 <= k < strokes.len() && (#[trigger] strokes[k]) == text_at(
                    text_x + (columns - text_x) / 2,
                    0,
                    row.center@,
                    style,
                )
        }),
{
    let room = monus(columns, text_x);
    let left = left_strokes(row.left@, false, query, text_x, room, style);
    assert(left =~= seq![blank_at(text_x, 0, room, style), text_at(text_x, 0, row.left@, style)]);
    let before_right = monus(columns, text_width(row.right@) + 1int);
    let center_x = text_x + room / 2;
    let left_end = if row.center@.len() > 0 {
        monus(center_x, 1)
    } else {
        before_right
    };
    let off = cut_off(row.left@, text_x, left_end, columns, style);
    let center = center_strokes(row.center@, center_x, before_right, style);
    let strokes = text_strokes(row, false, query, columns, text_x, style);
    assert(strokes =~= (left + off + center).push(
        text_at(monus(columns, text_width(row.right@) as int), 0, row.right@, style),
    ));
    if row.center@.len() > 0 {
        let k = left.len() + off.len();
        assert(strokes[k as int] == center[0]);
    } else {
        assert(center =~= Seq::<StrokeView>::empty());
        if text_x + text_width(row.left@) >= columns - text_width(row.right@) {
            assert(strokes[3] == off[1]);
        }
    }
}

/// The selected item has the background of the selection, and no other has; what is playing has a
/// color of its own either way.
pub proof fn lemma_styles_of_items(playing: bool, track: Option<TrackFlags>)
    ensures
        item_style(true, playing, track).back == Shade::Palette(PaletteColor::Highlight),
        item_style(false, playing, track).back != Shade::Palette(PaletteColor::Highlight),
        item_style(true, true, track).front == Shade::Custom(CustomColor::PlayingSelected),
        item_style(false, true, track).front == Shade::Custom(CustomColor::Playing),
        track is None ==> item_style(false, false, track) == primary_style() && item_style(
            true,
            false,
            track,
        ) == highlight_style(),
        track matches Some(flags) ==> {
            &&& (item_style(false, false, track) == secondary_style() <==> flags.is_local
                || flags.is_playable == Some(false))
            &&& (item_style(true, false, track) == highlight_style() <==> !flags.is_local)
        },
{
}

/// Moves go as many items as they say, as far as there are any; a move to the very end comes to the
/// last item, one to the very start to the first.
pub proof fn lemma_moves_go_as_many_items(
    before: ListView,
    after: ListView,
    rows: Seq<ListRow>,
    n: i32,
    down: bool,
    playing: Option<NowPlaying>,
    row_height: int,
    action: ListAction,
)
    requires
        0 <= n,
        before.selected < rows.len(),
        command_step(
            before,
            after,
            rows,
            Command::Move(
                if down {
                    MoveMode::Down
                } else {
                    MoveMode::Up
                },
                MoveAmount::Integer(n),
            ),
            playing,
            row_height,
            action,
        ),
    ensures
        down && before.selected + n < rows.len() ==> after.selected == before.selected + n,
        down && before.selected + n >= rows.len() ==> after.selected == rows.len() - 1,
        !down && before.selected >= n ==> after.selected == before.selected - n,
        !down && before.selected < n ==> after.selected == 0,
        action is Paginate || action is Consume,
        action is Paginate ==> down && before.has_more(),
{
}

/// A move to the very end comes to the last item, one to the very start to the first.
pub proof fn lemma_moves_to_the_ends(
    before: ListView,
    after: ListView,
    rows: Seq<ListRow>,
    down: bool,
    playing: Option<NowPlaying>,
    row_height: int,
    action: ListAction,
)
    requires
        before.selected < rows.len(),
        command_step(
            before,
            after,
            rows,
            Command::Move(
                if down {
                    MoveMode::Down
                } else {
                    MoveMode::Up
                },
                MoveAmount::Extreme,
            ),
            playing,
            row_height,
            action,
        ),
    ensures
        after.selected == if down {
            rows.len() - 1
        } else {
            0
        },
{
}

/// A turn of the wheel scrolls by three rows, as far as there are any, and leaves the selection.
pub proof fn lemma_wheel_scrolls_by_three(
    before: ListView,
    after: ListView,
    rows: Seq<ListRow>,
    position: Vec2,
    offset: Vec2,
    row_height: int,
    up: bool,
    result: MouseHandleResult,
)
    requires
        mouse_step(
            before,
            after,
            rows,
            Event::Mouse {
                position,
                offset,
                event: if up {
                    MouseEvent::WheelUp
                } else {
                    MouseEvent::WheelDown
                },
            },
            row_height,
            result,
        ),
        first_shown(before.scroller).1 + shown_size(before.scroller).1 <= content_size(
            before.scroller,
        ).1,
    ensures
        ({
            let top = first_shown(before.scroller).1;
            let now = first_shown(after.scroller).1;
            let end = content_size(before.scroller).1 - shown_size(before.scroller).1;
            &&& after.selected == before.selected
            &&& up && top >= 3 ==> now == top - 3
            &&& up && top < 3 ==> now == 0
            &&& !up && top + 3 <= end ==> now == top + 3
            &&& !up && top + 3 > end ==> now == end
        }),
{
}

/// Commands on an item are for the selected one.
pub proof fn lemma_commands_act_on_the_selected(
    view: ListView,
    rows: Seq<ListRow>,
    playing: Option<NowPlaying>,
)
    requires
        view.selected < rows.len(),
    ensures
        ({
            let item = view.selected;
            let row = rows[item as int];
            &&& action_for(view, rows, Command::PlayNext, playing) == ListAction::PlayNext(item)
            &&& action_for(view, rows, Command::Queue, playing) == ListAction::Queue(item)
            &&& action_for(view, rows, Command::Save, playing) == ListAction::Save(item)
            &&& action_for(view, rows, Command::Delete, playing) == ListAction::Unsave(item)
            &&& action_for(view, rows, Command::Add, playing) == ListAction::AddToPlaylist(item)
                <==> row.track is Some
            &&& action_for(view, rows, Command::Share(TargetMode::Selected), playing)
                == ListAction::Share(ListTarget::Item(item)) <==> row.share_url is Some
            &&& action_for(view, rows, Command::Share(TargetMode::Current), playing)
                == ListAction::Share(ListTarget::Playing) <==> (playing matches Some(now)
                && now.shareable)
            &&& action_for(view, rows, Command::Open(TargetMode::Selected), playing)
                == ListAction::Open(ListTarget::Item(item))
            &&& action_for(view, rows, Command::Open(TargetMode::Current), playing)
                == ListAction::Open(ListTarget::Playing) <==> playing is Some
            &&& action_for(view, rows, Command::Goto(GotoMode::Album), playing)
                == ListAction::GotoAlbum(item)
            &&& action_for(view, rows, Command::Goto(GotoMode::Artist), playing)
                == ListAction::GotoArtist(item) <==> row.artists == Some(1usize)
            &&& action_for(view, rows, Command::Goto(GotoMode::Artist), playing)
                == ListAction::SelectArtist(item) <==> (row.artists matches Some(n) && n > 1)
            &&& action_for(view, rows, Command::ShowRecommendations(TargetMode::Selected), playing)
                == ListAction::ShowRecommendations(ListTarget::Item(item))
            &&& action_for(view, rows, Command::Insert(InsertSource::Clipboard), playing)
                is InsertClipboard
        }),
{
}

/// Without a selected item a command on it does nothing.
pub proof fn lemma_no_item_nothing_to_do(view: ListView, rows: Seq<ListRow>, command: Command)
    requires
        view.selected >= rows.len(),
        !(command is Insert),
        !(command is Play),
    ensures
        ({
            let action = action_for(view, rows, command, None);
            action is Consume || action is Ignore
        }),
{
}

/// A view opens only where there is one. An item that is opened without one gets its menu; one that
/// is clicked gets none.
pub proof fn lemma_replies_open_what_there_is(item: bool, view: bool, target: ListTarget, at: usize)
    ensures
        reply_to(ListAction::Open(target), item, view) is View <==> view,
        reply_to(ListAction::Open(target), item, view) is Modal <==> !view,
        reply_to(ListAction::Click(at), item, view) is View <==> view,
        reply_to(ListAction::Click(at), item, view) is Consumed <==> !view,
        reply_to(ListAction::GotoAlbum(at), item, view) is View <==> view,
        reply_to(ListAction::GotoAlbum(at), item, view) is Ignored <==> !view,
        reply_to(ListAction::ContextMenu(at), item, view) is Modal,
        reply_to(ListAction::AddToPlaylist(at), item, view) is Modal,
        reply_to(ListAction::SelectArtist(at), item, view) is Modal,
        reply_to(ListAction::GotoArtist(at), item, view) is View,
        reply_to(ListAction::InsertLink, item, view) is Consumed <==> !item,
        reply_to(ListAction::InsertLink, item, view) is View <==> item && view,
        reply_to(ListAction::Ignore, item, view) is Ignored,
        reply_to(ListAction::Consume, item, view) is Consumed,
        reply_to(ListAction::PlayAll(at), item, view) is Consumed,
        reply_to(ListAction::Queue(at), item, view) is Consumed,
{
}

/// More items are loaded only while there are any, and are wanted as soon as the last one is
/// selected.
pub proof fn lemma_more_items_are_wanted_at_the_end(view: ListView, len: int)
    requires
        len > 0,
    ensures
        view.has_more() <==> (view.pagination.max_content matches Some(most) && most
            > view.pagination.loaded_content),
        should_paginate(view, len) ==> view.has_more(),
        view.has_more() && view.selected == len - 1 ==> should_paginate(view, len),
        view.has_more() && view.selected != len - 1 && scrollable(view.scroller).1 && first_shown(
            view.scroller,
        ).1 + shown_size(view.scroller).1 < content_size(view.scroller).1 ==> !should_paginate(
            view,
            len,
        ),
{
}

/// Thumbnails are as wide as they are high, rounded up to whole columns; they show only beside rows
/// of two cells or more.
pub proof fn lemma_thumbnails_are_square(images: bool, values: ConfigValues, cell_px: Vec2)
    requires
        cell_px.x > 0,
        cell_px.y > 0,
    ensures
        ({
            let columns = thumb_columns_of(images, values, cell_px);
            let side = row_height_of(images, values) * cell_px.y;
            &&& columns > 0 <==> images && thumbnails_enabled(values) && row_height_of(
                images,
                values,
            ) >= 2
            &&& columns > 0 ==> (columns - 1) * cell_px.x < side <= columns * cell_px.x
            &&& columns > 0 ==> text_column(columns) == columns + 1
            &&& columns == 0 ==> text_column(columns) == 0
            &&& !images ==> row_height_of(images, values) == 1
        }),
{
    let height = row_height_of(images, values);
    if images && thumbnails_enabled(values) && height >= 2 {
        let side = height * cell_px.y;
        let w = cell_px.x as int;
        let columns = (side + w - 1) / w;
        let cell_y = cell_px.y as int;
        assert(side >= 2) by (nonlinear_arith)
            requires
                side == height * cell_y,
                height >= 2,
                cell_y >= 1,
        ;
        assert(columns > 0 && (columns - 1) * w < side <= columns * w) by (nonlinear_arith)
            requires
                columns == (side + w - 1) / w,
                w >= 1,
                side >= 1,
        ;
    }
}

/// A slot beside an item shows the item's cover, or a blank where it has none.
pub proof fn lemma_covers_stand_beside_their_items(row: ListRow)
    ensures
        row.cover_url matches Some(url) ==> cover_beside(row) == super::slots::Shown::Image(url@),
        row.cover_url is None ==> cover_beside(row) is Blank,
{
}

/// In a text in small letters a search marks each occurrence of the query where it stands in the
/// text, behind the cells of the characters before it, and nothing else.
pub proof fn lemma_marks_cover_the_query(
    left: Seq<char>,
    query: Seq<char>,
    text_x: int,
    back: Shade,
    k: int,
)
    requires
        lowercase(left) == left,
        query.len() > 0,
        0 <= k < occurrences(left, query, 0).len(),
    ensures
        ({
            let found = occurrences(left, query, 0);
            let strokes = match_strokes(left, query, text_x, back);
            let at = found[k];
            &&& strokes.len() == found.len()
            &&& strokes[k].ink == InkView::Text(query)
            &&& strokes[k].y == 0
            &&& strokes[k].x == capped_sum(text_x, text_width(left.take(at)) as int)
            &&& strokes[k].style == colors(Shade::Custom(CustomColor::SearchMatch), back)
        }),
{
    let found = occurrences(left, query, 0);
    lemma_marks_stand_at_the_query(
        left,
        query,
        found,
        text_x,
        colors(Shade::Custom(CustomColor::SearchMatch), back),
        found.len(),
        k,
    );
}

proof fn lemma_marks_stand_at_the_query(
    left: Seq<char>,
    query: Seq<char>,
    found: Seq<int>,
    text_x: int,
    style: Style,
    n: nat,
    k: int,
)
    requires
        query.len() > 0,
        found == occurrences(left, query, 0),
        n <= found.len(),
    ensures
        ({
            let strokes = marks(left, left, query, found, text_x, style, n);
            &&& strokes.len() == n
            &&& 0 <= k < n ==> strokes[k] == text_at(
                capped_sum(text_x, text_width(left.take(found[k])) as int),
                0,
                query,
                style,
            )
        }),
    decreases n,
{
    if n > 0 {
        lemma_marks_stand_at_the_query(left, query, found, text_x, style, (n - 1) as nat, k);
        lemma_all_occurrences_are_found(left, query, 0, n - 1, 0);
        let at = found[n - 1];
        let head = left.take(at);
        let through = left.take(at + query.len());
        lemma_characters_start_at_their_byte(left, at);
        lemma_characters_start_at_their_byte(left, at + query.len());
        assert(left.subrange(at, at + query.len()) == query);
        assert(through =~= head + query);
        lemma_bytes_add_up(head, query, ' ', ' ');
    }
}

/// To erase thumbnails is to write blanks over all their columns in each of their rows: the cursor
/// is put to the row and the column, counted from one, before the blanks of that row.
pub proof fn lemma_thumbnails_are_erased_row_by_row(
    positions: Seq<Vec2>,
    columns: int,
    rows: int,
    i: int,
    row: int,
) -> (around: (Seq<char>, Seq<char>))
    requires
        0 <= i < positions.len(),
        0 <= row < rows,
        positions[i].x < usize::MAX,
        positions[i].y + row < usize::MAX,
    ensures
        erasure(positions, columns, rows) == around.0 + ("\u{1b}["@ + decimal(
            (positions[i].y + row + 1) as nat,
        ) + ";"@ + decimal((positions[i].x + 1) as nat) + "H"@ + Seq::new(
            columns as nat,
            |k: int| ' ',
        )) + around.1,
{
    let piece = blank_out(positions[i], row, columns);
    let (a, b) = lemma_blanks_of_a_thumbnail(
        positions,
        columns,
        rows,
        positions.len(),
        i,
        row,
    );
    let first = "\u{1b}[?2026h\u{1b}7"@;
    let last = "\u{1b}8\u{1b}[?2026l"@;
    assert(first + (a + piece + b) + last =~= (first + a) + piece + (b + last));
    (first + a, b + last)
}

proof fn lemma_blanks_of_a_row(position: Vec2, columns: int, n: nat, row: int) -> (around: (
    Seq<char>,
    Seq<char>,
))
    requires
        0 <= row < n,
    ensures
        blank_rows(position, columns, n) == around.0 + blank_out(position, row, columns) + around.1,
    decreases n,
{
    let before = blank_rows(position, columns, (n - 1) as nat);
    let last = blank_out(position, n - 1, columns);
    if row == n - 1 {
        assert(before + last + Seq::<char>::empty() =~= before + last);
        (before, Seq::empty())
    } else {
        let (a, b) = lemma_blanks_of_a_row(position, columns, (n - 1) as nat, row);
        let piece = blank_out(position, row, columns);
        assert((a + piece + b) + last =~= a + piece + (b + last));
        (a, b + last)
    }
}

proof fn lemma_blanks_of_a_thumbnail(
    positions: Seq<Vec2>,
    columns: int,
    rows: int,
    n: nat,
    i: int,
    row: int,
) -> (around: (Seq<char>, Seq<char>))
    requires
        0 <= i < n <= positions.len(),
        0 <= row < rows,
    ensures
        blank_thumbnails(positions, columns, rows, n) == around.0 + blank_out(
            positions[i],
            row,
            columns,
        ) + around.1,
    decreases n,
{
    let before = blank_thumbnails(positions, columns, rows, (n - 1) as nat);
    let last = blank_rows(positions[n - 1], columns, rows as nat);
    let piece = blank_out(positions[i], row, columns);
    if i == n - 1 {
        let (a, b) = lemma_blanks_of_a_row(positions[i], columns, rows as nat, row);
        assert(before + (a + piece + b) =~= (before + a) + piece + b);
        (before + a, b)
    } else {
        let (a, b) = lemma_blanks_of_a_thumbnail(positions, columns, rows, (n - 1) as nat, i, row);
        assert((a + piece + b) + last =~= a + piece + (b + last));
        (a, b + last)
    }
}

/// The background of the thumbnails covers their columns in each row once.
pub proof fn lemma_background_covers_the_rows(thumb_cols: int, n: nat, row: int)
    requires
        0 <= row < n,
    ensures
        background_strokes(thumb_cols, n).len() == n,
        background_strokes(thumb_cols, n)[row] == blank_at(0, row, thumb_cols, thumbnail_style()),
    decreases n,
{
    if n > 1 {
        if row < n - 1 {
            lemma_background_covers_the_rows(thumb_cols, (n - 1) as nat, row);
        } else {
            lemma_background_covers_the_rows(thumb_cols, (n - 1) as nat, 0);
        }
    } else {
        assert(background_strokes(thumb_cols, 0).len() == 0);
    }
}

/// Thumbnails show unless they are switched off, beside rows of two cells unless another height is
/// set; without images a row is one cell high.
pub proof fn lemma_thumbnails_show_unless_switched_off(
    values: ConfigValues,
    browser: BrowserConfig,
)
    ensures
        browser_options(values) is None ==> thumbnails_enabled(values) && row_height_of(true, values)
            == 2,
        browser_options(values) == Some(browser) ==> (thumbnails_enabled(values)
            <==> browser.thumbnails != Some(false)),
        browser_options(values) == Some(browser) && browser.row_height is None ==> row_height_of(
            true,
            values,
        ) == 2,
        row_height_of(true, values) >= 1,
        row_height_of(false, values) == 1,
{
}

/// There is no item under a mouse that is left of or above the list, and none below the last item;
/// the item under any other mouse is the one whose lines hold the line under it.
pub proof fn lemma_item_under_the_mouse(
    view: ListView,
    position: Vec2,
    offset: Vec2,
    len: int,
    row_height: int,
)
    requires
        row_height >= 1,
    ensures
        position.x < offset.x || position.y < offset.y ==> view.row_under(
            position,
            offset,
            len,
            row_height,
        ) is None,
        view.row_under(position, offset, len, row_height) matches Some(item) ==> {
            let line = first_shown(view.scroller).1 + (position.y - offset.y);
            0 <= item < len && item * row_height <= line < (item + 1) * row_height
        },
        position.x >= offset.x && position.y >= offset.y && first_shown(view.scroller).1 + (
        position.y - offset.y) < len * row_height ==> view.row_under(
            position,
            offset,
            len,
            row_height,
        ) is Some,
{
    if position.x >= offset.x && position.y >= offset.y {
        let line = first_shown(view.scroller).1 + (position.y - offset.y);
        let item = line / row_height;
        assert(0 <= item && item * row_height <= line < (item + 1) * row_height)
            by (nonlinear_arith)
            requires
                line >= 0,
                row_height >= 1,
                item == line / row_height,
        ;
        if line < len * row_height {
            assert(item < len) by (nonlinear_arith)
                requires
                    item * row_height <= line < len * row_height,
                    row_height >= 1,
            ;
        }
    }
}

/// A move up leads on from every item but the first, a move down from every item but the last, and
/// other moves lead nowhere.
pub proof fn lemma_moves_lead_on(selected: int, len: int, amount: MoveAmount)
    requires
        0 <= selected < len,
    ensures
        move_target(selected, len, MoveMode::Up, amount) is Some <==> selected > 0,
        move_target(selected, len, MoveMode::Down, amount) is Some <==> selected < len - 1,
        move_target(selected, len, MoveMode::Left, amount) is None,
        move_target(selected, len, MoveMode::Right, amount) is None,
{
}

} // verus!
