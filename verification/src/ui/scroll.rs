//! The scroll state of a list.

use cursive::view::scroll::Core;
use vstd::prelude::*;

use crate::geometry::{div_up, max, min, monus};

verus! {

/// The scroll state that cursive keeps for a view: how large its content is, how much of it shows
/// and from where.
#[verifier::external_type_specification]
#[verifier::external_body]
pub struct ExCore(Core);

/// The column and the row of the content that show first: the corner of `Core::content_viewport`.
pub uninterp spec fn first_shown(core: Core) -> (nat, nat);

/// The columns and the rows that show: `Core::last_available_size`.
pub uninterp spec fn shown_size(core: Core) -> (nat, nat);

/// The columns and the rows of the content: `Core::inner_size`.
pub uninterp spec fn content_size(core: Core) -> (nat, nat);

/// The cells between the content and the scrollbars: `Core::get_scrollbar_padding`.
pub uninterp spec fn bar_padding(core: Core) -> (nat, nat);

/// Whether the content can scroll to the side and down: `Core::is_enabled`.
pub uninterp spec fn scrollable(core: Core) -> (bool, bool);

/// Whether scrollbars show where they are needed: `Core::get_show_scrollbars`.
pub uninterp spec fn shows_bars(core: Core) -> bool;

/// Whether the content has to be laid out again: `Core::needs_relayout`.
pub uninterp spec fn stale(core: Core) -> bool;

/// The scrollbar that is grabbed, if one is: whether it is the vertical one, and which cell of its
/// thumb `Core::drag` keeps under the mouse.
pub uninterp spec fn grab_of(core: Core) -> Option<(bool, nat)>;

/// Whether a scrollbar is grabbed, so that `Core::drag` moves the content.
pub open spec fn holds_bar(core: Core) -> bool {
    grab_of(core) is Some
}

/// The most cells that a terminal has in a row or a column.
pub const MOST_CELLS: usize = 0xffff;

/// What shows fits a terminal, and so do the columns of the content; its rows can be counted.
pub open spec fn countable(core: Core) -> bool {
    &&& shown_size(core).0 <= MOST_CELLS
    &&& shown_size(core).1 <= MOST_CELLS
    &&& bar_padding(core).0 <= MOST_CELLS
    &&& bar_padding(core).1 <= MOST_CELLS
    &&& first_shown(core).0 <= MOST_CELLS
    &&& content_size(core).0 <= MOST_CELLS
    &&& countable_rows(first_shown(core).1)
    &&& countable_rows(content_size(core).1)
}

/// The rows can be counted, and those of a terminal and a few more with them.
pub open spec fn countable_rows(rows: nat) -> bool {
    rows + 2 * MOST_CELLS <= usize::MAX
}

/// The mouse is on the terminal, and the rows of the content times those that it can move a
/// scrollbar by can be counted.
pub open spec fn drag_fits(core: Core, x: int, y: int) -> bool {
    let reach = max(max(x, y), shown_size(core).1 as int);
    let rows = max(content_size(core).1 as int, first_shown(core).1 as int);
    &&& countable(core)
    &&& x <= MOST_CELLS
    &&& y <= MOST_CELLS
    &&& (rows + 2) * (reach + 1) <= usize::MAX
}

/// All but what shows first and what is grabbed is as it was.
pub open spec fn same_frame(before: Core, after: Core) -> bool {
    &&& shown_size(after) == shown_size(before)
    &&& content_size(after) == content_size(before)
    &&& bar_padding(after) == bar_padding(before)
    &&& scrollable(after) == scrollable(before)
    &&& shows_bars(after) == shows_bars(before)
    &&& stale(after) == stale(before)
}

/// All but what shows first is as it was.
pub open spec fn only_scrolled(before: Core, after: Core) -> bool {
    &&& same_frame(before, after)
    &&& grab_of(after) == grab_of(before)
}

/// The farthest row that a scroll comes to.
pub open spec fn last_top(core: Core) -> int {
    monus(content_size(core).1 as int, shown_size(core).1 as int)
}

/// The row that shows first once row `y` has come into view.
pub open spec fn top_with(core: Core, y: int) -> int {
    let top = first_shown(core).1;
    let rows = shown_size(core).1;
    if y >= top + rows {
        1 + y - max(rows as int, 1)
    } else if y < top {
        y
    } else {
        top as int
    }
}

/// Whether the cell is on the vertical scrollbar, which is right of what shows where the content is
/// too high.
pub open spec fn on_vertical_bar(core: Core, x: int, y: int) -> bool {
    let (width, height) = shown_size(core);
    let outer_width = if content_size(core).1 > height {
        width + bar_padding(core).0 + 1
    } else {
        width
    };
    scrollable(core).1 && x == monus(outer_width as int, 1) && y < height
}

/// Whether the cell is on the horizontal scrollbar, which is below what shows where the content is
/// too wide.
pub open spec fn on_horizontal_bar(core: Core, x: int, y: int) -> bool {
    let (width, height) = shown_size(core);
    let outer_height = if content_size(core).0 > width {
        height + bar_padding(core).1 + 1
    } else {
        height
    };
    scrollable(core).0 && y == monus(outer_height as int, 1) && x < width
}

pub open spec fn on_bar(core: Core, x: int, y: int) -> bool {
    on_vertical_bar(core, x, y) || on_horizontal_bar(core, x, y)
}

/// The cells of the thumb of a scrollbar: the share of the content that shows, but at least one.
pub open spec fn thumb_length(shown: int, content: int) -> int {
    max(shown * shown / max(content, 1), 1)
}

/// The cell at which the thumb starts while the content shows from `first` on.
pub open spec fn thumb_start(shown: int, content: int, first: int) -> int {
    monus(shown + 1, thumb_length(shown, content)) * first / (monus(content, shown) + 1)
}

/// From where the content shows once the thumb has come to start at a cell.
pub open spec fn first_with_thumb(shown: int, content: int, start: int) -> int {
    let steps = max(monus(shown + 1, thumb_length(shown, content)), 1);
    min(div_up(monus(content + 1, shown) * start, steps), monus(content, shown))
}

/// Whether a press on a scrollbar is on its thumb, and what it grabs: the cell of the thumb under
/// the mouse, or else the middle of the thumb. The horizontal scrollbar goes before the vertical
/// one.
pub open spec fn pressed(core: Core, x: int, y: int) -> (bool, (bool, nat)) {
    let vertical = !on_horizontal_bar(core, x, y);
    let (at, shown, content, first) = if vertical {
        (y, shown_size(core).1, content_size(core).1, first_shown(core).1)
    } else {
        (x, shown_size(core).0, content_size(core).0, first_shown(core).0)
    };
    let length = thumb_length(shown as int, content as int);
    let start = thumb_start(shown as int, content as int, first as int);
    if start <= at < start + length {
        (true, (vertical, (at - start) as nat))
    } else {
        (false, (vertical, ((length - 1) / 2) as nat))
    }
}

/// What shows first once the mouse has come to a cell with a cell of a thumb in its grab.
pub open spec fn shown_with_grab(core: Core, grab: (bool, nat), x: int, y: int) -> (nat, nat) {
    let (left, top) = first_shown(core);
    let (width, height) = shown_size(core);
    let (columns, rows) = content_size(core);
    if grab.0 {
        (left, first_with_thumb(height as int, rows as int, monus(y, grab.1 as int)) as nat)
    } else {
        (first_with_thumb(width as int, columns as int, monus(x, grab.1 as int)) as nat, top)
    }
}

/// What shows first after a press on a scrollbar: on the thumb nothing moves, beside it the middle
/// of the thumb comes under the mouse.
pub open spec fn shown_after_press(core: Core, x: int, y: int) -> (nat, nat) {
    let (on_thumb, grab) = pressed(core, x, y);
    if on_thumb {
        first_shown(core)
    } else {
        shown_with_grab(core, grab, x, y)
    }
}

/// What shows first after the mouse was moved to a cell with its button down. Where no scrollbar is
/// grabbed, nothing moves.
pub open spec fn shown_after_drag(core: Core, x: int, y: int) -> (nat, nat) {
    match grab_of(core) {
        Some(grab) => shown_with_grab(core, grab, x, y),
        None => first_shown(core),
    }
}

/// A press or a drag shows nothing beyond the end of the content.
pub(crate) proof fn lemma_drag_keeps_to_the_content(core: Core, x: int, y: int)
    requires
        0 <= x,
        0 <= y,
    ensures
        ({
            let press = shown_after_press(core, x, y);
            let drag = shown_after_drag(core, x, y);
            let most = (
                max(first_shown(core).0 as int, content_size(core).0 as int),
                max(first_shown(core).1 as int, content_size(core).1 as int),
            );
            &&& press.0 <= most.0 && press.1 <= most.1
            &&& drag.0 <= most.0 && drag.1 <= most.1
        }),
{
    let grab = pressed(core, x, y).1;
    lemma_thumb_fits(shown_size(core).0 as int, content_size(core).0 as int, x, grab.1 as int);
    lemma_thumb_fits(shown_size(core).1 as int, content_size(core).1 as int, y, grab.1 as int);
    if let Some((_, cell)) = grab_of(core) {
        let held = cell as int;
        lemma_thumb_fits(shown_size(core).0 as int, content_size(core).0 as int, x, held);
        lemma_thumb_fits(shown_size(core).1 as int, content_size(core).1 as int, y, held);
    }
}

proof fn lemma_thumb_fits(shown: int, content: int, at: int, grab: int)
    requires
        0 <= shown,
        0 <= content,
        0 <= at,
        0 <= grab,
    ensures
        0 <= first_with_thumb(shown, content, monus(at, grab)) <= monus(content, shown),
{
    let steps = max(monus(shown + 1, thumb_length(shown, content)), 1);
    let extra = monus(content + 1, shown);
    let start = monus(at, grab);
    assert(0 <= (extra * start + steps - 1) / steps) by (nonlinear_arith)
        requires
            0 <= extra,
            0 <= start,
            1 <= steps,
    ;
}

/// The state of an empty content of which nothing shows. It scrolls up and down only, and has
/// scrollbars one column away from the content, of which none is grabbed.
pub open spec fn fresh_core(core: Core) -> bool {
    &&& first_shown(core) == (0nat, 0nat)
    &&& shown_size(core) == (0nat, 0nat)
    &&& content_size(core) == (0nat, 0nat)
    &&& bar_padding(core) == (1nat, 0nat)
    &&& scrollable(core) == (false, true)
    &&& shows_bars(core)
    &&& grab_of(core) is None
    &&& stale(core)
}

/// `Core::new` makes the state of an empty content of which nothing shows. It scrolls up and down
/// only, and has scrollbars one column away from the content, of which none is grabbed.
#[verifier::external_body]
pub(crate) fn new_core() -> (core: Core)
    ensures
        first_shown(core) == (0nat, 0nat),
        shown_size(core) == (0nat, 0nat),
        content_size(core) == (0nat, 0nat),
        bar_padding(core) == (1nat, 0nat),
        scrollable(core) == (false, true),
        shows_bars(core),
        grab_of(core) is None,
        stale(core),
{
    Core::new()
}

/// `Core::get_show_scrollbars` tells whether scrollbars show where they are needed.
#[verifier::external_body]
pub(crate) fn has_bars(core: &Core) -> (yes: bool)
    ensures
        yes == shows_bars(*core),
{
    core.get_show_scrollbars()
}

/// `Core::needs_relayout` tells whether the content has to be laid out again.
#[verifier::external_body]
pub(crate) fn is_stale(core: &Core) -> (yes: bool)
    ensures
        yes == stale(*core),
{
    core.needs_relayout()
}

/// `Core::can_scroll_down` tells whether there is more content below what shows.
#[verifier::external_body]
pub(crate) fn can_scroll_down(core: &Core) -> (yes: bool)
    requires
        countable(*core),
    ensures
        yes == (scrollable(*core).1 && first_shown(*core).1 + shown_size(*core).1 < content_size(
            *core,
        ).1),
{
    core.can_scroll_down()
}

/// The corner of `Core::content_viewport` is the first row that shows.
#[verifier::external_body]
pub(crate) fn top_row(core: &Core) -> (row: usize)
    requires
        countable(*core),
    ensures
        row == first_shown(*core).1,
{
    core.content_viewport().top_left().y
}

/// `Core::scroll_up` moves up by `n` rows, but not beyond the first.
#[verifier::external_body]
pub(crate) fn scroll_up(core: &mut Core, n: usize)
    ensures
        first_shown(*final(core)) == (
            first_shown(*old(core)).0,
            monus(first_shown(*old(core)).1 as int, n as int) as nat,
        ),
        only_scrolled(*old(core), *final(core)),
{
    core.scroll_up(n)
}

/// `Core::scroll_down` moves down by `n` rows, but not beyond the end of the content.
#[verifier::external_body]
pub(crate) fn scroll_down(core: &mut Core, n: usize)
    requires
        first_shown(*old(core)).1 + n <= usize::MAX,
    ensures
        first_shown(*final(core)) == (
            first_shown(*old(core)).0,
            min(last_top(*old(core)), first_shown(*old(core)).1 + n) as nat,
        ),
        only_scrolled(*old(core), *final(core)),
{
    core.scroll_down(n)
}

/// `Core::scroll_to_y` moves as little as it takes to bring row `y` into view.
#[verifier::external_body]
pub(crate) fn scroll_to_y(core: &mut Core, y: usize)
    requires
        countable(*old(core)),
        y < usize::MAX,
    ensures
        first_shown(*final(core)) == (
            first_shown(*old(core)).0,
            top_with(*old(core), y as int) as nat,
        ),
        only_scrolled(*old(core), *final(core)),
{
    core.scroll_to_y(y)
}

/// `Core::start_drag` grabs the scrollbar under the cell, and tells whether there is one. Beside the
/// thumb it also moves the content, so that the middle of the thumb comes under the cell. Where
/// there is no scrollbar, nothing changes.
#[verifier::external_body]
pub(crate) fn start_drag(core: &mut Core, x: usize, y: usize) -> (grabbed: bool)
    requires
        drag_fits(*old(core), x as int, y as int),
    ensures
        grabbed == on_bar(*old(core), x as int, y as int),
        first_shown(*final(core)) == if grabbed {
            shown_after_press(*old(core), x as int, y as int)
        } else {
            first_shown(*old(core))
        },
        grab_of(*final(core)) == if grabbed {
            Some(pressed(*old(core), x as int, y as int).1)
        } else {
            grab_of(*old(core))
        },
        same_frame(*old(core), *final(core)),
{
    core.start_drag(cursive::Vec2::new(x, y))
}

/// `Core::drag` moves the content so that the grabbed cell of the thumb comes under the mouse, but
/// not beyond the end of the content. Where no scrollbar is grabbed, nothing moves.
#[verifier::external_body]
pub(crate) fn drag(core: &mut Core, x: usize, y: usize)
    requires
        drag_fits(*old(core), x as int, y as int),
    ensures
        first_shown(*final(core)) == shown_after_drag(*old(core), x as int, y as int),
        only_scrolled(*old(core), *final(core)),
{
    core.drag(cursive::Vec2::new(x, y))
}

/// `Core::release_grab` lets go of a grabbed scrollbar; nothing moves.
#[verifier::external_body]
pub(crate) fn release_grab(core: &mut Core)
    ensures
        first_shown(*final(core)) == first_shown(*old(core)),
        grab_of(*final(core)) is None,
        same_frame(*old(core), *final(core)),
{
    core.release_grab()
}

} // verus!
