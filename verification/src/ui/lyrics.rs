//! Screen that shows the lyrics for the currently playing track, following playback when the
//! lyrics are time-synced. Its title is a dropdown that switches between the Lyrics and Queue
//! sections.

use vstd::prelude::*;

use super::dropdown::{
    anchor_below, choice_label, label_choice, title_start, Dropdown, PaneDropdownMenu,
};
use super::event::{Event, Handled, MouseEvent};
use super::paint::{
    colors, secondary_style, text_at, CustomColor, Effect, Frame, InkView, PaletteColor, Shade,
    StrokeView, Style,
};
use super::width::{cells_left, fitting_chars, start_that_fits, text_width, width};
use super::wrap::{lemma_wrapping_gives_rows, wrap_line, wrapped};
use crate::command::{Command, MoveAmount, MoveMode};
use crate::config::{icon_text, ConfigValues, IconKind, LyricsAlign};
use crate::geometry::{larger, less, max, min, monus, moved, smaller, Vec2};
use crate::lyrics::{Held, LineView, LyricsManager, LyricsModel, LyricsStatus};
use crate::model::Playable;
use crate::text::{chars_of, concat, join, joined, lines as text_lines, maybe_text, split_lines, texts};

verus! {

#[derive(Clone, Copy, Debug, PartialEq, Eq, Structural)]
pub enum LyricsSection {
    Lyrics,
    Queue,
}

pub open spec fn section_label(section: LyricsSection) -> Seq<char> {
    match section {
        LyricsSection::Lyrics => "Lyrics"@,
        LyricsSection::Queue => "Queue"@,
    }
}

impl LyricsSection {
    pub fn label(self) -> (label: &'static str)
        ensures
            label@ == section_label(self),
    {
        match self {
            LyricsSection::Lyrics => "Lyrics",
            LyricsSection::Queue => "Queue",
        }
    }
}

// What there is to show

/// The lines to display, and the position of the one that is being sung, if that is known.
#[derive(Clone, Debug)]
pub struct LyricsContent {
    pub lines: Vec<String>,
    pub current: Option<usize>,
}

/// How many lines at the start have begun by `progress_ms`.
pub open spec fn begun(lines: Seq<LineView>, progress_ms: u32) -> int
    decreases lines.len(),
{
    if lines.len() > 0 && lines[0].time_ms <= progress_ms {
        1 + begun(lines.skip(1), progress_ms)
    } else {
        0
    }
}

/// The line that is being sung: the last one that has begun, if any has.
pub open spec fn sung(lines: Seq<LineView>, progress_ms: u32) -> Option<int> {
    if begun(lines, progress_ms) > 0 {
        Some(begun(lines, progress_ms) - 1)
    } else {
        None
    }
}

/// The lines of lyrics, and the one that is being sung in synced lyrics.
pub open spec fn lyrics_lines(lyrics: LyricsModel, progress_ms: u32) -> (
    Seq<Seq<char>>,
    Option<int>,
) {
    match lyrics.synced {
        Some(synced) => (
            synced.map_values(|line: LineView| line.text),
            sung(synced, progress_ms),
        ),
        None => match lyrics.plain {
            Some(plain) => (text_lines(plain), None),
            None => (seq!["No lyrics found"@], None),
        },
    }
}

pub open spec fn playable_id(playable: Playable) -> Option<Seq<char>> {
    match playable {
        Playable::Track(track) => maybe_text(track.id),
        Playable::Episode(episode) => Some(episode.id@),
    }
}

/// What is shown for what is playing: the lyrics, or why there are none.
pub open spec fn shown_lines(
    playing: Option<Playable>,
    held: Held,
    progress_ms: u32,
) -> (Seq<Seq<char>>, Option<int>) {
    if playing is None {
        (seq!["Nothing is playing"@], None)
    } else if playable_id(playing->0) is None {
        (seq!["No lyrics for local tracks"@], None)
    } else {
        match held.status_of(playable_id(playing->0)->0) {
            None => (seq!["Fetching lyrics…"@], None),
            Some(LyricsStatus::Loading) => (seq!["Fetching lyrics…"@], None),
            Some(LyricsStatus::NotFound) => (seq!["No lyrics found"@], None),
            Some(LyricsStatus::Found(lyrics)) => lyrics_lines(lyrics@, progress_ms),
        }
    }
}

impl LyricsContent {
    pub open spec fn current_line(self) -> Option<int> {
        match self.current {
            Some(current) => Some(current as int),
            None => None,
        }
    }
}

fn message(text: &str) -> (content: LyricsContent)
    ensures
        texts(content.lines@) == seq![text@],
        content.current is None,
{
    let mut lines: Vec<String> = Vec::new();
    lines.push(text.to_owned());
    assert(texts(lines@) =~= seq![text@]);
    LyricsContent { lines, current: None }
}

/// All lines to display, plus the index of the currently sung line for synced lyrics. The
/// progress counts modulo 32 bits.
pub fn lines(playing: Option<&Playable>, manager: &LyricsManager, progress_ms: u128) -> (content:
    LyricsContent)
    ensures
        ({
            let shown = shown_lines(
                match playing {
                    Some(playable) => Some(*playable),
                    None => None,
                },
                manager@,
                (progress_ms % 0x1_0000_0000) as u32,
            );
            &&& texts(content.lines@) == shown.0
            &&& content.current_line() == shown.1
        }),
{
    let playable = match playing {
        Some(playable) => playable,
        None => return message("Nothing is playing"),
    };
    let id: &String = match playable {
        Playable::Track(track) => match &track.id {
            Some(id) => id,
            None => return message("No lyrics for local tracks"),
        },
        Playable::Episode(episode) => &episode.id,
    };
    let progress_ms: u32 = (progress_ms % 0x1_0000_0000) as u32;
    let lyrics = match manager.status(id.as_str()) {
        None => return message("Fetching lyrics…"),
        Some(LyricsStatus::Loading) => return message("Fetching lyrics…"),
        Some(LyricsStatus::NotFound) => return message("No lyrics found"),
        Some(LyricsStatus::Found(lyrics)) => lyrics,
    };
    let ghost model = lyrics@;
    match &lyrics.synced {
        Some(synced) => {
            let ghost all = model.synced->0;
            let mut lines: Vec<String> = Vec::new();
            let mut count: usize = 0;
            let mut counting = true;
            let mut i: usize = 0;
            assert(all.skip(0) =~= all);
            while i < synced.len()
                invariant
                    i <= synced@.len(),
                    all == crate::lyrics::line_views(synced@),
                    lines@.len() == i,
                    forall|j: int| 0 <= j < i ==> (#[trigger] lines@[j])@ == all[j].text,
                    count <= i,
                    counting ==> count == i && begun(all, progress_ms) == i + begun(
                        all.skip(i as int),
                        progress_ms,
                    ),
                    !counting ==> begun(all, progress_ms) == count,
                decreases synced@.len() - i,
            {
                assert(all.skip(i as int)[0] == all[i as int]);
                assert(all[i as int] == synced@[i as int]@);
                assert(all.skip(i as int).skip(1) =~= all.skip(i + 1));
                lines.push(synced[i].text.clone());
                if counting {
                    if synced[i].time_ms <= progress_ms {
                        count += 1;
                    } else {
                        counting = false;
                    }
                }
                i += 1;
            }
            assert(all.skip(i as int) =~= Seq::<LineView>::empty());
            assert(texts(lines@) =~= all.map_values(|line: LineView| line.text));
            let current: Option<usize> = if count > 0 {
                Some(count - 1)
            } else {
                None
            };
            LyricsContent { lines, current }
        },
        None => match &lyrics.plain {
            Some(plain) => LyricsContent {
                lines: split_lines(chars_of(plain.as_str()).as_slice()),
                current: None,
            },
            None => message("No lyrics found"),
        },
    }
}

/// The line that is being sung is a line, has begun, and in lines that are in time no later line
/// has.
pub proof fn lemma_sung_is_the_last_begun(lines: Seq<LineView>, progress_ms: u32)
    requires
        crate::lyrics::in_time(lines),
    ensures
        0 <= begun(lines, progress_ms) <= lines.len(),
        forall|i: int|
            0 <= i < lines.len() ==> ((#[trigger] lines[i]).time_ms <= progress_ms) == (i < begun(
                lines,
                progress_ms,
            )),
    decreases lines.len(),
{
    if lines.len() > 0 {
        let rest = lines.skip(1);
        assert forall|i: int, j: int| 0 <= i < j < rest.len() implies (#[trigger] rest[i]).time_ms
            <= (#[trigger] rest[j]).time_ms by {
            assert(lines[i + 1].time_ms <= lines[j + 1].time_ms);
        }
        lemma_sung_is_the_last_begun(rest, progress_ms);
        assert forall|i: int| 0 <= i < lines.len() implies ((#[trigger] lines[i]).time_ms
            <= progress_ms) == (i < begun(lines, progress_ms)) by {
            if i > 0 {
                assert(rest[i - 1] == lines[i]);
                assert(lines[0].time_ms <= lines[i].time_ms);
            }
        }
    }
}

// The rows on the screen

/// One row of the screen.
#[derive(Clone, Debug, PartialEq, Eq)]
pub struct DisplayRow {
    /// Index of the logical lyrics line this row belongs to.
    pub logical: usize,
    /// Whether this is the first row of its logical line.
    pub first: bool,
    pub text: String,
}

pub ghost struct RowView {
    pub logical: int,
    pub first: bool,
    pub text: Seq<char>,
}

impl View for DisplayRow {
    type V = RowView;

    open spec fn view(&self) -> RowView {
        RowView { logical: self.logical as int, first: self.first, text: self.text@ }
    }
}

pub open spec fn row_views(rows: Seq<DisplayRow>) -> Seq<RowView> {
    rows.map_values(|row: DisplayRow| row@)
}

/// The rows of one line.
pub open spec fn line_rows(line: Seq<char>, logical: int, columns: int) -> Seq<RowView> {
    Seq::new(
        wrapped(line, columns).len(),
        |i: int| RowView { logical, first: i == 0, text: wrapped(line, columns)[i] },
    )
}

/// The rows of the first `n` lines.
pub open spec fn rows_before(lines: Seq<Seq<char>>, columns: int, n: nat) -> Seq<RowView>
    decreases n,
{
    if n == 0 {
        Seq::empty()
    } else {
        rows_before(lines, columns, (n - 1) as nat) + line_rows(lines[n - 1], n - 1, columns)
    }
}

pub open spec fn all_rows(lines: Seq<Seq<char>>, columns: int) -> Seq<RowView> {
    rows_before(lines, columns, lines.len())
}

/// The middle row of the current line.
pub open spec fn centre_row(lines: Seq<Seq<char>>, columns: int, current: Option<int>) -> Option<
    int,
> {
    match current {
        Some(n) => if 0 <= n < lines.len() {
            Some(
                rows_before(lines, columns, n as nat).len() + (wrapped(lines[n], columns).len() - 1)
                    / 2,
            )
        } else {
            None
        },
        None => None,
    }
}

/// The display rows after wrapping all logical lines to `columns`, plus the row to keep vertically
/// centered (the middle row of the currently sung line).
pub fn display_rows(content: &LyricsContent, columns: usize) -> (result: (
    Vec<DisplayRow>,
    Option<usize>,
))
    ensures
        row_views(result.0@) == all_rows(texts(content.lines@), columns as int),
        match result.1 {
            Some(row) => centre_row(
                texts(content.lines@),
                columns as int,
                content.current_line(),
            ) == Some(row as int),
            None => centre_row(texts(content.lines@), columns as int, content.current_line())
                is None,
        },
{
    let ghost all = texts(content.lines@);
    let mut rows: Vec<DisplayRow> = Vec::new();
    let mut centre: Option<usize> = None;
    let mut n: usize = 0;
    assert(row_views(rows@) =~= Seq::<RowView>::empty());
    while n < content.lines.len()
        invariant
            n <= content.lines@.len(),
            all == texts(content.lines@),
            row_views(rows@) == rows_before(all, columns as int, n as nat),
            match content.current {
                Some(current) => if current < n {
                    centre is Some && centre_row(all, columns as int, Some(current as int)) == Some(
                        centre->0 as int,
                    )
                } else {
                    centre is None
                },
                None => centre is None,
            },
        decreases content.lines@.len() - n,
    {
        let segments = wrap_line(content.lines[n].as_str(), columns);
        assert(texts(segments@).len() == segments@.len());
        let is_current = match content.current {
            Some(current) => current == n,
            None => false,
        };
        let ghost before = row_views(rows@);
        assert(before.len() == rows@.len());
        let start: usize = rows.len();
        let ghost line = line_rows(all[n as int], n as int, columns as int);
        let mut i: usize = 0;
        assert(before + line.take(0) =~= before);
        while i < segments.len()
            invariant
                i <= segments@.len(),
                texts(segments@) == wrapped(all[n as int], columns as int),
                line == line_rows(all[n as int], n as int, columns as int),
                row_views(rows@) == before + line.take(i as int),
            decreases segments@.len() - i,
        {
            let ghost was = row_views(rows@);
            let row = DisplayRow { logical: n, first: i == 0, text: segments[i].clone() };
            assert(texts(segments@)[i as int] == segments@[i as int]@);
            assert(row@ == line[i as int]);
            rows.push(row);
            assert(row_views(rows@) =~= was.push(row@));
            assert(line.take(i + 1) =~= line.take(i as int).push(line[i as int]));
            assert(was.push(row@) =~= before + line.take(i + 1));
            i += 1;
        }
        assert(line.take(i as int) =~= line);
        if is_current {
            assert(row_views(rows@).len() == rows@.len());
            let added: usize = rows.len() - start;
            centre = Some(start + (added - 1) / 2);
        }
        n += 1;
    }
    (rows, centre)
}

// The view

/// The state of the view.
#[derive(Clone, Debug)]
pub struct LyricsView {
    /// Top visible line when scrolling manually.
    scroll: usize,
    /// Whether the view auto-follows the currently sung line.
    follow: bool,
    last_size: Vec2,
    section: LyricsSection,
    /// Absolute screen offset of the content area; captured during draw for dropdown anchoring.
    last_offset: Vec2,
    last_content_w: usize,
}

/// The row that shows first.
pub open spec fn top_row(follow: bool, scroll: int, centre: Option<int>, height: int) -> int {
    if follow {
        match centre {
            Some(row) => monus(row, height / 2),
            None => 0,
        }
    } else {
        scroll
    }
}

proof fn lemma_rows_stay(lines: Seq<Seq<char>>, columns: int, n: nat, m: nat)
    requires
        n <= m <= lines.len(),
    ensures
        rows_before(lines, columns, n).len() <= rows_before(lines, columns, m).len(),
        rows_before(lines, columns, n) == rows_before(lines, columns, m).take(
            rows_before(lines, columns, n).len() as int,
        ),
    decreases m,
{
    let head = rows_before(lines, columns, n);
    let all = rows_before(lines, columns, m);
    if n == m {
        assert(all.take(all.len() as int) =~= all);
    } else {
        lemma_rows_stay(lines, columns, n, (m - 1) as nat);
        let before = rows_before(lines, columns, (m - 1) as nat);
        assert(all.take(head.len() as int) =~= before.take(head.len() as int));
    }
}

/// While the view follows the lyrics, the middle row of the line that is being sung is on the
/// screen: in its middle, or above where not enough rows come before it.
pub proof fn lemma_sung_line_is_on_the_screen(
    lines: Seq<Seq<char>>,
    columns: int,
    n: int,
    height: int,
)
    requires
        0 <= n < lines.len(),
        columns >= 1,
        height >= 1,
    ensures
        ({
            let centre = centre_row(lines, columns, Some(n));
            let top = top_row(true, 0, centre, height);
            &&& centre is Some
            &&& 0 <= centre->0 < all_rows(lines, columns).len()
            &&& all_rows(lines, columns)[centre->0].logical == n
            &&& top <= centre->0 < top + height
            &&& centre->0 >= height / 2 ==> centre->0 - top == height / 2
        }),
{
    lemma_wrapping_gives_rows(lines[n], columns);
    let before = rows_before(lines, columns, n as nat);
    let line = line_rows(lines[n], n, columns);
    let with = rows_before(lines, columns, (n + 1) as nat);
    let all = all_rows(lines, columns);
    assert(with == before + line);
    lemma_rows_stay(lines, columns, (n + 1) as nat, lines.len());
    let row = centre_row(lines, columns, Some(n))->0;
    assert(all[row] == all.take(with.len() as int)[row]);
    assert(with[row] == line[row - before.len()]);
}

/// The columns that are left for lyrics beside the marker of the current line.
pub open spec fn wrap_columns(width: int, values: ConfigValues) -> int {
    max(monus(width, text_width(icon_text(values, IconKind::LyricsCurrent)) as int), 1)
}

/// The last row that a scroll comes to.
pub open spec fn last_scroll(lines: Seq<Seq<char>>, size: Vec2, values: ConfigValues) -> int {
    monus(
        all_rows(lines, wrap_columns(size.x as int, values)).len() as int,
        max(size.y as int, 1) / 2,
    )
}

pub open spec fn alignment(values: ConfigValues) -> LyricsAlign {
    match values.lyrics {
        Some(lyrics) => match lyrics.align {
            Some(align) => align,
            None => LyricsAlign::Center,
        },
        None => LyricsAlign::Center,
    }
}

/// The column at which a text starts.
pub open spec fn aligned(align: LyricsAlign, text: Seq<char>, width: int, gutter: int) -> int {
    match align {
        LyricsAlign::Left => gutter,
        LyricsAlign::Center => max(monus(width, text_width(text) as int) / 2, gutter),
        LyricsAlign::Right => max(monus(width, text_width(text) as int), gutter),
    }
}

pub open spec fn current_style() -> Style {
    Style {
        effect: Effect::Bold,
        ..colors(Shade::Custom(CustomColor::Playing), Shade::Custom(CustomColor::PlayingBg))
    }
}

pub open spec fn past_style() -> Style {
    Style {
        effect: Effect::Dim,
        ..colors(Shade::Palette(PaletteColor::Primary), Shade::Palette(PaletteColor::Primary))
    }
}

pub open spec fn upcoming_style() -> Style {
    colors(Shade::Palette(PaletteColor::Background), Shade::Palette(PaletteColor::Background))
}

/// The style of a row: the line that is being sung stands out; without one all lines look past.
pub open spec fn lyrics_style(logical: int, current: Option<int>) -> Style {
    match current {
        Some(current) => if logical == current {
            current_style()
        } else if logical > current {
            upcoming_style()
        } else {
            past_style()
        },
        None => past_style(),
    }
}

/// The strokes of the row `row` at row `y` of the screen. The first row of the current line has a
/// marker.
pub open spec fn row_strokes(
    row: RowView,
    y: int,
    width: int,
    current: Option<int>,
    values: ConfigValues,
) -> Seq<StrokeView> {
    let icon = icon_text(values, IconKind::LyricsCurrent);
    let gutter = if current is Some {
        text_width(icon) as int
    } else {
        0
    };
    let style = lyrics_style(row.logical, current);
    let text = text_at(aligned(alignment(values), row.text, width, gutter), y, row.text, style);
    if row.first && current == Some(row.logical) {
        seq![text_at(0, y, icon, style), text]
    } else {
        seq![text]
    }
}

/// The strokes of the first `n` rows of the screen, when row `top` shows first.
pub open spec fn lyrics_strokes(
    rows: Seq<RowView>,
    top: int,
    n: nat,
    width: int,
    current: Option<int>,
    values: ConfigValues,
) -> Seq<StrokeView>
    decreases n,
{
    if n == 0 {
        Seq::empty()
    } else {
        lyrics_strokes(rows, top, (n - 1) as nat, width, current, values) + row_strokes(
            rows[top + n - 1],
            n - 1,
            width,
            current,
            values,
        )
    }
}

/// What the view paints while it shows lyrics.
pub open spec fn lyrics_frame(
    view: LyricsView,
    size: Vec2,
    lines: Seq<Seq<char>>,
    current: Option<int>,
    values: ConfigValues,
) -> Seq<StrokeView> {
    let columns = wrap_columns(size.x as int, values);
    let rows = all_rows(lines, columns);
    let top = top_row(
        view.follows(),
        view.scrolled(),
        centre_row(lines, columns, current),
        size.y as int,
    );
    lyrics_strokes(
        rows,
        top,
        min(size.y as int, monus(rows.len() as int, top)) as nat,
        size.x as int,
        current,
        values,
    )
}

/// An entry of the play queue with the text of its length.
#[derive(Clone, Debug)]
pub struct QueueEntry {
    pub playable: Playable,
    pub duration: String,
}

/// The name of an entry of the queue.
pub open spec fn queue_name(playable: Playable) -> Seq<char> {
    match playable {
        Playable::Track(track) => if track.artists@.len() == 0 {
            track.title@
        } else {
            track.title@ + " - "@ + join(texts(track.artists@), ", "@)
        },
        Playable::Episode(episode) => episode.name@,
    }
}

/// The strokes of an entry at row `y`: its name, cut to leave room for its length at the right.
pub open spec fn entry_strokes(entry: QueueEntry, y: int, width: int) -> Seq<StrokeView> {
    let name = queue_name(entry.playable);
    let duration = entry.duration@;
    seq![
        text_at(
            0,
            y,
            name.take(fitting_chars(name, monus(width, text_width(duration) + 1int))),
            super::paint::plain_style(),
        ),
        text_at(monus(width, text_width(duration) as int), y, duration, secondary_style()),
    ]
}

pub open spec fn entries_strokes(
    queue: Seq<QueueEntry>,
    start: int,
    n: nat,
    width: int,
) -> Seq<StrokeView>
    decreases n,
{
    if n == 0 {
        Seq::empty()
    } else {
        entries_strokes(queue, start, (n - 1) as nat, width) + entry_strokes(
            queue[start + n - 1],
            n - 1,
            width,
        )
    }
}

/// The position of the entry that comes up next.
pub open spec fn upcoming(current: Option<usize>) -> int {
    match current {
        Some(index) => index + 1,
        None => 0,
    }
}

/// What the view paints while it shows what comes up in the queue.
pub open spec fn queue_frame(queue: Seq<QueueEntry>, current: Option<usize>, size: Vec2) -> Seq<
    StrokeView,
> {
    let start = upcoming(current);
    if start >= queue.len() {
        let text = "Nothing coming up"@;
        seq![
            text_at(
                monus(size.x as int, text_width(text) as int) / 2,
                size.y as int / 2,
                text,
                secondary_style(),
            ),
        ]
    } else {
        entries_strokes(
            queue,
            start,
            min(size.y as int, queue.len() - start) as nat,
            size.x as int,
        )
    }
}

impl LyricsView {
    pub closed spec fn follows(self) -> bool {
        self.follow
    }

    pub closed spec fn scrolled(self) -> int {
        self.scroll as int
    }

    pub closed spec fn shows(self) -> LyricsSection {
        self.section
    }

    pub closed spec fn size(self) -> Vec2 {
        self.last_size
    }

    pub closed spec fn offset(self) -> Vec2 {
        self.last_offset
    }

    pub closed spec fn content_width(self) -> int {
        self.last_content_w as int
    }

    /// The right edge of the view can be counted.
    pub open spec fn wf(self) -> bool {
        self.offset().x + self.content_width() <= usize::MAX
    }

    /// All but the scroll position and whether the view follows is as it was.
    pub open spec fn only_scrolled(self, before: LyricsView) -> bool {
        &&& self.shows() == before.shows()
        &&& self.size() == before.size()
        &&& self.offset() == before.offset()
        &&& self.content_width() == before.content_width()
    }

    /// A new view shows the lyrics and follows the line that is being sung.
    pub fn new() -> (view: LyricsView)
        ensures
            view.wf(),
            view.follows(),
            view.scrolled() == 0,
            view.shows() == LyricsSection::Lyrics,
            view.size() == (Vec2 { x: 0, y: 0 }),
            view.offset() == (Vec2 { x: 0, y: 0 }),
            view.content_width() == 0,
    {
        LyricsView {
            scroll: 0,
            follow: true,
            last_size: Vec2::zero(),
            section: LyricsSection::Lyrics,
            last_offset: Vec2::zero(),
            last_content_w: 0,
        }
    }

    pub fn set_section(&mut self, section: LyricsSection)
        ensures
            final(self).shows() == section,
            final(self).follows() == old(self).follows(),
            final(self).scrolled() == old(self).scrolled(),
            final(self).size() == old(self).size(),
            final(self).offset() == old(self).offset(),
            final(self).content_width() == old(self).content_width(),
    {
        self.section = section;
    }

    /// Scrolls by `delta` rows, and stops to follow the line that is being sung.
    pub fn scroll_by(&mut self, delta: i64, values: &ConfigValues, content: &LyricsContent)
        ensures
            final(self).scrolled() == min(
                moved(old(self).scrolled(), delta as int),
                last_scroll(texts(content.lines@), old(self).size(), *values),
            ),
            !final(self).follows(),
            final(self).only_scrolled(*old(self)),
    {
        let icon = values.icon(IconKind::LyricsCurrent);
        let columns: usize = larger(less(self.last_size.x, width(icon.as_str())), 1);
        let (rows, _) = display_rows(content, columns);
        assert(row_views(rows@).len() == rows@.len());
        let height: usize = larger(self.last_size.y, 1);
        let max_top: usize = less(rows.len(), height / 2);
        let scroll: i128 = self.scroll as i128 + delta as i128;
        self.scroll = if scroll < 0 {
            0
        } else if scroll > max_top as i128 {
            max_top
        } else {
            scroll as usize
        };
        self.follow = false;
    }

    /// The dropdown menu that switches between the sections.
    pub fn open_dropdown(&self, values: &ConfigValues) -> (dropdown: Dropdown<LyricsSection>)
        requires
            self.wf(),
        ensures
            dropdown.anchor.x == title_start(
                self.offset().x as int,
                self.content_width(),
                section_label(self.shows()),
            ),
            dropdown.anchor.y == self.offset().y,
            dropdown.menu.labels() == seq![
                choice_label(icon_text(*values, IconKind::MenuLyrics), "Lyrics"@),
                choice_label(icon_text(*values, IconKind::MenuQueue), "Queue"@),
            ],
            dropdown.menu.choices() == seq![LyricsSection::Lyrics, LyricsSection::Queue],
            dropdown.menu.choices()[dropdown.menu.focused()] == self.shows(),
            0 <= dropdown.menu.focused() < 2,
    {
        let anchor = anchor_below(self.last_offset, self.last_content_w, self.section.label());
        let mut items: Vec<(String, LyricsSection)> = Vec::new();
        items.push(
            (
                label_choice(values.icon(IconKind::MenuLyrics).as_str(), "Lyrics"),
                LyricsSection::Lyrics,
            ),
        );
        items.push(
            (
                label_choice(values.icon(IconKind::MenuQueue).as_str(), "Queue"),
                LyricsSection::Queue,
            ),
        );
        let ghost labels = items@.map_values(|item: (String, LyricsSection)| item.0@);
        let ghost choices = items@.map_values(|item: (String, LyricsSection)| item.1);
        assert(labels =~= seq![
            choice_label(icon_text(*values, IconKind::MenuLyrics), "Lyrics"@),
            choice_label(icon_text(*values, IconKind::MenuQueue), "Queue"@),
        ]);
        assert(choices =~= seq![LyricsSection::Lyrics, LyricsSection::Queue]);
        let focus: usize = match self.section {
            LyricsSection::Lyrics => 0,
            LyricsSection::Queue => 1,
        };
        let menu = PaneDropdownMenu::new(items).with_focus(focus);
        Dropdown { anchor, menu }
    }

    /// The strokes that paint the lyrics.
    pub fn draw_lyrics(&self, size: Vec2, values: &ConfigValues, content: &LyricsContent) -> (frame:
        Frame)
        ensures
            frame@ == lyrics_frame(
                *self,
                size,
                texts(content.lines@),
                content.current_line(),
                *values,
            ),
    {
        let icon = values.icon(IconKind::LyricsCurrent);
        let marker: usize = width(icon.as_str());
        let columns: usize = larger(less(size.x, marker), 1);
        let (rows, centre) = display_rows(content, columns);
        let ghost all = row_views(rows@);
        let ghost current = content.current_line();
        let gutter: usize = if content.current.is_some() {
            marker
        } else {
            0
        };
        let top: usize = if self.follow {
            match centre {
                Some(row) => less(row, size.y / 2),
                None => 0,
            }
        } else {
            self.scroll
        };
        let align = match &values.lyrics {
            Some(lyrics) => match lyrics.align {
                Some(align) => align,
                None => LyricsAlign::Center,
            },
            None => LyricsAlign::Center,
        };
        let count: usize = smaller(size.y, less(rows.len(), top));
        let mut frame = Frame::new();
        let mut n: usize = 0;
        while n < count
            invariant
                n <= count,
                all == row_views(rows@),
                current == content.current_line(),
                count == min(size.y as int, monus(rows@.len() as int, top as int)),
                rows@.len() <= usize::MAX,
                icon@ == icon_text(*values, IconKind::LyricsCurrent),
                align == alignment(*values),
                gutter == if current is Some {
                    text_width(icon@) as int
                } else {
                    0
                },
                frame@ == lyrics_strokes(
                    all,
                    top as int,
                    n as nat,
                    size.x as int,
                    current,
                    *values,
                ),
            decreases count - n,
        {
            let row = &rows[top + n];
            assert(all[top + n] == row@);
            let text = row.text.as_str();
            let x: usize = match align {
                LyricsAlign::Left => gutter,
                LyricsAlign::Center => larger(less(size.x, width(text)) / 2, gutter),
                LyricsAlign::Right => larger(less(size.x, width(text)), gutter),
            };
            let past = Style::new(
                Shade::Palette(PaletteColor::Primary),
                Shade::Palette(PaletteColor::Primary),
            ).with(Effect::Dim);
            let mut is_current = false;
            let style = match content.current {
                Some(line) => if row.logical == line {
                    is_current = true;
                    Style::new(
                        Shade::Custom(CustomColor::Playing),
                        Shade::Custom(CustomColor::PlayingBg),
                    ).with(Effect::Bold)
                } else if row.logical > line {
                    Style::new(
                        Shade::Palette(PaletteColor::Background),
                        Shade::Palette(PaletteColor::Background),
                    )
                } else {
                    past
                },
                None => past,
            };
            let ghost before = frame@;
            let ghost strokes = row_strokes(all[top + n], n as int, size.x as int, current, *values);
            assert(style == lyrics_style(row@.logical, current));
            if row.first && is_current {
                frame.print(0, n, icon.as_str(), style);
            }
            frame.print(x, n, text, style);
            assert(frame@ =~= before + strokes);
            n += 1;
        }
        frame
    }

    /// The strokes that paint what comes up in the queue.
    pub fn draw_queue(queue: &[QueueEntry], current: Option<usize>, size: Vec2) -> (frame: Frame)
        ensures
            frame@ == queue_frame(queue@, current, size),
    {
        let start: usize = match current {
            Some(index) => if index >= queue.len() {
                queue.len()
            } else {
                index + 1
            },
            None => 0,
        };
        let mut frame = Frame::new();
        if start >= queue.len() {
            let text = "Nothing coming up";
            frame.print(less(size.x, width(text)) / 2, size.y / 2, text, Style::secondary());
            assert(frame@ =~= queue_frame(queue@, current, size));
            return frame;
        }
        let count: usize = smaller(size.y, queue.len() - start);
        let mut n: usize = 0;
        while n < count
            invariant
                n <= count,
                start < queue@.len() <= usize::MAX,
                count == min(size.y as int, queue@.len() - start),
                frame@ == entries_strokes(queue@, start as int, n as nat, size.x as int),
            decreases count - n,
        {
            let entry = &queue[start + n];
            let name = match &entry.playable {
                Playable::Track(track) => if track.artists.len() == 0 {
                    track.title.clone()
                } else {
                    let mut name = concat(track.title.as_str(), " - ");
                    let artists = joined(track.artists.as_slice(), ", ");
                    name.append(artists.as_str());
                    name
                },
                Playable::Episode(episode) => episode.name.clone(),
            };
            assert(name@ == queue_name(entry.playable));
            let duration = entry.duration.as_str();
            let cells: usize = width(duration);
            let shown = start_that_fits(name.as_str(), cells_left(size.x, duration, 1));
            let ghost before = frame@;
            frame.print(0, n, shown.as_str(), Style::plain());
            frame.print(less(size.x, cells), n, duration, Style::secondary());
            assert(frame@ =~= before + entry_strokes(*entry, n as int, size.x as int));
            n += 1;
        }
        frame
    }

    /// Paints the section that is shown, and keeps the place of the view.
    pub fn draw(
        &mut self,
        offset: Vec2,
        size: Vec2,
        values: &ConfigValues,
        content: &LyricsContent,
        queue: &[QueueEntry],
        playing: Option<usize>,
    ) -> (frame: Frame)
        requires
            offset.x + size.x <= usize::MAX,
        ensures
            frame@ == match old(self).shows() {
                LyricsSection::Lyrics => lyrics_frame(
                    *old(self),
                    size,
                    texts(content.lines@),
                    content.current_line(),
                    *values,
                ),
                LyricsSection::Queue => queue_frame(queue@, playing, size),
            },
            final(self).wf(),
            final(self).offset() == offset,
            final(self).content_width() == size.x,
            final(self).shows() == old(self).shows(),
            final(self).size() == old(self).size(),
            final(self).follows() == old(self).follows(),
            final(self).scrolled() == old(self).scrolled(),
    {
        let frame = match self.section {
            LyricsSection::Lyrics => self.draw_lyrics(size, values, content),
            LyricsSection::Queue => LyricsView::draw_queue(queue, playing, size),
        };
        self.last_offset = offset;
        self.last_content_w = size.x;
        frame
    }

    pub fn layout(&mut self, size: Vec2)
        ensures
            final(self).size() == size,
            final(self).shows() == old(self).shows(),
            final(self).offset() == old(self).offset(),
            final(self).content_width() == old(self).content_width(),
            final(self).follows() == old(self).follows(),
            final(self).scrolled() == old(self).scrolled(),
    {
        self.last_size = size;
    }

    /// The wheel scrolls the lyrics by two rows.
    pub fn on_event(&mut self, event: Event, values: &ConfigValues, content: &LyricsContent) -> (
        handled: Handled)
        ensures
            final(self).only_scrolled(*old(self)),
            match wheel_delta(event) {
                Some(delta) if old(self).shows() == LyricsSection::Lyrics => {
                    &&& handled is Consumed
                    &&& !final(self).follows()
                    &&& final(self).scrolled() == min(
                        moved(old(self).scrolled(), delta),
                        last_scroll(texts(content.lines@), old(self).size(), *values),
                    )
                },
                _ => {
                    &&& handled is Ignored
                    &&& *final(self) == *old(self)
                },
            },
    {
        match self.section {
            LyricsSection::Queue => return Handled::Ignored,
            LyricsSection::Lyrics => {},
        }
        match event {
            Event::Mouse { event: MouseEvent::WheelUp, .. } => {
                self.scroll_by(-2, values, content);
                Handled::Consumed
            },
            Event::Mouse { event: MouseEvent::WheelDown, .. } => {
                self.scroll_by(2, values, content);
                Handled::Consumed
            },
            _ => Handled::Ignored,
        }
    }

    pub fn title(&self) -> (title: String)
        ensures
            title@ == section_label(self.shows()),
    {
        self.section.label().to_owned()
    }

    /// Right-click re-centres the lyrics on the current line instead of opening the dropdown.
    pub fn on_right_click(&mut self) -> (handled: Handled)
        ensures
            handled is Consumed,
            final(self).follows(),
            final(self).scrolled() == old(self).scrolled(),
            final(self).only_scrolled(*old(self)),
    {
        self.follow = true;
        Handled::Consumed
    }

    /// Moves scroll the lyrics; `Back` first returns to the line that is being sung, and only then
    /// leaves the view.
    pub fn on_command(
        &mut self,
        command: &Command,
        values: &ConfigValues,
        content: &LyricsContent,
    ) -> (handled: Handled)
        ensures
            final(self).only_scrolled(*old(self)),
            match lyrics_command(*command) {
                LyricsAction::Scroll(delta) if old(self).shows() == LyricsSection::Lyrics => {
                    &&& handled is Consumed
                    &&& !final(self).follows()
                    &&& final(self).scrolled() == min(
                        moved(old(self).scrolled(), delta),
                        last_scroll(texts(content.lines@), old(self).size(), *values),
                    )
                },
                LyricsAction::Follow if old(self).shows() == LyricsSection::Lyrics => {
                    &&& handled is Consumed
                    &&& final(self).follows()
                    &&& final(self).scrolled() == old(self).scrolled()
                },
                LyricsAction::Back if old(self).shows() == LyricsSection::Lyrics && !old(
                    self,
                ).follows() => {
                    &&& handled is Consumed
                    &&& final(self).follows()
                    &&& final(self).scrolled() == old(self).scrolled()
                },
                _ => {
                    &&& handled is Ignored
                    &&& *final(self) == *old(self)
                },
            },
    {
        match self.section {
            LyricsSection::Queue => return Handled::Ignored,
            LyricsSection::Lyrics => {},
        }
        match command {
            Command::Move(mode, amount) => {
                let delta: i64 = match amount {
                    MoveAmount::Integer(amount) => *amount as i64,
                    MoveAmount::Extreme => EXTREME,
                    MoveAmount::Share(_) => return Handled::Ignored,
                };
                match mode {
                    MoveMode::Up => {
                        self.scroll_by(-delta, values, content);
                        Handled::Consumed
                    },
                    MoveMode::Down => {
                        self.scroll_by(delta, values, content);
                        Handled::Consumed
                    },
                    MoveMode::Playing => {
                        self.follow = true;
                        Handled::Consumed
                    },
                    _ => Handled::Ignored,
                }
            },
            Command::Back => if self.follow {
                Handled::Ignored
            } else {
                self.follow = true;
                Handled::Consumed
            },
            _ => Handled::Ignored,
        }
    }
}

/// How far a turn of the wheel scrolls.
pub open spec fn wheel_delta(event: Event) -> Option<int> {
    match event {
        Event::Mouse { event: MouseEvent::WheelUp, .. } => Some(-2),
        Event::Mouse { event: MouseEvent::WheelDown, .. } => Some(2),
        _ => None,
    }
}

/// The number of rows that a move to the very end goes.
pub const EXTREME: i64 = 0x3fff_ffff;

/// What a command means to the view.
pub ghost enum LyricsAction {
    Scroll(int),
    Follow,
    Back,
    Nothing,
}

pub open spec fn lyrics_command(command: Command) -> LyricsAction {
    match command {
        Command::Move(mode, amount) => match amount {
            MoveAmount::Share(_) => LyricsAction::Nothing,
            MoveAmount::Integer(n) => lyrics_move(mode, n as int),
            MoveAmount::Extreme => lyrics_move(mode, EXTREME as int),
        },
        Command::Back => LyricsAction::Back,
        _ => LyricsAction::Nothing,
    }
}

pub open spec fn lyrics_move(mode: MoveMode, delta: int) -> LyricsAction {
    match mode {
        MoveMode::Up => LyricsAction::Scroll(-delta),
        MoveMode::Down => LyricsAction::Scroll(delta),
        MoveMode::Playing => LyricsAction::Follow,
        _ => LyricsAction::Nothing,
    }
}

// What holds of the view as a whole

/// The line that is being sung has begun, and the next one has not; while no line has begun, none is
/// being sung.
pub proof fn lemma_sung_line_has_begun(lines: Seq<LineView>, progress_ms: u32)
    requires
        crate::lyrics::in_time(lines),
    ensures
        match sung(lines, progress_ms) {
            Some(i) => {
                &&& 0 <= i < lines.len()
                &&& lines[i].time_ms <= progress_ms
                &&& i + 1 < lines.len() ==> progress_ms < lines[i + 1].time_ms
            },
            None => lines.len() > 0 ==> progress_ms < lines[0].time_ms,
        },
{
    lemma_sung_is_the_last_begun(lines, progress_ms);
}

/// As a song goes on, the line that is being sung never goes back.
pub proof fn lemma_sung_line_moves_on(lines: Seq<LineView>, earlier: u32, later: u32)
    requires
        crate::lyrics::in_time(lines),
        earlier <= later,
    ensures
        sung(lines, earlier) matches Some(i) ==> (sung(lines, later) matches Some(j) && i <= j),
{
    lemma_sung_is_the_last_begun(lines, earlier);
    lemma_sung_is_the_last_begun(lines, later);
    if let Some(i) = sung(lines, earlier) {
        assert(lines[i].time_ms <= later);
    }
}

/// Synced lines go before plain text, and are shown with their texts in their order; only they have
/// a line that is being sung.
pub proof fn lemma_synced_lines_are_shown(lyrics: LyricsModel, progress_ms: u32)
    ensures
        lyrics.synced matches Some(synced) ==> {
            &&& lyrics_lines(lyrics, progress_ms).0.len() == synced.len()
            &&& forall|i: int|
                0 <= i < synced.len() ==> (#[trigger] lyrics_lines(lyrics, progress_ms).0[i])
                    == synced[i].text
            &&& lyrics_lines(lyrics, progress_ms).1 == sung(synced, progress_ms)
        },
        lyrics.synced is None ==> lyrics_lines(lyrics, progress_ms).1 is None,
        lyrics.synced is None && lyrics.plain is Some ==> lyrics_lines(lyrics, progress_ms).0
            == text_lines(lyrics.plain->0),
{
}

/// Lyrics are shown just if they were found for what is playing; otherwise a single line says why
/// there are none.
pub proof fn lemma_only_found_lyrics_are_shown(
    playing: Option<Playable>,
    held: Held,
    progress_ms: u32,
)
    ensures
        ({
            let shown = shown_lines(playing, held, progress_ms);
            let id = if playing is Some {
                playable_id(playing->0)
            } else {
                None
            };
            if id is Some && held.track == id && held.status is Found {
                shown == lyrics_lines(held.status->Found_0@, progress_ms)
            } else {
                &&& shown.1 is None
                &&& shown.0 == seq![
                    if playing is None {
                        "Nothing is playing"@
                    } else if id is None {
                        "No lyrics for local tracks"@
                    } else if held.track == id && held.status is NotFound {
                        "No lyrics found"@
                    } else {
                        "Fetching lyrics…"@
                    },
                ]
            }
        }),
{
}

/// The rows of a line stand together, in the place of the line; the first of them is marked as such.
pub proof fn lemma_rows_of_a_line(lines: Seq<Seq<char>>, columns: int, n: int, i: int)
    requires
        0 <= n < lines.len(),
        0 <= i < wrapped(lines[n], columns).len(),
    ensures
        ({
            let at = rows_before(lines, columns, n as nat).len() as int + i;
            &&& 0 <= at < all_rows(lines, columns).len()
            &&& all_rows(lines, columns)[at] == (RowView {
                logical: n,
                first: i == 0,
                text: wrapped(lines[n], columns)[i],
            })
        }),
{
    let before = rows_before(lines, columns, n as nat);
    let through = rows_before(lines, columns, (n + 1) as nat);
    lemma_rows_stay(lines, columns, (n + 1) as nat, lines.len());
    let at = before.len() as int + i;
    assert(through[at] == line_rows(lines[n], n, columns)[i]);
    assert(all_rows(lines, columns).take(through.len() as int)[at] == all_rows(lines, columns)[at]);
}

/// While the view does not follow the lyrics, it shows them from where they were scrolled to.
pub proof fn lemma_scrolled_view_stays(scroll: int, centre: Option<int>, height: int)
    ensures
        top_row(false, scroll, centre, height) == scroll,
        top_row(true, scroll, None, height) == 0,
{
}

/// At the end of the scroll half a screen of rows still shows, if there are so many.
pub proof fn lemma_scroll_leaves_half_a_screen(
    lines: Seq<Seq<char>>,
    size: Vec2,
    values: ConfigValues,
)
    requires
        size.y >= 1,
    ensures
        ({
            let rows = all_rows(lines, wrap_columns(size.x as int, values)).len();
            let half = size.y as int / 2;
            &&& rows >= half ==> rows - last_scroll(lines, size, values) == half
            &&& rows < half ==> last_scroll(lines, size, values) == 0
        }),
{
}

/// A text keeps to its side: at the left it starts behind the marker, at the right it ends at the
/// edge, and in the middle it has as many cells before it as behind it, to within one. It never
/// starts before the marker's end.
pub proof fn lemma_texts_are_aligned(text: Seq<char>, width: int, gutter: int)
    requires
        0 <= gutter,
        text_width(text) + 2 * gutter <= width,
    ensures
        aligned(LyricsAlign::Left, text, width, gutter) == gutter,
        aligned(LyricsAlign::Right, text, width, gutter) + text_width(text) == width,
        ({
            let before = aligned(LyricsAlign::Center, text, width, gutter);
            let after = width - text_width(text) - before;
            gutter <= before <= after <= before + 1
        }),
{
}

/// Lyrics are centred unless they are configured otherwise.
pub proof fn lemma_alignment_is_configured(values: ConfigValues)
    ensures
        values.lyrics is None ==> alignment(values) is Center,
        values.lyrics matches Some(lyrics) ==> {
            &&& lyrics.align is None ==> alignment(values) is Center
            &&& lyrics.align matches Some(align) ==> alignment(values) == align
        },
{
}

/// The line that is being sung looks like no other; what comes looks other than what has passed.
pub proof fn lemma_sung_line_stands_out(logical: int, current: int)
    ensures
        lyrics_style(logical, Some(current)) == current_style() <==> logical == current,
        lyrics_style(logical, Some(current)) == upcoming_style() <==> logical > current,
        lyrics_style(logical, Some(current)) == past_style() <==> logical < current,
        lyrics_style(logical, None) == past_style(),
        current_style().effect is Bold && past_style().effect is Dim,
{
}

/// Only the first row of the line that is being sung has the marker, at the left edge.
pub proof fn lemma_marker_is_at_the_sung_line(
    row: RowView,
    y: int,
    width: int,
    current: Option<int>,
    values: ConfigValues,
)
    ensures
        ({
            let strokes = row_strokes(row, y, width, current, values);
            let marked = row.first && current == Some(row.logical);
            &&& strokes.len() == if marked {
                2int
            } else {
                1
            }
            &&& marked ==> strokes[0].x == 0 && strokes[0].ink == InkView::Text(
                icon_text(values, IconKind::LyricsCurrent),
            )
            &&& strokes.last().ink == InkView::Text(row.text)
            &&& forall|i: int| 0 <= i < strokes.len() ==> (#[trigger] strokes[i]).y == y
        }),
{
}

/// Row `y` of the screen shows the row of the lyrics that is `y` rows below the first one that shows,
/// and nothing else but the marker.
pub proof fn lemma_screen_rows_show_the_lyrics(
    rows: Seq<RowView>,
    top: int,
    n: nat,
    width: int,
    current: Option<int>,
    values: ConfigValues,
)
    ensures
        ({
            let strokes = lyrics_strokes(rows, top, n, width, current, values);
            let icon = icon_text(values, IconKind::LyricsCurrent);
            &&& forall|i: int|
                0 <= i < strokes.len() ==> 0 <= (#[trigger] strokes[i]).y < n && (strokes[i].ink
                    == InkView::Text(rows[top + strokes[i].y].text) || strokes[i].x == 0
                    && strokes[i].ink == InkView::Text(icon) && current == Some(
                    rows[top + strokes[i].y].logical,
                ))
            &&& strokes.len() >= n
        }),
    decreases n,
{
    if n > 0 {
        lemma_screen_rows_show_the_lyrics(rows, top, (n - 1) as nat, width, current, values);
        let before = lyrics_strokes(rows, top, (n - 1) as nat, width, current, values);
        let last = row_strokes(rows[top + n - 1], n - 1, width, current, values);
        let strokes = lyrics_strokes(rows, top, n, width, current, values);
        let icon = icon_text(values, IconKind::LyricsCurrent);
        assert forall|i: int| 0 <= i < strokes.len() implies 0 <= (#[trigger] strokes[i]).y < n && (
        strokes[i].ink == InkView::Text(rows[top + strokes[i].y].text) || strokes[i].x == 0
            && strokes[i].ink == InkView::Text(icon) && current == Some(
            rows[top + strokes[i].y].logical,
        )) by {
            if i < before.len() {
                assert(strokes[i] == before[i]);
            } else {
                assert(strokes[i] == last[i - before.len()]);
                assert(strokes[i].y == n - 1);
                assert(top + strokes[i].y == top + n - 1);
            }
        }
    }
}

/// What comes up is what stands behind the entry that is playing; row `y` of the screen shows the
/// entry that comes `y` places later, with its name at the left and its length at the right.
pub proof fn lemma_queue_shows_what_comes_up(
    queue: Seq<QueueEntry>,
    current: Option<usize>,
    width: int,
    n: nat,
    y: int,
)
    requires
        0 <= y < n,
        upcoming(current) + n <= queue.len(),
    ensures
        current is None ==> upcoming(current) == 0,
        current matches Some(playing) ==> upcoming(current) == playing + 1,
        ({
            let strokes = entries_strokes(queue, upcoming(current), n, width);
            let entry = queue[upcoming(current) + y];
            let name = queue_name(entry.playable);
            &&& strokes.len() == 2 * n
            &&& strokes[2 * y].x == 0 && strokes[2 * y].y == y
            &&& strokes[2 * y].ink matches InkView::Text(text) && text == name.take(
                fitting_chars(name, monus(width, text_width(entry.duration@) + 1int)),
            )
            &&& strokes[2 * y + 1].y == y && strokes[2 * y + 1].ink == InkView::Text(
                entry.duration@,
            )
            &&& text_width(entry.duration@) <= width ==> strokes[2 * y + 1].x + text_width(
                entry.duration@,
            ) == width
        }),
    decreases n,
{
    let start = upcoming(current);
    lemma_entries_take_two_strokes(queue, start, n, width);
    lemma_entries_take_two_strokes(queue, start, (n - 1) as nat, width);
    let before = entries_strokes(queue, start, (n - 1) as nat, width);
    let strokes = entries_strokes(queue, start, n, width);
    if y < n - 1 {
        lemma_queue_shows_what_comes_up(queue, current, width, (n - 1) as nat, y);
        assert(strokes[2 * y] == before[2 * y]);
        assert(strokes[2 * y + 1] == before[2 * y + 1]);
    } else {
        let last = entry_strokes(queue[start + n - 1], n - 1, width);
        assert(strokes[2 * y] == last[0]);
        assert(strokes[2 * y + 1] == last[1]);
    }
}

proof fn lemma_entries_take_two_strokes(queue: Seq<QueueEntry>, start: int, n: nat, width: int)
    ensures
        entries_strokes(queue, start, n, width).len() == 2 * n,
    decreases n,
{
    if n > 0 {
        lemma_entries_take_two_strokes(queue, start, (n - 1) as nat, width);
    }
}

/// An entry of the queue is named by its title, followed by its artists where it has any.
pub proof fn lemma_entries_are_named(playable: Playable)
    ensures
        match playable {
            Playable::Track(track) => {
                &&& track.title@.is_prefix_of(queue_name(playable))
                &&& track.artists@.len() == 0 ==> queue_name(playable) == track.title@
                &&& track.artists@.len() > 0 ==> queue_name(playable) == track.title@ + (" - "@
                    + join(texts(track.artists@), ", "@))
            },
            Playable::Episode(episode) => queue_name(playable) == episode.name@,
        },
{
    if let Playable::Track(track) = playable {
        let name = queue_name(playable);
        assert(track.title@ =~= name.take(track.title@.len() as int));
        assert(track.title@ + " - "@ + join(texts(track.artists@), ", "@) =~= track.title@ + (" - "@
            + join(texts(track.artists@), ", "@)));
    }
}

/// The wheel scrolls by two rows: down towards the end, and up as far back.
pub proof fn lemma_wheel_scrolls_both_ways(position: Vec2, offset: Vec2)
    ensures
        wheel_delta(Event::Mouse { position, offset, event: MouseEvent::WheelDown }) == Some(2int),
        wheel_delta(Event::Mouse { position, offset, event: MouseEvent::WheelUp }) == Some(-2int),
{
}

/// Moves scroll by as many rows as they say, and a move to what is playing follows it again.
pub proof fn lemma_moves_scroll_the_lyrics(n: i32)
    ensures
        lyrics_command(Command::Move(MoveMode::Down, MoveAmount::Integer(n)))
            == LyricsAction::Scroll(n as int),
        lyrics_command(Command::Move(MoveMode::Up, MoveAmount::Integer(n))) == LyricsAction::Scroll(
            -(n as int),
        ),
        lyrics_command(Command::Move(MoveMode::Playing, MoveAmount::Integer(n))) is Follow,
        lyrics_command(Command::Back) is Back,
        lyrics_command(Command::Play) is Nothing,
{
}

/// The marker of the line that is being sung leaves the other columns to the lyrics.
pub proof fn lemma_marker_leaves_the_other_columns(width: int, values: ConfigValues)
    ensures
        ({
            let marker = text_width(icon_text(values, IconKind::LyricsCurrent));
            &&& marker < width ==> wrap_columns(width, values) + marker == width
            &&& wrap_columns(width, values) >= 1
        }),
{
}

/// While the view does not follow the lyrics, row `y` of the screen shows the row that is `y` rows
/// below the one it was scrolled to, and all rows of the screen are used as long as there are any.
pub proof fn lemma_frame_shows_from_the_scroll(
    view: LyricsView,
    size: Vec2,
    lines: Seq<Seq<char>>,
    current: Option<int>,
    values: ConfigValues,
    i: int,
)
    requires
        !view.follows(),
    ensures
        ({
            let rows = all_rows(lines, wrap_columns(size.x as int, values));
            let strokes = lyrics_frame(view, size, lines, current, values);
            let shown = min(size.y as int, monus(rows.len() as int, view.scrolled()));
            &&& strokes.len() >= shown
            &&& shown <= 0 ==> strokes.len() == 0
            &&& 0 <= i < strokes.len() ==> 0 <= strokes[i].y < shown
            &&& 0 <= i < strokes.len() && strokes[i].x > 0 ==> strokes[i].ink == InkView::Text(
                rows[view.scrolled() + strokes[i].y].text,
            )
        }),
{
    let rows = all_rows(lines, wrap_columns(size.x as int, values));
    let shown = min(size.y as int, monus(rows.len() as int, view.scrolled()));
    lemma_screen_rows_show_the_lyrics(
        rows,
        view.scrolled(),
        shown as nat,
        size.x as int,
        current,
        values,
    );
}

/// While the view follows the lyrics, the row in the middle of the screen is that of the line that
/// is being sung, as soon as there are enough rows above it.
pub proof fn lemma_sung_line_is_in_the_middle(scroll: int, row: int, height: int)
    requires
        0 <= height,
        0 <= row,
    ensures
        ({
            let top = top_row(true, scroll, Some(row), height);
            &&& row >= height / 2 ==> row - top == height / 2
            &&& row < height / 2 ==> top == 0
        }),
{
}

/// The queue shows as many entries as come up and fit; where nothing comes up, it says so in the
/// middle.
pub proof fn lemma_queue_fills_the_screen(
    queue: Seq<QueueEntry>,
    current: Option<usize>,
    size: Vec2,
)
    ensures
        ({
            let strokes = queue_frame(queue, current, size);
            let left = queue.len() - upcoming(current);
            let note = "Nothing coming up"@;
            &&& left > 0 && left <= size.y ==> strokes.len() == 2 * left
            &&& left > 0 && left > size.y ==> strokes.len() == 2 * size.y
            &&& left > 0 ==> strokes == entries_strokes(
                queue,
                upcoming(current),
                (strokes.len() / 2) as nat,
                size.x as int,
            )
            &&& left <= 0 ==> strokes.len() == 1 && strokes[0].ink == InkView::Text(note)
                && strokes[0].y == size.y as int / 2
            &&& left <= 0 && text_width(note) <= size.x ==> 0 <= size.x - text_width(note) - 2
                * strokes[0].x <= 1
        }),
{
    let start = upcoming(current);
    if start < queue.len() {
        let n = min(size.y as int, queue.len() - start) as nat;
        lemma_entries_take_two_strokes(queue, start, n, size.x as int);
    }
}

/// What is playing is known by its own id; only a track may have none.
pub proof fn lemma_playing_is_known_by_its_id(playable: Playable)
    ensures
        playable matches Playable::Episode(episode) ==> playable_id(playable) == Some(episode.id@),
        playable matches Playable::Track(track) ==> playable_id(playable) == maybe_text(track.id),
{
}

} // verus!
