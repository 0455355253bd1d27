//! The info pane: the cover of what is playing on top, with a block of its title, artists and
//! genres below. It always shows what is playing, whatever is being browsed.

use vstd::prelude::*;

use super::cover::{backdrop, cover_action, CoverAction, CoverItem, CoverStep, CoverView};
use super::dropdown::{anchor_below, choice_label, label_choice, title_start, Dropdown, PaneDropdownMenu};
use super::paint::{
    colors, primary_style, text_at, title_primary_style, Effect, Frame, PaletteColor, Shade,
    StrokeView, Style,
};
use super::width::{cells_left, text_width};
use crate::command::Command;
use crate::config::{icon_text, ConfigValues, IconKind};
use crate::geometry::{less, monus, Vec2};
use crate::model::Playable;
use crate::text::{chars_of, concat, join, joined, maybe_text, same_text, string_of, texts};
use crate::text_map::TextMap;

verus! {

/// Number of rows the metadata block occupies (incl. one spacing row).
pub const METADATA_HEIGHT: usize = 4;

/// Scroll the title as a marquee once it reaches this many chars.
pub const TITLE_MARQUEE_MIN: usize = 28;

/// Time per one-character marquee step (also the redraw cadence while scrolling), in
/// milliseconds.
pub const MARQUEE_STEP_MS: u64 = 220;

/// How often it is looked whether there is something to scroll, in milliseconds.
pub const MARQUEE_POLL_MS: u64 = 400;

/// How many genres are shown unless the configuration says otherwise.
pub const DEFAULT_GENRES: usize = 2;

/// Cached artist genres, keyed by artist id.
pub type GenresCache = TextMap<Vec<String>>;

/// The artist whose genres are shown.
pub open spec fn genre_artist(playable: Playable) -> Option<Seq<char>> {
    match playable {
        Playable::Track(track) => if track.artist_ids@.len() > 0 {
            Some(track.artist_ids@[0]@)
        } else {
            None
        },
        Playable::Episode(_) => None,
    }
}

fn first_artist(playable: &Playable) -> (id: Option<&String>)
    ensures
        match id {
            Some(id) => genre_artist(*playable) == Some(id@),
            None => genre_artist(*playable) is None,
        },
{
    match playable {
        Playable::Track(track) => if track.artist_ids.len() > 0 {
            Some(&track.artist_ids[0])
        } else {
            None
        },
        Playable::Episode(_) => None,
    }
}

/// The id of the artist whose genres have to be fetched into `cache` for `playable`, if any. Call
/// this on track changes; cached artists are not fetched again.
pub fn fetch_genres(cache: &GenresCache, playable: &Playable) -> (wanted: Option<String>)
    ensures
        maybe_text(wanted) == match genre_artist(*playable) {
            Some(id) => if cache.at(id) is Some {
                None
            } else {
                Some(id)
            },
            None => None,
        },
{
    match first_artist(playable) {
        Some(id) => if cache.get(id.as_str()).is_some() {
            None
        } else {
            Some(id.clone())
        },
        None => None,
    }
}

/// What drives the marquee: whether to redraw, and how long to wait before looking again.
#[derive(Clone, Copy, Debug, PartialEq, Eq, Structural)]
pub struct MarqueePoll {
    pub redraw: bool,
    pub wait_ms: u64,
}

/// While the current title is long enough to scroll, a redraw each step; otherwise the title is
/// looked at again now and then.
pub fn poll_marquee(current: Option<&Playable>) -> (poll: MarqueePoll)
    ensures
        poll == if current is Some && current->0.name().len() >= TITLE_MARQUEE_MIN {
            MarqueePoll { redraw: true, wait_ms: MARQUEE_STEP_MS }
        } else {
            MarqueePoll { redraw: false, wait_ms: MARQUEE_POLL_MS }
        },
{
    let len: usize = match current {
        Some(playable) => chars_of(playable.title()).len(),
        None => 0,
    };
    if len >= TITLE_MARQUEE_MIN {
        MarqueePoll { redraw: true, wait_ms: MARQUEE_STEP_MS }
    } else {
        MarqueePoll { redraw: false, wait_ms: MARQUEE_POLL_MS }
    }
}

/// How many genres the configuration asks for.
pub open spec fn genre_count(values: ConfigValues) -> int {
    if values.layout is Some && values.layout->0.info is Some && values.layout->0.info->0.genres
        is Some {
        values.layout->0.info->0.genres->0 as int
    } else {
        DEFAULT_GENRES as int
    }
}

/// The genres that are shown for what is playing.
pub open spec fn genres_text(values: ConfigValues, cache: GenresCache, playable: Playable) -> Seq<
    char,
> {
    match genre_artist(playable) {
        Some(id) => match cache.at(id) {
            Some(genres) => join(
                texts(genres@).take(crate::geometry::min(genre_count(values), genres@.len() as int)),
                " · "@,
            ),
            None => Seq::empty(),
        },
        None => Seq::empty(),
    }
}

/// The first genres of what is playing, as many as the configuration asks for.
pub fn genres_line(values: &ConfigValues, cache: &GenresCache, playable: &Playable) -> (line: String)
    ensures
        line@ == genres_text(*values, *cache, *playable),
{
    let count: usize = match &values.layout {
        Some(layout) => match &layout.info {
            Some(info) => match info.genres {
                Some(genres) => genres as usize,
                None => DEFAULT_GENRES,
            },
            None => DEFAULT_GENRES,
        },
        None => DEFAULT_GENRES,
    };
    assert(count == genre_count(*values));
    match first_artist(playable) {
        Some(id) => match cache.get(id.as_str()) {
            Some(genres) => {
                let shown: usize = if count <= genres.len() {
                    count
                } else {
                    genres.len()
                };
                assert(texts(genres@.subrange(0, shown as int)) =~= texts(genres@).take(
                    shown as int,
                ));
                joined(&genres.as_slice()[0..shown], " · ")
            },
            None => String::new(),
        },
        None => String::new(),
    }
}

/// What the menu of the pane offers.
#[derive(Clone, Copy, Debug, PartialEq, Eq, Structural)]
pub enum NowPlayingAction {
    AddToQueue,
    AddToPlaylist,
    RemoveFromPlaylist,
    Share,
}

/// The labels and choices of the menu.
pub open spec fn menu_items(values: ConfigValues, is_track: bool, shareable: bool) -> Seq<
    (Seq<char>, NowPlayingAction),
> {
    let add = seq![
        (
            choice_label(icon_text(values, IconKind::MenuAddToQueue), "Add to queue"@),
            NowPlayingAction::AddToQueue,
        ),
    ];
    let playlists = if is_track {
        seq![
            (
                choice_label(icon_text(values, IconKind::MenuAddToPlaylist), "Add to playlist"@),
                NowPlayingAction::AddToPlaylist,
            ),
            (
                choice_label(
                    icon_text(values, IconKind::MenuRemoveFromPlaylist),
                    "Remove from playlist"@,
                ),
                NowPlayingAction::RemoveFromPlaylist,
            ),
        ]
    } else {
        Seq::empty()
    };
    let share = if shareable {
        seq![
            (
                choice_label(icon_text(values, IconKind::MenuShare), "Share"@),
                NowPlayingAction::Share,
            ),
        ]
    } else {
        Seq::empty()
    };
    add + playlists + share
}

/// What the menu reads of a playlist.
#[derive(Clone, Debug)]
pub struct PlaylistInfo {
    pub owner_id: String,
    pub collaborative: bool,
    /// Whether the playlist holds the track that is playing.
    pub has_track: bool,
}

/// Whether the user can take the track that is playing out of a playlist.
pub open spec fn removable_from(playlist: PlaylistInfo, user_id: Seq<char>) -> bool {
    (user_id == playlist.owner_id@ || playlist.collaborative) && playlist.has_track
}

/// The positions of those of the first `n` playlists that the track can be taken out of.
pub open spec fn removable(playlists: Seq<PlaylistInfo>, user_id: Seq<char>, n: nat) -> Seq<usize>
    decreases n,
{
    if n == 0 {
        Seq::empty()
    } else if removable_from(playlists[n - 1], user_id) {
        removable(playlists, user_id, (n - 1) as nat).push((n - 1) as usize)
    } else {
        removable(playlists, user_id, (n - 1) as nat)
    }
}

fn removable_playlists(playlists: &[PlaylistInfo], user_id: &str) -> (found: Vec<usize>)
    ensures
        found@ == removable(playlists@, user_id@, playlists@.len()),
{
    let mut found: Vec<usize> = Vec::new();
    let mut n: usize = 0;
    while n < playlists.len()
        invariant
            n <= playlists@.len(),
            found@ == removable(playlists@, user_id@, n as nat),
        decreases playlists@.len() - n,
    {
        let playlist = &playlists[n];
        if (same_text(user_id, playlist.owner_id.as_str()) || playlist.collaborative)
            && playlist.has_track {
            found.push(n);
        }
        n += 1;
    }
    found
}

/// What a choice leads to.
#[derive(Clone, Debug, PartialEq, Eq)]
pub enum InfoAction {
    Nothing,
    /// Put what is playing behind itself in the queue.
    QueueNext,
    /// Ask for a playlist to add the track to.
    AskForPlaylist,
    /// Tell that the track is in none of the user's playlists.
    NotInPlaylists,
    /// Ask which of these playlists to remove the track from.
    AskForRemoval(Vec<usize>),
    /// Copy this address to the clipboard.
    Share(String),
}

/// What is told of a track that is in none of the user's playlists.
pub const NOT_IN_PLAYLISTS: &'static str = "Track is not in any of your playlists.";

pub struct InfoView {
    pub last_offset: Vec2,
    pub last_content_w: usize,
    pub cover: CoverView,
}

/// What scrolls through a title that does not fit: its characters and a gap, over and over.
pub open spec fn marquee(title: Seq<char>, columns: int, elapsed_ms: int) -> Seq<char> {
    let scroll = title + "    "@;
    let start = elapsed_ms / (MARQUEE_STEP_MS as int) % (scroll.len() as int);
    Seq::new(columns as nat, |i: int| scroll[(start + i) % (scroll.len() as int)])
}

/// The column at which a centred text starts.
pub open spec fn centre_of(columns: int, text: Seq<char>) -> int {
    monus(columns, text_width(text) as int) / 2
}

/// The style of the title.
pub open spec fn info_title_style() -> Style {
    Style { effect: Effect::Bold, ..title_primary_style() }
}

/// The style of the genres.
pub open spec fn genres_style() -> Style {
    Style {
        effect: Effect::Dim,
        ..colors(Shade::Palette(PaletteColor::Background), Shade::Palette(PaletteColor::Background))
    }
}

/// Long titles scroll; others stand in the middle.
pub open spec fn title_stroke(title: Seq<char>, columns: int, y: int, elapsed_ms: int) -> StrokeView {
    if title.len() >= TITLE_MARQUEE_MIN && columns > 0 {
        text_at(0, y, marquee(title, columns, elapsed_ms), info_title_style())
    } else {
        text_at(centre_of(columns, title), y, title, info_title_style())
    }
}

/// The names of the artists of what is playing.
pub open spec fn artists_text(playable: Playable) -> Seq<char> {
    match playable {
        Playable::Track(track) => join(texts(track.artists@), ", "@),
        Playable::Episode(_) => Seq::empty(),
    }
}

/// The strokes of the metadata block, whose first row is `y`.
pub open spec fn metadata(
    playable: Playable,
    genres: Seq<char>,
    columns: int,
    y: int,
    elapsed_ms: int,
) -> Seq<StrokeView> {
    let artists = artists_text(playable);
    seq![
        title_stroke(playable.name(), columns, y, elapsed_ms),
        text_at(centre_of(columns, artists), y + 1, artists, primary_style()),
        text_at(centre_of(columns, genres), y + 2, genres, genres_style()),
    ]
}

/// The address of the cover of what is playing.
pub open spec fn cover_of(playable: Playable) -> Option<String> {
    match playable {
        Playable::Track(track) => track.cover_url,
        Playable::Episode(episode) => episode.cover_url,
    }
}

fn marquee_text(title: &str, columns: usize, elapsed_ms: u64) -> (text: String)
    ensures
        text@ == marquee(title@, columns as int, elapsed_ms as int),
{
    let looped = concat(title, "    ");
    let scroll = chars_of(looped.as_str());
    proof {
        reveal_strlit("    ");
    }
    assert(scroll@.len() >= 4);
    let n: usize = scroll.len();
    let start: usize = (elapsed_ms / MARQUEE_STEP_MS % n as u64) as usize;
    let mut shown: Vec<char> = Vec::new();
    let mut at: usize = start;
    let mut i: usize = 0;
    let ghost loop_len = scroll@.len() as int;
    assert(start as int % loop_len == start) by (nonlinear_arith)
        requires
            0 <= start < loop_len,
    ;
    while i < columns
        invariant
            i <= columns,
            n == loop_len,
            loop_len == scroll@.len() >= 4,
            at < loop_len,
            at == (start + i) % loop_len,
            shown@ == Seq::new(i as nat, |k: int| scroll@[(start + k) % loop_len]),
        decreases columns - i,
    {
        shown.push(scroll[at]);
        assert(shown@ =~= Seq::new((i + 1) as nat, |k: int| scroll@[(start + k) % loop_len]));
        proof {
            vstd::arithmetic::div_mod::lemma_add_mod_noop(start + i, 1, loop_len);
            vstd::arithmetic::div_mod::lemma_small_mod(1nat, loop_len as nat);
            if at + 1 < loop_len {
                vstd::arithmetic::div_mod::lemma_small_mod((at + 1) as nat, loop_len as nat);
            } else {
                vstd::arithmetic::div_mod::lemma_mod_self_0(loop_len);
            }
        }
        at = if at + 1 < n {
            at + 1
        } else {
            0
        };
        i += 1;
    }
    string_of(&shown)
}

fn centre_text(columns: usize, text: &str) -> (x: usize)
    ensures
        x == centre_of(columns as int, text@),
{
    cells_left(columns, text, 0) / 2
}

impl InfoView {
    /// The place of the view can be counted.
    pub open spec fn wf(self) -> bool {
        self.last_offset.x + self.last_content_w <= usize::MAX
    }

    pub fn new(cover: CoverView) -> (view: InfoView)
        ensures
            view.wf(),
            view.cover == cover,
            view.last_offset == (Vec2 { x: 0, y: 0 }),
            view.last_content_w == 0,
    {
        InfoView { last_offset: Vec2 { x: 0, y: 0 }, last_content_w: 0, cover }
    }

    /// The size of the cover in a pane of a size.
    pub fn cover_size(size: Vec2) -> (cover: Vec2)
        ensures
            cover.x == size.x,
            cover.y == monus(size.y as int, METADATA_HEIGHT as int),
    {
        Vec2 { x: size.x, y: less(size.y, METADATA_HEIGHT) }
    }

    /// Draws what is playing, `elapsed_ms` milliseconds after the view was made.
    pub fn draw(
        &mut self,
        current: Option<&Playable>,
        offset: Vec2,
        size: Vec2,
        values: &ConfigValues,
        cache: &GenresCache,
        elapsed_ms: u64,
    ) -> (result: (Frame, CoverStep))
        requires
            offset.x + size.x <= usize::MAX,
        ensures
            final(self).wf(),
            final(self).last_offset == offset,
            final(self).last_content_w == size.x,
            ({
                let rows = monus(size.y as int, METADATA_HEIGHT as int);
                let cover_size = Vec2 { x: size.x, y: rows as usize };
                &&& (final(self).cover@, result.1) == match current {
                    Some(playable) => match cover_of(*playable) {
                        Some(url) => old(self).cover@.begin(url@, offset, cover_size),
                        None => old(self).cover@.clear(),
                    },
                    None => old(self).cover@.clear(),
                }
                &&& result.0@ == backdrop(size.x as int, rows as nat) + match current {
                    Some(playable) => metadata(
                        *playable,
                        genres_text(*values, *cache, *playable),
                        size.x as int,
                        rows + 1,
                        elapsed_ms as int,
                    ),
                    None => Seq::empty(),
                }
            }),
    {
        self.last_offset = offset;
        self.last_content_w = size.x;
        let cover_size = InfoView::cover_size(size);
        let url: Option<&str> = match current {
            Some(Playable::Track(track)) => match &track.cover_url {
                Some(url) => Some(url.as_str()),
                None => None,
            },
            Some(Playable::Episode(episode)) => match &episode.cover_url {
                Some(url) => Some(url.as_str()),
                None => None,
            },
            None => None,
        };
        let (frame, step) = self.cover.draw(url, offset, cover_size);
        let mut frame = frame;
        let ghost behind = frame@;
        let playable = match current {
            Some(playable) => playable,
            None => {
                assert(frame@ =~= behind + Seq::<StrokeView>::empty());
                return (frame, step);
            },
        };
        let y: usize = cover_size.y + 1;
        let title = playable.title();
        let artists = match playable {
            Playable::Track(track) => joined(track.artists.as_slice(), ", "),
            Playable::Episode(_) => String::new(),
        };
        let genres = genres_line(values, cache, playable);
        let title_style = Style::title_primary().with(Effect::Bold);
        if chars_of(title).len() >= TITLE_MARQUEE_MIN && size.x > 0 {
            let shown = marquee_text(title, size.x, elapsed_ms);
            frame.print(0, y, shown.as_str(), title_style);
        } else {
            frame.print(centre_text(size.x, title), y, title, title_style);
        }
        frame.print(
            centre_text(size.x, artists.as_str()),
            y + 1,
            artists.as_str(),
            Style::primary(),
        );
        let dim = Style::new(
            Shade::Palette(PaletteColor::Background),
            Shade::Palette(PaletteColor::Background),
        ).with(Effect::Dim);
        frame.print(centre_text(size.x, genres.as_str()), y + 2, genres.as_str(), dim);
        assert(frame@ =~= behind + metadata(
            *playable,
            genres@,
            size.x as int,
            y as int,
            elapsed_ms as int,
        ));
        (frame, step)
    }

    pub fn title(&self) -> (title: &'static str)
        ensures
            title@ == "Now Playing"@,
    {
        "Now Playing"
    }

    /// Opens the menu of the pane, unless nothing is playing. No cover is emitted while it is
    /// open.
    pub fn open_dropdown(
        &mut self,
        current: Option<&Playable>,
        shareable: bool,
        values: &ConfigValues,
    ) -> (dropdown: Option<Dropdown<NowPlayingAction>>)
        requires
            old(self).wf(),
        ensures
            final(self).wf(),
            final(self).last_offset == old(self).last_offset,
            final(self).last_content_w == old(self).last_content_w,
            final(self).cover@ == (super::cover::CoverModel {
                paused: current is Some,
                ..old(self).cover@
            }),
            match current {
                None => dropdown is None,
                Some(playable) => {
                    let items = menu_items(*values, *playable is Track, shareable);
                    &&& dropdown is Some
                    &&& dropdown->0.anchor.x == title_start(
                        old(self).last_offset.x as int,
                        old(self).last_content_w as int,
                        "Now Playing"@,
                    )
                    &&& dropdown->0.anchor.y == old(self).last_offset.y
                    &&& dropdown->0.menu.labels() == items.map_values(
                        |item: (Seq<char>, NowPlayingAction)| item.0,
                    )
                    &&& dropdown->0.menu.choices() == items.map_values(
                        |item: (Seq<char>, NowPlayingAction)| item.1,
                    )
                    &&& dropdown->0.menu.focused() == 0
                },
            },
    {
        let anchor = anchor_below(self.last_offset, self.last_content_w, "Now Playing");
        let is_track = match current {
            Some(Playable::Track(_)) => true,
            Some(Playable::Episode(_)) => false,
            None => {
                self.cover.pause(false);
                return None;
            },
        };
        self.cover.pause(true);
        let mut items: Vec<(String, NowPlayingAction)> = Vec::new();
        items.push(
            (
                label_choice(values.icon(IconKind::MenuAddToQueue).as_str(), "Add to queue"),
                NowPlayingAction::AddToQueue,
            ),
        );
        if is_track {
            items.push(
                (
                    label_choice(
                        values.icon(IconKind::MenuAddToPlaylist).as_str(),
                        "Add to playlist",
                    ),
                    NowPlayingAction::AddToPlaylist,
                ),
            );
            items.push(
                (
                    label_choice(
                        values.icon(IconKind::MenuRemoveFromPlaylist).as_str(),
                        "Remove from playlist",
                    ),
                    NowPlayingAction::RemoveFromPlaylist,
                ),
            );
        }
        if shareable {
            items.push(
                (
                    label_choice(values.icon(IconKind::MenuShare).as_str(), "Share"),
                    NowPlayingAction::Share,
                ),
            );
        }
        let ghost wanted = menu_items(*values, is_track, shareable);
        assert(items@.map_values(|item: (String, NowPlayingAction)| item.0@) =~= wanted.map_values(
            |item: (Seq<char>, NowPlayingAction)| item.0,
        ));
        assert(items@.map_values(|item: (String, NowPlayingAction)| item.1) =~= wanted.map_values(
            |item: (Seq<char>, NowPlayingAction)| item.1,
        ));
        Some(Dropdown { anchor, menu: PaneDropdownMenu::new(items) })
    }

    /// Closes the menu of the pane: covers are emitted again.
    pub fn close_dropdown(&mut self)
        ensures
            final(self).last_offset == old(self).last_offset,
            final(self).last_content_w == old(self).last_content_w,
            final(self).cover@ == (super::cover::CoverModel { paused: false, ..old(self).cover@ }),
    {
        self.cover.pause(false);
    }

    /// What a choice of the menu leads to. The menu is closed in any case.
    pub fn on_choice(
        &mut self,
        action: NowPlayingAction,
        current: Option<&Playable>,
        share_url: Option<String>,
        playlists: &[PlaylistInfo],
        user_id: Option<&str>,
    ) -> (result: InfoAction)
        ensures
            final(self).last_offset == old(self).last_offset,
            final(self).last_content_w == old(self).last_content_w,
            final(self).cover@ == (super::cover::CoverModel { paused: false, ..old(self).cover@ }),
            match (current, action) {
                (None, _) => result == InfoAction::Nothing,
                (Some(_), NowPlayingAction::AddToQueue) => result == InfoAction::QueueNext,
                (Some(Playable::Track(_)), NowPlayingAction::AddToPlaylist) => result
                    == InfoAction::AskForPlaylist,
                (Some(Playable::Track(_)), NowPlayingAction::RemoveFromPlaylist) => {
                    let user = match user_id {
                        Some(id) => id@,
                        None => Seq::empty(),
                    };
                    let found = removable(playlists@, user, playlists@.len());
                    if found.len() == 0 {
                        result == InfoAction::NotInPlaylists
                    } else {
                        result matches InfoAction::AskForRemoval(indexes) && indexes@ == found
                    }
                },
                (Some(Playable::Episode(_)), NowPlayingAction::AddToPlaylist) => result
                    == InfoAction::Nothing,
                (Some(Playable::Episode(_)), NowPlayingAction::RemoveFromPlaylist) => result
                    == InfoAction::Nothing,
                (Some(_), NowPlayingAction::Share) => result == match share_url {
                    Some(url) => InfoAction::Share(url),
                    None => InfoAction::Nothing,
                },
            },
    {
        self.cover.pause(false);
        let is_track = match current {
            Some(Playable::Track(_)) => true,
            Some(Playable::Episode(_)) => false,
            None => {
                return InfoAction::Nothing;
            },
        };
        match action {
            NowPlayingAction::AddToQueue => InfoAction::QueueNext,
            NowPlayingAction::AddToPlaylist => if is_track {
                InfoAction::AskForPlaylist
            } else {
                InfoAction::Nothing
            },
            NowPlayingAction::RemoveFromPlaylist => {
                if !is_track {
                    return InfoAction::Nothing;
                }
                let user: &str = match user_id {
                    Some(id) => id,
                    None => {
                        proof {
                            reveal_strlit("");
                        }
                        ""
                    },
                };
                assert(user@ =~= match user_id {
                    Some(id) => id@,
                    None => Seq::empty(),
                });
                let found = removable_playlists(playlists, user);
                if found.len() == 0 {
                    InfoAction::NotInPlaylists
                } else {
                    InfoAction::AskForRemoval(found)
                }
            },
            NowPlayingAction::Share => match share_url {
                Some(url) => InfoAction::Share(url),
                None => InfoAction::Nothing,
            },
        }
    }

    /// Commands go to the cover.
    pub fn on_command(&self, command: &Command, current: &Option<CoverItem>) -> (action: CoverAction)
        ensures
            match (action, cover_action(*command, *current)) {
                (CoverAction::Share(url), CoverAction::Share(expected)) => maybe_text(url)
                    == maybe_text(expected),
                (action, expected) => action == expected,
            },
    {
        self.cover.on_command(command, current)
    }

    /// The view is left: the cover is taken down.
    pub fn on_leave(&mut self) -> (step: CoverStep)
        ensures
            final(self).last_offset == old(self).last_offset,
            final(self).last_content_w == old(self).last_content_w,
            (final(self).cover@, step) == old(self).cover@.clear(),
    {
        self.cover.clear_cover()
    }
}

/// The marquee comes back to where it was after one step for each character of the title and of
/// the gap behind it.
pub proof fn lemma_marquee_is_a_loop(title: Seq<char>, columns: int, elapsed_ms: int)
    requires
        elapsed_ms >= 0,
        columns >= 0,
    ensures
        ({
            let round = MARQUEE_STEP_MS * ((title + "    "@).len() as int);
            marquee(title, columns, elapsed_ms + round) == marquee(title, columns, elapsed_ms)
        }),
{
    reveal_strlit("    ");
    let n = (title + "    "@).len() as int;
    let step = MARQUEE_STEP_MS as int;
    vstd::arithmetic::div_mod::lemma_hoist_over_denominator(elapsed_ms, n, step as nat);
    assert((elapsed_ms + step * n) / step == elapsed_ms / step + n) by {
        assert(n * step == step * n) by (nonlinear_arith);
    }
    vstd::arithmetic::div_mod::lemma_mod_add_multiples_vanish(elapsed_ms / step, n);
}

/// The marquee starts with the title and moves by one character each step.
pub proof fn lemma_marquee_moves_by_a_character(
    title: Seq<char>,
    columns: int,
    elapsed_ms: int,
    i: int,
)
    requires
        elapsed_ms >= 0,
        0 <= i < columns,
    ensures
        marquee(title, columns, elapsed_ms).len() == columns,
        i < title.len() ==> marquee(title, columns, 0)[i] == title[i],
        marquee(title, columns, elapsed_ms + MARQUEE_STEP_MS)[i] == marquee(
            title,
            columns + 1,
            elapsed_ms,
        )[i + 1],
{
    reveal_strlit("    ");
    let n = (title + "    "@).len() as int;
    let step = MARQUEE_STEP_MS as int;
    let steps = elapsed_ms / step;
    assert((elapsed_ms + step) / step == steps + 1);
    vstd::arithmetic::div_mod::lemma_add_mod_noop_right(i, steps + 1, n);
    vstd::arithmetic::div_mod::lemma_add_mod_noop_right(i + 1, steps, n);
    assert(((steps + 1) % n + i) % n == (steps % n + (i + 1)) % n);
    if i < title.len() {
        vstd::arithmetic::div_mod::lemma_small_mod(i as nat, n as nat);
        assert(0int / step % n == 0) by {
            vstd::arithmetic::div_mod::lemma_small_mod(0, n as nat);
        }
    }
}

/// A title that does not scroll is the same at any time, and the pane is redrawn for the title just
/// while one scrolls.
pub proof fn lemma_only_long_titles_move(
    current: Playable,
    poll: MarqueePoll,
    none: MarqueePoll,
    columns: int,
    y: int,
    now: int,
    later: int,
)
    requires
        call_ensures(poll_marquee, (Some(&current),), poll),
        call_ensures(poll_marquee, (None,), none),
    ensures
        !none.redraw,
        !poll.redraw ==> title_stroke(current.name(), columns, y, now) == title_stroke(
            current.name(),
            columns,
            y,
            later,
        ),
        poll.redraw <==> current.name().len() >= TITLE_MARQUEE_MIN,
        poll.redraw && columns > 0 ==> title_stroke(current.name(), columns, y, now).x == 0,
        poll.redraw ==> poll.wait_ms == MARQUEE_STEP_MS,
{
}

/// Texts stand in the middle: the space behind them is that before them, or one cell more.
pub proof fn lemma_texts_stand_in_the_middle(columns: int, text: Seq<char>)
    requires
        text_width(text) <= columns,
    ensures
        ({
            let before = centre_of(columns, text);
            let behind = columns - text_width(text) - before;
            0 <= before <= behind <= before + 1
        }),
{
}

/// The title, the artists and the genres stand below each other, each centred by itself.
pub proof fn lemma_metadata_are_below_each_other(
    playable: Playable,
    genres: Seq<char>,
    columns: int,
    y: int,
    elapsed_ms: int,
)
    ensures
        ({
            let rows = metadata(playable, genres, columns, y, elapsed_ms);
            let artists = artists_text(playable);
            &&& rows.len() == 3
            &&& rows[0].y == y && rows[1].y == y + 1 && rows[2].y == y + 2
            &&& playable.name().len() < TITLE_MARQUEE_MIN ==> rows[0] == text_at(
                centre_of(columns, playable.name()),
                y,
                playable.name(),
                rows[0].style,
            )
            &&& rows[1] == text_at(centre_of(columns, artists), y + 1, artists, rows[1].style)
            &&& rows[2] == text_at(centre_of(columns, genres), y + 2, genres, rows[2].style)
            &&& rows[0].style != rows[1].style && rows[1].style != rows[2].style
        }),
{
}

/// The genres are those of the first artist, as far as they are known, and no more than the
/// configuration asks for.
pub proof fn lemma_genres_are_of_the_first_artist(
    values: ConfigValues,
    cache: GenresCache,
    playable: Playable,
    genres: Vec<String>,
)
    ensures
        genre_count(values) >= 0,
        playable is Episode ==> genres_text(values, cache, playable).len() == 0,
        playable matches Playable::Track(track) ==> track.artist_ids@.len() > 0 ==> cache.at(
            track.artist_ids@[0]@,
        ) is None ==> genres_text(values, cache, playable).len() == 0,
        playable matches Playable::Track(track) ==> track.artist_ids@.len() > 0 ==> cache.at(
            track.artist_ids@[0]@,
        ) == Some(genres) ==> {
            &&& genres@.len() <= genre_count(values) ==> genres_text(values, cache, playable)
                == join(texts(genres@), " · "@)
            &&& genres@.len() > genre_count(values) ==> genres_text(values, cache, playable)
                == join(texts(genres@.take(genre_count(values))), " · "@)
        },
{
    assert(texts(genres@).take(genres@.len() as int) =~= texts(genres@));
    if genres@.len() > genre_count(values) {
        assert(texts(genres@.take(genre_count(values))) =~= texts(genres@).take(
            genre_count(values),
        ));
    }
}

/// Genres are fetched just for a first artist whose genres are not known.
pub proof fn lemma_unknown_genres_are_fetched(
    cache: GenresCache,
    playable: Playable,
    wanted: Option<String>,
)
    requires
        call_ensures(fetch_genres, (&cache, &playable), wanted),
    ensures
        playable is Episode ==> wanted is None,
        wanted matches Some(id) ==> cache.at(id@) is None,
        wanted matches Some(id) ==> playable matches Playable::Track(track)
            && track.artist_ids@.len() > 0 && id@ == track.artist_ids@[0]@,
        playable matches Playable::Track(track) ==> track.artist_ids@.len() > 0 ==> cache.at(
            track.artist_ids@[0]@,
        ) is None ==> wanted is Some,
{
}

/// The menu has an entry to add what is playing to the queue in any case, entries for playlists just
/// for tracks, and one to share just where there is something to share.
pub proof fn lemma_menu_offers_what_can_be_done(
    values: ConfigValues,
    is_track: bool,
    shareable: bool,
    i: int,
)
    ensures
        ({
            let items = menu_items(values, is_track, shareable);
            &&& items.len() == 1 + (if is_track {
                2int
            } else {
                0
            }) + (if shareable {
                1int
            } else {
                0
            })
            &&& items[0].1 is AddToQueue
            &&& 0 < i < items.len() ==> !(items[i].1 is AddToQueue)
            &&& is_track ==> items[1].1 is AddToPlaylist && items[2].1 is RemoveFromPlaylist
            &&& !is_track && 0 <= i < items.len() ==> !(items[i].1 is AddToPlaylist) && !(
            items[i].1 is RemoveFromPlaylist)
            &&& shareable ==> items.last().1 is Share
            &&& !shareable && 0 <= i < items.len() ==> !(items[i].1 is Share)
        }),
{
}

/// A track can be taken out of just those playlists that hold it and that the user may change: their
/// own and the collaborative ones.
pub proof fn lemma_tracks_leave_playlists_of_the_user(
    playlists: Seq<PlaylistInfo>,
    user_id: Seq<char>,
    n: nat,
    i: usize,
)
    requires
        n <= playlists.len(),
        n <= usize::MAX,
    ensures
        removable(playlists, user_id, n).contains(i) <==> i < n && playlists[i as int].has_track
            && (playlists[i as int].collaborative || playlists[i as int].owner_id@ == user_id),
    decreases n,
{
    if n > 0 {
        let before = removable(playlists, user_id, (n - 1) as nat);
        let all = removable(playlists, user_id, n);
        lemma_tracks_leave_playlists_of_the_user(playlists, user_id, (n - 1) as nat, i);
        if removable_from(playlists[n - 1], user_id) {
            assert(all == before.push((n - 1) as usize));
            assert(all[before.len() as int] == n - 1);
            if before.contains(i) {
                let k = choose|k: int| 0 <= k < before.len() && before[k] == i;
                assert(all[k] == i);
            }
        }
    }
}

/// The cover is that of what is playing, and the cover and the metadata share the height of the
/// pane.
pub proof fn lemma_cover_is_above_the_metadata(playable: Playable, size: Vec2, cover: Vec2)
    requires
        call_ensures(InfoView::cover_size, (size,), cover),
    ensures
        cover.x == size.x,
        size.y >= METADATA_HEIGHT ==> cover.y + METADATA_HEIGHT == size.y,
        size.y < METADATA_HEIGHT ==> cover.y == 0,
        playable matches Playable::Track(track) ==> cover_of(playable) == track.cover_url,
        playable matches Playable::Episode(episode) ==> cover_of(playable) == episode.cover_url,
{
}

/// A choice leads to what it says, only for what is playing, and lets covers be emitted again.
/// Episodes are in no playlists.
pub proof fn lemma_choices_lead_to_what_they_say(
    view: &mut InfoView,
    action: NowPlayingAction,
    current: Option<&Playable>,
    share_url: Option<String>,
    playlists: &[PlaylistInfo],
    user_id: Option<&str>,
    result: InfoAction,
)
    requires
        call_ensures(
            InfoView::on_choice,
            (view, action, current, share_url, playlists, user_id),
            result,
        ),
    ensures
        !final(view).cover@.paused,
        current is None ==> result is Nothing,
        current is Some && action is AddToQueue ==> result is QueueNext,
        current matches Some(playable) ==> *playable is Episode ==> !(result is AskForPlaylist)
            && !(result is AskForRemoval),
        current matches Some(playable) ==> *playable is Track ==> action is AddToPlaylist ==> result
            is AskForPlaylist,
        current is Some && action is Share && share_url is Some ==> result == InfoAction::Share(
            share_url->0,
        ),
        action is Share && share_url is None ==> result is Nothing,
        result is AskForRemoval ==> action is RemoveFromPlaylist,
{
}

} // verus!
