//! The configuration of the client, and the state that it keeps between sessions.

use std::collections::HashMap;

use vstd::prelude::*;

use crate::command::{SortDirection, SortKey};
use crate::model::{Playable, RepeatSetting};
use crate::text::{maybe_text, texts};
use crate::text_map::TextMap;

verus! {

/// The version of the state that is written to disk.
pub const CACHE_VERSION: u16 = 1;

pub const DEFAULT_COMMAND_KEY: char = ':';

/// The playback state when the client is started.
#[derive(Clone, Copy, Debug, PartialEq, Eq, Structural)]
pub enum PlaybackState {
    Playing,
    Paused,
    Stopped,
    Default,
}

/// The focussed library tab when the client is started.
#[derive(Clone, Copy, Debug, PartialEq, Eq, Hash, Structural)]
pub enum LibraryTab {
    Tracks,
    Albums,
    Artists,
    Playlists,
    Podcasts,
    Browse,
}

/// The format used to represent tracks in a list.
#[derive(Clone, Debug, Default, PartialEq, Eq)]
pub struct TrackFormat {
    pub left: Option<String>,
    pub center: Option<String>,
    pub right: Option<String>,
}

impl TrackFormat {
    pub fn default() -> (format: TrackFormat)
        ensures
            maybe_text(format.left) == Some("%artists - %title"@),
            maybe_text(format.center) == Some("%album"@),
            maybe_text(format.right) == Some("%saved %duration"@),
    {
        TrackFormat {
            left: Some("%artists - %title".to_owned()),
            center: Some("%album".to_owned()),
            right: Some("%saved %duration".to_owned()),
        }
    }
}

/// The format used when sending desktop notifications about playback status.
#[derive(Clone, Debug, Default, PartialEq, Eq)]
pub struct NotificationFormat {
    pub title: Option<String>,
    pub body: Option<String>,
}

impl NotificationFormat {
    pub fn default() -> (format: NotificationFormat)
        ensures
            maybe_text(format.title) == Some("%title"@),
            maybe_text(format.body) == Some("%artists"@),
    {
        NotificationFormat { title: Some("%title".to_owned()), body: Some("%artists".to_owned()) }
    }
}

/// The configuration that the user writes.
#[derive(Clone, Debug, Default)]
pub struct ConfigValues {
    pub command_key: Option<char>,
    pub initial_screen: Option<String>,
    pub default_keybindings: Option<bool>,
    pub keybindings: Option<HashMap<String, String>>,
    pub theme: Option<ConfigTheme>,
    pub use_nerdfont: Option<bool>,
    pub flip_status_indicators: Option<bool>,
    pub audio_cache: Option<bool>,
    pub audio_cache_size: Option<u32>,
    pub backend: Option<String>,
    pub backend_device: Option<String>,
    /// Requested PipeWire quantum in frames at 44100 Hz; lower values reduce output latency.
    pub pipewire_quantum: Option<u32>,
    pub volnorm: Option<bool>,
    pub notify: Option<bool>,
    pub bitrate: Option<u32>,
    pub gapless: Option<bool>,
    pub shuffle: Option<bool>,
    pub repeat: Option<RepeatSetting>,
    /// Deprecated: covers are always rendered with sixel. Kept so existing
    /// configs that still set it continue to parse; the value is ignored.
    pub cover_backend: Option<String>,
    pub playback_state: Option<PlaybackState>,
    pub track_format: Option<TrackFormat>,
    pub notification_format: Option<NotificationFormat>,
    pub statusbar_format: Option<String>,
    /// Format of the terminal window title. Supports the same placeholders as
    /// `statusbar_format` (e.g. `%title`, `%artists`). Defaults to
    /// `"ncspot - %title"`. Set to an empty string to leave the title untouched.
    pub title_format: Option<String>,
    pub library_tabs: Option<Vec<LibraryTab>>,
    pub hide_display_names: Option<bool>,
    pub ap_port: Option<u16>,
    pub device_name: Option<String>,
    pub layout: Option<LayoutConfig>,
    pub statusbar: Option<StatusbarConfig>,
    pub icons: Option<IconsConfig>,
    pub lyrics: Option<LyricsConfig>,
}

/// Configuration for the bottom player bar, set in the `[statusbar]` table.
#[derive(Clone, Debug, Default)]
pub struct StatusbarConfig {
    /// Rows occupied by the progress bar. 1 = one line (default), 2-3 = taller.
    pub height: Option<u8>,
    /// Progress bar character style: `"square"` (default), `"thin"`, or `"rounded"`
    /// (square with half-circle end caps).
    pub style: Option<String>,
    /// Left end cap for the `"rounded"` bar style.
    pub progress_cap_left: Option<String>,
    /// Right end cap for the `"rounded"` bar style.
    pub progress_cap_right: Option<String>,
    /// Controls row button style: `"square"` (default, `button_open`/`button_close`
    /// delimiters) or `"rounded"` (half-circle pill around each icon).
    pub controls_style: Option<String>,
    /// Opening delimiter for control buttons (`"square"` style). Default `"[ "`.
    pub button_open: Option<String>,
    /// Closing delimiter for control buttons (`"square"` style). Default `" ]"`.
    pub button_close: Option<String>,
    /// Left pill cap for the `"rounded"` controls style.
    pub controls_cap_left: Option<String>,
    /// Right pill cap for the `"rounded"` controls style.
    pub controls_cap_right: Option<String>,
    /// Text (or icon) prepended to the title in the top border when the current
    /// track comes from Spotify recommendations. Set to `""` to disable.
    /// Default `"[N] "`.
    pub suggested_tag: Option<String>,
    /// Animate a bright left-to-right shimmer over a recommended track's title.
    /// Default `true`.
    pub suggested_shimmer: Option<bool>,
}

/// Configuration of the lyrics view, set in the `[lyrics]` table.
#[derive(Clone, Debug, Default)]
pub struct LyricsConfig {
    /// Horizontal position of the lyrics text.
    pub align: Option<LyricsAlign>,
}

#[derive(Clone, Copy, Debug, Default, PartialEq, Eq, Structural)]
pub enum LyricsAlign {
    Left,
    #[default]
    Center,
    Right,
}

/// User overrides for the icons used across the UI, set in the `[icons]`
/// table. Unset icons fall back to nerd-font or ASCII defaults depending on
/// `use_nerdfont`.
#[derive(Clone, Debug, Default)]
pub struct IconsConfig {
    pub playing: Option<String>,
    pub paused: Option<String>,
    pub stopped: Option<String>,
    pub repeat: Option<String>,
    pub repeat_track: Option<String>,
    pub repeat_off: Option<String>,
    pub shuffle: Option<String>,
    pub smart_shuffle: Option<String>,
    pub shuffle_off: Option<String>,
    pub player_prev: Option<String>,
    pub player_next: Option<String>,
    pub saved: Option<String>,
    pub updating: Option<String>,
    pub lyrics_current: Option<String>,
    pub filter: Option<String>,
    pub pane_back: Option<String>,
    pub pane_menu: Option<String>,
    pub menu_search: Option<String>,
    pub menu_friends: Option<String>,
    pub menu_playlists: Option<String>,
    pub menu_mixes: Option<String>,
    pub menu_albums: Option<String>,
    pub menu_artists: Option<String>,
    pub menu_recommendations: Option<String>,
    pub menu_lyrics: Option<String>,
    pub menu_queue: Option<String>,
    pub menu_add_to_queue: Option<String>,
    pub menu_add_to_playlist: Option<String>,
    pub menu_remove_from_playlist: Option<String>,
    pub menu_remove_recommendation: Option<String>,
    pub menu_share: Option<String>,
}

/// The icons that can be customized through [IconsConfig].
#[derive(Clone, Copy, Debug, PartialEq, Eq, Structural)]
pub enum IconKind {
    Playing,
    Paused,
    Stopped,
    Repeat,
    RepeatTrack,
    RepeatOff,
    Shuffle,
    SmartShuffle,
    ShuffleOff,
    PlayerPrev,
    PlayerNext,
    Saved,
    Updating,
    /// Marker shown next to the currently sung lyrics line.
    LyricsCurrent,
    /// Icon shown at the start of the filter input row in the track list.
    Filter,
    /// Prefix shown in a pane title when a previous view can be popped.
    PaneBack,
    /// Suffix shown in a pane title when the view has a dropdown menu.
    PaneMenu,
    MenuSearch,
    MenuFriends,
    MenuPlaylists,
    MenuMixes,
    MenuAlbums,
    MenuArtists,
    MenuRecommendations,
    MenuLyrics,
    MenuQueue,
    MenuAddToQueue,
    MenuAddToPlaylist,
    MenuRemoveFromPlaylist,
    MenuRemoveRecommendation,
    MenuShare,
}

/// The nerd-font default and the ASCII default of an icon.
pub open spec fn icon_defaults(kind: IconKind) -> (Seq<char>, Seq<char>) {
    match kind {
        IconKind::Playing => ("\u{f04b} "@, "▶ "@),
        IconKind::Paused => ("\u{f04c} "@, "▮▮"@),
        IconKind::Stopped => ("\u{f04d} "@, "◼ "@),
        IconKind::Repeat => ("\u{f0456} "@, "R"@),
        IconKind::RepeatTrack => ("\u{f0458} "@, "R"@),
        IconKind::RepeatOff => ("X"@, "X"@),
        IconKind::Shuffle => ("\u{f049d} "@, "S"@),
        IconKind::SmartShuffle => ("\u{f0ae2} "@, "S~"@),
        IconKind::ShuffleOff => ("X"@, "X"@),
        IconKind::PlayerPrev => ("\u{f04ae} "@, "|<"@),
        IconKind::PlayerNext => ("\u{f04ad} "@, ">|"@),
        IconKind::Saved => ("\u{f012c}"@, "✓"@),
        IconKind::Updating => ("\u{f04e6} "@, "[U] "@),
        IconKind::LyricsCurrent => ("\u{f075a} "@, "♪ "@),
        IconKind::Filter => ("\u{f002} "@, "/ "@),
        IconKind::PaneBack => ("\u{f0141} "@, "< "@),
        IconKind::PaneMenu => (" \u{f0140}"@, " ▾"@),
        IconKind::MenuSearch => ("\u{f002} "@, "/ "@),
        IconKind::MenuFriends => ("\u{f0c0} "@, "& "@),
        IconKind::MenuPlaylists => ("\u{f03a} "@, "= "@),
        IconKind::MenuMixes => ("\u{f1bc} "@, "≈ "@),
        IconKind::MenuAlbums => ("\u{f001} "@, "♫ "@),
        IconKind::MenuArtists => ("\u{f007} "@, "@ "@),
        IconKind::MenuRecommendations => ("\u{f005} "@, "* "@),
        IconKind::MenuLyrics => ("\u{f075a} "@, "♪ "@),
        IconKind::MenuQueue => ("\u{f03a} "@, "= "@),
        IconKind::MenuAddToQueue => ("\u{f04b} "@, "> "@),
        IconKind::MenuAddToPlaylist => ("\u{f0fe} "@, "+ "@),
        IconKind::MenuRemoveFromPlaylist => ("\u{f146} "@, "- "@),
        IconKind::MenuRemoveRecommendation => ("\u{f0a76} "@, "✗ "@),
        IconKind::MenuShare => ("\u{f064} "@, "↗ "@),
    }
}

/// The icon that the user has set, if any.
pub open spec fn user_icon(icons: IconsConfig, kind: IconKind) -> Option<String> {
    match kind {
        IconKind::Playing => icons.playing,
        IconKind::Paused => icons.paused,
        IconKind::Stopped => icons.stopped,
        IconKind::Repeat => icons.repeat,
        IconKind::RepeatTrack => icons.repeat_track,
        IconKind::RepeatOff => icons.repeat_off,
        IconKind::Shuffle => icons.shuffle,
        IconKind::SmartShuffle => icons.smart_shuffle,
        IconKind::ShuffleOff => icons.shuffle_off,
        IconKind::PlayerPrev => icons.player_prev,
        IconKind::PlayerNext => icons.player_next,
        IconKind::Saved => icons.saved,
        IconKind::Updating => icons.updating,
        IconKind::LyricsCurrent => icons.lyrics_current,
        IconKind::Filter => icons.filter,
        IconKind::PaneBack => icons.pane_back,
        IconKind::PaneMenu => icons.pane_menu,
        IconKind::MenuSearch => icons.menu_search,
        IconKind::MenuFriends => icons.menu_friends,
        IconKind::MenuPlaylists => icons.menu_playlists,
        IconKind::MenuMixes => icons.menu_mixes,
        IconKind::MenuAlbums => icons.menu_albums,
        IconKind::MenuArtists => icons.menu_artists,
        IconKind::MenuRecommendations => icons.menu_recommendations,
        IconKind::MenuLyrics => icons.menu_lyrics,
        IconKind::MenuQueue => icons.menu_queue,
        IconKind::MenuAddToQueue => icons.menu_add_to_queue,
        IconKind::MenuAddToPlaylist => icons.menu_add_to_playlist,
        IconKind::MenuRemoveFromPlaylist => icons.menu_remove_from_playlist,
        IconKind::MenuRemoveRecommendation => icons.menu_remove_recommendation,
        IconKind::MenuShare => icons.menu_share,
    }
}

/// The text of an icon: what the user has set, or else the nerd-font default if `use_nerdfont` is
/// set, or else the ASCII default.
pub open spec fn icon_text(values: ConfigValues, kind: IconKind) -> Seq<char> {
    if values.icons is Some && user_icon(values.icons->0, kind) is Some {
        user_icon(values.icons->0, kind)->0@
    } else if values.use_nerdfont == Some(true) {
        icon_defaults(kind).0
    } else {
        icon_defaults(kind).1
    }
}

impl IconKind {
    /// The nerd-font default and the ASCII default.
    pub fn defaults(self) -> (texts: (&'static str, &'static str))
        ensures
            (texts.0@, texts.1@) == icon_defaults(self),
    {
        match self {
            IconKind::Playing => ("\u{f04b} ", "▶ "),
            IconKind::Paused => ("\u{f04c} ", "▮▮"),
            IconKind::Stopped => ("\u{f04d} ", "◼ "),
            IconKind::Repeat => ("\u{f0456} ", "R"),
            IconKind::RepeatTrack => ("\u{f0458} ", "R"),
            IconKind::RepeatOff => ("X", "X"),
            IconKind::Shuffle => ("\u{f049d} ", "S"),
            IconKind::SmartShuffle => ("\u{f0ae2} ", "S~"),
            IconKind::ShuffleOff => ("X", "X"),
            IconKind::PlayerPrev => ("\u{f04ae} ", "|<"),
            IconKind::PlayerNext => ("\u{f04ad} ", ">|"),
            IconKind::Saved => ("\u{f012c}", "✓"),
            IconKind::Updating => ("\u{f04e6} ", "[U] "),
            IconKind::LyricsCurrent => ("\u{f075a} ", "♪ "),
            IconKind::Filter => ("\u{f002} ", "/ "),
            IconKind::PaneBack => ("\u{f0141} ", "< "),
            IconKind::PaneMenu => (" \u{f0140}", " ▾"),
            IconKind::MenuSearch => ("\u{f002} ", "/ "),
            IconKind::MenuFriends => ("\u{f0c0} ", "& "),
            IconKind::MenuPlaylists => ("\u{f03a} ", "= "),
            IconKind::MenuMixes => ("\u{f1bc} ", "≈ "),
            IconKind::MenuAlbums => ("\u{f001} ", "♫ "),
            IconKind::MenuArtists => ("\u{f007} ", "@ "),
            IconKind::MenuRecommendations => ("\u{f005} ", "* "),
            IconKind::MenuLyrics => ("\u{f075a} ", "♪ "),
            IconKind::MenuQueue => ("\u{f03a} ", "= "),
            IconKind::MenuAddToQueue => ("\u{f04b} ", "> "),
            IconKind::MenuAddToPlaylist => ("\u{f0fe} ", "+ "),
            IconKind::MenuRemoveFromPlaylist => ("\u{f146} ", "- "),
            IconKind::MenuRemoveRecommendation => ("\u{f0a76} ", "✗ "),
            IconKind::MenuShare => ("\u{f064} ", "↗ "),
        }
    }
}

impl IconsConfig {
    /// The icon that the user has set, if any.
    pub fn get(&self, kind: IconKind) -> (icon: &Option<String>)
        ensures
            *icon == user_icon(*self, kind),
    {
        match kind {
            IconKind::Playing => &self.playing,
            IconKind::Paused => &self.paused,
            IconKind::Stopped => &self.stopped,
            IconKind::Repeat => &self.repeat,
            IconKind::RepeatTrack => &self.repeat_track,
            IconKind::RepeatOff => &self.repeat_off,
            IconKind::Shuffle => &self.shuffle,
            IconKind::SmartShuffle => &self.smart_shuffle,
            IconKind::ShuffleOff => &self.shuffle_off,
            IconKind::PlayerPrev => &self.player_prev,
            IconKind::PlayerNext => &self.player_next,
            IconKind::Saved => &self.saved,
            IconKind::Updating => &self.updating,
            IconKind::LyricsCurrent => &self.lyrics_current,
            IconKind::Filter => &self.filter,
            IconKind::PaneBack => &self.pane_back,
            IconKind::PaneMenu => &self.pane_menu,
            IconKind::MenuSearch => &self.menu_search,
            IconKind::MenuFriends => &self.menu_friends,
            IconKind::MenuPlaylists => &self.menu_playlists,
            IconKind::MenuMixes => &self.menu_mixes,
            IconKind::MenuAlbums => &self.menu_albums,
            IconKind::MenuArtists => &self.menu_artists,
            IconKind::MenuRecommendations => &self.menu_recommendations,
            IconKind::MenuLyrics => &self.menu_lyrics,
            IconKind::MenuQueue => &self.menu_queue,
            IconKind::MenuAddToQueue => &self.menu_add_to_queue,
            IconKind::MenuAddToPlaylist => &self.menu_add_to_playlist,
            IconKind::MenuRemoveFromPlaylist => &self.menu_remove_from_playlist,
            IconKind::MenuRemoveRecommendation => &self.menu_remove_recommendation,
            IconKind::MenuShare => &self.menu_share,
        }
    }
}

impl ConfigValues {
    /// Resolves an icon: the user's override from `[icons]`, then the nerd-font default if
    /// `use_nerdfont` is set, then the ASCII default.
    pub fn icon(&self, kind: IconKind) -> (text: String)
        ensures
            text@ == icon_text(*self, kind),
    {
        if let Some(icons) = &self.icons {
            if let Some(icon) = icons.get(kind) {
                return icon.clone();
            }
        }
        let (nerdfont, ascii) = kind.defaults();
        match self.use_nerdfont {
            Some(true) => nerdfont.to_owned(),
            _ => ascii.to_owned(),
        }
    }
}

/// Configuration of the multi-pane "panes" screen.
#[derive(Clone, Debug)]
pub struct LayoutConfig {
    pub columns: Vec<ColumnConfig>,
    /// Options for the "browser" pane.
    pub browser: Option<BrowserConfig>,
    /// Options for the "tracks" pane.
    pub tracks: Option<TracksPaneConfig>,
    /// Options for the "info" pane.
    pub info: Option<InfoConfig>,
    /// Empty cells between the screen edge and between adjacent pane islands
    /// (sets both x and y). Default 1. Overridden by `gap_x` / `gap_y`.
    pub gap: Option<u8>,
    /// Horizontal gap only (between columns and left/right screen edges).
    pub gap_x: Option<u8>,
    /// Vertical gap only (between rows and top/bottom screen edges).
    pub gap_y: Option<u8>,
    /// Extra padding inside each island border on every side. Default 0.
    /// Overridden by `padding_x` / `padding_y`.
    pub padding: Option<u8>,
    /// Horizontal padding only (left/right inside the border).
    pub padding_x: Option<u8>,
    /// Vertical padding only (top/bottom inside the border).
    pub padding_y: Option<u8>,
}

/// Options for the browser pane (`[layout.browser]`).
#[derive(Clone, Debug, Default)]
pub struct BrowserConfig {
    /// Sections shown in the dropdown, in order. Valid: "search",
    /// "playlists", "albums", "artists", "recommendations".
    pub sections: Option<Vec<String>>,
    /// Section selected at startup.
    pub default_section: Option<String>,
    /// Sorting of section lists: "default" (Spotify order) or "name".
    pub sort: Option<String>,
    /// Height of each row in the playlist/album lists, in cells.
    /// 1 disables thumbnails. Default 2.
    pub row_height: Option<u8>,
    /// Show cover-art thumbnails in the playlist and album lists (requires
    /// sixel support). Default true.
    pub thumbnails: Option<bool>,
}

/// Options for the tracks pane (`[layout.tracks]`).
#[derive(Clone, Debug, Default)]
pub struct TracksPaneConfig {
    /// Height of a track row in cells; 1 disables thumbnails. Default 2.
    pub row_height: Option<u8>,
    /// Show album-art thumbnails (requires sixel). Default true.
    pub thumbnails: Option<bool>,
    /// Show the persistent filter input row. Default true.
    pub filter_row: Option<bool>,
    /// Default sort order applied when opening a playlist or album.
    /// Values: `"last_added"`, `"first_added"`, `"duration"`,
    /// `"alphabetical"`, `"reverse"` (reverse alphabetical).
    /// Omit to keep Spotify's original order. A manual `sort` command
    /// overrides this and is remembered per playlist.
    pub default_sort: Option<String>,
}

/// Options for the info pane (`[layout.info]`).
#[derive(Clone, Debug, Default)]
pub struct InfoConfig {
    /// Number of artist genres displayed. Default 2.
    pub genres: Option<u8>,
}

#[derive(Clone, Debug)]
pub struct ColumnConfig {
    /// Width of the column as a percentage of the screen width.
    pub width: u8,
    /// Panes stacked vertically in this column, top to bottom.
    pub panes: Vec<String>,
    /// Height of each pane as a percentage of the column height. Must match
    /// the length of `panes`; values need not sum to 100 (the last pane gets
    /// the remainder). Omit to distribute evenly.
    pub heights: Option<Vec<u8>>,
}

impl Default for LayoutConfig {
    fn default() -> (config: LayoutConfig)
        ensures
            config.columns@.len() == 2,
            config.columns@[0].width == 50,
            texts(config.columns@[0].panes@) == seq!["browser"@],
            config.columns@[0].heights is None,
            config.columns@[1].width == 50,
            texts(config.columns@[1].panes@) == seq!["info"@, "lyrics"@],
            config.columns@[1].heights is Some,
            config.columns@[1].heights->0@ == seq![30u8, 70],
            config.browser is None,
            config.tracks is None,
            config.info is None,
            config.gap is None,
            config.gap_x is None,
            config.gap_y is None,
            config.padding is None,
            config.padding_x is None,
            config.padding_y is None,
    {
        let mut left: Vec<String> = Vec::new();
        left.push("browser".to_owned());
        let mut right: Vec<String> = Vec::new();
        right.push("info".to_owned());
        right.push("lyrics".to_owned());
        assert(texts(left@) =~= seq!["browser"@]);
        assert(texts(right@) =~= seq!["info"@, "lyrics"@]);
        let mut heights: Vec<u8> = Vec::new();
        heights.push(30);
        heights.push(70);
        let mut columns: Vec<ColumnConfig> = Vec::new();
        columns.push(ColumnConfig { width: 50, panes: left, heights: None });
        columns.push(ColumnConfig { width: 50, panes: right, heights: Some(heights) });
        LayoutConfig {
            columns,
            browser: None,
            tracks: None,
            info: None,
            gap: None,
            gap_x: None,
            gap_y: None,
            padding: None,
            padding_x: None,
            padding_y: None,
        }
    }
}

/// The colors that the user sets.
#[derive(Clone, Debug, Default)]
pub struct ConfigTheme {
    pub background: Option<String>,
    pub primary: Option<String>,
    pub secondary: Option<String>,
    pub title: Option<String>,
    pub playing: Option<String>,
    pub playing_selected: Option<String>,
    pub playing_bg: Option<String>,
    pub highlight: Option<String>,
    pub highlight_bg: Option<String>,
    pub highlight_inactive_bg: Option<String>,
    pub error: Option<String>,
    pub error_bg: Option<String>,
    pub statusbar_progress: Option<String>,
    pub statusbar_progress_bg: Option<String>,
    pub statusbar: Option<String>,
    pub statusbar_bg: Option<String>,
    /// Text color for the controls row (buttons + time/vol). Falls back to `statusbar`.
    pub statusbar_controls: Option<String>,
    /// Background color for the controls row. Falls back to `statusbar_bg`.
    pub statusbar_controls_bg: Option<String>,
    /// Icon color for an active/pressed control button — enabled shuffle/repeat,
    /// or the brief blink when play/prev/next is clicked. Default white.
    pub statusbar_controls_active: Option<String>,
    /// Pill background behind each icon in the `"rounded"` controls style.
    /// Default a gray (light black).
    pub statusbar_controls_button_bg: Option<String>,
    pub cmdline: Option<String>,
    pub cmdline_bg: Option<String>,
    pub search_match: Option<String>,
    pub dropdown_fg: Option<String>,
    pub dropdown_bg: Option<String>,
    pub dropdown_focused_fg: Option<String>,
    pub dropdown_focused_bg: Option<String>,
    pub dropdown_border: Option<String>,
}

/// The ordering that is used when representing a playlist.
#[derive(Clone, Copy, Debug, PartialEq, Eq, Structural)]
pub struct SortingOrder {
    pub key: SortKey,
    pub direction: SortDirection,
}

/// A length of time.
#[derive(Clone, Copy, Debug, Default, PartialEq, Eq, Structural)]
pub struct Elapsed {
    pub seconds: u64,
    pub nanoseconds: u32,
}

/// The runtime state of the music queue.
#[derive(Clone, Debug, Default)]
pub struct QueueState {
    pub current_track: Option<usize>,
    pub random_order: Option<Vec<usize>>,
    pub track_progress: Elapsed,
    pub queue: Vec<Playable>,
}

/// The last playlist or album the user opened, persisted across sessions.
#[derive(Clone, Debug, PartialEq, Eq)]
pub struct LastOpenedItem {
    /// `"playlist"` or `"album"`
    pub kind: String,
    pub id: String,
}

/// The orders that the user has chosen for playlists, each under the playlist's id.
pub type PlaylistOrders = TextMap<SortingOrder>;

/// Runtime state that should be persisted accross sessions.
#[derive(Clone, Debug)]
pub struct UserState {
    pub volume: u16,
    pub shuffle: bool,
    /// Visual-only flag: when true the shuffle button shows the "smart shuffle" icon.
    /// Playback behaviour is identical to regular shuffle.
    pub smart_shuffle_visual: bool,
    pub repeat: RepeatSetting,
    pub queuestate: QueueState,
    pub playlist_orders: PlaylistOrders,
    pub cache_version: u16,
    /// Unix epoch seconds of the last full library API sync, used to gate
    /// re-syncing on launch behind a freshness TTL.
    pub last_library_sync: Option<i64>,
    pub playback_state: PlaybackState,
    /// Last opened playlist or album; re-fetched on startup.
    pub last_opened: Option<LastOpenedItem>,
}

impl Default for UserState {
    fn default() -> (state: UserState)
        ensures
            state.volume == u16::MAX,
            !state.shuffle,
            !state.smart_shuffle_visual,
            state.repeat == RepeatSetting::Off,
            state.queuestate.current_track is None,
            state.queuestate.random_order is None,
            state.queuestate.track_progress == (Elapsed { seconds: 0, nanoseconds: 0 }),
            state.queuestate.queue@.len() == 0,
            forall|id: Seq<char>| #[trigger] state.playlist_orders.at(id) is None,
            state.cache_version == 0,
            state.last_library_sync is None,
            state.playback_state == PlaybackState::Default,
            state.last_opened is None,
    {
        UserState {
            volume: 0xffff,
            shuffle: false,
            smart_shuffle_visual: false,
            repeat: RepeatSetting::Off,
            queuestate: QueueState {
                current_track: None,
                random_order: None,
                track_progress: Elapsed { seconds: 0, nanoseconds: 0 },
                queue: Vec::new(),
            },
            playlist_orders: PlaylistOrders::new(),
            cache_version: 0,
            last_library_sync: None,
            playback_state: PlaybackState::Default,
            last_opened: None,
        }
    }
}

/// The complete configuration: what the user has written, and the state that the client keeps.
pub struct Config {
    /// The name of the configuration file.
    pub filename: String,
    /// Configuration set by the user, read only.
    pub values: ConfigValues,
    /// Runtime state which can't be edited by the user, read/write.
    pub state: UserState,
}

/// `state` with what the configuration sets of it.
pub open spec fn overlaid(state: UserState, values: ConfigValues) -> UserState {
    UserState {
        shuffle: if values.shuffle is Some {
            values.shuffle->0
        } else {
            state.shuffle
        },
        repeat: if values.repeat is Some {
            values.repeat->0
        } else {
            state.repeat
        },
        playback_state: if values.playback_state is Some {
            values.playback_state->0
        } else {
            state.playback_state
        },
        ..state
    }
}

impl Config {
    /// The configuration from what the configuration file and the state file hold. What the
    /// configuration file sets of the state wins over the state file. `default_filename` is the
    /// name of the configuration file where none is given.
    pub fn new(
        filename: Option<String>,
        default_filename: &str,
        values: ConfigValues,
        state: UserState,
    ) -> (config: Config)
        ensures
            config.filename@ == match filename {
                Some(filename) => filename@,
                None => default_filename@,
            },
            config.values == values,
            config.state == overlaid(state, values),
    {
        let mut state = state;
        if let Some(shuffle) = values.shuffle {
            state.shuffle = shuffle;
        }
        if let Some(repeat) = values.repeat {
            state.repeat = repeat;
        }
        if let Some(playback_state) = values.playback_state {
            state.playback_state = playback_state;
        }
        let filename = match filename {
            Some(filename) => filename,
            None => default_filename.to_owned(),
        };
        Config { filename, values, state }
    }

    /// The user configuration values.
    pub fn values(&self) -> (values: &ConfigValues)
        ensures
            *values == self.values,
    {
        &self.values
    }

    /// Resolves an icon: the user's override from `[icons]`, then the nerd-font default if
    /// `use_nerdfont` is set, then the ASCII default.
    pub fn icon(&self, kind: IconKind) -> (text: String)
        ensures
            text@ == icon_text(self.values, kind),
    {
        self.values.icon(kind)
    }

    /// The runtime user state values.
    pub fn state(&self) -> (state: &UserState)
        ensures
            *state == self.state,
    {
        &self.state
    }

    /// Updates the version number of the runtime user state. This should be done before saving it
    /// to disk.
    pub fn update_state_cache_version(&mut self)
        ensures
            final(self).filename == old(self).filename,
            final(self).values == old(self).values,
            final(self).state == (UserState { cache_version: CACHE_VERSION, ..old(self).state }),
    {
        self.state.cache_version = CACHE_VERSION;
    }

    /// Takes over the values of a configuration file that was read again. The state stays.
    pub fn reload(&mut self, read: Result<ConfigValues, String>) -> (result: Result<(), String>)
        ensures
            final(self).filename == old(self).filename,
            final(self).state == old(self).state,
            match read {
                Ok(values) => result is Ok && final(self).values == values,
                Err(error) => result is Err && result->Err_0 == error && final(self).values == old(
                    self,
                ).values,
            },
    {
        match read {
            Ok(values) => {
                self.values = values;
                Ok(())
            },
            Err(error) => Err(error),
        }
    }
}

/// An icon that the user has set is shown whether or not nerd-font icons are in use.
pub proof fn lemma_user_icon_wins(a: ConfigValues, b: ConfigValues, kind: IconKind)
    requires
        a.icons == b.icons,
        a.icons is Some,
        user_icon(a.icons->0, kind) is Some,
    ensures
        icon_text(a, kind) == icon_text(b, kind),
        icon_text(a, kind) == user_icon(a.icons->0, kind)->0@,
{
}

/// What the configuration sets of the state is all that it changes, and setting it twice is
/// setting it once.
pub proof fn lemma_overlay_is_idempotent(state: UserState, values: ConfigValues)
    ensures
        overlaid(overlaid(state, values), values) == overlaid(state, values),
        values.shuffle is None && values.repeat is None && values.playback_state is None
            ==> overlaid(state, values) == state,
{
}

/// Each icon is the one that is set under its own name.
pub proof fn lemma_icons_are_set_by_their_names(icons: IconsConfig)
    ensures
        user_icon(icons, IconKind::Playing) == icons.playing,
        user_icon(icons, IconKind::Paused) == icons.paused,
        user_icon(icons, IconKind::Stopped) == icons.stopped,
        user_icon(icons, IconKind::Repeat) == icons.repeat,
        user_icon(icons, IconKind::RepeatTrack) == icons.repeat_track,
        user_icon(icons, IconKind::RepeatOff) == icons.repeat_off,
        user_icon(icons, IconKind::Shuffle) == icons.shuffle,
        user_icon(icons, IconKind::SmartShuffle) == icons.smart_shuffle,
        user_icon(icons, IconKind::ShuffleOff) == icons.shuffle_off,
        user_icon(icons, IconKind::PlayerPrev) == icons.player_prev,
        user_icon(icons, IconKind::PlayerNext) == icons.player_next,
        user_icon(icons, IconKind::Saved) == icons.saved,
        user_icon(icons, IconKind::Updating) == icons.updating,
        user_icon(icons, IconKind::LyricsCurrent) == icons.lyrics_current,
        user_icon(icons, IconKind::Filter) == icons.filter,
        user_icon(icons, IconKind::PaneBack) == icons.pane_back,
        user_icon(icons, IconKind::PaneMenu) == icons.pane_menu,
        user_icon(icons, IconKind::MenuSearch) == icons.menu_search,
        user_icon(icons, IconKind::MenuFriends) == icons.menu_friends,
        user_icon(icons, IconKind::MenuPlaylists) == icons.menu_playlists,
        user_icon(icons, IconKind::MenuMixes) == icons.menu_mixes,
        user_icon(icons, IconKind::MenuAlbums) == icons.menu_albums,
        user_icon(icons, IconKind::MenuArtists) == icons.menu_artists,
        user_icon(icons, IconKind::MenuRecommendations) == icons.menu_recommendations,
        user_icon(icons, IconKind::MenuLyrics) == icons.menu_lyrics,
        user_icon(icons, IconKind::MenuQueue) == icons.menu_queue,
        user_icon(icons, IconKind::MenuAddToQueue) == icons.menu_add_to_queue,
        user_icon(icons, IconKind::MenuAddToPlaylist) == icons.menu_add_to_playlist,
        user_icon(icons, IconKind::MenuRemoveFromPlaylist) == icons.menu_remove_from_playlist,
        user_icon(icons, IconKind::MenuRemoveRecommendation) == icons.menu_remove_recommendation,
        user_icon(icons, IconKind::MenuShare) == icons.menu_share,
{
}

/// Without an icon of the user's, the nerd-font setting alone decides, and it is off unless it is
/// set.
pub proof fn lemma_nerd_font_is_a_choice(values: ConfigValues, other: ConfigValues, kind: IconKind)
    requires
        values.icons is None || user_icon(values.icons->0, kind) is None,
        other.icons is None || user_icon(other.icons->0, kind) is None,
    ensures
        values.use_nerdfont == other.use_nerdfont ==> icon_text(values, kind) == icon_text(
            other,
            kind,
        ),
        values.use_nerdfont is None && other.use_nerdfont == Some(false) ==> icon_text(values, kind)
            == icon_text(other, kind),
        values.use_nerdfont == Some(true) ==> icon_text(values, kind) == icon_defaults(kind).0,
        values.use_nerdfont != Some(true) ==> icon_text(values, kind) == icon_defaults(kind).1,
{
}

/// What the configuration sets of the state wins over the state; all else stays as it was.
pub proof fn lemma_configuration_wins_over_the_state(state: UserState, values: ConfigValues)
    ensures
        ({
            let after = overlaid(state, values);
            &&& values.shuffle matches Some(shuffle) ==> after.shuffle == shuffle
            &&& values.shuffle is None ==> after.shuffle == state.shuffle
            &&& values.repeat matches Some(repeat) ==> after.repeat == repeat
            &&& values.repeat is None ==> after.repeat == state.repeat
            &&& values.playback_state matches Some(playback) ==> after.playback_state == playback
            &&& values.playback_state is None ==> after.playback_state == state.playback_state
            &&& after == (UserState {
                shuffle: after.shuffle,
                repeat: after.repeat,
                playback_state: after.playback_state,
                ..state
            })
        }),
{
}

/// A configuration file that cannot be read leaves the configuration as it was, and one that can
/// leaves the state as it was.
pub proof fn lemma_reload_keeps_the_state(
    config: &mut Config,
    read: Result<ConfigValues, String>,
    result: Result<(), String>,
)
    requires
        call_ensures(Config::reload, (config, read), result),
    ensures
        result is Ok <==> read is Ok,
        read matches Ok(values) ==> final(config).values == values,
        read is Err ==> final(config).values == old(config).values,
        final(config).state == old(config).state,
        final(config).filename == old(config).filename,
{
}

} // verus!
