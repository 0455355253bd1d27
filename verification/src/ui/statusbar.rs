//! The player bar at the bottom of the screen: a border with the title of what is playing, a
//! progress bar, and a row of controls.

use vstd::prelude::*;

use super::dropdown::{edge, edge_text};
use super::event::{Event, MouseButton, MouseEvent};
use super::paint::{
    blank_at, colors, text_at, CustomColor, Effect, Frame, InkView, PaletteColor, Shade, StrokeView,
    Style,
};
use super::width::{cells_or, char_cells, text_width, width};
use crate::config::{icon_text, ConfigValues, IconKind, StatusbarConfig, UserState};
use crate::geometry::{capped_sum, larger, less, max, min, monus, plus, smaller, Vec2};
use crate::model::{Playable, PlayerStatus, RepeatSetting, Track};
use crate::text::{
    chars_of, concat, decimal, decimal_text, maybe_text, repeat, same_text, string_of, trim_end,
    trimmed_end,
};

verus! {

/// Redraw interval while a suggested track is playing, in milliseconds.
pub const SHIMMER_FRAME: u64 = 160;

/// The interval at which is looked whether a suggested track is playing, in milliseconds.
pub const SHIMMER_POLL: u64 = 300;

/// How long a clicked play/prev/next button flashes the active color, in milliseconds.
pub const BLINK: u128 = 140;

/// How many tracks of the queue recommendations are asked for.
pub const SEEDS: usize = 5;

/// A clickable control-row button.
#[derive(Clone, Copy, Debug, PartialEq, Eq, Structural)]
pub enum ControlButton {
    Play,
    Prev,
    Next,
    Shuffle,
    Repeat,
}

/// A laid-out control button: its icon, active state, and x-range `[start, end)`.
#[derive(Clone, Debug)]
pub struct CtrlBtn {
    pub kind: ControlButton,
    pub icon: String,
    pub active: bool,
    pub start: usize,
    pub end: usize,
}

pub ghost struct BtnView {
    pub kind: ControlButton,
    pub icon: Seq<char>,
    pub active: bool,
    pub start: int,
    pub end: int,
}

impl View for CtrlBtn {
    type V = BtnView;

    open spec fn view(&self) -> BtnView {
        BtnView {
            kind: self.kind,
            icon: self.icon@,
            active: self.active,
            start: self.start as int,
            end: self.end as int,
        }
    }
}

pub open spec fn btn_views(buttons: Seq<CtrlBtn>) -> Seq<BtnView> {
    buttons.map_values(|b: CtrlBtn| b@)
}

/// What is playing, with its texts.
#[derive(Clone, Debug)]
pub struct CurrentTrack {
    /// The track in the format of the status bar.
    pub formatted: String,
    /// How long it plays, in milliseconds.
    pub duration: u32,
    /// How long it plays and how long it has played, as texts.
    pub duration_text: String,
    pub elapsed_text: String,
    /// Whether it was added by a recommendation.
    pub is_suggested: bool,
}

/// What the player does.
#[derive(Clone, Debug)]
pub struct PlayerState {
    pub status: PlayerStatus,
    pub volume: u16,
    /// How long the current track has played, in milliseconds.
    pub progress_ms: u128,
    pub repeat: RepeatSetting,
    pub current: Option<CurrentTrack>,
}

/// The state of the bar.
#[derive(Clone, Debug)]
pub struct StatusBar {
    pub last_size: Vec2,
    /// Last clicked play/prev/next button, for the press blink.
    pub blink: Option<ControlButton>,
    /// Last terminal-title string written, to avoid redundant writes.
    pub last_title: Option<String>,
}

// What the configuration says

pub open spec fn option_text(set: Option<String>, default: Seq<char>) -> Seq<char> {
    match set {
        Some(text) => text@,
        None => default,
    }
}

fn option_or(set: &Option<String>, default: &str) -> (text: String)
    ensures
        text@ == option_text(*set, default@),
{
    match set {
        Some(text) => text.clone(),
        None => default.to_owned(),
    }
}

/// The number of rows of the progress bar.
pub open spec fn bar_rows(values: ConfigValues) -> int {
    match values.statusbar {
        Some(bar) => match bar.height {
            Some(height) => height as int,
            None => 1,
        },
        None => 1,
    }
}

/// The text that an option of the bar is set to, or its default.
pub open spec fn bar_option(
    values: ConfigValues,
    get: spec_fn(StatusbarConfig) -> Option<String>,
    default: Seq<char>,
) -> Seq<char> {
    match values.statusbar {
        Some(bar) => option_text(get(bar), default),
        None => default,
    }
}

pub open spec fn bar_style(values: ConfigValues) -> Seq<char> {
    bar_option(values, |bar: StatusbarConfig| bar.style, "square"@)
}

/// The characters of the filled and of the empty part of the progress bar.
pub open spec fn bar_chars(values: ConfigValues) -> (char, char) {
    if bar_style(values) == "thin"@ {
        ('━', '┉')
    } else {
        ('█', '░')
    }
}

/// End caps for the `"rounded"` style. None for other styles.
pub open spec fn bar_caps(values: ConfigValues) -> Option<(Seq<char>, Seq<char>)> {
    if bar_style(values) == "rounded"@ {
        Some(
            (
                bar_option(
                    values,
                    |bar: StatusbarConfig| bar.progress_cap_left,
                    "\u{e0b6}"@,
                ),
                bar_option(
                    values,
                    |bar: StatusbarConfig| bar.progress_cap_right,
                    "\u{e0b4}"@,
                ),
            ),
        )
    } else {
        None
    }
}

pub open spec fn rounded_controls(values: ConfigValues) -> bool {
    bar_option(values, |bar: StatusbarConfig| bar.controls_style, "square"@) == "rounded"@
}

/// Left and right button decorations for the current controls style.
pub open spec fn controls_deco(values: ConfigValues) -> (Seq<char>, Seq<char>) {
    if rounded_controls(values) {
        (
            bar_option(values, |bar: StatusbarConfig| bar.controls_cap_left, "\u{e0b6}"@),
            bar_option(values, |bar: StatusbarConfig| bar.controls_cap_right, "\u{e0b4}"@),
        )
    } else {
        (
            bar_option(values, |bar: StatusbarConfig| bar.button_open, "[ "@),
            bar_option(values, |bar: StatusbarConfig| bar.button_close, " ]"@),
        )
    }
}

/// What stands before the title of a recommended track.
pub open spec fn suggested_tag(values: ConfigValues) -> Seq<char> {
    bar_option(values, |bar: StatusbarConfig| bar.suggested_tag, "[N] "@)
}

pub open spec fn shimmer_enabled(values: ConfigValues) -> bool {
    match values.statusbar {
        Some(bar) => bar.suggested_shimmer != Some(false),
        None => true,
    }
}

pub fn bar_height(values: &ConfigValues) -> (rows: usize)
    ensures
        rows == bar_rows(*values),
        rows <= 255,
{
    match &values.statusbar {
        Some(bar) => match bar.height {
            Some(height) => height as usize,
            None => 1,
        },
        None => 1,
    }
}

fn style_name(values: &ConfigValues) -> (name: String)
    ensures
        name@ == bar_style(*values),
{
    match &values.statusbar {
        Some(bar) => option_or(&bar.style, "square"),
        None => "square".to_owned(),
    }
}

fn characters(values: &ConfigValues) -> (chars: (char, char))
    ensures
        chars == bar_chars(*values),
{
    if same_text(style_name(values).as_str(), "thin") {
        ('━', '┉')
    } else {
        ('█', '░')
    }
}

fn caps(values: &ConfigValues) -> (caps: Option<(String, String)>)
    ensures
        caps is Some == bar_caps(*values) is Some,
        caps matches Some(both) ==> (both.0@, both.1@) == bar_caps(*values)->0,
{
    if !same_text(style_name(values).as_str(), "rounded") {
        return None;
    }
    match &values.statusbar {
        Some(bar) => Some(
            (
                option_or(&bar.progress_cap_left, "\u{e0b6}"),
                option_or(&bar.progress_cap_right, "\u{e0b4}"),
            ),
        ),
        None => Some(("\u{e0b6}".to_owned(), "\u{e0b4}".to_owned())),
    }
}

fn is_rounded(values: &ConfigValues) -> (yes: bool)
    ensures
        yes == rounded_controls(*values),
{
    let style = match &values.statusbar {
        Some(bar) => option_or(&bar.controls_style, "square"),
        None => "square".to_owned(),
    };
    same_text(style.as_str(), "rounded")
}

fn decorations(values: &ConfigValues) -> (deco: (String, String))
    ensures
        (deco.0@, deco.1@) == controls_deco(*values),
{
    let rounded = is_rounded(values);
    match &values.statusbar {
        Some(bar) => if rounded {
            (
                option_or(&bar.controls_cap_left, "\u{e0b6}"),
                option_or(&bar.controls_cap_right, "\u{e0b4}"),
            )
        } else {
            (option_or(&bar.button_open, "[ "), option_or(&bar.button_close, " ]"))
        },
        None => if rounded {
            ("\u{e0b6}".to_owned(), "\u{e0b4}".to_owned())
        } else {
            ("[ ".to_owned(), " ]".to_owned())
        },
    }
}

/// The format of the track in the bar.
pub fn track_format(values: &ConfigValues) -> (format: String)
    ensures
        format@ == option_text(values.statusbar_format, "%artists - %title"@),
{
    option_or(&values.statusbar_format, "%artists - %title")
}

/// The format of the terminal title, or None if the title is to be left alone.
pub fn title_format(values: &ConfigValues) -> (format: Option<String>)
    ensures
        maybe_text(format) == ({
            let text = option_text(values.title_format, "ncspot - %title"@);
            if text.len() == 0 {
                None
            } else {
                Some(text)
            }
        }),
{
    let format = option_or(&values.title_format, "ncspot - %title");
    if format.as_str().is_empty() {
        None
    } else {
        Some(format)
    }
}

// Icons and texts

/// The icon of the play button.
pub open spec fn playback_icon(status: PlayerStatus, values: ConfigValues) -> Seq<char> {
    let flipped = values.flip_status_indicators == Some(true);
    let kind = match status {
        PlayerStatus::Playing => if flipped {
            IconKind::Paused
        } else {
            IconKind::Playing
        },
        PlayerStatus::Paused => if flipped {
            IconKind::Playing
        } else {
            IconKind::Paused
        },
        PlayerStatus::Stopped | PlayerStatus::FinishedTrack => if flipped {
            IconKind::Playing
        } else {
            IconKind::Stopped
        },
    };
    icon_text(values, kind)
}

pub fn playback_indicator(status: PlayerStatus, values: &ConfigValues) -> (icon: String)
    ensures
        icon@ == playback_icon(status, *values),
{
    let flipped = match values.flip_status_indicators {
        Some(flipped) => flipped,
        None => false,
    };
    let kind = match status {
        PlayerStatus::Playing => if flipped {
            IconKind::Paused
        } else {
            IconKind::Playing
        },
        PlayerStatus::Paused => if flipped {
            IconKind::Playing
        } else {
            IconKind::Paused
        },
        PlayerStatus::Stopped | PlayerStatus::FinishedTrack => if flipped {
            IconKind::Playing
        } else {
            IconKind::Stopped
        },
    };
    values.icon(kind)
}

pub open spec fn shuffle_kind(state: UserState) -> IconKind {
    if !state.shuffle {
        IconKind::ShuffleOff
    } else if state.smart_shuffle_visual {
        IconKind::SmartShuffle
    } else {
        IconKind::Shuffle
    }
}

pub fn shuffle_icon(state: &UserState, values: &ConfigValues) -> (icon: String)
    ensures
        icon@ == icon_text(*values, shuffle_kind(*state)),
{
    let kind = if !state.shuffle {
        IconKind::ShuffleOff
    } else if state.smart_shuffle_visual {
        IconKind::SmartShuffle
    } else {
        IconKind::Shuffle
    };
    values.icon(kind)
}

pub open spec fn repeat_kind(repeat: RepeatSetting) -> IconKind {
    match repeat {
        RepeatSetting::Off => IconKind::RepeatOff,
        RepeatSetting::RepeatPlaylist => IconKind::Repeat,
        RepeatSetting::RepeatTrack => IconKind::RepeatTrack,
    }
}

/// The icon of the repeat button; a 1 stands behind it while a single track is repeated.
pub open spec fn repeat_text(repeat: RepeatSetting, values: ConfigValues) -> Seq<char> {
    match repeat {
        RepeatSetting::RepeatTrack => trim_end(icon_text(values, IconKind::RepeatTrack)) + "1"@,
        _ => icon_text(values, repeat_kind(repeat)),
    }
}

pub fn repeat_icon_str(repeat: RepeatSetting, values: &ConfigValues) -> (icon: String)
    ensures
        icon@ == repeat_text(repeat, *values),
{
    match repeat {
        RepeatSetting::Off => values.icon(IconKind::RepeatOff),
        RepeatSetting::RepeatPlaylist => values.icon(IconKind::Repeat),
        RepeatSetting::RepeatTrack => {
            let icon = chars_of(values.icon(IconKind::RepeatTrack).as_str());
            concat(string_of(trimmed_end(icon.as_slice())).as_str(), "1")
        },
    }
}

/// The share of the full volume, in whole percent.
pub open spec fn percent(volume: int) -> int {
    (200 * volume + 65535) / 131070
}

pub fn volume_pct(volume: u16) -> (pct: u16)
    ensures
        pct == percent(volume as int),
        pct <= 100,
{
    ((200 * volume as u32 + 65535) / 131070) as u16
}

/// The rounding is to the nearest whole percent.
pub proof fn lemma_percent_is_nearest(volume: int)
    requires
        0 <= volume <= 65535,
    ensures
        2 * (65535 * percent(volume) - 100 * volume) <= 65535,
        2 * (100 * volume - 65535 * percent(volume)) <= 65535,
        percent(0) == 0,
        percent(65535) == 100,
{
}

/// The text at the right of the controls: the time, where something is playing, and the volume.
pub open spec fn right_text(player: PlayerState) -> Seq<char> {
    let volume = decimal(percent(player.volume as int) as nat) + "%"@;
    match player.current {
        Some(track) => "󰔚 "@ + (track.elapsed_text@ + " / "@ + track.duration_text@) + " | 󰖀  "@
            + volume,
        None => "|   "@ + volume,
    }
}

pub fn right_str(player: &PlayerState) -> (text: String)
    ensures
        text@ == right_text(*player),
{
    let volume = concat(decimal_text(volume_pct(player.volume) as u64).as_str(), "%");
    match &player.current {
        Some(track) => {
            let mut time = concat(track.elapsed_text.as_str(), " / ");
            time.append(track.duration_text.as_str());
            let mut text = concat("󰔚 ", time.as_str());
            text.append(" | 󰖀  ");
            text.append(volume.as_str());
            text
        },
        None => concat("|   ", volume.as_str()),
    }
}

/// The milliseconds that the text of the elapsed time stands for: nothing where they do not fit.
pub fn elapsed_for_text(progress_ms: u128) -> (ms: u32)
    ensures
        ms == if progress_ms <= u32::MAX {
            progress_ms as int
        } else {
            0
        },
{
    if progress_ms <= 0xffff_ffff {
        progress_ms as u32
    } else {
        0
    }
}

// Controls

/// The buttons in their order, with their icons and whether they are on.
pub open spec fn control_specs(player: PlayerState, state: UserState, values: ConfigValues) -> Seq<
    (ControlButton, Seq<char>, bool),
> {
    seq![
        (ControlButton::Play, playback_icon(player.status, values), false),
        (ControlButton::Prev, icon_text(values, IconKind::PlayerPrev), false),
        (ControlButton::Next, icon_text(values, IconKind::PlayerNext), false),
        (ControlButton::Shuffle, icon_text(values, shuffle_kind(state)), state.shuffle),
        (
            ControlButton::Repeat,
            repeat_text(player.repeat, values),
            player.repeat != RepeatSetting::Off,
        ),
    ]
}

/// The cells behind a button before the next one starts.
pub open spec fn gap_after(i: int) -> int {
    if i == 1 {
        1
    } else {
        2
    }
}

/// The column at which the button at position `i` starts: behind the border and a blank, or behind
/// the button before it and a gap.
pub open spec fn button_start(
    specs: Seq<(ControlButton, Seq<char>, bool)>,
    deco_cells: int,
    i: int,
) -> int
    decreases i, 0int,
{
    if i <= 0 {
        2
    } else {
        capped_sum(button_end(specs, deco_cells, i - 1), gap_after(i - 1))
    }
}

/// The column behind the button at position `i`.
pub open spec fn button_end(
    specs: Seq<(ControlButton, Seq<char>, bool)>,
    deco_cells: int,
    i: int,
) -> int
    decreases i, 1int,
{
    capped_sum(
        button_start(specs, deco_cells, i),
        capped_sum(deco_cells, text_width(specs[i].1) as int),
    )
}

/// The cells that the decorations of a button take up.
pub open spec fn deco_cells(values: ConfigValues) -> int {
    capped_sum(
        text_width(controls_deco(values).0) as int,
        text_width(controls_deco(values).1) as int,
    )
}

/// The control buttons, laid out from left to right.
pub open spec fn controls(player: PlayerState, state: UserState, values: ConfigValues) -> Seq<
    BtnView,
> {
    let specs = control_specs(player, state, values);
    let cells = deco_cells(values);
    Seq::new(
        5,
        |i: int|
            BtnView {
                kind: specs[i].0,
                icon: specs[i].1,
                active: specs[i].2,
                start: button_start(specs, cells, i),
                end: button_end(specs, cells, i),
            },
    )
}

fn push_button(
    buttons: &mut Vec<CtrlBtn>,
    x: usize,
    deco: usize,
    kind: ControlButton,
    icon: String,
    active: bool,
) -> (end: usize)
    ensures
        end == capped_sum(x as int, capped_sum(deco as int, text_width(icon@) as int)),
        btn_views(final(buttons)@) == btn_views(old(buttons)@).push(
            BtnView { kind, icon: icon@, active, start: x as int, end: end as int },
        ),
{
    let end: usize = plus(x, plus(deco, width(icon.as_str())));
    buttons.push(CtrlBtn { kind, icon, active, start: x, end });
    assert(btn_views(buttons@) =~= btn_views(old(buttons)@).push(
        BtnView { kind, icon: icon@, active, start: x as int, end: end as int },
    ));
    end
}

/// Lays out the control buttons left to right, computing each one's x-range.
pub fn controls_layout(player: &PlayerState, state: &UserState, values: &ConfigValues) -> (buttons:
    Vec<CtrlBtn>)
    ensures
        btn_views(buttons@) == controls(*player, *state, *values),
{
    let (left, right) = decorations(values);
    let deco: usize = plus(width(left.as_str()), width(right.as_str()));
    let ghost specs = control_specs(*player, *state, *values);
    let ghost cells = deco_cells(*values);
    assert(cells == deco);
    let mut buttons: Vec<CtrlBtn> = Vec::new();
    assert(btn_views(buttons@) =~= Seq::<BtnView>::empty());
    let repeats = match player.repeat {
        RepeatSetting::Off => false,
        _ => true,
    };
    let end: usize = push_button(
        &mut buttons,
        2,
        deco,
        ControlButton::Play,
        playback_indicator(player.status, values),
        false,
    );
    assert(end == button_end(specs, cells, 0));
    let start: usize = plus(end, 2);
    assert(start == button_start(specs, cells, 1));
    let end: usize = push_button(
        &mut buttons,
        start,
        deco,
        ControlButton::Prev,
        values.icon(IconKind::PlayerPrev),
        false,
    );
    assert(end == button_end(specs, cells, 1));
    let start: usize = plus(end, 1);
    assert(start == button_start(specs, cells, 2));
    let end: usize = push_button(
        &mut buttons,
        start,
        deco,
        ControlButton::Next,
        values.icon(IconKind::PlayerNext),
        false,
    );
    assert(end == button_end(specs, cells, 2));
    let start: usize = plus(end, 2);
    assert(start == button_start(specs, cells, 3));
    let end: usize = push_button(
        &mut buttons,
        start,
        deco,
        ControlButton::Shuffle,
        shuffle_icon(state, values),
        state.shuffle,
    );
    assert(end == button_end(specs, cells, 3));
    let start: usize = plus(end, 2);
    assert(start == button_start(specs, cells, 4));
    let end: usize = push_button(
        &mut buttons,
        start,
        deco,
        ControlButton::Repeat,
        repeat_icon_str(player.repeat, values),
        repeats,
    );
    assert(end == button_end(specs, cells, 4));
    assert(btn_views(buttons@) =~= controls(*player, *state, *values));
    buttons
}

pub open spec fn title_shade() -> Shade {
    Shade::Palette(PaletteColor::TitlePrimary)
}

/// The color that lights up a button: the active color for a button that was just clicked, the
/// normal one for shuffle and repeat while they are on.
pub open spec fn lit(button: BtnView, blink: Option<ControlButton>) -> Option<Shade> {
    match button.kind {
        ControlButton::Shuffle | ControlButton::Repeat => if button.active {
            Some(title_shade())
        } else {
            None
        },
        _ => if blink == Some(button.kind) {
            Some(Shade::Custom(CustomColor::StatusbarControlsActive))
        } else {
            None
        },
    }
}

/// The strokes of a button. A lit button has its colors inverted.
pub open spec fn button_strokes(
    button: BtnView,
    row: int,
    blink: Option<ControlButton>,
    values: ConfigValues,
) -> Seq<StrokeView> {
    let (left, right) = controls_deco(values);
    let row_bg = Shade::Custom(CustomColor::StatusbarControlsBg);
    let pill_bg = Shade::Custom(CustomColor::StatusbarControlsButtonBg);
    if rounded_controls(values) {
        let (body, glyph) = match lit(button, blink) {
            Some(light) => (light, pill_bg),
            None => (pill_bg, title_shade()),
        };
        let icon_x = capped_sum(button.start, text_width(left) as int);
        seq![
            text_at(button.start, row, left, colors(body, row_bg)),
            text_at(icon_x, row, button.icon, colors(glyph, body)),
            text_at(
                capped_sum(icon_x, text_width(button.icon) as int),
                row,
                right,
                colors(body, row_bg),
            ),
        ]
    } else {
        let (glyph, back) = match lit(button, blink) {
            Some(light) => (row_bg, light),
            None => (title_shade(), row_bg),
        };
        seq![text_at(button.start, row, left + button.icon + right, colors(glyph, back))]
    }
}

/// The strokes of the first `n` buttons.
pub open spec fn buttons_strokes(
    buttons: Seq<BtnView>,
    row: int,
    blink: Option<ControlButton>,
    values: ConfigValues,
    n: nat,
) -> Seq<StrokeView>
    decreases n,
{
    if n == 0 {
        Seq::empty()
    } else {
        buttons_strokes(buttons, row, blink, values, (n - 1) as nat) + button_strokes(
            buttons[n - 1],
            row,
            blink,
            values,
        )
    }
}

/// The strokes of the control buttons.
pub fn draw_controls(
    buttons: &[CtrlBtn],
    row: usize,
    blink: Option<ControlButton>,
    values: &ConfigValues,
) -> (frame: Frame)
    ensures
        frame@ == buttons_strokes(
            btn_views(buttons@),
            row as int,
            blink,
            *values,
            buttons@.len(),
        ),
{
    let rounded = is_rounded(values);
    let (left, right) = decorations(values);
    let row_bg = Shade::Custom(CustomColor::StatusbarControlsBg);
    let pill_bg = Shade::Custom(CustomColor::StatusbarControlsButtonBg);
    let normal = Shade::Palette(PaletteColor::TitlePrimary);
    let mut frame = Frame::new();
    let mut n: usize = 0;
    while n < buttons.len()
        invariant
            n <= buttons@.len(),
            rounded == rounded_controls(*values),
            (left@, right@) == controls_deco(*values),
            row_bg == Shade::Custom(CustomColor::StatusbarControlsBg),
            pill_bg == Shade::Custom(CustomColor::StatusbarControlsButtonBg),
            normal == title_shade(),
            frame@ == buttons_strokes(btn_views(buttons@), row as int, blink, *values, n as nat),
        decreases buttons@.len() - n,
    {
        let button = &buttons[n];
        assert(btn_views(buttons@)[n as int] == button@);
        let light: Option<Shade> = match button.kind {
            ControlButton::Shuffle | ControlButton::Repeat => if button.active {
                Some(normal)
            } else {
                None
            },
            _ => {
                let blinks = match blink {
                    Some(clicked) => clicked == button.kind,
                    None => false,
                };
                if blinks {
                    Some(Shade::Custom(CustomColor::StatusbarControlsActive))
                } else {
                    None
                }
            },
        };
        assert(light == lit(button@, blink));
        let ghost before = frame@;
        if rounded {
            let (body, glyph) = match light {
                Some(light) => (light, pill_bg),
                None => (pill_bg, normal),
            };
            let icon_x: usize = plus(button.start, width(left.as_str()));
            frame.print(button.start, row, left.as_str(), Style::new(body, row_bg));
            frame.print(icon_x, row, button.icon.as_str(), Style::new(glyph, body));
            let end_x: usize = plus(icon_x, width(button.icon.as_str()));
            frame.print(end_x, row, right.as_str(), Style::new(body, row_bg));
        } else {
            let (glyph, back) = match light {
                Some(light) => (row_bg, light),
                None => (normal, row_bg),
            };
            let mut text = concat(left.as_str(), button.icon.as_str());
            text.append(right.as_str());
            frame.print(button.start, row, text.as_str(), Style::new(glyph, back));
        }
        assert(frame@ =~= before + button_strokes(button@, row as int, blink, *values));
        n += 1;
    }
    frame
}

/// The button under a column of the controls row, if there is one.
pub open spec fn button_at(buttons: Seq<BtnView>, x: int) -> Option<ControlButton>
    decreases buttons.len(),
{
    if buttons.len() == 0 {
        None
    } else if buttons[0].start <= x < buttons[0].end {
        Some(buttons[0].kind)
    } else {
        button_at(buttons.skip(1), x)
    }
}

fn find_button(buttons: &[CtrlBtn], x: usize) -> (hit: Option<ControlButton>)
    ensures
        hit == button_at(btn_views(buttons@), x as int),
{
    let ghost all = btn_views(buttons@);
    let mut n: usize = 0;
    assert(all.skip(0) =~= all);
    while n < buttons.len()
        invariant
            n <= buttons@.len(),
            all == btn_views(buttons@),
            button_at(all.skip(n as int), x as int) == button_at(all, x as int),
        decreases buttons@.len() - n,
    {
        assert(all.skip(n as int)[0] == buttons@[n as int]@);
        if x >= buttons[n].start && x < buttons[n].end {
            return Some(buttons[n].kind);
        }
        assert(all.skip(n as int).skip(1) =~= all.skip(n + 1));
        n += 1;
    }
    assert(all.skip(n as int) =~= Seq::<BtnView>::empty());
    None
}

/// Buttons do not overlap, and stand from left to right.
pub proof fn lemma_buttons_do_not_overlap(
    player: PlayerState,
    state: UserState,
    values: ConfigValues,
    i: int,
    j: int,
)
    requires
        0 <= i < j < 5,
    ensures
        controls(player, state, values)[i].start <= controls(player, state, values)[i].end
            <= controls(player, state, values)[j].start,
    decreases j - i,
{
    let specs = control_specs(player, state, values);
    let cells = deco_cells(values);
    lemma_button_is_counted(specs, cells, i);
    lemma_button_is_counted(specs, cells, j - 1);
    if i < j - 1 {
        lemma_buttons_do_not_overlap(player, state, values, i, j - 1);
    }
}

proof fn lemma_button_is_counted(
    specs: Seq<(ControlButton, Seq<char>, bool)>,
    deco: int,
    i: int,
)
    requires
        0 <= i,
        0 <= deco,
    ensures
        0 <= button_start(specs, deco, i) <= button_end(specs, deco, i) <= usize::MAX,
        button_end(specs, deco, i) <= button_start(specs, deco, i + 1),
    decreases i,
{
    if i > 0 {
        lemma_button_is_counted(specs, deco, i - 1);
    }
}

// Shuffle and repeat

/// The next step of the shuffle button.
#[derive(Clone, Copy, Debug, PartialEq, Eq, Structural)]
pub struct ShufflePlan {
    pub shuffle: bool,
    /// Whether shuffle is smart.
    pub smart: bool,
    /// Whether the suggested tracks leave the queue, before anything else comes into it.
    pub remove_suggested: bool,
    /// Whether new recommendations are fetched into the queue.
    pub recommend: bool,
}

/// Off, then on, then smart, then off again. Recommendations belong to smart shuffle only, so each
/// step takes those that are there out of the queue.
pub open spec fn next_shuffle(shuffle: bool, smart: bool) -> ShufflePlan {
    let to_smart = shuffle && !smart;
    ShufflePlan {
        shuffle: !shuffle || to_smart,
        smart: to_smart,
        remove_suggested: true,
        recommend: to_smart,
    }
}

pub fn cycle_shuffle(state: &UserState) -> (plan: ShufflePlan)
    ensures
        plan == next_shuffle(state.shuffle, state.smart_shuffle_visual),
{
    let (shuffle, smart) = if !state.shuffle {
        (true, false)
    } else if !state.smart_shuffle_visual {
        (true, true)
    } else {
        (false, false)
    };
    ShufflePlan { shuffle, smart, remove_suggested: true, recommend: smart }
}

pub open spec fn next_repeat(repeat: RepeatSetting) -> RepeatSetting {
    match repeat {
        RepeatSetting::Off => RepeatSetting::RepeatPlaylist,
        RepeatSetting::RepeatPlaylist => RepeatSetting::RepeatTrack,
        RepeatSetting::RepeatTrack => RepeatSetting::Off,
    }
}

pub fn cycle_repeat(repeat: RepeatSetting) -> (next: RepeatSetting)
    ensures
        next == next_repeat(repeat),
{
    match repeat {
        RepeatSetting::Off => RepeatSetting::RepeatPlaylist,
        RepeatSetting::RepeatPlaylist => RepeatSetting::RepeatTrack,
        RepeatSetting::RepeatTrack => RepeatSetting::Off,
    }
}

/// Three clicks on the shuffle button or on the repeat button lead back to where they started,
/// and no fewer do.
pub proof fn lemma_three_clicks_come_round(shuffle: bool, smart: bool, repeat: RepeatSetting)
    requires
        smart ==> shuffle,
    ensures
        ({
            let first = next_shuffle(shuffle, smart);
            let second = next_shuffle(first.shuffle, first.smart);
            let third = next_shuffle(second.shuffle, second.smart);
            &&& (third.shuffle, third.smart) == (shuffle, smart)
            &&& (first.shuffle, first.smart) != (shuffle, smart)
            &&& (second.shuffle, second.smart) != (shuffle, smart)
        }),
        next_repeat(next_repeat(next_repeat(repeat))) == repeat,
        next_repeat(repeat) != repeat,
        next_repeat(next_repeat(repeat)) != repeat,
{
}

/// Whatever the state, a click on the shuffle button takes the suggested tracks out of the queue,
/// shuffle is on if it is smart, and new recommendations are fetched just if it is.
pub proof fn lemma_suggestions_belong_to_smart_shuffle(shuffle: bool, smart: bool)
    ensures
        ({
            let plan = next_shuffle(shuffle, smart);
            &&& plan.remove_suggested
            &&& plan.smart ==> plan.shuffle
            &&& plan.recommend == plan.smart
        }),
{
}

/// Tracks as they go into the queue when they come from recommendations.
pub fn suggestions(tracks: Vec<Track>) -> (suggested: Vec<Playable>)
    ensures
        suggested@ == tracks@.map_values(
            |track: Track| Playable::Track(Track { is_suggested: true, ..track }),
        ),
{
    let ghost all = tracks@;
    let ghost mark = |track: Track| Playable::Track(Track { is_suggested: true, ..track });
    let mut left = tracks;
    let mut reversed: Vec<Playable> = Vec::new();
    while left.len() > 0
        invariant
            left@ == all.take(left@.len() as int),
            left@.len() + reversed@.len() == all.len(),
            mark == (|track: Track| Playable::Track(Track { is_suggested: true, ..track })),
            forall|i: int|
                0 <= i < reversed@.len() ==> #[trigger] reversed@[i] == mark(
                    all[all.len() - 1 - i],
                ),
        decreases left@.len(),
    {
        if let Some(track) = left.pop() {
            let mut track = track;
            track.is_suggested = true;
            reversed.push(Playable::Track(track));
        }
        assert(left@ =~= all.take(left@.len() as int));
    }
    let mut suggested: Vec<Playable> = Vec::new();
    let ghost backwards = reversed@;
    while reversed.len() > 0
        invariant
            backwards.len() == all.len(),
            reversed@ == backwards.take(reversed@.len() as int),
            reversed@.len() + suggested@.len() == all.len(),
            forall|i: int|
                0 <= i < backwards.len() ==> #[trigger] backwards[i] == mark(
                    all[all.len() - 1 - i],
                ),
            forall|i: int| 0 <= i < suggested@.len() ==> #[trigger] suggested@[i] == mark(all[i]),
        decreases reversed@.len(),
    {
        let ghost n = reversed@.len() as int;
        if let Some(playable) = reversed.pop() {
            assert(playable == backwards[n - 1]);
            suggested.push(playable);
        }
        assert(reversed@ =~= backwards.take(reversed@.len() as int));
    }
    assert(suggested@ =~= all.map_values(mark));
    suggested
}

/// Whether the bar has to be redrawn for the animation of a suggested track, and how long to wait
/// before the next look, in milliseconds. Only a suggested track that is playing is animated.
pub fn animation_tick(status: PlayerStatus, suggested: bool) -> (tick: (bool, u64))
    ensures
        tick == if status == PlayerStatus::Playing && suggested {
            (true, SHIMMER_FRAME)
        } else {
            (false, SHIMMER_POLL)
        },
{
    let playing = match status {
        PlayerStatus::Playing => true,
        _ => false,
    };
    if playing && suggested {
        (true, SHIMMER_FRAME)
    } else {
        (false, SHIMMER_POLL)
    }
}

// Drawing

pub open spec fn border_style() -> Style {
    colors(title_shade(), Shade::Custom(CustomColor::StatusbarBg))
}

pub open spec fn controls_row_style() -> Style {
    colors(title_shade(), Shade::Custom(CustomColor::StatusbarControlsBg))
}

pub open spec fn filled_style() -> Style {
    colors(
        Shade::Custom(CustomColor::StatusbarProgress),
        Shade::Palette(PaletteColor::Background),
    )
}

pub open spec fn empty_style() -> Style {
    colors(
        Shade::Custom(CustomColor::StatusbarProgressBg),
        Shade::Palette(PaletteColor::Background),
    )
}

/// The title in the top border: what is playing, with a tag if it was recommended.
pub open spec fn bar_title(player: PlayerState, values: ConfigValues) -> Option<Seq<char>> {
    match player.current {
        Some(track) => Some(
            if track.is_suggested {
                suggested_tag(values) + track.formatted@
            } else {
                track.formatted@
            },
        ),
        None => None,
    }
}

/// The part of a title that is shown in a border of `inner` cells: all of it if it fits with a
/// blank on each side and two cells to spare, or else as many characters as there are cells but
/// four.
pub open spec fn shown_title(title: Seq<char>, inner: int) -> Seq<char> {
    if text_width(" "@ + title + " "@) + 2 <= inner {
        title
    } else {
        title.take(min(monus(inner, 4), title.len() as int))
    }
}

/// The cells of the border before the title.
pub open spec fn dashes_before(title: Seq<char>, inner: int) -> int {
    monus(inner, text_width(" "@ + shown_title(title, inner) + " "@) as int) / 2
}

pub open spec fn dashes(n: int) -> Seq<char> {
    Seq::new(n as nat, |i: int| '─')
}

/// The top border, with the title in its middle.
pub open spec fn top_border(title: Option<Seq<char>>, inner: int) -> Seq<char> {
    match title {
        Some(title) => {
            let text = " "@ + shown_title(title, inner) + " "@;
            let before = dashes_before(title, inner);
            let after = monus(monus(inner, text_width(text) as int), before);
            "╭"@ + dashes(before) + text + dashes(after) + "╮"@
        },
        None => edge("╭"@, "╮"@, inner),
    }
}

/// An empty row between the borders.
pub open spec fn padding_strokes(size_x: int, row: int) -> Seq<StrokeView> {
    seq![
        text_at(0, row, "│"@, border_style()),
        blank_at(1, row, monus(size_x, 2), border_style()),
        text_at(monus(size_x, 1), row, "│"@, border_style()),
    ]
}

/// The cells of the progress bar that are filled: one more than the share of the track that has
/// played, but no more than there are. Where the product does not fit 32 bits, as for a track
/// without a length, only the first is filled.
pub open spec fn filled_cells(player: PlayerState, bar_w: int) -> int {
    match player.current {
        Some(track) => {
            let elapsed = player.progress_ms as int % 0x1_0000_0000;
            let product = elapsed * (bar_w % 0x1_0000_0000);
            let played = if product <= u32::MAX && track.duration != 0 {
                product / track.duration as int
            } else {
                0
            };
            min(played + 1, bar_w)
        },
        None => 0,
    }
}

/// The stroke of cell `i` of a progress bar with caps, which are its first and its last cell.
pub open spec fn capped_cell(
    row: int,
    bar_w: int,
    filled: int,
    caps: (Seq<char>, Seq<char>),
    chars: (char, char),
    i: int,
) -> StrokeView {
    let end = i == 0 || i + 1 == bar_w;
    let glyph = if i == 0 {
        caps.0
    } else if i + 1 == bar_w {
        caps.1
    } else if i < filled {
        seq![chars.0]
    } else {
        seq![chars.1]
    };
    let style = if i < filled {
        filled_style()
    } else if end {
        Style { effect: Effect::Dim, ..empty_style() }
    } else {
        empty_style()
    };
    text_at(2 + i, row, glyph, style)
}

/// The strokes of a row of the progress bar.
pub open spec fn progress_row(
    player: PlayerState,
    size_x: int,
    row: int,
    values: ConfigValues,
) -> Seq<StrokeView> {
    let bar_w = monus(size_x, 4);
    let filled = filled_cells(player, bar_w);
    let chars = bar_chars(values);
    let frame = seq![
        text_at(0, row, "│"@, border_style()),
        text_at(1, row, " "@, border_style()),
        text_at(2 + bar_w, row, " "@, border_style()),
        text_at(monus(size_x, 1), row, "│"@, border_style()),
    ];
    let bar = match bar_caps(values) {
        Some(caps) => Seq::new(
            bar_w as nat,
            |i: int| capped_cell(row, bar_w, filled, caps, chars, i),
        ),
        None => {
            let empty = text_at(
                2,
                row,
                Seq::new(bar_w as nat, |i: int| chars.1),
                empty_style(),
            );
            if player.current is Some {
                seq![
                    empty,
                    text_at(
                        2,
                        row,
                        Seq::new(filled as nat, |i: int| chars.0),
                        filled_style(),
                    ),
                ]
            } else {
                seq![empty]
            }
        },
    };
    frame + bar
}

/// The strokes of the first `n` rows of the progress bar, which starts at row 2.
pub open spec fn progress_rows(
    player: PlayerState,
    size_x: int,
    values: ConfigValues,
    n: nat,
) -> Seq<StrokeView>
    decreases n,
{
    if n == 0 {
        Seq::empty()
    } else {
        progress_rows(player, size_x, values, (n - 1) as nat) + progress_row(
            player,
            size_x,
            n + 1int,
            values,
        )
    }
}

/// The strokes of the controls row.
pub open spec fn controls_row(
    player: PlayerState,
    state: UserState,
    blink: Option<ControlButton>,
    size_x: int,
    row: int,
    values: ConfigValues,
) -> Seq<StrokeView> {
    let right = right_text(player);
    (seq![
        text_at(0, row, "│"@, border_style()),
        text_at(monus(size_x, 1), row, "│"@, border_style()),
        blank_at(1, row, monus(size_x, 2), controls_row_style()),
    ] + buttons_strokes(controls(player, state, values), row, blink, values, 5)).push(
        text_at(
            monus(monus(size_x, 2), text_width(right) as int),
            row,
            right,
            controls_row_style(),
        ),
    )
}

/// What the bar paints: the top border, a blank row, the progress bar, a blank row, the controls,
/// a blank row and the bottom border. Without any columns it paints nothing.
pub open spec fn bar_frame(
    player: PlayerState,
    state: UserState,
    blink: Option<ControlButton>,
    size_x: int,
    values: ConfigValues,
) -> Seq<StrokeView> {
    let inner = monus(size_x, 2);
    let height = bar_rows(values);
    if size_x == 0 {
        Seq::empty()
    } else {
        (seq![text_at(0, 0, top_border(bar_title(player, values), inner), border_style())]
            + padding_strokes(size_x, 1) + progress_rows(player, size_x, values, height as nat)
            + padding_strokes(size_x, height + 2) + controls_row(
            player,
            state,
            blink,
            size_x,
            height + 3,
            values,
        ) + padding_strokes(size_x, height + 4)).push(
            text_at(0, height + 5, edge("╰"@, "╯"@, inner), border_style()),
        )
    }
}

fn title_of(player: &PlayerState, values: &ConfigValues) -> (title: Option<String>)
    ensures
        maybe_text(title) == bar_title(*player, *values),
{
    match &player.current {
        Some(track) => if track.is_suggested {
            let tag = match &values.statusbar {
                Some(bar) => option_or(&bar.suggested_tag, "[N] "),
                None => "[N] ".to_owned(),
            };
            Some(concat(tag.as_str(), track.formatted.as_str()))
        } else {
            Some(track.formatted.clone())
        },
        None => None,
    }
}

fn with_blanks(title: &str) -> (text: String)
    ensures
        text@ == " "@ + title@ + " "@,
{
    let mut text = concat(" ", title);
    text.append(" ");
    text
}

fn title_that_fits(title: &str, inner: usize) -> (shown: String)
    ensures
        shown@ == shown_title(title@, inner as int),
{
    let cells: usize = width(with_blanks(title).as_str());
    if inner >= 2 && cells <= inner - 2 {
        return title.to_owned();
    }
    let chars = chars_of(title);
    let n: usize = smaller(less(inner, 4), chars.len());
    assert(title@.take(n as int) =~= chars@.subrange(0, n as int));
    string_of(&chars.as_slice()[0..n])
}

fn draw_top_border(title: &Option<String>, inner: usize) -> (text: String)
    ensures
        text@ == top_border(maybe_text(*title), inner as int),
{
    match title {
        Some(title) => {
            let shown = title_that_fits(title.as_str(), inner);
            let text = with_blanks(shown.as_str());
            let cells: usize = width(text.as_str());
            let before: usize = less(inner, cells) / 2;
            let after: usize = less(less(inner, cells), before);
            let mut border = concat("╭", repeat('─', before).as_str());
            border.append(text.as_str());
            border.append(repeat('─', after).as_str());
            border.append("╮");
            assert(dashes(before as int) =~= Seq::new(before as nat, |i: int| '─'));
            assert(dashes(after as int) =~= Seq::new(after as nat, |i: int| '─'));
            border
        },
        None => edge_text("╭", "╮", inner),
    }
}

fn padding(size_x: usize, row: usize) -> (frame: Frame)
    ensures
        frame@ == padding_strokes(size_x as int, row as int),
{
    let style = Style::new(
        Shade::Palette(PaletteColor::TitlePrimary),
        Shade::Custom(CustomColor::StatusbarBg),
    );
    let mut frame = Frame::new();
    frame.print(0, row, "│", style);
    frame.blank(1, row, less(size_x, 2), style);
    frame.print(less(size_x, 1), row, "│", style);
    assert(frame@ =~= padding_strokes(size_x as int, row as int));
    frame
}

fn cells_filled(player: &PlayerState, bar_w: usize) -> (filled: usize)
    ensures
        filled == filled_cells(*player, bar_w as int),
{
    match &player.current {
        Some(track) => {
            let elapsed: u64 = (player.progress_ms % 0x1_0000_0000) as u64;
            let across: u64 = bar_w as u64 % 0x1_0000_0000;
            assert(elapsed * across <= 0xffff_ffff * 0xffff_ffff) by (nonlinear_arith)
                requires
                    0 <= elapsed <= 0xffff_ffff,
                    0 <= across <= 0xffff_ffff,
            ;
            let product: u64 = elapsed * across;
            let played: u64 = if product <= 0xffff_ffff && track.duration != 0 {
                product / track.duration as u64
            } else {
                0
            };
            proof {
                if product <= 0xffff_ffff && track.duration != 0 {
                    assert(played <= product) by (nonlinear_arith)
                        requires
                            played == product as int / track.duration as int,
                            track.duration >= 1,
                            product >= 0,
                    ;
                }
            }
            if (bar_w as u64) <= played {
                bar_w
            } else if bar_w as u64 == played + 1 {
                bar_w
            } else {
                played as usize + 1
            }
        },
        None => 0,
    }
}

fn one(c: char) -> (text: String)
    ensures
        text@ == seq![c],
{
    let mut text = String::new();
    text.push(c);
    assert(text@ =~= seq![c]);
    text
}

fn draw_progress_row(player: &PlayerState, size_x: usize, row: usize, values: &ConfigValues) -> (
    frame: Frame)
    ensures
        frame@ == progress_row(*player, size_x as int, row as int, *values),
{
    let style = Style::new(
        Shade::Palette(PaletteColor::TitlePrimary),
        Shade::Custom(CustomColor::StatusbarBg),
    );
    let filled_part = Style::new(
        Shade::Custom(CustomColor::StatusbarProgress),
        Shade::Palette(PaletteColor::Background),
    );
    let empty_part = Style::new(
        Shade::Custom(CustomColor::StatusbarProgressBg),
        Shade::Palette(PaletteColor::Background),
    );
    let bar_w: usize = less(size_x, 4);
    let filled: usize = cells_filled(player, bar_w);
    let chars = characters(values);
    let (filled_char, empty_char) = chars;
    let mut frame = Frame::new();
    frame.print(0, row, "│", style);
    frame.print(1, row, " ", style);
    frame.print(2 + bar_w, row, " ", style);
    frame.print(less(size_x, 1), row, "│", style);
    let ghost start = frame@;
    assert(start =~= seq![
        text_at(0, row as int, "│"@, border_style()),
        text_at(1, row as int, " "@, border_style()),
        text_at(2 + bar_w, row as int, " "@, border_style()),
        text_at(monus(size_x as int, 1), row as int, "│"@, border_style()),
    ]);
    match caps(values) {
        Some((left, right)) => {
            let ghost both = (left@, right@);
            let ghost bar = Seq::new(
                bar_w as nat,
                |i: int| capped_cell(row as int, bar_w as int, filled as int, both, chars, i),
            );
            let mut i: usize = 0;
            assert(start + bar.take(0) =~= start);
            while i < bar_w
                invariant
                    i <= bar_w,
                    bar_w == monus(size_x as int, 4),
                    both == (left@, right@),
                    chars == (filled_char, empty_char),
                    filled_part == filled_style(),
                    empty_part == empty_style(),
                    bar == Seq::new(
                        bar_w as nat,
                        |i: int|
                            capped_cell(
                                row as int,
                                bar_w as int,
                                filled as int,
                                both,
                                chars,
                                i,
                            ),
                    ),
                    frame@ == start + bar.take(i as int),
                decreases bar_w - i,
            {
                let is_filled = i < filled;
                let is_end = i == 0 || i == bar_w - 1;
                let part = if is_filled {
                    filled_part
                } else if is_end {
                    empty_part.with(Effect::Dim)
                } else {
                    empty_part
                };
                let glyph = if i == 0 {
                    left.clone()
                } else if i == bar_w - 1 {
                    right.clone()
                } else if is_filled {
                    one(filled_char)
                } else {
                    one(empty_char)
                };
                frame.print(2 + i, row, glyph.as_str(), part);
                assert(bar[i as int] == capped_cell(
                    row as int,
                    bar_w as int,
                    filled as int,
                    both,
                    chars,
                    i as int,
                ));
                assert(bar.take(i + 1) =~= bar.take(i as int).push(bar[i as int]));
                assert(frame@ =~= start + bar.take(i + 1));
                i += 1;
            }
            assert(bar.take(i as int) =~= bar);
            assert(frame@ =~= progress_row(*player, size_x as int, row as int, *values));
        },
        None => {
            let empty = repeat(empty_char, bar_w);
            frame.print(2, row, empty.as_str(), empty_part);
            assert(empty@ =~= Seq::new((bar_w as int) as nat, |i: int| chars.1));
            if player.current.is_some() {
                let full = repeat(filled_char, filled);
                frame.print(2, row, full.as_str(), filled_part);
                assert(full@ =~= Seq::new((filled as int) as nat, |i: int| chars.0));
            }
            assert(frame@ =~= progress_row(*player, size_x as int, row as int, *values));
        },
    }
    frame
}

fn draw_controls_row(
    player: &PlayerState,
    state: &UserState,
    blink: Option<ControlButton>,
    size_x: usize,
    row: usize,
    values: &ConfigValues,
) -> (frame: Frame)
    ensures
        frame@ == controls_row(*player, *state, blink, size_x as int, row as int, *values),
{
    let style = Style::new(
        Shade::Palette(PaletteColor::TitlePrimary),
        Shade::Custom(CustomColor::StatusbarBg),
    );
    let controls_style = Style::new(
        Shade::Palette(PaletteColor::TitlePrimary),
        Shade::Custom(CustomColor::StatusbarControlsBg),
    );
    let mut frame = Frame::new();
    frame.print(0, row, "│", style);
    frame.print(less(size_x, 1), row, "│", style);
    frame.blank(1, row, less(size_x, 2), controls_style);
    let ghost start = frame@;
    assert(start =~= seq![
        text_at(0, row as int, "│"@, border_style()),
        text_at(monus(size_x as int, 1), row as int, "│"@, border_style()),
        blank_at(1, row as int, monus(size_x as int, 2), controls_row_style()),
    ]);
    let buttons = controls_layout(player, state, values);
    assert(btn_views(buttons@).len() == buttons@.len());
    frame.append(draw_controls(buttons.as_slice(), row, blink, values));
    let right = right_str(player);
    frame.print(
        less(less(size_x, 2), width(right.as_str())),
        row,
        right.as_str(),
        controls_style,
    );
    frame
}

impl StatusBar {
    pub fn new() -> (bar: StatusBar)
        ensures
            bar.last_size == (Vec2 { x: 0, y: 0 }),
            bar.blink is None,
            bar.last_title is None,
    {
        StatusBar { last_size: Vec2::zero(), blink: None, last_title: None }
    }

    /// The terminal title, if it has changed and is not to be left alone. `formatted` is what is
    /// playing in the format of the title.
    pub fn update_terminal_title(&mut self, values: &ConfigValues, formatted: &Option<String>) -> (
        title: Option<String>)
        ensures
            ({
                let wanted = option_text(*formatted, "ncspot"@);
                let managed = option_text(values.title_format, "ncspot - %title"@).len() > 0;
                if managed && maybe_text(old(self).last_title) != Some(wanted) {
                    &&& maybe_text(title) == Some(wanted)
                    &&& maybe_text(final(self).last_title) == Some(wanted)
                } else {
                    &&& title is None
                    &&& final(self).last_title == old(self).last_title
                }
            }),
            final(self).last_size == old(self).last_size,
            final(self).blink == old(self).blink,
    {
        if title_format(values).is_none() {
            return None;
        }
        let title = option_or(formatted, "ncspot");
        let same = match &self.last_title {
            Some(last) => same_text(last.as_str(), title.as_str()),
            None => false,
        };
        if same {
            return None;
        }
        self.last_title = Some(title.clone());
        Some(title)
    }

    /// The button that was clicked so short a time ago that it still blinks.
    pub fn blinking(&self, since_click_ms: u128) -> (button: Option<ControlButton>)
        ensures
            button == if since_click_ms < BLINK {
                self.blink
            } else {
                None
            },
    {
        if since_click_ms < BLINK {
            self.blink
        } else {
            None
        }
    }

    /// The strokes that paint the bar.
    pub fn draw(
        player: &PlayerState,
        state: &UserState,
        blink: Option<ControlButton>,
        size: Vec2,
        values: &ConfigValues,
    ) -> (frame: Frame)
        ensures
            frame@ == bar_frame(*player, *state, blink, size.x as int, *values),
    {
        let mut frame = Frame::new();
        if size.x == 0 {
            return frame;
        }
        let style = Style::new(
            Shade::Palette(PaletteColor::TitlePrimary),
            Shade::Custom(CustomColor::StatusbarBg),
        );
        let inner: usize = less(size.x, 2);
        let height: usize = bar_height(values);
        let title = title_of(player, values);
        let top = draw_top_border(&title, inner);
        frame.print(0, 0, top.as_str(), style);
        assert(frame@ =~= seq![text_at(0, 0, top@, style)]);
        frame.append(padding(size.x, 1));
        let ghost start = frame@;
        let mut n: usize = 0;
        assert(frame@ =~= start + progress_rows(*player, size.x as int, *values, 0));
        while n < height
            invariant
                n <= height <= 255,
                frame@ == start + progress_rows(*player, size.x as int, *values, n as nat),
            decreases height - n,
        {
            let ghost before = progress_rows(*player, size.x as int, *values, n as nat);
            let ghost added = progress_row(*player, size.x as int, n + 2, *values);
            frame.append(draw_progress_row(player, size.x, n + 2, values));
            assert(frame@ =~= start + (before + added));
            n += 1;
        }
        frame.append(padding(size.x, height + 2));
        frame.append(draw_controls_row(player, state, blink, size.x, height + 3, values));
        frame.append(padding(size.x, height + 4));
        let bottom = edge_text("╰", "╯", inner);
        frame.print(0, height + 5, bottom.as_str(), style);
        frame
    }

    pub fn layout(&mut self, size: Vec2)
        ensures
            *final(self) == (StatusBar { last_size: size, ..*old(self) }),
    {
        self.last_size = size;
    }

    /// The rows of the bar: the borders, the progress bar, the controls, and three blank rows.
    pub fn required_size(constraint: Vec2, values: &ConfigValues) -> (size: Vec2)
        ensures
            size.x == constraint.x,
            size.y == bar_rows(*values) + 6,
    {
        Vec2 { x: constraint.x, y: bar_height(values) + 6 }
    }
}

/// A character of a title and the column at which it stands.
#[derive(Clone, Debug, PartialEq, Eq)]
pub struct Glyph {
    pub text: String,
    pub x: usize,
}

/// The characters of a text that starts at column `x`, each where it stands.
pub open spec fn are_glyphs(glyphs: Seq<Glyph>, text: Seq<char>, x: int) -> bool {
    &&& glyphs.len() == text.len()
    &&& forall|i: int|
        0 <= i < text.len() ==> (#[trigger] glyphs[i]).text@ == seq![text[i]] && glyphs[i].x
            == glyph_column(text, x, i)
}

/// The column at which character `i` of a text stands that starts at column `x`; control
/// characters take up one cell.
pub open spec fn glyph_column(text: Seq<char>, x: int, i: int) -> int
    decreases i,
{
    if i <= 0 {
        x
    } else {
        capped_sum(glyph_column(text, x, i - 1), cells_or(text[i - 1], 1) as int)
    }
}

/// Whether a shimmer runs over the title: a recommended track's title shimmers unless that is
/// switched off.
pub open spec fn shimmers(player: PlayerState, values: ConfigValues) -> bool {
    player.current is Some && player.current->0.is_suggested && shimmer_enabled(values)
}

/// The characters of the title over which a shimmer runs, each where it stands in the top border.
pub fn shimmer_glyphs(player: &PlayerState, size: Vec2, values: &ConfigValues) -> (glyphs: Vec<
    Glyph,
>)
    ensures
        ({
            let inner = monus(size.x as int, 2);
            let title = bar_title(*player, *values);
            if size.x > 0 && shimmers(*player, *values) {
                let shown = shown_title(title->0, inner);
                are_glyphs(glyphs@, shown, dashes_before(title->0, inner) + 2)
            } else {
                glyphs@.len() == 0
            }
        }),
{
    let mut glyphs: Vec<Glyph> = Vec::new();
    if size.x == 0 {
        return glyphs;
    }
    let enabled = match &values.statusbar {
        Some(bar) => match bar.suggested_shimmer {
            Some(enabled) => enabled,
            None => true,
        },
        None => true,
    };
    let suggested = match &player.current {
        Some(track) => track.is_suggested,
        None => false,
    };
    if !enabled || !suggested {
        return glyphs;
    }
    let title = match title_of(player, values) {
        Some(title) => title,
        None => return glyphs,
    };
    let inner: usize = less(size.x, 2);
    let shown = title_that_fits(title.as_str(), inner);
    let cells: usize = width(with_blanks(shown.as_str()).as_str());
    let start: usize = less(inner, cells) / 2 + 2;
    assert(start == dashes_before(title@, inner as int) + 2);
    place_glyphs(shown.as_str(), start)
}

fn place_glyphs(text: &str, start: usize) -> (glyphs: Vec<Glyph>)
    ensures
        are_glyphs(glyphs@, text@, start as int),
{
    let chars = chars_of(text);
    let mut glyphs: Vec<Glyph> = Vec::new();
    let mut x: usize = start;
    let mut i: usize = 0;
    while i < chars.len()
        invariant
            i <= chars@.len(),
            chars@ == text@,
            x == glyph_column(text@, start as int, i as int),
            glyphs@.len() == i,
            forall|j: int|
                0 <= j < i ==> (#[trigger] glyphs@[j]).text@ == seq![text@[j]] && glyphs@[j].x
                    == glyph_column(text@, start as int, j),
        decreases chars@.len() - i,
    {
        let c = chars[i];
        glyphs.push(Glyph { text: one(c), x });
        x = plus(x, char_cells(c, 1));
        i += 1;
    }
    glyphs
}

// Events

/// What follows from an event.
#[derive(Clone, Copy, Debug, PartialEq, Eq, Structural)]
pub enum BarAction {
    Ignore,
    Consume,
    SetVolume(u16),
    /// The track is played from the place that is the share `column` of `columns` of it.
    Seek { column: usize, columns: usize },
    Previous,
    Next,
    CycleShuffle,
    CycleRepeat,
    TogglePlayback,
}

/// The volume after a turn of the wheel.
pub open spec fn turned(volume: int, step: int, up: bool) -> int {
    if up {
        min(volume + step, 0xffff)
    } else {
        monus(volume, step)
    }
}

/// What a click at a cell of the bar comes to, and the button that blinks for it: on the progress
/// bar it seeks, on a button it does what the button is for, and anywhere else it toggles playback.
pub open spec fn click(
    x: int,
    y: int,
    player: PlayerState,
    state: UserState,
    columns: int,
    values: ConfigValues,
) -> (BarAction, Option<ControlButton>) {
    let height = bar_rows(values);
    if 2 <= y <= height + 1 {
        if player.current is Some {
            (
                BarAction::Seek {
                    column: monus(x, 2) as usize,
                    columns: max(monus(columns, 4), 1) as usize,
                },
                None,
            )
        } else {
            (BarAction::Consume, None)
        }
    } else if y == height + 3 {
        match button_at(controls(player, state, values), x) {
            Some(ControlButton::Prev) => (BarAction::Previous, Some(ControlButton::Prev)),
            Some(ControlButton::Next) => (BarAction::Next, Some(ControlButton::Next)),
            Some(ControlButton::Shuffle) => (BarAction::CycleShuffle, None),
            Some(ControlButton::Repeat) => (BarAction::CycleRepeat, None),
            Some(ControlButton::Play) => (BarAction::TogglePlayback, Some(ControlButton::Play)),
            None => (BarAction::TogglePlayback, None),
        }
    } else {
        (BarAction::TogglePlayback, None)
    }
}

impl StatusBar {
    /// Acts on an event; the wheel changes the volume by `step`. A mouse event has to be inside the
    /// bar.
    pub fn on_event(
        &mut self,
        event: Event,
        player: &PlayerState,
        state: &UserState,
        values: &ConfigValues,
        step: u16,
    ) -> (action: BarAction)
        requires
            event matches Event::Mouse { position, offset, .. } ==> position.x >= offset.x
                && position.y >= offset.y,
        ensures
            match event {
                Event::Mouse { event: MouseEvent::WheelUp, .. } => {
                    &&& action == BarAction::SetVolume(
                        turned(player.volume as int, step as int, true) as u16,
                    )
                    &&& *final(self) == *old(self)
                },
                Event::Mouse { event: MouseEvent::WheelDown, .. } => {
                    &&& action == BarAction::SetVolume(
                        turned(player.volume as int, step as int, false) as u16,
                    )
                    &&& *final(self) == *old(self)
                },
                Event::Mouse { event: MouseEvent::Press(MouseButton::Left), position, offset } => {
                    let clicked = click(
                        position.x - offset.x,
                        position.y - offset.y,
                        *player,
                        *state,
                        old(self).last_size.x as int,
                        *values,
                    );
                    &&& action == clicked.0
                    &&& *final(self) == (StatusBar {
                        blink: if clicked.1 is Some {
                            clicked.1
                        } else {
                            old(self).blink
                        },
                        ..*old(self)
                    })
                },
                Event::Mouse { .. } => {
                    &&& action == BarAction::Consume
                    &&& *final(self) == *old(self)
                },
                _ => {
                    &&& action == BarAction::Ignore
                    &&& *final(self) == *old(self)
                },
            },
    {
        match event {
            Event::Mouse { event: MouseEvent::WheelUp, .. } => {
                let volume: u32 = player.volume as u32 + step as u32;
                BarAction::SetVolume(
                    if volume > 0xffff {
                        0xffff
                    } else {
                        volume as u16
                    },
                )
            },
            Event::Mouse { event: MouseEvent::WheelDown, .. } => BarAction::SetVolume(
                if player.volume >= step {
                    player.volume - step
                } else {
                    0
                },
            ),
            Event::Mouse { event: MouseEvent::Press(MouseButton::Left), position, offset } => {
                let x: usize = position.x - offset.x;
                let y: usize = position.y - offset.y;
                let height: usize = bar_height(values);
                if y >= 2 && y <= height + 1 {
                    if player.current.is_some() {
                        return BarAction::Seek {
                            column: less(x, 2),
                            columns: larger(less(self.last_size.x, 4), 1),
                        };
                    }
                    return BarAction::Consume;
                }
                if y == height + 3 {
                    let buttons = controls_layout(player, state, values);
                    return match find_button(buttons.as_slice(), x) {
                        Some(ControlButton::Prev) => {
                            self.blink = Some(ControlButton::Prev);
                            BarAction::Previous
                        },
                        Some(ControlButton::Next) => {
                            self.blink = Some(ControlButton::Next);
                            BarAction::Next
                        },
                        Some(ControlButton::Shuffle) => BarAction::CycleShuffle,
                        Some(ControlButton::Repeat) => BarAction::CycleRepeat,
                        Some(ControlButton::Play) => {
                            self.blink = Some(ControlButton::Play);
                            BarAction::TogglePlayback
                        },
                        None => BarAction::TogglePlayback,
                    };
                }
                BarAction::TogglePlayback
            },
            Event::Mouse { .. } => BarAction::Consume,
            _ => BarAction::Ignore,
        }
    }
}

// What holds of the bar as a whole

/// The progress bar grows with the progress: from one cell at the start to all of them at the end
/// of the track, and it never falls behind as the track goes on.
pub proof fn lemma_progress_fills_the_bar(earlier: PlayerState, later: PlayerState, bar_w: int)
    requires
        0 <= bar_w <= u32::MAX,
        earlier.current == later.current,
        later.current is Some,
        later.current->0.duration > 0,
        earlier.progress_ms <= later.progress_ms <= u32::MAX,
        later.progress_ms * bar_w <= u32::MAX,
    ensures
        ({
            let duration = later.current->0.duration;
            &&& 0 <= filled_cells(earlier, bar_w) <= filled_cells(later, bar_w) <= bar_w
            &&& earlier.progress_ms == 0 ==> filled_cells(earlier, bar_w) == min(1, bar_w)
            &&& later.progress_ms >= duration ==> filled_cells(later, bar_w) == bar_w
        }),
{
    let d = later.current->0.duration as int;
    let a = earlier.progress_ms as int;
    let b = later.progress_ms as int;
    assert(0 <= a * bar_w <= b * bar_w) by (nonlinear_arith)
        requires
            0 <= a <= b,
            0 <= bar_w,
    ;
    assert(0 <= (a * bar_w) / d <= (b * bar_w) / d) by (nonlinear_arith)
        requires
            0 <= a * bar_w <= b * bar_w,
            d > 0,
    ;
    if a == 0 {
        assert(a * bar_w == 0) by (nonlinear_arith)
            requires
                a == 0,
        ;
        assert(0int / d == 0) by (nonlinear_arith)
            requires
                d > 0,
        ;
    }
    if b >= d {
        assert((b * bar_w) / d >= bar_w) by (nonlinear_arith)
            requires
                b >= d,
                d > 0,
                bar_w >= 0,
        ;
    }
}

/// The filled part of the progress bar is the share of the track that has played, to within a cell.
pub proof fn lemma_progress_is_a_share(player: PlayerState, bar_w: int)
    requires
        0 < bar_w <= u32::MAX,
        player.current is Some,
        0 < player.current->0.duration,
        player.progress_ms < player.current->0.duration,
        player.progress_ms * bar_w <= u32::MAX,
    ensures
        ({
            let duration = player.current->0.duration;
            let filled = filled_cells(player, bar_w);
            &&& 1 <= filled <= bar_w
            &&& (filled - 1) * duration <= player.progress_ms * bar_w < filled * duration
        }),
{
    let d = player.current->0.duration as int;
    let p = player.progress_ms as int;
    let product = p * bar_w;
    let q = product / d;
    assert(0 <= product < d * bar_w) by (nonlinear_arith)
        requires
            0 <= p < d,
            0 < bar_w,
            product == p * bar_w,
    ;
    assert(q * d <= product < (q + 1) * d && 0 <= q < bar_w) by (nonlinear_arith)
        requires
            q == product / d,
            d > 0,
            0 <= product < d * bar_w,
    ;
}

/// Without a track, and of a track without a length, no progress is shown beyond the first cell.
pub proof fn lemma_no_track_no_progress(player: PlayerState, bar_w: int)
    requires
        0 <= bar_w,
        player.current is None || player.current->0.duration == 0,
    ensures
        0 <= filled_cells(player, bar_w) <= 1,
        player.current is None ==> filled_cells(player, bar_w) == 0,
{
}

/// A cell of a progress bar with caps is painted as filled just if it is one of the filled ones.
/// The first and the last cell are the caps.
pub proof fn lemma_cells_before_the_progress_are_filled(
    row: int,
    bar_w: int,
    filled: int,
    caps: (Seq<char>, Seq<char>),
    chars: (char, char),
    i: int,
)
    requires
        0 <= i < bar_w,
    ensures
        ({
            let stroke = capped_cell(row, bar_w, filled, caps, chars, i);
            &&& stroke.x == 2 + i && stroke.y == row
            &&& i < filled <==> stroke.style == filled_style()
            &&& i == 0 ==> stroke.ink == InkView::Text(caps.0)
            &&& i == bar_w - 1 && i > 0 ==> stroke.ink == InkView::Text(caps.1)
            &&& 0 < i < bar_w - 1 ==> stroke.ink == InkView::Text(
                seq![if i < filled {
                    chars.0
                } else {
                    chars.1
                }],
            )
        }),
{
}

/// A progress bar without caps is painted over its whole width, and then over its filled cells.
pub proof fn lemma_plain_bar_shows_the_progress(
    player: PlayerState,
    size_x: int,
    row: int,
    values: ConfigValues,
)
    requires
        size_x >= 4,
        bar_caps(values) is None,
    ensures
        ({
            let strokes = progress_row(player, size_x, row, values);
            let (full, empty) = bar_chars(values);
            &&& full != empty
            &&& strokes[4].x == 2 && strokes[4].style == empty_style()
            &&& strokes[4].ink matches InkView::Text(cells) && cells.len() == size_x - 4 && (
            forall|i: int| 0 <= i < cells.len() ==> (#[trigger] cells[i]) == empty)
            &&& player.current is Some ==> strokes.len() == 6 && strokes[5].x == 2
                && strokes[5].style == filled_style()
            &&& player.current is Some ==> (strokes[5].ink matches InkView::Text(cells)
                && cells.len() == filled_cells(player, size_x - 4) && (forall|i: int|
                0 <= i < cells.len() ==> (#[trigger] cells[i]) == full))
            &&& player.current is None ==> strokes.len() == 5
        }),
{
    let filled = filled_cells(player, size_x - 4);
    if player.current is Some {
        let track = player.current->0;
        let product = (player.progress_ms as int % 0x1_0000_0000) * ((size_x - 4) % 0x1_0000_0000);
        assert(0 <= product) by (nonlinear_arith)
            requires
                product == (player.progress_ms as int % 0x1_0000_0000) * ((size_x - 4)
                    % 0x1_0000_0000),
        ;
        if track.duration != 0 {
            let d = track.duration as int;
            assert(0 <= product / d) by (nonlinear_arith)
                requires
                    0 <= product,
                    d > 0,
            ;
        }
        assert(filled >= 0);
    }
}

/// The strokes lie in rows of the bar, from `from` on and before `to`.
pub open spec fn in_rows(strokes: Seq<StrokeView>, from: int, to: int) -> bool {
    forall|i: int|
        0 <= i < strokes.len() ==> from <= (#[trigger] strokes[i]).y < to
}

proof fn lemma_in_rows_adds(a: Seq<StrokeView>, b: Seq<StrokeView>, from: int, to: int)
    requires
        in_rows(a, from, to),
        in_rows(b, from, to),
    ensures
        in_rows(a + b, from, to),
{
    assert forall|i: int| 0 <= i < (a + b).len() implies from <= (#[trigger] (a + b)[i]).y < to by {
        if i < a.len() {
            assert((a + b)[i] == a[i]);
        } else {
            assert((a + b)[i] == b[i - a.len()]);
        }
    }
}

/// The progress bar is painted in the rows in which a click seeks, and in no others.
pub proof fn lemma_progress_is_where_clicks_seek(
    player: PlayerState,
    state: UserState,
    size_x: int,
    values: ConfigValues,
    n: nat,
    x: int,
    y: int,
)
    requires
        player.current is Some,
        n == bar_rows(values),
    ensures
        in_rows(progress_rows(player, size_x, values, n), 2, n + 2int),
        click(x, y, player, state, size_x, values).0 is Seek <==> 2 <= y < n + 2,
{
    lemma_progress_rows_are_in_rows(player, size_x, values, n);
}

proof fn lemma_progress_rows_are_in_rows(
    player: PlayerState,
    size_x: int,
    values: ConfigValues,
    n: nat,
)
    ensures
        in_rows(progress_rows(player, size_x, values, n), 2, n + 2int),
    decreases n,
{
    if n > 0 {
        let before = progress_rows(player, size_x, values, (n - 1) as nat);
        let last = progress_row(player, size_x, n + 1int, values);
        lemma_progress_rows_are_in_rows(player, size_x, values, (n - 1) as nat);
        lemma_in_rows_adds(before, last, 2, n + 2int);
    }
}

/// A click on a cell of the progress bar seeks to the share of the track that the cell stands for:
/// the first cell is the start, and a cell further right is further into the track.
pub proof fn lemma_seek_goes_by_the_cell(
    i: int,
    y: int,
    player: PlayerState,
    state: UserState,
    columns: int,
    values: ConfigValues,
)
    requires
        player.current is Some,
        5 <= columns <= usize::MAX,
        0 <= i < columns - 4,
        2 <= y < bar_rows(values) + 2,
    ensures
        click(2 + i, y, player, state, columns, values) == (
            BarAction::Seek { column: i as usize, columns: (columns - 4) as usize },
            None::<ControlButton>,
        ),
{
}

/// The buttons stand in this order, each of them once.
pub proof fn lemma_buttons_are_in_order(
    player: PlayerState,
    state: UserState,
    values: ConfigValues,
)
    ensures
        ({
            let buttons = controls(player, state, values);
            &&& buttons.len() == 5
            &&& buttons[0].kind is Play
            &&& buttons[1].kind is Prev
            &&& buttons[2].kind is Next
            &&& buttons[3].kind is Shuffle
            &&& buttons[4].kind is Repeat
            &&& buttons[0].start == 2
            &&& forall|i: int|
                0 <= i < 5 ==> (#[trigger] buttons[i]).active == (i == 3 && state.shuffle || i == 4
                    && !(player.repeat is Off))
        }),
{
}

/// A click on the controls row hits the button that is painted at its column.
pub proof fn lemma_click_hits_the_button(
    player: PlayerState,
    state: UserState,
    values: ConfigValues,
    i: int,
    x: int,
)
    requires
        0 <= i < 5,
        controls(player, state, values)[i].start <= x < controls(player, state, values)[i].end,
    ensures
        button_at(controls(player, state, values), x) == Some(
            controls(player, state, values)[i].kind,
        ),
{
    let buttons = controls(player, state, values);
    assert forall|j: int| 0 <= j < i implies !((#[trigger] buttons[j]).start <= x < buttons[j].end) by {
        lemma_buttons_do_not_overlap(player, state, values, j, i);
    }
    lemma_first_button_is_hit(buttons, x, i);
}

proof fn lemma_first_button_is_hit(buttons: Seq<BtnView>, x: int, i: int)
    requires
        0 <= i < buttons.len(),
        buttons[i].start <= x < buttons[i].end,
        forall|j: int| 0 <= j < i ==> !((#[trigger] buttons[j]).start <= x < buttons[j].end),
    ensures
        button_at(buttons, x) == Some(buttons[i].kind),
    decreases i,
{
    if i > 0 {
        let rest = buttons.skip(1);
        assert(!(buttons[0].start <= x < buttons[0].end));
        assert forall|j: int| 0 <= j < i - 1 implies !((#[trigger] rest[j]).start <= x
            < rest[j].end) by {
            assert(rest[j] == buttons[j + 1]);
        }
        lemma_first_button_is_hit(rest, x, i - 1);
    }
}

/// Where no button is painted, none is hit.
pub proof fn lemma_click_beside_the_buttons(buttons: Seq<BtnView>, x: int)
    requires
        forall|j: int|
            0 <= j < buttons.len() ==> !((#[trigger] buttons[j]).start <= x < buttons[j].end),
    ensures
        button_at(buttons, x) is None,
    decreases buttons.len(),
{
    if buttons.len() > 0 {
        let rest = buttons.skip(1);
        assert(!(buttons[0].start <= x < buttons[0].end));
        assert forall|j: int| 0 <= j < rest.len() implies !((#[trigger] rest[j]).start <= x
            < rest[j].end) by {
            assert(rest[j] == buttons[j + 1]);
        }
        lemma_click_beside_the_buttons(rest, x);
    }
}

/// Each button does what it is for, and only the buttons that act at once blink. Beside the buttons
/// and the progress bar a click toggles playback.
pub proof fn lemma_buttons_do_what_they_are_for(
    x: int,
    y: int,
    player: PlayerState,
    state: UserState,
    columns: int,
    values: ConfigValues,
)
    ensures
        ({
            let row = bar_rows(values) + 3;
            let hit = button_at(controls(player, state, values), x);
            let (action, blink) = click(x, y, player, state, columns, values);
            &&& y == row && hit == Some(ControlButton::Prev) ==> action is Previous && blink == hit
            &&& y == row && hit == Some(ControlButton::Next) ==> action is Next && blink == hit
            &&& y == row && hit == Some(ControlButton::Play) ==> action is TogglePlayback && blink
                == hit
            &&& y == row && hit == Some(ControlButton::Shuffle) ==> action is CycleShuffle && blink
                is None
            &&& y == row && hit == Some(ControlButton::Repeat) ==> action is CycleRepeat && blink
                is None
            &&& y == row && hit is None ==> action is TogglePlayback && blink is None
            &&& y != row && !(2 <= y < row - 1) ==> action is TogglePlayback && blink is None
            &&& 2 <= y < row - 1 && player.current is None ==> action is Consume
        }),
{
}

/// The bar paints in the rows that it asks for, the controls in the row in which clicks are for
/// them.
pub proof fn lemma_bar_paints_in_its_rows(
    player: PlayerState,
    state: UserState,
    blink: Option<ControlButton>,
    size_x: int,
    values: ConfigValues,
    constraint: Vec2,
    size: Vec2,
)
    requires
        call_ensures(StatusBar::required_size, (constraint, &values), size),
    ensures
        in_rows(bar_frame(player, state, blink, size_x, values), 0, size.y as int),
        in_rows(
            controls_row(player, state, blink, size_x, bar_rows(values) + 3, values),
            bar_rows(values) + 3,
            bar_rows(values) + 4,
        ),
{
    let height = bar_rows(values);
    let rows = height + 6;
    let buttons = controls(player, state, values);
    lemma_buttons_are_in_rows(buttons, height + 3, blink, values, 5);
    let top = seq![text_at(0, 0, top_border(bar_title(player, values), monus(size_x, 2)), border_style())];
    let progress = progress_rows(player, size_x, values, height as nat);
    let row = controls_row(player, state, blink, size_x, height + 3, values);
    lemma_progress_rows_are_in_rows(player, size_x, values, height as nat);
    let painted = buttons_strokes(buttons, height + 3, blink, values, 5);
    let edges = seq![
        text_at(0, height + 3, "│"@, border_style()),
        text_at(monus(size_x, 1), height + 3, "│"@, border_style()),
        blank_at(1, height + 3, monus(size_x, 2), controls_row_style()),
    ];
    lemma_in_rows_adds(edges, painted, height + 3, height + 4);
    lemma_in_rows_adds(top, padding_strokes(size_x, 1), 0, rows);
    let a = top + padding_strokes(size_x, 1);
    lemma_in_rows_adds(a, progress, 0, rows);
    let b = a + progress;
    lemma_in_rows_adds(b, padding_strokes(size_x, height + 2), 0, rows);
    let c = b + padding_strokes(size_x, height + 2);
    lemma_in_rows_adds(c, row, 0, rows);
    let d = c + row;
    lemma_in_rows_adds(d, padding_strokes(size_x, height + 4), 0, rows);
}

proof fn lemma_buttons_are_in_rows(
    buttons: Seq<BtnView>,
    row: int,
    blink: Option<ControlButton>,
    values: ConfigValues,
    n: nat,
)
    requires
        n <= buttons.len(),
    ensures
        in_rows(buttons_strokes(buttons, row, blink, values, n), row, row + 1),
    decreases n,
{
    if n > 0 {
        lemma_buttons_are_in_rows(buttons, row, blink, values, (n - 1) as nat);
        lemma_in_rows_adds(
            buttons_strokes(buttons, row, blink, values, (n - 1) as nat),
            button_strokes(buttons[n - 1], row, blink, values),
            row,
            row + 1,
        );
    }
}

/// A button is painted from where it starts on, with its icon between its decorations.
pub proof fn lemma_button_is_painted_where_it_stands(
    button: BtnView,
    row: int,
    blink: Option<ControlButton>,
    values: ConfigValues,
)
    requires
        button.start <= usize::MAX,
    ensures
        ({
            let strokes = button_strokes(button, row, blink, values);
            let (left, right) = controls_deco(values);
            &&& strokes.len() > 0
            &&& strokes[0].x == button.start
            &&& rounded_controls(values) ==> strokes.len() == 3 && strokes[0].ink == InkView::Text(
                left,
            ) && strokes[1].ink == InkView::Text(button.icon) && strokes[2].ink == InkView::Text(
                right,
            ) && strokes[0].x <= strokes[1].x <= strokes[2].x
            &&& !rounded_controls(values) ==> strokes.len() == 1 && strokes[0].ink == InkView::Text(
                left + button.icon + right,
            )
        }),
{
}

/// Shuffle and repeat are lit up just while they are on; of the other buttons just the one that
/// blinks is.
pub proof fn lemma_what_is_lit_up(button: BtnView, blink: Option<ControlButton>)
    ensures
        button.kind is Shuffle || button.kind is Repeat ==> (lit(button, blink) is Some
            <==> button.active),
        !(button.kind is Shuffle || button.kind is Repeat) ==> (lit(button, blink) is Some
            <==> blink == Some(button.kind)),
        !(button.kind is Shuffle || button.kind is Repeat) && lit(button, blink) is Some ==> lit(
            button,
            blink,
        ) == Some(Shade::Custom(CustomColor::StatusbarControlsActive)),
{
}

/// What is lit up has its colors exchanged with what is behind it.
pub proof fn lemma_lit_buttons_are_inverted(
    button: BtnView,
    row: int,
    blink: Option<ControlButton>,
    values: ConfigValues,
)
    requires
        !rounded_controls(values),
    ensures
        ({
            let style = button_strokes(button, row, blink, values)[0].style;
            let bar = Shade::Custom(CustomColor::StatusbarControlsBg);
            &&& lit(button, blink) is Some ==> style.front == bar && Some(style.back) == lit(
                button,
                blink,
            )
            &&& lit(button, blink) is None ==> style.back == bar && style.front == title_shade()
        }),
{
}

/// The icon of the play button shows what the player does, or what a click would make it do where
/// that is configured.
pub proof fn lemma_play_icon_shows_the_status(values: ConfigValues, flipped: ConfigValues)
    requires
        values.flip_status_indicators != Some(true),
        flipped == (ConfigValues { flip_status_indicators: Some(true), ..values }),
    ensures
        playback_icon(PlayerStatus::Playing, values) == icon_text(values, IconKind::Playing),
        playback_icon(PlayerStatus::Paused, values) == icon_text(values, IconKind::Paused),
        playback_icon(PlayerStatus::Stopped, values) == icon_text(values, IconKind::Stopped),
        playback_icon(PlayerStatus::FinishedTrack, values) == icon_text(values, IconKind::Stopped),
        playback_icon(PlayerStatus::Playing, flipped) == icon_text(flipped, IconKind::Paused),
        playback_icon(PlayerStatus::Paused, flipped) == icon_text(flipped, IconKind::Playing),
        playback_icon(PlayerStatus::Stopped, flipped) == icon_text(flipped, IconKind::Playing),
        playback_icon(PlayerStatus::FinishedTrack, flipped) == icon_text(
            flipped,
            IconKind::Playing,
        ),
{
}

/// The icons of shuffle and repeat show what they are set to; a repeated track is marked with a 1.
pub proof fn lemma_icons_show_the_settings(state: UserState, repeat: RepeatSetting, values: ConfigValues)
    ensures
        shuffle_kind(state) is ShuffleOff <==> !state.shuffle,
        shuffle_kind(state) is SmartShuffle <==> state.shuffle && state.smart_shuffle_visual,
        shuffle_kind(state) is Shuffle <==> state.shuffle && !state.smart_shuffle_visual,
        repeat is Off ==> repeat_text(repeat, values) == icon_text(values, IconKind::RepeatOff),
        repeat is RepeatPlaylist ==> repeat_text(repeat, values) == icon_text(
            values,
            IconKind::Repeat,
        ),
        repeat is RepeatTrack ==> repeat_text(repeat, values).len() > 0 && repeat_text(
            repeat,
            values,
        ).last() == '1',
{
    reveal_strlit("1");
}

/// One click on the repeat button goes from off to the playlist, and from there to the track.
pub proof fn lemma_repeat_steps()
    ensures
        next_repeat(RepeatSetting::Off) is RepeatPlaylist,
        next_repeat(RepeatSetting::RepeatPlaylist) is RepeatTrack,
        next_repeat(RepeatSetting::RepeatTrack) is Off,
        next_shuffle(false, false).shuffle && !next_shuffle(false, false).smart,
        next_shuffle(true, false).shuffle && next_shuffle(true, false).smart,
        !next_shuffle(true, true).shuffle && !next_shuffle(true, true).smart,
{
}

/// The wheel raises or lowers the volume by the step, as far as there is room; a turn up and one
/// down undo each other where there is.
pub proof fn lemma_wheel_changes_the_volume(volume: int, step: int)
    requires
        0 <= volume <= 0xffff,
        0 <= step <= 0xffff,
    ensures
        volume <= turned(volume, step, true) <= 0xffff,
        0 <= turned(volume, step, false) <= volume,
        volume + step <= 0xffff ==> turned(volume, step, true) == volume + step && turned(
            turned(volume, step, true),
            step,
            false,
        ) == volume,
        volume >= step ==> turned(volume, step, false) == volume - step && turned(
            turned(volume, step, false),
            step,
            true,
        ) == volume,
        volume + step > 0xffff ==> turned(volume, step, true) == 0xffff,
        volume < step ==> turned(volume, step, false) == 0,
{
}

/// A title that fits is shown as it is; of another as much as leaves four cells of the border.
pub proof fn lemma_title_is_cut_to_the_border(title: Seq<char>, inner: int)
    requires
        0 <= inner,
    ensures
        shown_title(title, inner).is_prefix_of(title),
        text_width(" "@ + title + " "@) + 2 <= inner ==> shown_title(title, inner) == title,
        text_width(" "@ + title + " "@) + 2 > inner ==> shown_title(title, inner).len() <= monus(
            inner,
            4,
        ),
        shown_title(title, inner).len() == title.len() || shown_title(title, inner).len() == monus(
            inner,
            4,
        ),
{
    assert(title.is_prefix_of(title)) by {
        assert(title =~= title.take(title.len() as int));
    }
    let n = min(monus(inner, 4), title.len() as int);
    assert(title.take(n) =~= title.take(title.take(n).len() as int));
}

/// The title stands in the middle of the border: the dashes before and behind it differ by one at
/// most, and together with it they fill the border.
pub proof fn lemma_title_is_centred(title: Seq<char>, inner: int)
    requires
        text_width(" "@ + shown_title(title, inner) + " "@) <= inner,
    ensures
        ({
            let cells = text_width(" "@ + shown_title(title, inner) + " "@) as int;
            let before = dashes_before(title, inner);
            let after = inner - cells - before;
            &&& 0 <= before <= after <= before + 1
            &&& top_border(Some(title), inner) == "╭"@ + dashes(before) + (" "@ + shown_title(
                title,
                inner,
            ) + " "@) + dashes(after) + "╮"@
        }),
{
}

/// The bar names what is playing, with the tag before it just if it was recommended.
pub proof fn lemma_title_names_the_track(player: PlayerState, values: ConfigValues)
    ensures
        bar_title(player, values) is Some <==> player.current is Some,
        player.current is Some && !player.current->0.is_suggested ==> bar_title(player, values)
            == Some(player.current->0.formatted@),
        player.current is Some && player.current->0.is_suggested ==> bar_title(player, values)
            == Some(suggested_tag(values) + player.current->0.formatted@),
{
}

/// Only a recommended track that is playing is animated, and it is looked at more often then.
pub proof fn lemma_only_suggestions_are_animated(
    status: PlayerStatus,
    suggested: bool,
    tick: (bool, u64),
    idle: (bool, u64),
)
    requires
        call_ensures(animation_tick, (status, suggested), tick),
        call_ensures(animation_tick, (PlayerStatus::Stopped, suggested), idle),
    ensures
        tick.0 <==> status is Playing && suggested,
        !idle.0,
        tick.0 ==> 0 < tick.1 < idle.1,
        !tick.0 ==> tick.1 == idle.1,
{
}

/// The time is shown before the length, and both before the volume, which is a whole percentage.
pub proof fn lemma_right_text_shows_time_and_volume(player: PlayerState)
    ensures
        right_text(player).len() > 0,
        right_text(player).last() == '%',
        player.current matches Some(track) ==> exists|before: Seq<char>, after: Seq<char>|
            right_text(player) == #[trigger] (before + track.elapsed_text@ + " / "@
                + track.duration_text@ + after),
{
    reveal_strlit("%");
    let volume = decimal(percent(player.volume as int) as nat) + "%"@;
    assert(volume.last() == '%');
    if player.current is Some {
        let track = player.current->0;
        let after = " | 󰖀  "@ + volume;
        assert(right_text(player) =~= "󰔚 "@ + track.elapsed_text@ + " / "@ + track.duration_text@
            + after);
    }
}

/// The buttons keep apart: by two cells, and the one back and the one forward by one cell.
pub proof fn lemma_buttons_keep_apart(
    player: PlayerState,
    state: UserState,
    values: ConfigValues,
    i: int,
)
    requires
        0 <= i < 4,
        controls(player, state, values)[i].end + 2 <= usize::MAX,
    ensures
        ({
            let buttons = controls(player, state, values);
            let between = buttons[i + 1].start - buttons[i].end;
            &&& buttons[i].kind is Prev ==> between == 1
            &&& !(buttons[i].kind is Prev) ==> between == 2
        }),
{
}

/// A button is as wide as its icon and its decorations.
pub proof fn lemma_buttons_hold_their_icons(
    player: PlayerState,
    state: UserState,
    values: ConfigValues,
    i: int,
)
    requires
        0 <= i < 5,
        controls(player, state, values)[i].end < usize::MAX,
    ensures
        ({
            let button = controls(player, state, values)[i];
            let deco = controls_deco(values);
            button.end - button.start == text_width(deco.0) + text_width(button.icon) + text_width(
                deco.1,
            )
        }),
{
    let specs = control_specs(player, state, values);
    let cells = deco_cells(values);
    lemma_buttons_start_on_the_bar(specs, cells, i);
    assert(controls(player, state, values)[i].end == button_end(specs, cells, i));
    assert(controls(player, state, values)[i].start == button_start(specs, cells, i));
}

proof fn lemma_buttons_start_on_the_bar(
    specs: Seq<(ControlButton, Seq<char>, bool)>,
    cells: int,
    i: int,
)
    requires
        cells >= 0,
    ensures
        button_start(specs, cells, i) >= 0,
    decreases i,
{
    if i > 0 {
        lemma_buttons_start_on_the_bar(specs, cells, i - 1);
    }
}

/// What the user sets for the bar is used; where nothing is set, the defaults are, as for a bar for
/// which nothing is set at all.
pub proof fn lemma_bar_options_are_used(values: ConfigValues, bar: StatusbarConfig)
    requires
        values.statusbar == Some(bar),
    ensures
        bar.style matches Some(style) ==> bar_style(values) == style@,
        bar.style is None ==> bar_style(values) == bar_style(
            ConfigValues { statusbar: None, ..values },
        ),
        bar.suggested_tag matches Some(tag) ==> suggested_tag(values) == tag@,
        bar.suggested_tag is None ==> suggested_tag(values) == suggested_tag(
            ConfigValues { statusbar: None, ..values },
        ),
        bar.controls_style matches Some(style) ==> (rounded_controls(values) <==> style@
            == "rounded"@),
        bar_caps(values) is Some <==> bar_style(values) == "rounded"@,
        bar_caps(values) matches Some(caps) ==> bar.progress_cap_left matches Some(left)
            ==> caps.0 == left@,
        bar_caps(values) matches Some(caps) ==> bar.progress_cap_right matches Some(right)
            ==> caps.1 == right@,
        bar.controls_cap_left matches Some(left) ==> rounded_controls(values) ==> controls_deco(
            values,
        ).0 == left@,
        bar.controls_cap_right matches Some(right) ==> rounded_controls(values) ==> controls_deco(
            values,
        ).1 == right@,
        bar.button_open matches Some(left) ==> !rounded_controls(values) ==> controls_deco(values).0
            == left@,
        bar.button_close matches Some(right) ==> !rounded_controls(values) ==> controls_deco(
            values,
        ).1 == right@,
{
}

/// The thin style has characters of its own, and the filled part never looks like the empty one.
pub proof fn lemma_bar_characters_tell_apart(values: ConfigValues, other: ConfigValues)
    ensures
        bar_chars(values).0 != bar_chars(values).1,
        bar_style(values) == "thin"@ && bar_style(other) != "thin"@ ==> bar_chars(values).0
            != bar_chars(other).0 && bar_chars(values).1 != bar_chars(other).1,
        bar_style(values) != "thin"@ && bar_style(other) != "thin"@ ==> bar_chars(values)
            == bar_chars(other),
        bar_style(values) == "thin"@ ==> bar_chars(values).0 == '━',
        bar_style(values) != "thin"@ ==> bar_chars(values).0 == '█',
{
}

/// Only the title of a recommended track shimmers, and it does unless that is switched off.
pub proof fn lemma_only_recommended_titles_shimmer(
    player: PlayerState,
    values: ConfigValues,
    bar: StatusbarConfig,
)
    ensures
        shimmers(player, values) ==> player.current is Some && player.current->0.is_suggested,
        values.statusbar is None && player.current is Some && player.current->0.is_suggested
            ==> shimmers(player, values),
        values.statusbar == Some(bar) && bar.suggested_shimmer == Some(false) ==> !shimmers(
            player,
            values,
        ),
        values.statusbar == Some(bar) && bar.suggested_shimmer != Some(false) && player.current
            is Some && player.current->0.is_suggested ==> shimmers(player, values),
{
}

/// Each character of a title stands behind the cells of the one before it, the first where the
/// title starts.
pub proof fn lemma_characters_stand_side_by_side(
    glyphs: Seq<Glyph>,
    text: Seq<char>,
    x: int,
    i: int,
)
    requires
        are_glyphs(glyphs, text, x),
        0 <= i < text.len(),
        glyphs[i].x < usize::MAX,
    ensures
        glyphs.len() == text.len(),
        glyphs[i].text@ == seq![text[i]],
        i == 0 ==> glyphs[i].x == x,
        i > 0 ==> glyphs[i].x == glyphs[i - 1].x + cells_or(text[i - 1], 1),
{
    if i > 0 {
        assert(glyphs[i - 1].x == glyph_column(text, x, i - 1));
    }
}

/// The bar has the title in its first row and its bottom border in its last. Without any columns
/// nothing is painted.
pub proof fn lemma_bar_is_framed(
    player: PlayerState,
    state: UserState,
    blink: Option<ControlButton>,
    size_x: int,
    values: ConfigValues,
)
    requires
        0 <= size_x,
    ensures
        ({
            let strokes = bar_frame(player, state, blink, size_x, values);
            &&& size_x == 0 ==> strokes.len() == 0
            &&& size_x > 0 ==> {
                &&& strokes.len() > 2
                &&& strokes[0].x == 0 && strokes[0].y == 0
                &&& strokes[0].ink == InkView::Text(
                    top_border(bar_title(player, values), monus(size_x, 2)),
                )
                &&& strokes.last().x == 0 && strokes.last().y == bar_rows(values) + 5
                &&& strokes.last().ink == InkView::Text(edge("╰"@, "╯"@, monus(size_x, 2)))
            }
        }),
{
}

/// An end of a progress bar with caps that is not filled is dimmed; the cells between the ends never
/// are.
pub proof fn lemma_empty_ends_are_dimmed(
    row: int,
    bar_w: int,
    filled: int,
    caps: (Seq<char>, Seq<char>),
    chars: (char, char),
    i: int,
)
    requires
        0 <= i < bar_w,
        filled <= i,
    ensures
        ({
            let style = capped_cell(row, bar_w, filled, caps, chars, i).style;
            &&& i == 0 || i == bar_w - 1 ==> style == Style { effect: Effect::Dim, ..empty_style() }
            &&& 0 < i < bar_w - 1 ==> style == empty_style()
        }),
{
}

} // verus!
