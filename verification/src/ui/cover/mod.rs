//! The cover of what is playing.

pub mod sixel;
pub mod ueberzug;

use vstd::prelude::*;

use super::paint::{blank_at, colors, Frame, PaletteColor, Shade, StrokeView, Style};
use crate::command::{Command, GotoMode};
use crate::geometry::Vec2;
use crate::text::{maybe_text, same_text};

verus! {

/// What is known of the terminal.
#[derive(Clone, Copy, Debug, Default, PartialEq, Eq, Structural)]
pub struct Capabilities {
    /// Whether the terminal reported sixel support, once it was probed.
    pub sixel: Option<bool>,
}

/// Takes over what a probe of the terminal found. The first probe counts.
pub fn detect_terminal_capabilities(capabilities: &mut Capabilities, supported: bool)
    ensures
        final(capabilities).sixel == match old(capabilities).sixel {
            Some(known) => Some(known),
            None => Some(supported),
        },
{
    if capabilities.sixel.is_none() {
        capabilities.sixel = Some(supported);
    }
}

/// Whether the terminal reported sixel support (false before probing).
pub fn sixel_supported(capabilities: &Capabilities) -> (supported: bool)
    ensures
        supported == (capabilities.sixel == Some(true)),
{
    match capabilities.sixel {
        Some(supported) => supported,
        None => false,
    }
}

/// The size of a terminal cell in pixels, from the size of the terminal in cells and in pixels.
/// Where the terminal doesn't report its size, a common cell size.
pub fn cell_size_px(rows: u16, cols: u16, xpixels: u16, ypixels: u16) -> (size: Vec2)
    ensures
        rows > 0 && cols > 0 && xpixels > 0 && ypixels > 0 ==> size.x == xpixels as int
            / cols as int && size.y == ypixels as int / rows as int,
        rows == 0 || cols == 0 || xpixels == 0 || ypixels == 0 ==> size.x == 8 && size.y == 16,
{
    if cols > 0 && rows > 0 && xpixels > 0 && ypixels > 0 {
        Vec2 { x: (xpixels / cols) as usize, y: (ypixels / rows) as usize }
    } else {
        Vec2 { x: 8, y: 16 }
    }
}

/// The view of the cover.
pub struct CoverView {
    pub last_size: Vec2,
    pub last_offset: Vec2,
    /// The address of the cover that is on the terminal, if one is.
    pub drawn_url: Option<String>,
    /// True when the image was emitted on the first frame after a change and a second frame is
    /// pending to let the cells of the screen settle.
    pub draw_pending: bool,
    /// When true, nothing is emitted (e.g. while a dropdown is shown). A fresh emission follows.
    pub paused: bool,
}

/// The state of a [`CoverView`].
pub ghost struct CoverModel {
    pub size: Vec2,
    pub offset: Vec2,
    pub url: Option<Seq<char>>,
    pub pending: bool,
    pub paused: bool,
}

/// What has to be done on the terminal to show what is playing.
#[derive(Clone, Copy, Debug, PartialEq, Eq, Structural)]
pub enum CoverStep {
    Nothing,
    /// Emit the cover, and call [`CoverView::emitted`].
    Emit,
    /// Blank out the cells that the last cover took up.
    Erase { offset: Vec2, size: Vec2 },
}

impl CoverModel {
    /// Whether a cover at a place is not the one that was emitted last.
    pub open spec fn differs(self, url: Seq<char>, offset: Vec2, size: Vec2) -> bool {
        self.size != size || self.offset != offset || self.url != Some(url)
    }

    /// What is done to show a cover, and the state from there on.
    pub open spec fn begin(self, url: Seq<char>, offset: Vec2, size: Vec2) -> (
        CoverModel,
        CoverStep,
    ) {
        if size.x <= 1 || size.y <= 1 {
            (self, CoverStep::Nothing)
        } else if self.paused {
            (CoverModel { url: None, ..self }, CoverStep::Nothing)
        } else if self.differs(url, offset, size) {
            (CoverModel { pending: false, ..self }, CoverStep::Emit)
        } else if self.pending {
            (self, CoverStep::Emit)
        } else {
            (self, CoverStep::Nothing)
        }
    }

    /// The state after a cover was emitted.
    pub open spec fn emit(self, url: Seq<char>, offset: Vec2, size: Vec2) -> CoverModel {
        CoverModel { size, offset, url: Some(url), pending: !self.pending, ..self }
    }

    /// What is done when there is no cover, and the state from there on.
    pub open spec fn clear(self) -> (CoverModel, CoverStep) {
        if self.url is None {
            (self, CoverStep::Nothing)
        } else {
            (
                CoverModel { url: None, pending: false, ..self },
                CoverStep::Erase { offset: self.offset, size: self.size },
            )
        }
    }
}

impl View for CoverView {
    type V = CoverModel;

    open spec fn view(&self) -> CoverModel {
        CoverModel {
            size: self.last_size,
            offset: self.last_offset,
            url: maybe_text(self.drawn_url),
            pending: self.draw_pending,
            paused: self.paused,
        }
    }
}

/// The style of the cells behind the cover.
pub open spec fn backdrop_style() -> Style {
    colors(Shade::Palette(PaletteColor::Background), Shade::Palette(PaletteColor::Background))
}

/// The strokes that blank out the first `n` rows.
pub open spec fn backdrop(columns: int, n: nat) -> Seq<StrokeView>
    decreases n,
{
    if n == 0 {
        Seq::empty()
    } else {
        backdrop(columns, (n - 1) as nat).push(blank_at(0, n - 1, columns, backdrop_style()))
    }
}

/// What the commands read of what is playing.
#[derive(Clone, Debug)]
pub struct CoverItem {
    pub share_url: Option<String>,
    /// Whether there is an album that can be opened.
    pub has_album: bool,
    /// How many artists there are, if it is of a kind that has artists.
    pub artists: Option<usize>,
}

/// What a command leads to. All but the last three leave the command to others as well.
#[derive(Clone, Debug, PartialEq, Eq)]
pub enum CoverAction {
    Nothing,
    /// Save what is playing to the library.
    Save,
    /// Remove what is playing from the library.
    Delete,
    /// The command is taken; this address, if any, goes to the clipboard.
    Share(Option<String>),
    /// The command is taken: open the album, or the first artist.
    Open(GotoMode),
    /// The command is taken; there is nothing to do.
    Consumed,
}

/// What a command leads to.
pub open spec fn cover_action(command: Command, current: Option<CoverItem>) -> CoverAction {
    match command {
        Command::Save => if current is Some {
            CoverAction::Save
        } else {
            CoverAction::Nothing
        },
        Command::Delete => if current is Some {
            CoverAction::Delete
        } else {
            CoverAction::Nothing
        },
        Command::Share(_) => CoverAction::Share(
            match current {
                Some(item) => item.share_url,
                None => None,
            },
        ),
        Command::Goto(mode) => match current {
            Some(item) => match mode {
                GotoMode::Album => if item.has_album {
                    CoverAction::Open(mode)
                } else {
                    CoverAction::Nothing
                },
                GotoMode::Artist => match item.artists {
                    Some(0) => CoverAction::Consumed,
                    Some(_) => CoverAction::Open(mode),
                    None => CoverAction::Nothing,
                },
            },
            None => CoverAction::Nothing,
        },
        _ => CoverAction::Nothing,
    }
}

impl CoverView {
    pub fn new() -> (view: CoverView)
        ensures
            view@ == (CoverModel {
                size: Vec2 { x: 0, y: 0 },
                offset: Vec2 { x: 0, y: 0 },
                url: None,
                pending: false,
                paused: false,
            }),
    {
        CoverView {
            last_size: Vec2 { x: 0, y: 0 },
            last_offset: Vec2 { x: 0, y: 0 },
            drawn_url: None,
            draw_pending: false,
            paused: false,
        }
    }

    /// Set to `true` to suppress emission (e.g. while a dropdown is shown) and back to `false` to
    /// resume; a fresh emission follows on the next draw.
    pub fn pause(&mut self, paused: bool)
        ensures
            final(self)@ == (CoverModel { paused, ..old(self)@ }),
    {
        self.paused = paused;
    }

    fn begin(&mut self, url: &str, offset: Vec2, size: Vec2) -> (step: CoverStep)
        ensures
            (final(self)@, step) == old(self)@.begin(url@, offset, size),
    {
        if size.x <= 1 || size.y <= 1 {
            return CoverStep::Nothing;
        }
        if self.paused {
            self.drawn_url = None;
            return CoverStep::Nothing;
        }
        let same_url = match &self.drawn_url {
            Some(drawn) => same_text(drawn.as_str(), url),
            None => false,
        };
        if self.last_size != size || self.last_offset != offset || !same_url {
            self.draw_pending = false;
            CoverStep::Emit
        } else if self.draw_pending {
            CoverStep::Emit
        } else {
            CoverStep::Nothing
        }
    }

    /// Takes down the cover that is on the terminal, if one is. This happens where nothing with a
    /// cover is playing, and when the view is left.
    pub fn clear_cover(&mut self) -> (step: CoverStep)
        ensures
            (final(self)@, step) == old(self)@.clear(),
    {
        if self.drawn_url.is_none() {
            return CoverStep::Nothing;
        }
        self.drawn_url = None;
        self.draw_pending = false;
        CoverStep::Erase { offset: self.last_offset, size: self.last_size }
    }

    /// What the cover that was emitted leaves behind. Tells whether another frame is needed.
    ///
    /// The cells of the first frame may arrive after the image and overwrite it, so it is emitted
    /// once more on a second frame, where it sticks.
    pub fn emitted(&mut self, url: &str, offset: Vec2, size: Vec2) -> (again: bool)
        ensures
            final(self)@ == old(self)@.emit(url@, offset, size),
            again == final(self)@.pending,
    {
        self.last_size = size;
        self.last_offset = offset;
        self.drawn_url = Some(url.to_owned());
        self.draw_pending = !self.draw_pending;
        self.draw_pending
    }

    /// Blanks out the area of the cover, and tells what has to be done on the terminal.
    pub fn draw(&mut self, url: Option<&str>, offset: Vec2, size: Vec2) -> (result: (
        Frame,
        CoverStep,
    ))
        ensures
            result.0@ == backdrop(size.x as int, size.y as nat),
            (final(self)@, result.1) == match url {
                Some(url) => old(self)@.begin(url@, offset, size),
                None => old(self)@.clear(),
            },
    {
        let mut frame = Frame::new();
        let style = Style::new(
            Shade::Palette(PaletteColor::Background),
            Shade::Palette(PaletteColor::Background),
        );
        let mut row: usize = 0;
        while row < size.y
            invariant
                row <= size.y,
                style == backdrop_style(),
                frame@ == backdrop(size.x as int, row as nat),
            decreases size.y - row,
        {
            frame.blank(0, row, size.x, style);
            row += 1;
        }
        let step = match url {
            Some(url) => self.begin(url, offset, size),
            None => self.clear_cover(),
        };
        (frame, step)
    }

    pub fn required_size(&self, constraint: Vec2) -> (size: Vec2)
        ensures
            size.x == constraint.x,
            size.y == 2,
    {
        Vec2 { x: constraint.x, y: 2 }
    }

    pub fn on_command(&self, command: &Command, current: &Option<CoverItem>) -> (action: CoverAction)
        ensures
            match (action, cover_action(*command, *current)) {
                (CoverAction::Share(url), CoverAction::Share(expected)) => maybe_text(url)
                    == maybe_text(expected),
                (action, expected) => action == expected,
            },
    {
        match command {
            Command::Save => if current.is_some() {
                CoverAction::Save
            } else {
                CoverAction::Nothing
            },
            Command::Delete => if current.is_some() {
                CoverAction::Delete
            } else {
                CoverAction::Nothing
            },
            Command::Share(_) => {
                let url = match current {
                    Some(item) => match &item.share_url {
                        Some(url) => Some(url.clone()),
                        None => None,
                    },
                    None => None,
                };
                CoverAction::Share(url)
            },
            Command::Goto(mode) => match current {
                Some(item) => match mode {
                    GotoMode::Album => if item.has_album {
                        CoverAction::Open(GotoMode::Album)
                    } else {
                        CoverAction::Nothing
                    },
                    GotoMode::Artist => match item.artists {
                        Some(0) => CoverAction::Consumed,
                        Some(_) => CoverAction::Open(GotoMode::Artist),
                        None => CoverAction::Nothing,
                    },
                },
                None => CoverAction::Nothing,
            },
            _ => CoverAction::Nothing,
        }
    }
}

/// A cover that stays the same is emitted on two frames and then left alone.
pub proof fn lemma_cover_settles(state: CoverModel, url: Seq<char>, offset: Vec2, size: Vec2)
    requires
        size.x > 1,
        size.y > 1,
        !state.paused,
        state.differs(url, offset, size),
    ensures
        ({
            let first = state.begin(url, offset, size);
            let second = first.0.emit(url, offset, size).begin(url, offset, size);
            let third = second.0.emit(url, offset, size).begin(url, offset, size);
            &&& first.1 == CoverStep::Emit
            &&& second.1 == CoverStep::Emit
            &&& third.1 == CoverStep::Nothing
            &&& third.0 == second.0.emit(url, offset, size)
        }),
{
}

/// While emission is paused nothing is emitted. After it has resumed, the cover that was on the
/// terminal before is emitted anew.
pub proof fn lemma_resuming_emits_anew(state: CoverModel, url: Seq<char>, offset: Vec2, size: Vec2)
    requires
        size.x > 1,
        size.y > 1,
    ensures
        ({
            let paused = CoverModel { paused: true, ..state }.begin(url, offset, size);
            let resumed = CoverModel { paused: false, ..paused.0 }.begin(url, offset, size);
            &&& paused.1 == CoverStep::Nothing
            &&& resumed.1 == CoverStep::Emit
        }),
{
}

/// A cover that was taken down is not taken down again.
pub proof fn lemma_clearing_is_done_once(state: CoverModel)
    ensures
        state.clear().0.url is None,
        state.clear().0.clear() == (state.clear().0, CoverStep::Nothing),
{
}

/// A cover is emitted where it is not the one on the terminal, and one that is on the terminal and
/// has settled is left alone. Where there is no room, nothing happens.
pub proof fn lemma_only_new_covers_are_emitted(
    state: CoverModel,
    url: Seq<char>,
    offset: Vec2,
    size: Vec2,
)
    ensures
        size.x <= 1 || size.y <= 1 ==> state.begin(url, offset, size) == (state, CoverStep::Nothing),
        size.x > 1 && size.y > 1 && !state.paused && (state.url != Some(url) || state.offset
            != offset || state.size != size) ==> state.begin(url, offset, size).1 is Emit,
        !state.pending && state.url == Some(url) && state.offset == offset && state.size == size
            ==> state.begin(url, offset, size).1 is Nothing,
{
}

/// A cover is taken down from where it was emitted.
pub proof fn lemma_covers_are_erased_where_they_are(
    state: CoverModel,
    url: Seq<char>,
    offset: Vec2,
    size: Vec2,
)
    ensures
        state.emit(url, offset, size).clear().1 == (CoverStep::Erase { offset, size }),
        !state.emit(url, offset, size).clear().0.pending,
        state.emit(url, offset, size).url == Some(url),
        state.emit(url, offset, size).paused == state.paused,
{
}

/// The backdrop blanks out each of the rows once, over the whole width.
pub proof fn lemma_backdrop_covers_the_rows(columns: int, n: nat, row: int)
    requires
        0 <= row < n,
    ensures
        backdrop(columns, n).len() == n,
        backdrop(columns, n)[row] == blank_at(0, row, columns, backdrop_style()),
    decreases n,
{
    if n > 1 {
        if row < n - 1 {
            lemma_backdrop_covers_the_rows(columns, (n - 1) as nat, row);
        } else {
            lemma_backdrop_covers_the_rows(columns, (n - 1) as nat, 0);
        }
    } else {
        assert(backdrop(columns, 0).len() == 0);
    }
}

/// Commands are for what is playing: without it nothing is saved, deleted or opened, and with it
/// only what it has.
pub proof fn lemma_commands_are_for_what_is_playing(
    item: CoverItem,
    mode: GotoMode,
    target: crate::command::TargetMode,
)
    ensures
        cover_action(Command::Save, Some(item)) is Save,
        cover_action(Command::Delete, Some(item)) is Delete,
        cover_action(Command::Save, None) is Nothing,
        cover_action(Command::Delete, None) is Nothing,
        cover_action(Command::Goto(mode), None) is Nothing,
        cover_action(Command::Share(target), Some(item)) == CoverAction::Share(item.share_url),
        cover_action(Command::Share(target), None) == CoverAction::Share(None),
        cover_action(Command::Goto(GotoMode::Album), Some(item)) == CoverAction::Open(
            GotoMode::Album,
        ) <==> item.has_album,
        cover_action(Command::Goto(GotoMode::Artist), Some(item)) == CoverAction::Open(
            GotoMode::Artist,
        ) <==> (item.artists matches Some(n) && n > 0),
        cover_action(Command::Queue, Some(item)) is Nothing,
        cover_action(Command::PlayNext, Some(item)) is Nothing,
{
}

/// The cells fill the pixels of the terminal, but for less than a pixel each.
pub proof fn lemma_cells_fill_the_terminal(
    rows: u16,
    cols: u16,
    xpixels: u16,
    ypixels: u16,
    size: Vec2,
)
    requires
        call_ensures(cell_size_px, (rows, cols, xpixels, ypixels), size),
        rows > 0,
        cols > 0,
        xpixels > 0,
        ypixels > 0,
    ensures
        size.x * cols <= xpixels < (size.x + 1) * cols,
        size.y * rows <= ypixels < (size.y + 1) * rows,
{
    vstd::arithmetic::div_mod::lemma_fundamental_div_mod(xpixels as int, cols as int);
    vstd::arithmetic::div_mod::lemma_fundamental_div_mod(ypixels as int, rows as int);
    let (w, c, x) = (size.x as int, cols as int, xpixels as int);
    let (h, r, y) = (size.y as int, rows as int, ypixels as int);
    assert(w * c <= x < (w + 1) * c) by (nonlinear_arith)
        requires
            w == x / c,
            c > 0,
    ;
    assert(h * r <= y < (h + 1) * r) by (nonlinear_arith)
        requires
            h == y / r,
            r > 0,
    ;
}

/// The first probe of the terminal counts, and before it there is no support.
pub proof fn lemma_support_is_what_was_probed(capabilities: Capabilities, supported: bool)
    requires
        call_ensures(sixel_supported, (&capabilities,), supported),
    ensures
        capabilities.sixel is None ==> !supported,
        capabilities.sixel matches Some(known) ==> supported == known,
{
}

/// To pause or to resume changes nothing but whether covers are emitted.
pub proof fn lemma_pausing_keeps_the_cover(view: &mut CoverView, paused: bool)
    requires
        call_ensures(CoverView::pause, (view, paused), ()),
    ensures
        final(view)@.paused == paused,
        final(view)@.url == old(view)@.url,
        final(view)@.offset == old(view)@.offset && final(view)@.size == old(view)@.size,
        final(view)@.pending == old(view)@.pending,
{
}

/// The first probe of a terminal counts, whatever a later one finds.
pub proof fn lemma_first_probe_counts(capabilities: &mut Capabilities, supported: bool)
    requires
        call_ensures(detect_terminal_capabilities, (capabilities, supported), ()),
    ensures
        old(capabilities).sixel is None ==> final(capabilities).sixel == Some(supported),
        old(capabilities).sixel is Some ==> final(capabilities).sixel == old(capabilities).sixel,
{
}

} // verus!
