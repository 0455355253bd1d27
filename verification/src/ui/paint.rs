//! What a view paints: texts and blank runs, each with its place and its style.

use vstd::prelude::*;

verus! {

/// A color that the theme gives a name of its own.
#[derive(Clone, Copy, Debug, PartialEq, Eq, Structural)]
pub enum CustomColor {
    Playing,
    PlayingBg,
    PlayingSelected,
    SearchMatch,
    StatusbarProgress,
    StatusbarProgressBg,
    StatusbarBg,
    StatusbarControlsBg,
    StatusbarControlsActive,
    StatusbarControlsButtonBg,
    DropdownBorder,
    DropdownFg,
    DropdownBg,
    DropdownFocusedFg,
    DropdownFocusedBg,
}

/// A color of the palette that every theme has.
#[derive(Clone, Copy, Debug, PartialEq, Eq, Structural)]
pub enum PaletteColor {
    Background,
    Primary,
    Secondary,
    TitlePrimary,
    TitleSecondary,
    Highlight,
    HighlightText,
}

#[derive(Clone, Copy, Debug, PartialEq, Eq, Structural)]
pub enum Shade {
    Custom(CustomColor),
    Palette(PaletteColor),
    InheritParent,
}

#[derive(Clone, Copy, Debug, PartialEq, Eq, Structural)]
pub enum Effect {
    Plain,
    Bold,
    Dim,
}

#[derive(Clone, Copy, Debug, PartialEq, Eq, Structural)]
pub struct Style {
    pub front: Shade,
    pub back: Shade,
    pub effect: Effect,
}

/// A style without an effect.
pub open spec fn colors(front: Shade, back: Shade) -> Style {
    Style { front, back, effect: Effect::Plain }
}

/// A palette color on the background that is already there.
pub open spec fn on_parent(front: PaletteColor) -> Style {
    colors(Shade::Palette(front), Shade::InheritParent)
}

/// The colors that are already there.
pub open spec fn plain_style() -> Style {
    colors(Shade::InheritParent, Shade::InheritParent)
}

pub open spec fn primary_style() -> Style {
    on_parent(PaletteColor::Primary)
}

pub open spec fn secondary_style() -> Style {
    on_parent(PaletteColor::Secondary)
}

pub open spec fn title_primary_style() -> Style {
    on_parent(PaletteColor::TitlePrimary)
}

pub open spec fn title_secondary_style() -> Style {
    on_parent(PaletteColor::TitleSecondary)
}

pub open spec fn highlight_style() -> Style {
    colors(Shade::Palette(PaletteColor::HighlightText), Shade::Palette(PaletteColor::Highlight))
}

impl Style {
    pub fn new(front: Shade, back: Shade) -> (style: Style)
        ensures
            style == colors(front, back),
    {
        Style { front, back, effect: Effect::Plain }
    }

    pub fn plain() -> (style: Style)
        ensures
            style == plain_style(),
    {
        Style::new(Shade::InheritParent, Shade::InheritParent)
    }

    pub fn primary() -> (style: Style)
        ensures
            style == primary_style(),
    {
        Style::new(Shade::Palette(PaletteColor::Primary), Shade::InheritParent)
    }

    pub fn secondary() -> (style: Style)
        ensures
            style == secondary_style(),
    {
        Style::new(Shade::Palette(PaletteColor::Secondary), Shade::InheritParent)
    }

    pub fn title_primary() -> (style: Style)
        ensures
            style == title_primary_style(),
    {
        Style::new(Shade::Palette(PaletteColor::TitlePrimary), Shade::InheritParent)
    }

    pub fn title_secondary() -> (style: Style)
        ensures
            style == title_secondary_style(),
    {
        Style::new(Shade::Palette(PaletteColor::TitleSecondary), Shade::InheritParent)
    }

    pub fn highlight() -> (style: Style)
        ensures
            style == highlight_style(),
    {
        Style::new(
            Shade::Palette(PaletteColor::HighlightText),
            Shade::Palette(PaletteColor::Highlight),
        )
    }

    /// The same colors with an effect.
    pub fn with(self, effect: Effect) -> (style: Style)
        ensures
            style == (Style { effect, ..self }),
    {
        Style { front: self.front, back: self.back, effect }
    }
}

/// What is painted: a text, or a run of blanks.
#[derive(Clone, Debug, PartialEq, Eq)]
pub enum Ink {
    Text(String),
    Blank(usize),
}

/// One stroke of paint.
#[derive(Clone, Debug, PartialEq, Eq)]
pub struct Stroke {
    pub x: usize,
    pub y: usize,
    pub ink: Ink,
    pub style: Style,
}

/// The strokes that paint a view, in the order in which they are made.
#[derive(Clone, Debug, PartialEq, Eq)]
pub struct Frame {
    pub strokes: Vec<Stroke>,
}

/// What is painted, with texts as sequences of characters.
pub ghost enum InkView {
    Text(Seq<char>),
    Blank(int),
}

/// One stroke of paint, with its text as a sequence of characters.
pub ghost struct StrokeView {
    pub x: int,
    pub y: int,
    pub ink: InkView,
    pub style: Style,
}

pub open spec fn text_at(x: int, y: int, text: Seq<char>, style: Style) -> StrokeView {
    StrokeView { x, y, ink: InkView::Text(text), style }
}

pub open spec fn blank_at(x: int, y: int, len: int, style: Style) -> StrokeView {
    StrokeView { x, y, ink: InkView::Blank(len), style }
}

impl View for Stroke {
    type V = StrokeView;

    open spec fn view(&self) -> StrokeView {
        StrokeView {
            x: self.x as int,
            y: self.y as int,
            ink: match self.ink {
                Ink::Text(text) => InkView::Text(text@),
                Ink::Blank(len) => InkView::Blank(len as int),
            },
            style: self.style,
        }
    }
}

impl View for Frame {
    type V = Seq<StrokeView>;

    open spec fn view(&self) -> Seq<StrokeView> {
        self.strokes@.map_values(|s: Stroke| s@)
    }
}

impl Frame {
    pub fn new() -> (frame: Frame)
        ensures
            frame@ == Seq::<StrokeView>::empty(),
    {
        let frame = Frame { strokes: Vec::new() };
        assert(frame@ =~= Seq::<StrokeView>::empty());
        frame
    }

    /// Paints a text that starts at column `x` of row `y`.
    pub fn print(&mut self, x: usize, y: usize, text: &str, style: Style)
        ensures
            final(self)@ == old(self)@.push(text_at(x as int, y as int, text@, style)),
    {
        let stroke = Stroke { x, y, ink: Ink::Text(text.to_owned()), style };
        self.strokes.push(stroke);
        assert(self@ =~= old(self)@.push(text_at(x as int, y as int, text@, style)));
    }

    /// Paints `len` blank cells from column `x` of row `y`.
    pub fn blank(&mut self, x: usize, y: usize, len: usize, style: Style)
        ensures
            final(self)@ == old(self)@.push(blank_at(x as int, y as int, len as int, style)),
    {
        let stroke = Stroke { x, y, ink: Ink::Blank(len), style };
        self.strokes.push(stroke);
        assert(self@ =~= old(self)@.push(blank_at(x as int, y as int, len as int, style)));
    }

    /// Adds the strokes of another frame behind those of this one.
    pub fn append(&mut self, other: Frame)
        ensures
            final(self)@ == old(self)@ + other@,
    {
        let mut strokes = other.strokes;
        self.strokes.append(&mut strokes);
        assert(self@ =~= old(self)@ + other@);
    }
}

} // verus!
