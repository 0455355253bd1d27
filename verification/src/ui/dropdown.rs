//! The dropdown menus of the panes.

use vstd::prelude::*;

use super::event::{Event, Key, MouseButton, MouseEvent};
use super::paint::{
    blank_at, colors, text_at, CustomColor, Frame, InkView, Shade, StrokeView, Style,
};
use super::width::{text_width, width};
use crate::geometry::{less, max, min, monus, Vec2};
use crate::text::{concat, repeat};

verus! {

/// A list of choices that drops down below a pane's title.
#[derive(Clone, Debug)]
pub struct PaneDropdownMenu<T: Copy> {
    items: Vec<(String, T)>,
    focus: usize,
}

/// What a menu makes of an event.
#[derive(Clone, Copy, Debug, PartialEq, Eq, Structural)]
pub enum MenuResult<T> {
    Ignored,
    Consumed,
    /// The user has made their choice.
    Chosen(T),
}

/// The style of a row of a menu.
pub open spec fn row_style(focused: bool) -> Style {
    if focused {
        colors(
            Shade::Custom(CustomColor::DropdownFocusedFg),
            Shade::Custom(CustomColor::DropdownFocusedBg),
        )
    } else {
        colors(Shade::Custom(CustomColor::DropdownFg), Shade::Custom(CustomColor::DropdownBg))
    }
}

/// The strokes of the first `n` rows of a menu.
pub open spec fn menu_rows(labels: Seq<Seq<char>>, focus: int, columns: int, n: nat) -> Seq<
    StrokeView,
>
    decreases n,
{
    if n == 0 {
        Seq::empty()
    } else {
        let row = n - 1;
        menu_rows(labels, focus, columns, (n - 1) as nat).push(
            blank_at(0, row, columns, row_style(row == focus)),
        ).push(text_at(0, row, labels[row], row_style(row == focus)))
    }
}

/// The width of the widest label.
pub open spec fn widest(labels: Seq<Seq<char>>) -> int
    decreases labels.len(),
{
    if labels.len() == 0 {
        0
    } else {
        max(widest(labels.drop_last()), text_width(labels.last()) as int)
    }
}

impl<T: Copy> PaneDropdownMenu<T> {
    pub closed spec fn labels(self) -> Seq<Seq<char>> {
        self.items@.map_values(|item: (String, T)| item.0@)
    }

    pub closed spec fn choices(self) -> Seq<T> {
        self.items@.map_values(|item: (String, T)| item.1)
    }

    pub closed spec fn focused(self) -> int {
        self.focus as int
    }

    pub fn new(items: Vec<(String, T)>) -> (menu: PaneDropdownMenu<T>)
        ensures
            menu.labels() == items@.map_values(|item: (String, T)| item.0@),
            menu.choices() == items@.map_values(|item: (String, T)| item.1),
            menu.focused() == 0,
    {
        PaneDropdownMenu { items, focus: 0 }
    }

    /// The same menu with another choice in focus, as far as there is one.
    pub fn with_focus(self, focus: usize) -> (menu: PaneDropdownMenu<T>)
        ensures
            menu.labels() == self.labels(),
            menu.choices() == self.choices(),
            menu.focused() == min(focus as int, monus(self.labels().len() as int, 1)),
    {
        let last: usize = less(self.items.len(), 1);
        let focus: usize = if focus <= last {
            focus
        } else {
            last
        };
        PaneDropdownMenu { items: self.items, focus }
    }

    /// Every row is painted over its whole width, so that the menu covers what is below it.
    pub fn draw(&self, columns: usize) -> (frame: Frame)
        ensures
            frame@ == menu_rows(self.labels(), self.focused(), columns as int, self.labels().len()),
    {
        let mut frame = Frame::new();
        let mut row: usize = 0;
        while row < self.items.len()
            invariant
                row <= self.items@.len(),
                frame@ == menu_rows(self.labels(), self.focused(), columns as int, row as nat),
            decreases self.items@.len() - row,
        {
            let style = if row == self.focus {
                Style::new(
                    Shade::Custom(CustomColor::DropdownFocusedFg),
                    Shade::Custom(CustomColor::DropdownFocusedBg),
                )
            } else {
                Style::new(
                    Shade::Custom(CustomColor::DropdownFg),
                    Shade::Custom(CustomColor::DropdownBg),
                )
            };
            frame.blank(0, row, columns, style);
            frame.print(0, row, self.items[row].0.as_str(), style);
            row += 1;
        }
        frame
    }

    /// The size of the menu: as wide as its widest label, one row for each choice.
    pub fn required_size(&self) -> (size: Vec2)
        ensures
            size.x == widest(self.labels()),
            size.y == self.labels().len(),
    {
        let mut columns: usize = 0;
        let mut row: usize = 0;
        assert(self.labels().take(0) =~= Seq::<Seq<char>>::empty());
        while row < self.items.len()
            invariant
                row <= self.items@.len(),
                columns == widest(self.labels().take(row as int)),
            decreases self.items@.len() - row,
        {
            let ghost head = self.labels().take(row + 1);
            assert(head.drop_last() =~= self.labels().take(row as int));
            assert(head.last() == self.items@[row as int].0@);
            let cells: usize = width(self.items[row].0.as_str());
            if cells > columns {
                columns = cells;
            }
            row += 1;
        }
        assert(self.labels().take(row as int) =~= self.labels());
        Vec2 { x: columns, y: self.items.len() }
    }

    /// Moves the focus up or down, or takes the choice in focus or under the mouse. The choice in
    /// focus can only be taken where there is one. A focus that is on a choice stays on a choice.
    pub fn on_event(&mut self, event: Event) -> (result: MenuResult<T>)
        requires
            event == Event::Key(Key::Enter) ==> old(self).focused() < old(self).labels().len(),
        ensures
            final(self).labels() == old(self).labels(),
            final(self).choices() == old(self).choices(),
            old(self).focused() < old(self).labels().len() ==> 0 <= final(self).focused()
                < final(self).labels().len(),
            match event {
                Event::Key(Key::Up) => if old(self).focused() > 0 {
                    &&& result is Consumed
                    &&& final(self).focused() == old(self).focused() - 1
                } else {
                    &&& result is Ignored
                    &&& final(self).focused() == old(self).focused()
                },
                Event::Key(Key::Down) => if old(self).focused() + 1 < old(self).labels().len() {
                    &&& result is Consumed
                    &&& final(self).focused() == old(self).focused() + 1
                } else {
                    &&& result is Ignored
                    &&& final(self).focused() == old(self).focused()
                },
                Event::Key(Key::Enter) => {
                    &&& result == MenuResult::Chosen(old(self).choices()[old(self).focused()])
                    &&& final(self).focused() == old(self).focused()
                },
                Event::Mouse { event: MouseEvent::Press(_), position, offset } => {
                    let row = monus(position.y as int, offset.y as int);
                    if row < old(self).labels().len() {
                        &&& result == MenuResult::Chosen(old(self).choices()[row])
                        &&& final(self).focused() == row
                    } else {
                        &&& result is Ignored
                        &&& final(self).focused() == old(self).focused()
                    }
                },
                _ => {
                    &&& result is Ignored
                    &&& final(self).focused() == old(self).focused()
                },
            },
    {
        match event {
            Event::Key(Key::Up) => {
                if self.focus > 0 {
                    self.focus = self.focus - 1;
                    MenuResult::Consumed
                } else {
                    MenuResult::Ignored
                }
            },
            Event::Key(Key::Down) => {
                if self.focus < self.items.len() && self.focus + 1 < self.items.len() {
                    self.focus = self.focus + 1;
                    MenuResult::Consumed
                } else {
                    MenuResult::Ignored
                }
            },
            Event::Key(Key::Enter) => MenuResult::Chosen(self.items[self.focus].1),
            Event::Mouse { event: MouseEvent::Press(_), position, offset } => {
                let row: usize = less(position.y, offset.y);
                if row < self.items.len() {
                    self.focus = row;
                    MenuResult::Chosen(self.items[row].1)
                } else {
                    MenuResult::Ignored
                }
            },
            _ => MenuResult::Ignored,
        }
    }
}

// The border around a menu

/// The style of the border around a menu.
pub open spec fn border_style() -> Style {
    colors(Shade::Custom(CustomColor::DropdownBorder), Shade::InheritParent)
}

/// A horizontal edge with its corners.
pub open spec fn edge(left: Seq<char>, right: Seq<char>, inner: int) -> Seq<char> {
    left + Seq::new(inner as nat, |i: int| '─') + right
}

/// The vertical edges of the rows before row `n`, but for the first row.
pub open spec fn sides(columns: int, n: nat) -> Seq<StrokeView>
    decreases n,
{
    if n <= 1 {
        Seq::empty()
    } else {
        sides(columns, (n - 1) as nat).push(text_at(0, n - 1, "│"@, border_style())).push(
            text_at(columns - 1, n - 1, "│"@, border_style()),
        )
    }
}

/// A rounded border of the given size.
pub open spec fn border(columns: int, rows: int) -> Seq<StrokeView> {
    seq![text_at(0, 0, edge("╭"@, "╮"@, columns - 2), border_style())] + sides(
        columns,
        (rows - 1) as nat,
    ).push(text_at(0, rows - 1, edge("╰"@, "╯"@, columns - 2), border_style()))
}

pub(crate) fn edge_text(left: &str, right: &str, inner: usize) -> (text: String)
    ensures
        text@ == edge(left@, right@, inner as int),
{
    let mut text = concat(left, repeat('─', inner).as_str());
    text.append(right);
    assert(Seq::new(inner as nat, |i: int| '─') =~= Seq::new((inner as int) as nat, |i: int| '─'));
    text
}

/// The border around a menu of the given size, or nothing where the size leaves no room for one.
pub fn draw_border(size: Vec2) -> (frame: Option<Frame>)
    ensures
        frame is Some == (size.x >= 2 && size.y >= 2),
        frame is Some ==> frame->0@ == border(size.x as int, size.y as int),
{
    if size.x < 2 || size.y < 2 {
        return None;
    }
    let style = Style::new(Shade::Custom(CustomColor::DropdownBorder), Shade::InheritParent);
    let mut frame = Frame::new();
    let top = edge_text("╭", "╮", size.x - 2);
    frame.print(0, 0, top.as_str(), style);
    let ghost first = seq![text_at(0, 0, top@, style)];
    assert(frame@ =~= first + sides(size.x as int, 1));
    let mut y: usize = 1;
    while y < size.y - 1
        invariant
            size.x >= 2,
            1 <= y <= size.y - 1,
            style == border_style(),
            frame@ == first + sides(size.x as int, y as nat),
        decreases size.y - y,
    {
        let ghost before = sides(size.x as int, y as nat);
        frame.print(0, y, "│", style);
        frame.print(size.x - 1, y, "│", style);
        assert(frame@ =~= first + before.push(text_at(0, y as int, "│"@, style)).push(
            text_at(size.x - 1, y as int, "│"@, style),
        ));
        y += 1;
    }
    let bottom = edge_text("╰", "╯", size.x - 2);
    let ghost before = frame@;
    frame.print(0, size.y - 1, bottom.as_str(), style);
    assert(frame@ =~= border(size.x as int, size.y as int));
    Some(frame)
}

/// The size that is left for the menu inside its border.
pub fn inside_border(size: Vec2) -> (inner: Vec2)
    ensures
        inner.x == monus(size.x as int, 2),
        inner.y == monus(size.y as int, 2),
{
    Vec2 { x: less(size.x, 2), y: less(size.y, 2) }
}

/// The size that a menu needs with its border.
pub fn with_border(inner: Vec2) -> (size: Vec2)
    requires
        inner.x + 2 <= usize::MAX,
        inner.y + 2 <= usize::MAX,
    ensures
        size.x == inner.x + 2,
        size.y == inner.y + 2,
{
    Vec2 { x: inner.x + 2, y: inner.y + 2 }
}

/// The event as the menu inside the border sees it.
pub fn event_inside_border(event: Event) -> (inner: Event)
    requires
        event.can_shift(Vec2 { x: 1, y: 1 }),
    ensures
        inner == event.shifted(Vec2 { x: 1, y: 1 }),
{
    event.relativized(Vec2 { x: 1, y: 1 })
}

// How a menu is opened and closed

/// A menu that opens below a pane's title.
#[derive(Clone, Debug)]
pub struct Dropdown<T: Copy> {
    /// The place of the menu's border on the screen.
    pub anchor: Vec2,
    pub menu: PaneDropdownMenu<T>,
}

/// The column at which the title of a pane starts, with a cell and the menu icon's two cells and
/// one more cell around it.
pub open spec fn title_start(offset_x: int, content_w: int, label: Seq<char>) -> int {
    offset_x + monus(content_w, text_width(label) + 4int) / 2
}

/// The corner of the menu that opens below a title.
pub(crate) fn anchor_below(offset: Vec2, content_w: usize, label: &str) -> (anchor: Vec2)
    requires
        offset.x + content_w <= usize::MAX,
    ensures
        anchor.x == title_start(offset.x as int, content_w as int, label@),
        anchor.y == offset.y,
{
    let left_fill: usize = super::width::cells_left(content_w, label, 4) / 2;
    Vec2 { x: offset.x + left_fill, y: offset.y }
}

/// The label of a choice: its icon and its name, with a blank on either side.
pub open spec fn choice_label(icon: Seq<char>, name: Seq<char>) -> Seq<char> {
    " "@ + icon + name + " "@
}

pub(crate) fn label_choice(icon: &str, name: &str) -> (label: String)
    ensures
        label@ == choice_label(icon@, name@),
{
    let mut label = concat(" ", icon);
    label.append(name);
    label.append(" ");
    label
}

/// Whether an event that the menu has not taken closes it: the escape key, `q`, or a click
/// elsewhere.
pub open spec fn closes(event: Event) -> bool {
    match event {
        Event::Key(Key::Esc) => true,
        Event::Char('q') => true,
        Event::Mouse { event: MouseEvent::Press(_), .. } => true,
        _ => false,
    }
}

pub fn closes_menu(event: Event) -> (yes: bool)
    ensures
        yes == closes(event),
{
    match event {
        Event::Key(Key::Esc) => true,
        Event::Char('q') => true,
        Event::Mouse { event: MouseEvent::Press(_), .. } => true,
        _ => false,
    }
}

/// Each row of a menu shows its own label over the whole width, and just the one in focus stands
/// out.
pub proof fn lemma_menu_shows_its_labels(
    labels: Seq<Seq<char>>,
    focus: int,
    columns: int,
    n: nat,
    row: int,
)
    requires
        0 <= row < n,
    ensures
        ({
            let strokes = menu_rows(labels, focus, columns, n);
            &&& strokes.len() == 2 * n
            &&& strokes[2 * row] == blank_at(0, row, columns, row_style(row == focus))
            &&& strokes[2 * row + 1] == text_at(0, row, labels[row], row_style(row == focus))
            &&& row_style(true) != row_style(false)
        }),
    decreases n,
{
    lemma_menu_rows_count(labels, focus, columns, n);
    lemma_menu_rows_count(labels, focus, columns, (n - 1) as nat);
    if row < n - 1 {
        lemma_menu_shows_its_labels(labels, focus, columns, (n - 1) as nat, row);
    }
}

proof fn lemma_menu_rows_count(labels: Seq<Seq<char>>, focus: int, columns: int, n: nat)
    ensures
        menu_rows(labels, focus, columns, n).len() == 2 * n,
    decreases n,
{
    if n > 0 {
        lemma_menu_rows_count(labels, focus, columns, (n - 1) as nat);
    }
}

/// A menu is as wide as it takes for every label, and no wider.
pub proof fn lemma_menu_is_as_wide_as_its_labels(labels: Seq<Seq<char>>, i: int)
    requires
        0 <= i < labels.len(),
    ensures
        text_width(labels[i]) <= widest(labels),
        exists|k: int| 0 <= k < labels.len() && text_width(#[trigger] labels[k]) == widest(labels),
    decreases labels.len(),
{
    let before = labels.drop_last();
    let last = labels.len() - 1;
    assert(labels[last] == labels.last());
    if before.len() > 0 {
        let j = if i < last {
            i
        } else {
            0
        };
        lemma_menu_is_as_wide_as_its_labels(before, j);
        let k = choose|k: int| 0 <= k < before.len() && text_width(#[trigger] before[k]) == widest(before);
        assert(before[k] == labels[k]);
        assert(before[j] == labels[j]);
        if widest(labels) != widest(before) {
            assert(text_width(labels[last]) == widest(labels));
        }
    } else {
        assert(widest(before) == 0);
        assert(text_width(labels[last]) == widest(labels));
    }
}

/// A border encloses its area: its edges are in the first and the last row, and its sides in the
/// first and the last column of the rows between them.
pub proof fn lemma_border_encloses(columns: int, rows: int)
    requires
        2 <= columns,
        2 <= rows,
    ensures
        ({
            let strokes = border(columns, rows);
            &&& strokes.len() == 2 + 2 * (rows - 2)
            &&& strokes[0].x == 0 && strokes[0].y == 0
            &&& strokes.last().x == 0 && strokes.last().y == rows - 1
            &&& strokes[0].ink matches InkView::Text(text) && text.len() == columns
            &&& strokes.last().ink matches InkView::Text(text) && text.len() == columns
            &&& forall|i: int|
                1 <= i < strokes.len() - 1 ==> 0 < (#[trigger] strokes[i]).y < rows - 1 && (
                strokes[i].x == 0 || strokes[i].x == columns - 1)
        }),
{
    reveal_strlit("╭");
    reveal_strlit("╮");
    reveal_strlit("╰");
    reveal_strlit("╯");
    lemma_sides_enclose(columns, (rows - 1) as nat);
    let inner = sides(columns, (rows - 1) as nat);
    let strokes = border(columns, rows);
    assert forall|i: int| 1 <= i < strokes.len() - 1 implies 0 < (#[trigger] strokes[i]).y < rows
        - 1 && (strokes[i].x == 0 || strokes[i].x == columns - 1) by {
        assert(strokes[i] == inner[i - 1]);
    }
}

proof fn lemma_sides_enclose(columns: int, n: nat)
    ensures
        sides(columns, n).len() == if n <= 1 {
            0
        } else {
            2 * (n - 1)
        },
        forall|i: int|
            0 <= i < sides(columns, n).len() ==> 0 < (#[trigger] sides(columns, n)[i]).y < n && (
            sides(columns, n)[i].x == 0 || sides(columns, n)[i].x == columns - 1),
    decreases n,
{
    if n > 1 {
        lemma_sides_enclose(columns, (n - 1) as nat);
    }
}

/// The area inside a border is what a menu asks for that is given a border; an event inside the
/// border is seen one cell further.
pub proof fn lemma_border_takes_a_cell_on_each_side(inner: Vec2, size: Vec2, back: Vec2)
    requires
        inner.x + 2 <= usize::MAX,
        inner.y + 2 <= usize::MAX,
        call_ensures(with_border, (inner,), size),
        call_ensures(inside_border, (size,), back),
    ensures
        back == inner,
        size.x == inner.x + 2 && size.y == inner.y + 2,
{
}

/// The menu opens where the title of its pane starts, which stands in the middle.
pub proof fn lemma_menu_opens_below_the_title(offset_x: int, content_w: int, label: Seq<char>)
    requires
        text_width(label) + 4 <= content_w,
    ensures
        ({
            let before = title_start(offset_x, content_w, label) - offset_x;
            let after = content_w - (text_width(label) + 4) - before;
            0 <= before <= after <= before + 1
        }),
{
}

/// The escape key, `q` and a press of any button close a menu; other keys do not.
pub proof fn lemma_what_closes_a_menu(c: char, position: Vec2, offset: Vec2, button: MouseButton)
    ensures
        closes(Event::Key(Key::Esc)),
        closes(Event::Char(c)) <==> c == 'q',
        closes(Event::Mouse { position, offset, event: MouseEvent::Press(button) }),
        !closes(Event::Mouse { position, offset, event: MouseEvent::Release(button) }),
        !closes(Event::Mouse { position, offset, event: MouseEvent::WheelUp }),
        !closes(Event::Mouse { position, offset, event: MouseEvent::WheelDown }),
        !closes(Event::Key(Key::Enter)) && !closes(Event::Key(Key::Up)),
{
}

} // verus!
