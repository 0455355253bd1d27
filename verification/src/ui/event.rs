//! What the user does at the terminal.

use vstd::prelude::*;

use crate::geometry::{monus, less, Vec2};

verus! {

#[derive(Clone, Copy, Debug, PartialEq, Eq, Structural)]
pub enum Key {
    Up,
    Down,
    Enter,
    Esc,
    Backspace,
    Other,
}

#[derive(Clone, Copy, Debug, PartialEq, Eq, Structural)]
pub enum MouseButton {
    Left,
    Middle,
    Right,
    Other,
}

#[derive(Clone, Copy, Debug, PartialEq, Eq, Structural)]
pub enum MouseEvent {
    WheelUp,
    WheelDown,
    Press(MouseButton),
    Hold(MouseButton),
    Release(MouseButton),
}

/// An event. A mouse event has the position of the mouse on the screen, and the offset of the
/// view on the screen.
#[derive(Clone, Copy, Debug, PartialEq, Eq, Structural)]
pub enum Event {
    Char(char),
    Key(Key),
    Mouse { offset: Vec2, position: Vec2, event: MouseEvent },
    Other,
}

/// Whether a view has taken an event or a command.
#[derive(Clone, Copy, Debug, PartialEq, Eq, Structural)]
pub enum Handled {
    Ignored,
    Consumed,
}

/// The position of the mouse in the view, as far as it is right of and below the view's corner.
pub open spec fn local_position(position: Vec2, offset: Vec2) -> Vec2 {
    Vec2 {
        x: monus(position.x as int, offset.x as int) as usize,
        y: monus(position.y as int, offset.y as int) as usize,
    }
}

pub fn local(position: Vec2, offset: Vec2) -> (inside: Vec2)
    ensures
        inside == local_position(position, offset),
{
    Vec2 { x: less(position.x, offset.x), y: less(position.y, offset.y) }
}

impl Event {
    /// The event as a view sees it that starts `by` cells further right and down.
    pub open spec fn shifted(self, by: Vec2) -> Event {
        match self {
            Event::Mouse { offset, position, event } => Event::Mouse {
                offset: Vec2 { x: (offset.x + by.x) as usize, y: (offset.y + by.y) as usize },
                position,
                event,
            },
            other => other,
        }
    }

    /// Whether the place of the event can be counted in a view that starts `by` cells further.
    pub open spec fn can_shift(self, by: Vec2) -> bool {
        self matches Event::Mouse { offset, .. } ==> offset.x + by.x <= usize::MAX && offset.y
            + by.y <= usize::MAX
    }

    pub fn relativized(self, by: Vec2) -> (event: Event)
        requires
            self.can_shift(by),
        ensures
            event == self.shifted(by),
    {
        match self {
            Event::Mouse { offset, position, event } => Event::Mouse {
                offset: Vec2 { x: offset.x + by.x, y: offset.y + by.y },
                position,
                event,
            },
            other => other,
        }
    }
}

/// A view that starts further right and down sees the mouse so many cells nearer to its corner; the
/// mouse itself stays where it is. Keys are the same everywhere.
pub proof fn lemma_shifted_views_see_the_mouse_nearer(
    position: Vec2,
    offset: Vec2,
    by: Vec2,
    mouse: MouseEvent,
    c: char,
)
    requires
        offset.x + by.x <= position.x,
        offset.y + by.y <= position.y,
    ensures
        ({
            let event = Event::Mouse { position, offset, event: mouse };
            &&& event.shifted(by) matches Event::Mouse { position: p, offset: o, event: e }
            &&& p == position
            &&& e == mouse
            &&& local_position(p, o).x + by.x == local_position(position, offset).x
            &&& local_position(p, o).y + by.y == local_position(position, offset).y
        }),
        Event::Char(c).shifted(by) == Event::Char(c),
        local_position(position, offset).x + offset.x == position.x,
        local_position(position, offset).y + offset.y == position.y,
{
}

} // verus!
