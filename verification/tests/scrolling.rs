use cursive::view::scroll::{layout, Core, Scroller};

use ncspot_core::command::{Command, MoveAmount, MoveMode};
use ncspot_core::config::ConfigValues;
use ncspot_core::geometry::Vec2;
use ncspot_core::ui::event::{Event, MouseButton, MouseEvent};
use ncspot_core::ui::listview::{
    ListAction, ListRow, ListView, MouseHandleResult, Pagination, TrackFlags,
};
use ncspot_core::ui::wrap::wrap_line;

struct Scrolled {
    core: Core,
}

impl Scroller for Scrolled {
    fn get_scroller_mut(&mut self) -> &mut Core {
        &mut self.core
    }

    fn get_scroller(&self) -> &Core {
        &self.core
    }
}

fn rows(len: usize) -> Vec<ListRow> {
    (0..len)
        .map(|n| ListRow {
            left: format!("item {n}"),
            center: String::new(),
            right: String::new(),
            is_playing: false,
            track: Some(TrackFlags {
                is_local: false,
                is_playable: None,
            }),
            artists: None,
            cover_url: None,
            share_url: None,
        })
        .collect()
}

/// A list of 30 items of which ten rows show.
fn list() -> ListView {
    let pagination = Pagination {
        max_content: Some(40),
        loaded_content: 30,
    };
    let mut view = ListView::new(pagination, true, 30).0;
    let mut scrolled = Scrolled { core: Core::new() };
    let size = cursive::Vec2::new(20, 10);
    layout(
        &mut scrolled,
        size,
        true,
        |_, _| {},
        |_, constraint| cursive::Vec2::new(constraint.x, 30),
    );
    view.scroller = scrolled.core;
    view
}

fn mouse(x: usize, y: usize, event: MouseEvent) -> Event {
    Event::Mouse {
        offset: Vec2 { x: 0, y: 0 },
        position: Vec2 { x, y },
        event,
    }
}

fn top(view: &ListView) -> usize {
    view.scroller.content_viewport().top()
}

#[test]
fn the_wheel_scrolls() {
    let rows = rows(30);
    let values = ConfigValues::default();
    let mut view = list();
    assert!(view.has_visible_scrollbars());
    let down = mouse(1, 1, MouseEvent::WheelDown);
    assert_eq!(
        view.handle_mouse_event(down, &rows, &values),
        MouseHandleResult::Handled(ListAction::Consume)
    );
    assert_eq!(top(&view), 3);
    let up = mouse(1, 1, MouseEvent::WheelUp);
    view.handle_mouse_event(up, &rows, &values);
    assert_eq!(top(&view), 0);
    view.handle_mouse_event(up, &rows, &values);
    assert_eq!(top(&view), 0);
    // At the end more items are loaded.
    let mut last = MouseHandleResult::Play;
    for _ in 0..10 {
        last = view.handle_mouse_event(down, &rows, &values);
    }
    assert_eq!(top(&view), 20);
    assert_eq!(last, MouseHandleResult::Handled(ListAction::Paginate));
}

#[test]
fn the_focus_is_brought_into_view() {
    let rows = rows(30);
    let values = ConfigValues::default();
    let mut view = list();
    let down = Command::Move(MoveMode::Down, MoveAmount::Integer(12));
    view.on_command(&down, &rows, &values, &None);
    assert_eq!(view.get_selected_index(), 12);
    assert_eq!(top(&view), 3);
    let up = Command::Move(MoveMode::Up, MoveAmount::Integer(11));
    view.on_command(&up, &rows, &values, &None);
    assert_eq!(view.get_selected_index(), 1);
    assert_eq!(top(&view), 1);
}

#[test]
fn clicks_go_by_what_shows() {
    let rows = rows(30);
    let values = ConfigValues::default();
    let mut view = list();
    view.handle_mouse_event(mouse(1, 1, MouseEvent::WheelDown), &rows, &values);
    let left = mouse(1, 4, MouseEvent::Press(MouseButton::Left));
    assert_eq!(
        view.handle_mouse_event(left, &rows, &values),
        MouseHandleResult::Handled(ListAction::Click(7))
    );
    assert_eq!(view.get_selected_index(), 7);
    // A click on the selected track plays it.
    assert_eq!(
        view.handle_mouse_event(left, &rows, &values),
        MouseHandleResult::Play
    );
    assert_eq!(view.on_event(left, &rows, &values), ListAction::PlayAll(7));
    let right = mouse(1, 5, MouseEvent::Press(MouseButton::Right));
    assert_eq!(
        view.handle_mouse_event(right, &rows, &values),
        MouseHandleResult::Handled(ListAction::ContextMenu(8))
    );
}

#[test]
fn the_scrollbar_is_dragged() {
    let rows = rows(30);
    let values = ConfigValues::default();
    let mut view = list();
    let consumed = MouseHandleResult::Handled(ListAction::Consume);
    let press = mouse(19, 9, MouseEvent::Press(MouseButton::Left));
    assert_eq!(view.handle_mouse_event(press, &rows, &values), consumed);
    assert_eq!(view.get_selected_index(), 0);
    // The thumb is three cells high; its middle comes under the mouse.
    assert_eq!(top(&view), 20);
    let hold = mouse(19, 4, MouseEvent::Hold(MouseButton::Left));
    assert_eq!(view.handle_mouse_event(hold, &rows, &values), consumed);
    assert_eq!(top(&view), 8);
    let hold = mouse(19, 0, MouseEvent::Hold(MouseButton::Left));
    assert_eq!(view.handle_mouse_event(hold, &rows, &values), consumed);
    assert_eq!(top(&view), 0);
    let release = mouse(19, 0, MouseEvent::Release(MouseButton::Left));
    assert_eq!(view.handle_mouse_event(release, &rows, &values), consumed);
    // What was let go does not move any more.
    let hold = mouse(19, 9, MouseEvent::Hold(MouseButton::Left));
    view.handle_mouse_event(hold, &rows, &values);
    assert_eq!(top(&view), 0);
}

#[test]
fn the_thumb_stays_under_the_mouse() {
    let rows = rows(30);
    let values = ConfigValues::default();
    let mut view = list();
    let press = mouse(19, 2, MouseEvent::Press(MouseButton::Left));
    view.handle_mouse_event(press, &rows, &values);
    // On the thumb nothing moves.
    assert_eq!(top(&view), 0);
    for (y, row) in [(2, 0), (3, 3), (6, 11), (9, 19), (40, 20), (0, 0)] {
        let hold = mouse(19, y, MouseEvent::Hold(MouseButton::Left));
        view.handle_mouse_event(hold, &rows, &values);
        assert_eq!(top(&view), row);
    }
}

#[test]
fn a_new_list_has_to_be_laid_out() {
    let pagination = Pagination {
        max_content: None,
        loaded_content: 0,
    };
    let fresh = ListView::new(pagination, true, 0).0;
    assert!(fresh.needs_relayout());
    assert!(!list().needs_relayout());
    assert!(list().with_thumbnails(true).needs_relayout());
}

#[test]
fn wide_characters_take_two_cells() {
    assert_eq!(wrap_line("日本語", 4), vec!["日本", "語"]);
    assert_eq!(wrap_line("日本 語", 6), vec!["日本", "語"]);
    assert_eq!(wrap_line("日本 語", 7), vec!["日本 語"]);
    // A character that is wider than the row has a row of its own.
    assert_eq!(wrap_line("日本", 1), vec!["日", "本"]);
    assert_eq!(wrap_line("ab", 0), vec!["a", "b"]);
}
