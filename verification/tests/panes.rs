use ncspot_core::command::{Command, PaneDirection};
use ncspot_core::config::{ColumnConfig, ConfigValues, LayoutConfig};
use ncspot_core::geometry::Vec2;
use ncspot_core::ui::event::{Event, MouseButton, MouseEvent};
use ncspot_core::ui::paint::Ink;
use ncspot_core::ui::panes::{
    usable_config, valid, PaneAction, PaneCommand, PaneLayoutView, PaneReply, PaneTitle,
    PlaceholderPane, ViewReply,
};

fn at(x: usize, y: usize) -> Vec2 {
    Vec2 { x, y }
}

fn column(width: u8, panes: &[&str], heights: Option<Vec<u8>>) -> ColumnConfig {
    ColumnConfig {
        width,
        panes: panes.iter().map(|pane| pane.to_string()).collect(),
        heights,
    }
}

/// A layout without gaps.
fn config(columns: Vec<ColumnConfig>) -> LayoutConfig {
    LayoutConfig {
        columns,
        gap: Some(0),
        ..LayoutConfig::default()
    }
}

/// A browser on the left, and tracks above lyrics on the right.
fn columns() -> Vec<ColumnConfig> {
    vec![
        column(40, &["browser"], None),
        column(60, &["tracks", "lyrics"], Some(vec![70, 30])),
    ]
}

fn layout_of(config: &LayoutConfig) -> PaneLayoutView {
    let views = vec![vec![Some(1)], vec![Some(2), Some(3)]];
    let mut panes = PaneLayoutView::new(config, &views);
    panes.layout(at(100, 40));
    panes
}

fn layout() -> PaneLayoutView {
    layout_of(&config(columns()))
}

fn mouse(x: usize, y: usize, event: MouseEvent) -> Event {
    Event::Mouse {
        offset: at(5, 5),
        position: at(5 + x, 5 + y),
        event,
    }
}

fn press(x: usize, y: usize) -> Event {
    mouse(x, y, MouseEvent::Press(MouseButton::Left))
}

fn corners(panes: &PaneLayoutView) -> Vec<(Vec2, Vec2)> {
    panes
        .columns
        .iter()
        .flat_map(|column| &column.panes)
        .map(|pane| (pane.rect.top_left, pane.rect.bottom_right))
        .collect()
}

#[test]
fn layouts_are_validated() {
    assert!(valid(&config(vec![column(40, &["a"], None)])));
    assert!(!valid(&config(vec![])));
    let wide = vec![column(60, &["a"], None), column(41, &["b"], None)];
    assert!(!valid(&config(wide)));
    let used = usable_config(config(vec![]));
    assert_eq!(used.columns.len(), LayoutConfig::default().columns.len());
    let used = usable_config(config(vec![column(40, &["a"], None)]));
    assert_eq!(used.columns.len(), 1);
}

#[test]
fn panes_tile_the_screen() {
    let panes = layout();
    let browser = panes.columns[0].panes[0].rect;
    let tracks = panes.columns[1].panes[0].rect;
    let lyrics = panes.columns[1].panes[1].rect;
    assert_eq!(browser.top_left, at(0, 0));
    assert_eq!(browser.bottom_right, at(39, 39));
    assert_eq!(tracks.top_left, at(40, 0));
    assert_eq!(tracks.bottom_right, at(99, 27));
    assert_eq!(lyrics.top_left, at(40, 28));
    assert_eq!(lyrics.bottom_right, at(99, 39));
}

#[test]
fn panes_are_one_cell_apart_by_default() {
    let panes = layout_of(&LayoutConfig {
        columns: columns(),
        ..LayoutConfig::default()
    });
    assert_eq!(
        corners(&panes),
        vec![
            (at(1, 1), at(38, 38)),
            (at(40, 1), at(98, 26)),
            (at(40, 28), at(98, 38)),
        ]
    );
    assert_eq!(panes.pane_at(at(0, 5)), None);
    assert_eq!(panes.pane_at(at(39, 5)), None);
    assert_eq!(panes.pane_at(at(50, 27)), None);
}

#[test]
fn each_direction_has_its_own_gap() {
    let panes = layout_of(&LayoutConfig {
        gap: Some(3),
        gap_y: Some(2),
        ..config(columns())
    });
    assert_eq!(
        corners(&panes),
        vec![
            (at(3, 2), at(36, 37)),
            (at(40, 2), at(96, 25)),
            (at(40, 28), at(96, 37)),
        ]
    );
    let panes = layout_of(&LayoutConfig {
        gap_x: Some(5),
        ..config(columns())
    });
    assert_eq!(corners(&panes)[0], (at(5, 0), at(34, 39)));
}

#[test]
fn a_gap_may_leave_no_room() {
    let mut panes = layout_of(&LayoutConfig {
        gap: Some(255),
        ..config(columns())
    });
    panes.layout(at(10, 4));
    for (top_left, bottom_right) in corners(&panes) {
        assert_eq!(top_left, bottom_right);
        assert!(top_left.x <= 10 && top_left.y <= 4);
    }
}

#[test]
fn content_keeps_inside_the_padding() {
    let plain = layout();
    assert_eq!(
        PaneLayoutView::content_area(&plain.columns[1].panes[1]),
        (at(40, 29), at(60, 11))
    );
    let mut panes = layout_of(&LayoutConfig {
        padding: Some(2),
        padding_y: Some(1),
        ..config(columns())
    });
    assert_eq!(
        PaneLayoutView::content_area(&panes.columns[1].panes[1]),
        (at(42, 30), at(56, 9))
    );
    let change = panes.push_to_pane("lyrics", 9).unwrap();
    assert_eq!(change.size, at(56, 9));
    // On the padding: the pane gets the focus, but the view gets nothing.
    panes.move_focus(PaneDirection::Left);
    assert_eq!(panes.on_event(press(41, 33)), PaneAction::Ignore);
    assert_eq!(panes.focused, (1, 1));
    assert_eq!(panes.on_event(press(50, 29)), PaneAction::Ignore);
    assert_eq!(panes.on_event(press(98, 33)), PaneAction::Ignore);
    match panes.on_event(press(42, 30)) {
        PaneAction::Forward(9, Event::Mouse { offset, .. }) => {
            assert_eq!(offset, at(5 + 42, 5 + 30));
        }
        other => panic!("the view is clicked: {other:?}"),
    }
}

#[test]
fn a_right_click_on_a_title_is_no_title_action() {
    let mut panes = layout();
    let right = MouseEvent::Press(MouseButton::Right);
    assert_eq!(
        panes.on_event(mouse(50, 28, right)),
        PaneAction::TitleRightClick(3)
    );
    assert_eq!(panes.focused, (1, 1));
    assert_eq!(
        panes.on_event(mouse(50, 28, MouseEvent::Press(MouseButton::Middle))),
        PaneAction::TitleAction(3)
    );
    assert!(matches!(
        panes.on_event(mouse(50, 29, right)),
        PaneAction::Forward(3, _)
    ));
    assert!(matches!(
        panes.on_event(mouse(50, 28, MouseEvent::WheelUp)),
        PaneAction::Forward(3, _)
    ));
}

#[test]
fn unknown_panes_are_skipped() {
    let config = config(vec![
        column(30, &["nothing"], None),
        column(70, &["tracks", "nothing"], None),
    ]);
    let panes = PaneLayoutView::new(&config, &vec![vec![None], vec![Some(7), None]]);
    assert_eq!(panes.columns.len(), 1);
    assert_eq!(panes.columns[0].panes.len(), 1);
    assert_eq!(panes.focused_view(), Some(7));
    let none = PaneLayoutView::new(&config, &vec![vec![None], vec![None, None]]);
    assert!(none.is_empty());
    assert_eq!(none.focused_view(), None);
}

#[test]
fn focus_moves() {
    let mut panes = layout();
    assert_eq!(panes.focused_view(), Some(1));
    panes.move_focus(PaneDirection::Right);
    assert_eq!(panes.focused_view(), Some(2));
    panes.move_focus(PaneDirection::Down);
    assert_eq!(panes.focused_view(), Some(3));
    panes.move_focus(PaneDirection::Down);
    assert_eq!(panes.focused_view(), Some(3));
    panes.move_focus(PaneDirection::Left);
    assert_eq!(panes.focused_view(), Some(1));
    let walk: Vec<Option<u64>> = (0..3)
        .map(|_| {
            panes.move_focus(PaneDirection::Next);
            panes.focused_view()
        })
        .collect();
    assert_eq!(walk, vec![Some(2), Some(3), Some(1)]);
}

#[test]
fn a_pop_undoes_a_push() {
    let mut panes = layout();
    let change = panes.push_to_pane("tracks", 9).unwrap();
    assert_eq!((change.left, change.shown), (2, 9));
    assert_eq!(panes.focused_view(), Some(9));
    let change = panes.pop_focused().unwrap();
    assert_eq!((change.left, change.shown), (9, 2));
    assert_eq!(panes.columns[1].panes[0].views, vec![2]);
    assert!(panes.pop_focused().is_none());
    assert!(panes.push_to_pane("friends", 9).is_none());
}

#[test]
fn views_are_shown_in_the_tracks_pane() {
    let mut panes = layout();
    assert!(panes.show_view(false, 9).is_none());
    assert_eq!(panes.show_view(true, 9).map(|change| change.shown), Some(9));
    let config = config(vec![column(50, &["browser"], None)]);
    let mut other = PaneLayoutView::new(&config, &vec![vec![Some(1)]]);
    assert!(other.show_view(true, 9).is_none());
    assert_eq!(other.focused_view(), Some(1));
}

#[test]
fn clicks_find_their_pane() {
    let mut panes = layout();
    assert_eq!(panes.pane_at(at(39, 39)), Some((0, 0)));
    assert_eq!(panes.pane_at(at(40, 28)), Some((1, 1)));
    assert_eq!(panes.pane_at(at(100, 0)), None);
    match panes.on_event(press(50, 30)) {
        PaneAction::Forward(3, Event::Mouse { offset, .. }) => {
            // Below the title of the pane.
            assert_eq!(offset, at(5 + 40, 5 + 29));
        }
        other => panic!("the lyrics are clicked: {other:?}"),
    }
    assert_eq!(panes.focused, (1, 1));
    assert_eq!(panes.on_event(press(50, 0)), PaneAction::TitleAction(2));
    assert_eq!(
        panes.on_event(Event::Char('x')),
        PaneAction::Forward(2, Event::Char('x'))
    );
}

#[test]
fn commands_move_the_focus_or_go_on() {
    let mut panes = layout();
    assert_eq!(
        panes.on_command(&Command::FocusPane(PaneDirection::Right)),
        PaneCommand::Focused(Some(1))
    );
    assert_eq!(panes.on_command(&Command::Play), PaneCommand::Forward(2));
    match panes.after_command(&Command::Play, ViewReply::View(9)) {
        PaneReply::Changed(change) => assert_eq!(change.shown, 9),
        other => panic!("the view is pushed: {other:?}"),
    }
    match panes.after_command(&Command::Back, ViewReply::Ignored) {
        PaneReply::Changed(change) => assert_eq!(change.shown, 2),
        other => panic!("the view is popped: {other:?}"),
    }
    assert_eq!(
        panes.after_command(&Command::Back, ViewReply::Ignored),
        PaneReply::Reply(ViewReply::Ignored)
    );
}

#[test]
fn titles_show_what_can_be_done() {
    let mut panes = layout();
    panes.push_to_pane("tracks", 9);
    let title = PaneTitle {
        title: "Album".into(),
        has_menu: true,
    };
    let frame = panes.draw_title((1, 0), &title, &ConfigValues::default());
    let painted = frame
        .strokes
        .iter()
        .any(|s| matches!(&s.ink, Ink::Text(text) if text.contains("< Album ▾")));
    assert!(painted);
}

#[test]
fn a_placeholder_says_what_is_missing() {
    let pane = PlaceholderPane::new("Info".into(), "no cover".into());
    let frame = pane.draw(at(20, 5));
    assert_eq!(frame.strokes.len(), 1);
    assert_eq!(frame.strokes[0].ink, Ink::Text("no cover".into()));
    assert_eq!((frame.strokes[0].x, frame.strokes[0].y), (6, 2));
}
