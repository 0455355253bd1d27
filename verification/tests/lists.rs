use ncspot_core::command::{
    Command, GotoMode, JumpMode, MoveAmount, MoveMode, SortDirection, SortKey, TargetMode,
};
use ncspot_core::config::{ConfigValues, PlaylistOrders, SortingOrder};
use ncspot_core::geometry::Vec2;
use ncspot_core::ui::event::{Event, Key, MouseButton, MouseEvent};
use ncspot_core::ui::listview::{
    played_items, reply, ListAction, ListReply, ListRow, ListTarget, ListView, NowPlaying,
    Pagination,
};
use ncspot_core::ui::paint::{Ink, Style};
use ncspot_core::ui::slots::SlotImage;
use ncspot_core::ui::tracklist::{TrackAction, TrackListView, TrackRow};

fn at(x: usize, y: usize) -> Vec2 {
    Vec2 { x, y }
}

fn row(left: &str) -> ListRow {
    ListRow {
        left: left.into(),
        center: String::new(),
        right: "3:00".into(),
        is_playing: false,
        track: None,
        artists: Some(2),
        cover_url: Some(format!("cover of {left}")),
        share_url: None,
    }
}

fn rows(names: &[&str]) -> Vec<ListRow> {
    names.iter().map(|name| row(name)).collect()
}

fn complete(len: usize) -> Pagination {
    Pagination {
        max_content: None,
        loaded_content: len,
    }
}

fn list(len: usize) -> ListView {
    ListView::new(complete(len), false, len).0
}

fn track_row(title: &str, subtitle: &str) -> TrackRow {
    TrackRow {
        title: title.into(),
        artist_names: subtitle.into(),
        album: "Album".into(),
        subtitle: subtitle.into(),
        duration: "3:00".into(),
        is_playing: false,
        is_track: true,
        artists: Some(1),
        cover_url: None,
        share_url: Some("link".into()),
    }
}

fn track_rows() -> Vec<TrackRow> {
    vec![
        track_row("Alpha", "One"),
        track_row("Beta", "Two"),
        track_row("Gamma", "One"),
    ]
}

fn run(view: &mut ListView, command: Command, rows: &[ListRow]) -> ListAction {
    view.on_command(&command, rows, &ConfigValues::default(), &None)
}

#[test]
fn the_selection_stays_on_an_item() {
    let rows = rows(&["a", "b", "c"]);
    let mut view = list(3);
    let down = |n| Command::Move(MoveMode::Down, MoveAmount::Integer(n));
    let up = |n| Command::Move(MoveMode::Up, MoveAmount::Integer(n));
    assert_eq!(run(&mut view, down(1), &rows), ListAction::Consume);
    assert_eq!(view.get_selected_index(), 1);
    run(&mut view, down(10), &rows);
    assert_eq!(view.get_selected_index(), 2);
    run(&mut view, up(10), &rows);
    assert_eq!(view.get_selected_index(), 0);
    run(&mut view, Command::Move(MoveMode::Down, MoveAmount::Extreme), &rows);
    assert_eq!(view.get_selected_index(), 2);
    run(&mut view, Command::Move(MoveMode::Up, MoveAmount::Extreme), &rows);
    assert_eq!(view.get_selected_index(), 0);
}

#[test]
fn jumps_undo_each_other() {
    let rows = rows(&["Alpha", "beta", "ALBUM", "gamma", "al"]);
    let mut view = list(5);
    run(&mut view, Command::Jump(JumpMode::Query("al".into())), &rows);
    assert_eq!(view.search_indexes, vec![0, 2, 4]);
    assert_eq!(view.get_selected_index(), 0);
    run(&mut view, Command::Jump(JumpMode::Next), &rows);
    assert_eq!(view.get_selected_index(), 2);
    run(&mut view, Command::Jump(JumpMode::Next), &rows);
    assert_eq!(view.get_selected_index(), 4);
    run(&mut view, Command::Jump(JumpMode::Previous), &rows);
    assert_eq!(view.get_selected_index(), 2);
    run(&mut view, Command::Jump(JumpMode::Previous), &rows);
    run(&mut view, Command::Jump(JumpMode::Previous), &rows);
    assert_eq!(view.get_selected_index(), 4);
    run(&mut view, Command::Jump(JumpMode::Next), &rows);
    assert_eq!(view.get_selected_index(), 0);
    assert_eq!(ListView::get_indexes_of(&rows, "mm"), vec![3]);
    assert!(ListView::get_indexes_of(&rows, "zzz").is_empty());
}

#[test]
fn jumps_walk_the_results() {
    let rows = rows(&["Alpha", "beta", "ALBUM", "gamma", "al"]);
    let mut view = list(5);
    run(&mut view, Command::Jump(JumpMode::Query("al".into())), &rows);
    for k in 0..7 {
        assert_eq!(view.get_selected_index(), [0, 2, 4][k % 3]);
        assert_eq!(
            run(&mut view, Command::Jump(JumpMode::Next), &rows),
            ListAction::Consume
        );
    }
    let selected = view.get_selected_index();
    let query = Command::Jump(JumpMode::Query("zzz".into()));
    assert_eq!(run(&mut view, query, &rows), ListAction::Consume);
    assert_eq!(
        run(&mut view, Command::Jump(JumpMode::Next), &rows),
        ListAction::Ignore
    );
    assert_eq!(
        run(&mut view, Command::Jump(JumpMode::Previous), &rows),
        ListAction::Ignore
    );
    assert_eq!(view.get_selected_index(), selected);
}

#[test]
fn commands_on_the_selected_item() {
    let rows = rows(&["a", "b"]);
    let mut view = list(2);
    run(&mut view, Command::Move(MoveMode::Down, MoveAmount::Integer(1)), &rows);
    assert_eq!(run(&mut view, Command::Play, &rows), ListAction::PlayItem(Some(1)));
    assert_eq!(run(&mut view, Command::PlayNext, &rows), ListAction::PlayNext(1));
    assert_eq!(run(&mut view, Command::Queue, &rows), ListAction::Queue(1));
    assert_eq!(run(&mut view, Command::Save, &rows), ListAction::Save(1));
    assert_eq!(run(&mut view, Command::Delete, &rows), ListAction::Unsave(1));
    assert_eq!(
        run(&mut view, Command::Open(TargetMode::Selected), &rows),
        ListAction::Open(ListTarget::Item(1))
    );
    assert_eq!(
        run(&mut view, Command::Goto(GotoMode::Artist), &rows),
        ListAction::SelectArtist(1)
    );
    let playing = Some(NowPlaying { shareable: true });
    let values = ConfigValues::default();
    assert_eq!(
        view.on_command(&Command::Share(TargetMode::Current), &rows, &values, &playing),
        ListAction::Share(ListTarget::Playing)
    );
    assert_eq!(run(&mut view, Command::Other, &rows), ListAction::Ignore);
}

#[test]
fn playable_lists_play_through() {
    let rows = rows(&["a", "b"]);
    let mut view = ListView::new(complete(2), true, 2).0;
    run(&mut view, Command::Move(MoveMode::Down, MoveAmount::Integer(1)), &rows);
    assert_eq!(run(&mut view, Command::Play, &rows), ListAction::PlayAll(1));
}

#[test]
fn playing_starts_with_the_selected_item() {
    let rows = rows(&["a", "b", "c"]);
    let down = Command::Move(MoveMode::Down, MoveAmount::Integer(1));
    let mut tracks = ListView::new(complete(3), true, 3).0;
    run(&mut tracks, down.clone(), &rows);
    assert_eq!(tracks.attempt_play_all_tracks(3), Some(vec![1, 2]));
    assert_eq!(played_items(run(&mut tracks, Command::Play, &rows), 3), vec![1, 2]);
    let mut others = list(3);
    run(&mut others, down, &rows);
    assert_eq!(others.attempt_play_all_tracks(3), None);
    assert_eq!(played_items(run(&mut others, Command::Play, &rows), 3), vec![1]);
    assert!(played_items(ListAction::PlayItem(None), 3).is_empty());
    assert!(played_items(ListAction::Queue(1), 3).is_empty());
}

#[test]
fn replies_follow_from_actions() {
    assert_eq!(reply(ListAction::Ignore, true, true), ListReply::Ignored);
    assert_eq!(reply(ListAction::Consume, true, true), ListReply::Consumed);
    let open = ListAction::Open(ListTarget::Item(0));
    assert_eq!(reply(open, true, true), ListReply::View);
    assert_eq!(reply(open, true, false), ListReply::Modal);
    // A click opens no menu.
    assert_eq!(reply(ListAction::Click(0), true, true), ListReply::View);
    assert_eq!(reply(ListAction::Click(0), true, false), ListReply::Consumed);
}

#[test]
fn more_items_are_announced() {
    let pagination = Pagination {
        max_content: Some(10),
        loaded_content: 2,
    };
    let (view, _) = ListView::new(pagination, false, 2);
    let rows = rows(&["a", "b"]);
    assert!(view.can_paginate());
    assert_eq!(view.content_len(2, true), 3);
    assert_eq!(view.content_len(2, false), 2);
    let frame = view.draw_line(&rows, 2, 40, &ConfigValues::default(), at(8, 16), None);
    assert_eq!(frame.strokes.len(), 1);
    assert_eq!(
        frame.strokes[0].ink,
        Ink::Text("8 more items, scroll to load".into())
    );
    assert!(!list(2).can_paginate());
}

#[test]
fn lines_of_a_list() {
    let rows = rows(&["a long name that does not fit", "b"]);
    let view = list(2);
    let values = ConfigValues::default();
    let frame = view.draw_line(&rows, 0, 20, &values, at(8, 16), None);
    let inks: Vec<(usize, Ink)> = frame.strokes.iter().map(|s| (s.x, s.ink.clone())).collect();
    assert_eq!(
        inks,
        vec![
            (0, Ink::Blank(20)),
            (0, Ink::Text("a long name that does not fit".into())),
            (14, Ink::Blank(20)),
            (14, Ink::Text("..".into())),
            (16, Ink::Text("3:00".into())),
        ]
    );
    assert!(frame.strokes.iter().all(|s| s.style == Style::highlight()));
    let frame = view.draw_line(&rows, 1, 20, &values, at(8, 16), None);
    assert_eq!(frame.strokes.len(), 3);
    assert_eq!(frame.strokes[0].style, Style::primary());
}

#[test]
fn lists_have_thumbnails() {
    let rows = rows(&["a", "b"]);
    let view = list(2).with_thumbnails(true);
    let values = ConfigValues::default();
    assert_eq!(view.row_height(&values), 2);
    // Two rows of 16 pixels are four columns of 8.
    assert_eq!(view.thumb_columns(&values, at(8, 16)), 4);
    assert_eq!(
        view.thumbnail(&rows, 2, &values, at(8, 16)),
        Some((1, SlotImage::Image("cover of b".into()), 32))
    );
    assert_eq!(view.thumbnail(&rows, 3, &values, at(8, 16)), None);
    assert_eq!(view.thumbnail(&rows, 4, &values, at(8, 16)), None);
    assert_eq!(list(2).thumbnail(&rows, 0, &values, at(8, 16)), None);
}

#[test]
fn leaving_erases_thumbnails() {
    let mut view = list(2).with_thumbnails(true);
    let values = ConfigValues::default();
    assert_eq!(view.on_leave(&values, at(8, 16)), None);
    view.slots.emitted(0, &SlotImage::Image("x".into()), at(2, 5));
    assert_eq!(
        view.on_leave(&values, at(8, 16)).as_deref(),
        Some("\x1b[?2026h\x1b7\x1b[6;3H    \x1b[7;3H    \x1b8\x1b[?2026l")
    );
    assert_eq!(view.on_leave(&values, at(8, 16)), None);
}

#[test]
fn a_new_size_emits_thumbnails_again() {
    let mut view = list(2).with_thumbnails(true);
    let values = ConfigValues::default();
    view.slots.emitted(0, &SlotImage::Image("x".into()), at(2, 5));
    let layout = view.layout(at(30, 10), 2, &values);
    assert!(layout.redraw && layout.relayout);
    assert_eq!(layout.content_rows, 4);
    assert!(view.slots.occupied().is_empty());
    assert!(!view.layout(at(30, 10), 2, &values).redraw);
}

#[test]
fn the_filter_keeps_the_order() {
    let rows = track_rows();
    let values = ConfigValues::default();
    let mut view = TrackListView::new(&rows, false);
    assert_eq!(view.filtered, vec![0, 1, 2]);
    view.layout(at(40, 20), &rows, &values);
    assert_eq!(view.on_event(Event::Char('/'), &rows, &values), TrackAction::Consume);
    for c in "ONE".chars() {
        view.on_event(Event::Char(c), &rows, &values);
    }
    assert_eq!(view.filtered, vec![0, 2]);
    view.on_event(Event::Key(Key::Enter), &rows, &values);
    assert!(!view.filter_active);
    let down = Command::Move(MoveMode::Down, MoveAmount::Integer(1));
    view.on_command(&down, &rows, &values, None, false);
    assert_eq!(view.selected_item(3), Some(2));
    assert_eq!(
        view.on_command(&Command::Play, &rows, &values, None, false),
        TrackAction::Play(2)
    );
}

#[test]
fn the_filter_goes_by_title_artists_and_album() {
    let mut rows = track_rows();
    rows[1].album = "Sessions".into();
    let values = ConfigValues::default();
    let passing = |text: &str| {
        let mut view = TrackListView::new(&rows, false);
        view.layout(at(40, 20), &rows, &values);
        view.on_event(Event::Char('/'), &rows, &values);
        for c in text.chars() {
            view.on_event(Event::Char(c), &rows, &values);
        }
        view.filtered
    };
    assert_eq!(passing("gamma"), vec![2]);
    assert_eq!(passing("two"), vec![1]);
    assert_eq!(passing("session"), vec![1]);
    // Each is searched by itself, and nothing else is.
    assert_eq!(passing("betatwo"), Vec::<usize>::new());
    assert_eq!(passing("3:00"), Vec::<usize>::new());
    assert_eq!(passing("link"), Vec::<usize>::new());
}

#[test]
fn orders_are_remembered() {
    let rows = track_rows();
    let mut orders = PlaylistOrders::new();
    let (view, order) = TrackListView::new(&rows, false).with_sort_context("list", &orders);
    assert!(order.is_none());
    let mut view = view;
    let sort = Command::Sort(SortKey::Artist, SortDirection::Descending);
    match view.on_command(&sort, &rows, &ConfigValues::default(), None, false) {
        TrackAction::Sort(key, direction) => view.remember_order(&mut orders, key, direction),
        other => panic!("the list is sorted: {other:?}"),
    }
    let expected = SortingOrder {
        key: SortKey::Artist,
        direction: SortDirection::Descending,
    };
    let (_, order) = TrackListView::new(&rows, false).with_sort_context("list", &orders);
    assert_eq!(order, Some(expected));
    let (_, other) = TrackListView::new(&rows, false).with_sort_context("other", &orders);
    assert!(other.is_none());
    // Without a context nothing is kept.
    TrackListView::new(&rows, false).remember_order(
        &mut orders,
        SortKey::Title,
        SortDirection::Ascending,
    );
    assert_eq!(orders.get("list"), Some(&expected));
}

#[test]
fn tracks_have_thumbnails() {
    let mut rows = track_rows();
    rows[1].cover_url = Some("cover".into());
    let values = ConfigValues::default();
    let mut view = TrackListView::new(&rows, true);
    let size = at(40, 11);
    view.layout(size, &rows, &values);
    let thumbnails = view.thumbnails(&rows, at(2, 3), size, &values, at(8, 16));
    let images: Vec<SlotImage> = thumbnails.iter().map(|t| t.image.clone()).collect();
    assert_eq!(images[0], SlotImage::Blank);
    assert_eq!(images[1], SlotImage::Image("cover".into()));
    assert_eq!(images[2], SlotImage::Blank);
    assert!(images[3..].iter().all(|image| *image == SlotImage::Empty));
    assert!(thumbnails.iter().all(|t| t.position.x == 2));
}

#[test]
fn clicks_select_items() {
    let rows = rows(&["a", "b", "c"]);
    let mut view = list(3);
    let values = ConfigValues::default();
    view.layout(at(20, 10), 3, &values);
    let wheel = Event::Mouse {
        offset: at(0, 0),
        position: at(1, 1),
        event: MouseEvent::WheelUp,
    };
    assert_eq!(view.on_event(wheel, &rows, &values), ListAction::Consume);
    let release = Event::Mouse {
        offset: at(0, 0),
        position: at(1, 1),
        event: MouseEvent::Release(MouseButton::Left),
    };
    assert_eq!(view.on_event(release, &rows, &values), ListAction::Consume);
    assert_eq!(view.on_event(Event::Char('x'), &rows, &values), ListAction::Ignore);
}
