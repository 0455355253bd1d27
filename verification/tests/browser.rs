use ncspot_core::command::{Command, TargetMode};
use ncspot_core::config::{BrowserConfig, ConfigValues, LayoutConfig};
use ncspot_core::geometry::Vec2;
use ncspot_core::ui::browser::{
    recommendation_seeds, BrowserCommand, BrowserEvent, BrowserSection, BrowserView,
    SectionOrders, SectionView,
};
use ncspot_core::ui::event::{Event, Key, MouseButton, MouseEvent};
use ncspot_core::ui::listview::Pagination;
use ncspot_core::ui::paint::{Ink, Style};
use ncspot_core::ui::slots::SlotImage;

fn at(x: usize, y: usize) -> Vec2 {
    Vec2 { x, y }
}

fn strings(names: &[&str]) -> Vec<String> {
    names.iter().map(|name| name.to_string()).collect()
}

fn values(browser: BrowserConfig) -> ConfigValues {
    ConfigValues {
        layout: Some(LayoutConfig {
            browser: Some(browser),
            ..LayoutConfig::default()
        }),
        ..Default::default()
    }
}

fn make(values: &ConfigValues, playlists: &[&str]) -> (BrowserView, Option<SectionOrders>) {
    let complete = Pagination {
        max_content: None,
        loaded_content: 0,
    };
    let names = strings(playlists);
    BrowserView::new(values, &names, &strings(&["b", "a"]), &[], true, complete)
}

fn with_sections(names: &[&str], default_section: Option<&str>) -> BrowserView {
    let options = BrowserConfig {
        sections: Some(strings(names)),
        default_section: default_section.map(String::from),
        ..Default::default()
    };
    make(&values(options), &[]).0
}

fn mouse(position: Vec2, button: MouseButton) -> Event {
    Event::Mouse {
        offset: at(10, 10),
        position,
        event: MouseEvent::Press(button),
    }
}

#[test]
fn sections_are_configured() {
    let (view, orders) = make(&ConfigValues::default(), &["x"]);
    assert_eq!(
        view.sections,
        vec![BrowserSection::Search, BrowserSection::Playlists, BrowserSection::Albums, BrowserSection::Artists, BrowserSection::Recommendations]
    );
    assert_eq!(view.section, BrowserSection::Playlists);
    assert!(orders.is_none());
    assert!(view.playlists.images && view.albums.images && !view.artists.images);

    let view = with_sections(&["artists", "unknown", "search"], Some("search"));
    assert_eq!(view.sections, vec![BrowserSection::Artists, BrowserSection::Search]);
    assert_eq!(view.section, BrowserSection::Search);
    // A section that is not in the menu is not shown first.
    let view = with_sections(&["search", "albums"], Some("artists"));
    assert_eq!(view.section, BrowserSection::Albums);
    let view = with_sections(&["search"], None);
    assert_eq!(view.section, BrowserSection::Search);
    let view = with_sections(&["nothing", "Search"], None);
    assert_eq!(view.sections.len(), 5);
}

#[test]
fn lists_are_sorted_by_name() {
    let options = BrowserConfig {
        sort: Some("name".into()),
        ..Default::default()
    };
    let (_, orders) = make(&values(options), &["beta", "Alpha", "ALPHA", "al", "Ärger", "zed"]);
    let orders = orders.unwrap();
    assert_eq!(orders.playlists, vec![3, 1, 2, 0, 5, 4]);
    assert_eq!(orders.albums, vec![1, 0]);
    assert!(orders.artists.is_empty());
    let options = BrowserConfig {
        sort: Some("default".into()),
        ..Default::default()
    };
    assert!(make(&values(options), &["b", "a"]).1.is_none());
}

#[test]
fn switching_sections() {
    let (mut view, _) = make(&ConfigValues::default(), &["x"]);
    view.playlists
        .slots
        .emitted(0, &SlotImage::Image("a".into()), at(1, 1));
    view.albums
        .slots
        .emitted(0, &SlotImage::Image("a".into()), at(1, 1));
    assert!(!view.set_section(BrowserSection::Albums));
    assert_eq!(view.title(), "Albums");
    assert!(view.playlists.slots.occupied().is_empty());
    assert!(view.albums.slots.occupied().is_empty());
    // Recommendations are fetched on the first visit.
    assert!(view.set_section(BrowserSection::Recommendations));
    assert!(!view.set_section(BrowserSection::Recommendations));
    assert!(!view.search.active);
    assert!(!view.set_section(BrowserSection::Search));
    assert!(view.search.active);
}

#[test]
fn seeds_are_saved_tracks() {
    assert!(recommendation_seeds(&[]).is_none());
    assert!(recommendation_seeds(&[None, None]).is_none());
    let saved: Vec<Option<String>> = vec![Some("a".into()), None, Some("b".into())];
    let mut seeds = recommendation_seeds(&saved).unwrap();
    seeds.sort();
    assert_eq!(seeds, vec!["a", "b"]);
    let saved: Vec<Option<String>> = (0..50).map(|n| Some(format!("{n}"))).collect();
    let mut seeds = recommendation_seeds(&saved).unwrap();
    assert_eq!(seeds.len(), 5);
    seeds.sort();
    seeds.dedup();
    assert_eq!(seeds.len(), 5);
    assert!(seeds.iter().all(|seed| saved.contains(&Some(seed.clone()))));
}

#[test]
fn searching_in_the_pane() {
    let mut view = with_sections(&["search"], None);
    assert!(matches!(
        view.on_event(Event::Key(Key::Down)),
        BrowserEvent::Ignored
    ));
    assert!(matches!(
        view.on_event(Event::Char('/')),
        BrowserEvent::Consumed
    ));
    for c in ['a', 'ß', 'q'] {
        assert!(matches!(view.on_event(Event::Char(c)), BrowserEvent::Consumed));
    }
    assert_eq!(view.search.input, "aßq");
    view.on_event(Event::Key(Key::Backspace));
    assert_eq!(view.search.input, "aß");
    assert!(matches!(
        view.on_event(Event::Key(Key::Down)),
        BrowserEvent::Ignored
    ));
    match view.on_event(Event::Key(Key::Enter)) {
        BrowserEvent::Search(query) => assert_eq!(query, "aß"),
        other => panic!("the query is submitted: {other:?}"),
    }
    assert!(!view.search.active && view.search.has_results);
    assert!(matches!(
        view.on_event(Event::Key(Key::Down)),
        BrowserEvent::Forward(SectionView::SearchResults, Event::Key(Key::Down))
    ));
}

#[test]
fn an_empty_query_is_not_submitted() {
    let mut view = with_sections(&["search"], None);
    view.on_event(Event::Char('/'));
    view.on_event(Event::Key(Key::Backspace));
    assert!(matches!(
        view.on_event(Event::Key(Key::Enter)),
        BrowserEvent::Consumed
    ));
    assert!(!view.search.active && !view.search.has_results);
    view.on_event(Event::Char('/'));
    view.on_event(Event::Char('x'));
    view.on_event(Event::Key(Key::Esc));
    assert!(!view.search.active);
    assert_eq!(view.search.input, "x");
}

#[test]
fn clicks_in_the_search() {
    let mut view = with_sections(&["search"], None);
    assert!(matches!(
        view.on_event(mouse(at(12, 11), MouseButton::Left)),
        BrowserEvent::Ignored
    ));
    assert!(matches!(
        view.on_event(mouse(at(12, 10), MouseButton::Left)),
        BrowserEvent::Consumed
    ));
    assert!(view.search.active);
    view.search.active = false;
    view.search.has_results = true;
    match view.on_event(mouse(at(12, 13), MouseButton::Left)) {
        BrowserEvent::Forward(
            SectionView::SearchResults,
            Event::Mouse {
                offset, position, ..
            },
        ) => {
            assert_eq!(offset, at(10, 11));
            assert_eq!(position, at(12, 13));
        }
        other => panic!("the results are clicked: {other:?}"),
    }
}

#[test]
fn events_go_to_the_section() {
    let mut view = with_sections(&["artists", "albums"], None);
    assert!(matches!(
        view.on_event(Event::Char('/')),
        BrowserEvent::Forward(SectionView::Artists, Event::Char('/'))
    ));
    view.set_section(BrowserSection::Albums);
    assert_eq!(view.section_view(), SectionView::Albums);
    assert_eq!(view.layout(at(5, 6)), Some((SectionView::Albums, at(5, 6))));
}

#[test]
fn drawing_the_search() {
    let mut view = with_sections(&["search"], None);
    let drawing = view.draw(at(1, 2), at(30, 8));
    assert!(drawing.inner.is_none());
    assert_eq!(drawing.frame.strokes.len(), 2);
    assert_eq!(drawing.frame.strokes[0].ink, Ink::Blank(30));
    assert_eq!(drawing.frame.strokes[1].ink, Ink::Text("Search…".into()));
    assert_eq!(drawing.frame.strokes[1].style, Style::secondary());
    view.on_event(Event::Char('/'));
    view.on_event(Event::Char('x'));
    let drawing = view.draw(at(1, 2), at(30, 8));
    assert_eq!(drawing.frame.strokes[1].ink, Ink::Text("x▏".into()));
    assert_eq!(drawing.frame.strokes[1].style, Style::highlight());
    view.on_event(Event::Key(Key::Enter));
    let drawing = view.draw(at(1, 2), at(30, 8));
    assert_eq!(drawing.frame.strokes[1].ink, Ink::Text("x".into()));
    assert_eq!(
        drawing.inner,
        Some((SectionView::SearchResults, at(1, 3), at(30, 7)))
    );
    assert_eq!(
        view.layout(at(30, 8)),
        Some((SectionView::SearchResults, at(30, 7)))
    );
}

#[test]
fn drawing_a_list() {
    let mut view = with_sections(&["albums"], None);
    let drawing = view.draw(at(1, 2), at(30, 8));
    assert!(drawing.frame.strokes.is_empty());
    assert_eq!(drawing.inner, Some((SectionView::Albums, at(1, 2), at(30, 8))));
    assert_eq!((view.last_offset, view.last_content_w), (at(1, 2), 30));
}

#[test]
fn commands_open_things() {
    let (mut view, _) = make(&ConfigValues::default(), &["x"]);
    let current = Command::Open(TargetMode::Current);
    let selected = Command::Open(TargetMode::Selected);
    assert_eq!(view.on_command(&current, 1, 0, 0), BrowserCommand::OpenDropdown);
    assert_eq!(
        view.on_command(&selected, 1, 0, 0),
        BrowserCommand::OpenItem(SectionView::Playlists, 0)
    );
    assert_eq!(
        view.on_command(&selected, 0, 1, 1),
        BrowserCommand::Forward(SectionView::Playlists)
    );
    assert_eq!(
        view.on_command(&Command::Play, 1, 1, 1),
        BrowserCommand::Forward(SectionView::Playlists)
    );
    view.set_section(BrowserSection::Recommendations);
    assert_eq!(
        view.on_command(&selected, 1, 1, 1),
        BrowserCommand::Forward(SectionView::Recommendations)
    );
    view.set_section(BrowserSection::Search);
    assert_eq!(
        view.on_command(&selected, 1, 1, 1),
        BrowserCommand::Forward(SectionView::Playlists)
    );
}

#[test]
fn the_menu_switches_sections() {
    let config = ConfigValues::default();
    let (mut view, _) = make(&config, &["x"]);
    view.draw(at(2, 7), at(31, 8));
    view.set_section(BrowserSection::Artists);
    let dropdown = view.open_dropdown(&config);
    // The title has 7 cells, and four more around it.
    assert_eq!(dropdown.anchor, at(2 + 10, 7));
    let mut menu = dropdown.menu;
    let frame = menu.draw(20);
    assert_eq!(frame.strokes.len(), 10);
    assert_eq!(frame.strokes[1].ink, Ink::Text(" / Search ".into()));
    assert_eq!(frame.strokes[9].ink, Ink::Text(" * Recommendations ".into()));
    // The current section has the focus.
    assert_ne!(frame.strokes[7].style, frame.strokes[9].style);
    assert_eq!(frame.strokes[1].style, frame.strokes[9].style);
    menu.on_event(Event::Key(Key::Up));
    assert!(matches!(
        menu.on_event(Event::Key(Key::Enter)),
        ncspot_core::ui::dropdown::MenuResult::Chosen(BrowserSection::Albums)
    ));
}
