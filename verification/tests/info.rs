use ncspot_core::config::{ConfigValues, IconKind, InfoConfig, LayoutConfig};
use ncspot_core::geometry::Vec2;
use ncspot_core::model::{Episode, Playable, Track};
use ncspot_core::ui::cover::{CoverStep, CoverView};
use ncspot_core::ui::dropdown::MenuResult;
use ncspot_core::ui::event::{Event, Key};
use ncspot_core::ui::info::{
    fetch_genres, genres_line, poll_marquee, GenresCache, InfoAction, InfoView, NowPlayingAction,
    PlaylistInfo,
};
use ncspot_core::ui::paint::{Effect, Ink};

fn at(x: usize, y: usize) -> Vec2 {
    Vec2 { x, y }
}

fn track(title: &str) -> Playable {
    Playable::Track(Track {
        id: Some("id".into()),
        title: title.into(),
        artists: vec!["One".into(), "Two".into()],
        artist_ids: vec!["artist".into(), "other".into()],
        album: None,
        duration: 1,
        cover_url: Some("cover".into()),
        is_local: false,
        is_playable: None,
        is_suggested: false,
    })
}

fn episode() -> Playable {
    Playable::Episode(Episode {
        id: "id".into(),
        name: "Episode".into(),
        duration: 1,
        cover_url: None,
    })
}

fn genres() -> GenresCache {
    let mut cache = GenresCache::new();
    cache.insert("artist", vec!["rock".into(), "pop".into(), "jazz".into()]);
    cache
}

fn with_genres(genres: Option<u8>) -> ConfigValues {
    ConfigValues {
        layout: Some(LayoutConfig {
            info: Some(InfoConfig { genres }),
            ..LayoutConfig::default()
        }),
        ..Default::default()
    }
}

fn text(ink: &Ink) -> &str {
    match ink {
        Ink::Text(text) => text,
        Ink::Blank(_) => "",
    }
}

#[test]
fn genres_are_fetched_once_per_artist() {
    let cache = GenresCache::new();
    assert_eq!(fetch_genres(&cache, &track("t")).as_deref(), Some("artist"));
    assert_eq!(fetch_genres(&genres(), &track("t")), None);
    assert_eq!(fetch_genres(&cache, &episode()), None);
}

#[test]
fn the_first_genres_are_shown() {
    let cache = genres();
    let line = |values: &ConfigValues, playable: &Playable| genres_line(values, &cache, playable);
    assert_eq!(line(&ConfigValues::default(), &track("t")), "rock · pop");
    assert_eq!(line(&with_genres(None), &track("t")), "rock · pop");
    assert_eq!(line(&with_genres(Some(1)), &track("t")), "rock");
    assert_eq!(line(&with_genres(Some(9)), &track("t")), "rock · pop · jazz");
    assert_eq!(line(&with_genres(Some(0)), &track("t")), "");
    assert_eq!(line(&with_genres(None), &episode()), "");
    assert_eq!(
        genres_line(&with_genres(None), &GenresCache::new(), &track("t")),
        ""
    );
}

#[test]
fn what_is_playing_is_drawn() {
    let mut view = InfoView::new(CoverView::new());
    let values = ConfigValues::default();
    let playing = track("Song");
    let (frame, step) = view.draw(Some(&playing), at(3, 5), at(20, 10), &values, &genres(), 0);
    assert_eq!(step, CoverStep::Emit);
    // Six rows of cover, and three of text below an empty one.
    assert_eq!(frame.strokes.len(), 9);
    let title = &frame.strokes[6];
    assert_eq!((title.x, title.y, text(&title.ink)), (8, 7, "Song"));
    assert_eq!(title.style.effect, Effect::Bold);
    let artists = &frame.strokes[7];
    assert_eq!((artists.x, artists.y, text(&artists.ink)), (6, 8, "One, Two"));
    let genres = &frame.strokes[8];
    assert_eq!((genres.x, genres.y, text(&genres.ink)), (5, 9, "rock · pop"));
    assert_eq!(genres.style.effect, Effect::Dim);
}

#[test]
fn nothing_is_playing() {
    let mut view = InfoView::new(CoverView::new());
    let values = ConfigValues::default();
    let cache = GenresCache::new();
    let (frame, step) = view.draw(None, at(0, 0), at(20, 10), &values, &cache, 0);
    assert_eq!(step, CoverStep::Nothing);
    assert_eq!(frame.strokes.len(), 6);
    let (frame, _) = view.draw(Some(&episode()), at(0, 0), at(20, 3), &values, &cache, 0);
    assert_eq!(frame.strokes.len(), 3);
    assert_eq!(text(&frame.strokes[1].ink), "");
}

#[test]
fn long_titles_scroll() {
    let title: String = "abcdefghijklmnopqrstuvwxyz01".into();
    let playing = track(&title);
    let values = ConfigValues::default();
    let cache = GenresCache::new();
    let shown = |elapsed_ms| {
        let mut view = InfoView::new(CoverView::new());
        let size = at(10, 10);
        let (frame, _) = view.draw(Some(&playing), at(0, 0), size, &values, &cache, elapsed_ms);
        text(&frame.strokes[6].ink).to_string()
    };
    assert_eq!(shown(0), "abcdefghij");
    assert_eq!(shown(219), "abcdefghij");
    assert_eq!(shown(220), "bcdefghijk");
    assert_eq!(shown(26 * 220), "01    abcd");
    assert_eq!(shown(32 * 220), shown(0));
    let poll = poll_marquee(Some(&playing));
    assert_eq!((poll.redraw, poll.wait_ms), (true, 220));
    let poll = poll_marquee(Some(&track("abcdefghijklmnopqrstuvwxyz0")));
    assert_eq!((poll.redraw, poll.wait_ms), (false, 400));
    assert_eq!(poll_marquee(None), poll);
}

#[test]
fn the_menu_of_a_track() {
    let mut view = InfoView::new(CoverView::new());
    let values = ConfigValues::default();
    view.draw(None, at(3, 5), at(41, 10), &values, &GenresCache::new(), 0);
    assert!(view.open_dropdown(None, true, &values).is_none());
    assert!(!view.cover.paused);
    let dropdown = view
        .open_dropdown(Some(&track("t")), true, &values)
        .unwrap();
    assert!(view.cover.paused);
    // The title has 11 cells, and four more around it.
    assert_eq!(dropdown.anchor, at(3 + 13, 5));
    let frame = dropdown.menu.draw(30);
    let labels: Vec<&str> = frame
        .strokes
        .iter()
        .map(|s| text(&s.ink))
        .filter(|t| !t.is_empty())
        .collect();
    let icon = |kind| values.icon(kind);
    assert_eq!(
        labels,
        vec![
            format!(" {}Add to queue ", icon(IconKind::MenuAddToQueue)),
            format!(" {}Add to playlist ", icon(IconKind::MenuAddToPlaylist)),
            format!(" {}Remove from playlist ", icon(IconKind::MenuRemoveFromPlaylist)),
            format!(" {}Share ", icon(IconKind::MenuShare)),
        ]
    );
    let mut menu = dropdown.menu;
    menu.on_event(Event::Key(Key::Down));
    assert_eq!(
        menu.on_event(Event::Key(Key::Enter)),
        MenuResult::Chosen(NowPlayingAction::AddToPlaylist)
    );
    view.close_dropdown();
    assert!(!view.cover.paused);
}

#[test]
fn the_menu_of_an_episode() {
    let mut view = InfoView::new(CoverView::new());
    let values = ConfigValues::default();
    let mut dropdown = view
        .open_dropdown(Some(&episode()), false, &values)
        .unwrap();
    assert_eq!(dropdown.menu.required_size().y, 1);
    assert_eq!(
        dropdown.menu.on_event(Event::Key(Key::Down)),
        MenuResult::Ignored
    );
}

#[test]
fn choices_of_the_menu() {
    let mut view = InfoView::new(CoverView::new());
    let playlists = vec![
        PlaylistInfo {
            owner_id: "me".into(),
            collaborative: false,
            has_track: true,
        },
        PlaylistInfo {
            owner_id: "you".into(),
            collaborative: false,
            has_track: true,
        },
        PlaylistInfo {
            owner_id: "you".into(),
            collaborative: true,
            has_track: true,
        },
        PlaylistInfo {
            owner_id: "me".into(),
            collaborative: false,
            has_track: false,
        },
    ];
    let playing = track("t");
    let podcast = episode();
    let mut run = |action, current: Option<&Playable>, user: Option<&str>| {
        view.cover.pause(true);
        let result = view.on_choice(action, current, Some("link".into()), &playlists, user);
        assert!(!view.cover.paused);
        result
    };
    assert_eq!(run(NowPlayingAction::AddToQueue, None, None), InfoAction::Nothing);
    assert_eq!(run(NowPlayingAction::AddToQueue, Some(&podcast), None), InfoAction::QueueNext);
    assert_eq!(run(NowPlayingAction::AddToPlaylist, Some(&podcast), None), InfoAction::Nothing);
    assert_eq!(
        run(NowPlayingAction::AddToPlaylist, Some(&playing), None),
        InfoAction::AskForPlaylist
    );
    assert_eq!(
        run(NowPlayingAction::RemoveFromPlaylist, Some(&playing), Some("me")),
        InfoAction::AskForRemoval(vec![0, 2])
    );
    assert_eq!(
        run(NowPlayingAction::RemoveFromPlaylist, Some(&playing), None),
        InfoAction::AskForRemoval(vec![2])
    );
    assert_eq!(
        run(NowPlayingAction::RemoveFromPlaylist, Some(&podcast), Some("me")),
        InfoAction::Nothing
    );
    assert_eq!(
        run(NowPlayingAction::Share, Some(&podcast), None),
        InfoAction::Share("link".into())
    );
    let none = view.on_choice(NowPlayingAction::RemoveFromPlaylist, Some(&playing), None, &[], Some("me"));
    assert_eq!(none, InfoAction::NotInPlaylists);
    let none = view.on_choice(NowPlayingAction::Share, Some(&playing), None, &[], None);
    assert_eq!(none, InfoAction::Nothing);
}
