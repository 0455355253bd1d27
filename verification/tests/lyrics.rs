use ncspot_core::command::{Command, MoveAmount, MoveMode};
use ncspot_core::config::{ConfigValues, LyricsAlign, LyricsConfig};
use ncspot_core::geometry::Vec2;
use ncspot_core::lyrics::lrc::{parse, parse_timestamp};
use ncspot_core::lyrics::lrclib::{
    after_lookup, convert, lookup_query, pick, search_query, AfterLookUp, LookUpReply,
    LrclibResponse,
};
use ncspot_core::lyrics::spotify::{
    convert as convert_spotify, fetch, ColorLyrics, ColorLyricsLine,
};
use ncspot_core::lyrics::{
    cache_file_name, resolve, LookUpAction, LookUpEvent, Lyrics, LyricsLine, LyricsManager,
    LyricsSource, LyricsStatus,
};
use ncspot_core::model::{Episode, Playable, Track};
use ncspot_core::ui::event::{Event, Handled, MouseEvent};
use ncspot_core::ui::lyrics::{
    display_rows, lines, LyricsContent, LyricsSection, LyricsView, QueueEntry,
};
use ncspot_core::ui::paint::{Frame, Ink};

fn at(x: usize, y: usize) -> Vec2 {
    Vec2 { x, y }
}

fn track(id: Option<&str>) -> Playable {
    Playable::Track(Track {
        id: id.map(String::from),
        title: "Song".into(),
        artists: vec!["One".into()],
        artist_ids: vec![],
        album: None,
        duration: 60_000,
        cover_url: None,
        is_local: id.is_none(),
        is_playable: None,
        is_suggested: false,
    })
}

fn episode() -> Playable {
    Playable::Episode(Episode {
        id: "episode".into(),
        name: "Episode".into(),
        duration: 60_000,
        cover_url: None,
    })
}

fn synced(times: &[u32]) -> Lyrics {
    Lyrics {
        synced: Some(
            times
                .iter()
                .map(|&time_ms| LyricsLine {
                    time_ms,
                    text: format!("line at {time_ms}"),
                })
                .collect(),
        ),
        plain: None,
        source: LyricsSource::Lrclib,
    }
}

fn content(lines: &[&str], current: Option<usize>) -> LyricsContent {
    LyricsContent {
        lines: lines.iter().map(|line| line.to_string()).collect(),
        current,
    }
}

fn left() -> ConfigValues {
    ConfigValues {
        lyrics: Some(LyricsConfig {
            align: Some(LyricsAlign::Left),
        }),
        ..Default::default()
    }
}

fn painted(frame: &Frame) -> Vec<(usize, String)> {
    frame
        .strokes
        .iter()
        .map(|s| match &s.ink {
            Ink::Text(text) => (s.y, text.clone()),
            Ink::Blank(len) => (s.y, " ".repeat(*len)),
        })
        .collect()
}

#[test]
fn timestamps_are_exact() {
    assert_eq!(parse_timestamp("00:12.345"), Some(12_345));
    assert_eq!(parse_timestamp("00:12.3"), Some(12_300));
    assert_eq!(parse_timestamp("1:00"), Some(60_000));
    assert_eq!(parse_timestamp("00:60"), None);
    assert_eq!(parse_timestamp("00:-1"), None);
    assert_eq!(parse_timestamp("12"), None);
    // The largest number of milliseconds that can be counted, and one more.
    assert_eq!(parse_timestamp("71582:47.295"), Some(u32::MAX));
    assert_eq!(parse_timestamp("71582:47.296"), None);
    assert_eq!(parse_timestamp("71583:00"), None);
    assert_eq!(parse_timestamp(""), None);
}

#[test]
fn lines_of_one_time_keep_their_order() {
    let lines = parse("[00:05.00]b\n[00:01.00]a\n[00:05.00]c\nno time");
    let texts: Vec<&str> = lines.iter().map(|l| l.text.as_str()).collect();
    assert_eq!(texts, vec!["a", "b", "c"]);
    assert!(parse("").is_empty());
}

#[test]
fn lookups_are_deduplicated() {
    let mut manager = LyricsManager::new();
    assert!(manager.status("a").is_none());
    assert_eq!(manager.fetch(&track(Some("a"))).as_deref(), Some("a"));
    assert!(matches!(manager.status("a"), Some(LyricsStatus::Loading)));
    assert_eq!(manager.fetch(&track(Some("a"))), None);
    assert!(manager.publish("a", Some(synced(&[1]))));
    assert!(matches!(manager.status("a"), Some(LyricsStatus::Found(_))));
    assert!(manager.status("b").is_none());
}

#[test]
fn late_results_are_dropped() {
    let mut manager = LyricsManager::new();
    manager.fetch(&track(Some("a")));
    manager.fetch(&track(Some("b")));
    assert!(!manager.publish("a", Some(synced(&[1]))));
    assert!(manager.status("a").is_none());
    assert!(matches!(manager.status("b"), Some(LyricsStatus::Loading)));
    assert!(manager.publish("b", None));
    assert!(matches!(manager.status("b"), Some(LyricsStatus::NotFound)));
}

#[test]
fn episodes_and_local_tracks_have_no_lyrics() {
    let mut manager = LyricsManager::new();
    assert_eq!(manager.fetch(&episode()), None);
    assert!(matches!(
        manager.status("episode"),
        Some(LyricsStatus::NotFound)
    ));
    assert_eq!(manager.fetch(&track(None)), None);
    assert!(manager.status("episode").is_none());
}

#[test]
fn sources_are_asked_in_turn() {
    assert!(matches!(
        resolve(LookUpEvent::Cached(None)),
        LookUpAction::Finish {
            lyrics: None,
            keep: false
        }
    ));
    assert!(matches!(
        resolve(LookUpEvent::NotCached),
        LookUpAction::AskLrclib
    ));
    assert!(matches!(
        resolve(LookUpEvent::FromLrclib(None)),
        LookUpAction::AskSpotify
    ));
    assert!(matches!(
        resolve(LookUpEvent::FromLrclib(Some(synced(&[1])))),
        LookUpAction::Finish {
            lyrics: Some(_),
            keep: true
        }
    ));
    assert!(matches!(
        resolve(LookUpEvent::FromSpotify(None)),
        LookUpAction::Finish {
            lyrics: None,
            keep: true
        }
    ));
    assert_eq!(cache_file_name("abc"), "abc.json");
}

#[test]
fn queries_to_lrclib() {
    let artists = vec!["One".to_string(), "Two".to_string()];
    let query = lookup_query(&artists, "Song", &Some("Album".into()), 60_001);
    let expected: Vec<(&str, String)> = vec![
        ("artist_name", "One".into()),
        ("track_name", "Song".into()),
        ("duration", "61".into()),
        ("album_name", "Album".into()),
    ];
    assert_eq!(query, expected);
    let query = search_query(&[], "Song");
    let expected: Vec<(&str, String)> =
        vec![("artist_name", String::new()), ("track_name", "Song".into())];
    assert_eq!(query, expected);
}

#[test]
fn answers_of_lrclib() {
    let instrumental = LrclibResponse {
        instrumental: Some(true),
        ..Default::default()
    };
    assert_eq!(
        convert(&instrumental).and_then(|l| l.plain).as_deref(),
        Some("♪ instrumental ♪")
    );
    assert!(convert(&LrclibResponse::default()).is_none());
    let blank = LrclibResponse {
        plain_lyrics: Some(" \n ".into()),
        synced_lyrics: Some("no times".into()),
        ..Default::default()
    };
    assert!(convert(&blank).is_none());
    let known = LrclibResponse {
        plain_lyrics: Some("text".into()),
        synced_lyrics: Some("[00:01.00]x".into()),
        ..Default::default()
    };
    let lyrics = convert(&known).unwrap();
    assert_eq!(lyrics.synced.map(|lines| lines.len()), Some(1));
    assert_eq!(lyrics.plain.as_deref(), Some("text"));
    assert!(matches!(
        after_lookup(LookUpReply::Refused(404)),
        AfterLookUp::Search
    ));
    assert!(matches!(
        after_lookup(LookUpReply::Refused(500)),
        AfterLookUp::Done(None)
    ));
    assert!(matches!(
        after_lookup(LookUpReply::Failed),
        AfterLookUp::Done(None)
    ));
    assert!(matches!(
        after_lookup(LookUpReply::Unreadable),
        AfterLookUp::Done(None)
    ));
    assert!(matches!(
        after_lookup(LookUpReply::Known(known)),
        AfterLookUp::Done(Some(_))
    ));
}

#[test]
fn synced_results_are_preferred() {
    let plain = |text: &str| LrclibResponse {
        plain_lyrics: Some(text.into()),
        ..Default::default()
    };
    let timed = LrclibResponse {
        synced_lyrics: Some("[00:01.00]x".into()),
        ..Default::default()
    };
    assert!(pick(&[]).is_none());
    let found = pick(&[plain("a"), timed, plain("b")]).unwrap();
    assert!(found.synced.is_some());
    let found = pick(&[plain("a"), plain("b")]).unwrap();
    assert_eq!(found.plain.as_deref(), Some("b"));
}

#[test]
fn answers_of_spotify() {
    let line = |time: &str, words: &str| ColorLyricsLine {
        start_time_ms: time.into(),
        words: words.into(),
    };
    let lines = vec![line("2000", "b"), line("x", "?"), line("1000", "a")];
    let lyrics = ColorLyrics {
        sync_type: Some("LINE_SYNCED".into()),
        lines: lines.clone(),
    };
    let found = convert_spotify(&lyrics).unwrap();
    assert_eq!(found.plain.as_deref(), Some("b\n?\na"));
    let times: Vec<u32> = found.synced.unwrap().iter().map(|l| l.time_ms).collect();
    assert_eq!(times, vec![1000, 2000]);
    let unsynced = ColorLyrics {
        sync_type: Some("UNSYNCED".into()),
        lines,
    };
    assert!(convert_spotify(&unsynced).unwrap().synced.is_none());
    assert!(convert_spotify(&ColorLyrics::default()).is_none());
}

#[test]
fn what_is_shown() {
    let mut manager = LyricsManager::new();
    let shown = |playing: Option<&Playable>, manager: &LyricsManager, progress| {
        let content = lines(playing, manager, progress);
        (content.lines, content.current)
    };
    let message = |text: &str| (vec![text.to_string()], None);
    assert_eq!(shown(None, &manager, 0), message("Nothing is playing"));
    let local = track(None);
    assert_eq!(
        shown(Some(&local), &manager, 0),
        message("No lyrics for local tracks")
    );
    let song = track(Some("a"));
    assert_eq!(shown(Some(&song), &manager, 0), message("Fetching lyrics…"));
    manager.fetch(&song);
    manager.publish("a", Some(synced(&[1000, 2000])));
    assert_eq!(shown(Some(&song), &manager, 0).1, None);
    assert_eq!(shown(Some(&song), &manager, 1000).1, Some(0));
    assert_eq!(shown(Some(&song), &manager, 1999).1, Some(0));
    assert_eq!(shown(Some(&song), &manager, 5000).1, Some(1));
    manager.publish("a", None);
    assert_eq!(shown(Some(&song), &manager, 0), message("No lyrics found"));
}

#[test]
fn the_sung_line_is_centred() {
    let content = content(&["one two", "three", "four five six"], Some(2));
    let (rows, centre) = display_rows(&content, 5);
    let texts: Vec<&str> = rows.iter().map(|row| row.text.as_str()).collect();
    assert_eq!(texts, vec!["one", "two", "three", "four", "five", "six"]);
    assert_eq!(centre, Some(4));
    assert_eq!((rows[5].logical, rows[5].first), (2, false));
}

#[test]
fn the_view_follows_until_it_is_scrolled() {
    let names: Vec<String> = (0..20).map(|n| format!("line{n}")).collect();
    let all: Vec<&str> = names.iter().map(String::as_str).collect();
    let content = content(&all, Some(10));
    let values = left();
    let mut view = LyricsView::new();
    let size = at(20, 5);
    view.layout(size);
    let first_row = |view: &LyricsView| {
        let frame = view.draw_lyrics(size, &values, &content);
        painted(&frame)
            .into_iter()
            .find(|(y, text)| *y == 0 && text.starts_with("line"))
            .map(|(_, text)| text)
    };
    assert_eq!(first_row(&view).as_deref(), Some("line8"));
    let wheel = Event::Mouse {
        offset: at(0, 0),
        position: at(0, 0),
        event: MouseEvent::WheelUp,
    };
    assert_eq!(view.on_event(wheel, &values, &content), Handled::Consumed);
    assert_ne!(first_row(&view).as_deref(), Some("line8"));
    let follow = Command::Move(MoveMode::Playing, MoveAmount::Integer(1));
    assert_eq!(view.on_command(&follow, &values, &content), Handled::Consumed);
    assert_eq!(first_row(&view).as_deref(), Some("line8"));
    view.on_event(wheel, &values, &content);
    assert_eq!(view.on_right_click(), Handled::Consumed);
    assert_eq!(first_row(&view).as_deref(), Some("line8"));
}

#[test]
fn the_queue_is_shown() {
    let mut view = LyricsView::new();
    assert_eq!(view.title(), "Lyrics");
    view.set_section(LyricsSection::Queue);
    assert_eq!(view.title(), "Queue");
    let entry = |playable| QueueEntry {
        playable,
        duration: "1:00".into(),
    };
    let queue = vec![entry(track(Some("a"))), entry(episode())];
    let frame = LyricsView::draw_queue(&queue, Some(0), at(30, 5));
    let texts: Vec<String> = painted(&frame).into_iter().map(|(_, text)| text).collect();
    assert!(texts.iter().any(|text| text.contains("Episode")));
    assert!(texts.iter().all(|text| !text.contains("Song")));
}

#[test]
fn tracks_are_asked_for_by_id() {
    let id = "5sWHDYs0csV6RS48xBl0tH";
    let number: u128 = 238762092608182713602505436543891614649;
    assert_eq!(fetch(id), Some(number));
    assert_eq!(fetch("000000000000000000000Z"), Some(61));
    assert_eq!(fetch("00000000000000000000a0"), Some(620));
    assert_eq!(fetch("5sWHDYs0csV6RS48xBl0t"), None);
    assert_eq!(fetch("5sWHDYs0csV6RS48xBl0t-"), None);
    assert_eq!(fetch("5sWHDYs0csV6RS48xBl0\u{e9}"), None);
    assert_eq!(fetch("ZZZZZZZZZZZZZZZZZZZZZZ"), None);
}
