use ncspot_core::config::{ConfigValues, IconsConfig, StatusbarConfig, UserState};
use ncspot_core::geometry::Vec2;
use ncspot_core::model::{Playable, PlayerStatus, RepeatSetting, Track};
use ncspot_core::ui::event::{Event, MouseButton, MouseEvent};
use ncspot_core::ui::paint::{Frame, Ink};
use ncspot_core::ui::statusbar::{
    animation_tick, bar_height, controls_layout, cycle_repeat, cycle_shuffle, elapsed_for_text,
    playback_indicator, repeat_icon_str, right_str, shimmer_glyphs, suggestions, volume_pct, BarAction,
    ControlButton, CurrentTrack, PlayerState, StatusBar,
};

fn at(x: usize, y: usize) -> Vec2 {
    Vec2 { x, y }
}

fn player(current: Option<CurrentTrack>) -> PlayerState {
    PlayerState {
        status: PlayerStatus::Playing,
        volume: 65535,
        progress_ms: 30_000,
        repeat: RepeatSetting::Off,
        current,
    }
}

fn song() -> CurrentTrack {
    CurrentTrack {
        formatted: "Artist - Song".into(),
        duration: 60_000,
        duration_text: "1:00".into(),
        elapsed_text: "0:30".into(),
        is_suggested: false,
    }
}

fn with_statusbar(statusbar: StatusbarConfig) -> ConfigValues {
    ConfigValues {
        statusbar: Some(statusbar),
        ..Default::default()
    }
}

/// The texts that start at a cell, in the order in which they are painted.
fn texts_at(frame: &Frame, x: usize, y: usize) -> Vec<String> {
    frame
        .strokes
        .iter()
        .filter(|s| s.x == x && s.y == y)
        .map(|s| match &s.ink {
            Ink::Text(text) => text.clone(),
            Ink::Blank(len) => " ".repeat(*len),
        })
        .collect()
}

#[test]
fn volume_in_percent() {
    assert_eq!(volume_pct(0), 0);
    assert_eq!(volume_pct(65535), 100);
    assert_eq!(volume_pct(32767), 50);
    assert_eq!(volume_pct(327), 0);
    assert_eq!(volume_pct(328), 1);
    assert_eq!(volume_pct(65208), 100);
    assert_eq!(volume_pct(65207), 99);
    for volume in 0..=65535u16 {
        let expected = (volume as f64 / 65535_f64 * 100.0).round() as u16;
        assert_eq!(volume_pct(volume), expected);
    }
}

#[test]
fn time_and_volume() {
    assert_eq!(right_str(&player(None)), "|   100%");
    assert_eq!(
        right_str(&player(Some(song()))),
        "\u{f051a} 0:30 / 1:00 | \u{f0580}  100%"
    );
    assert_eq!(elapsed_for_text(30_000), 30_000);
    assert_eq!(elapsed_for_text(u32::MAX as u128 + 1), 0);
}

#[test]
fn indicators_can_be_flipped() {
    let values = ConfigValues::default();
    assert_eq!(playback_indicator(PlayerStatus::Playing, &values), "▶ ");
    assert_eq!(playback_indicator(PlayerStatus::Paused, &values), "▮▮");
    assert_eq!(playback_indicator(PlayerStatus::FinishedTrack, &values), "◼ ");
    let flipped = ConfigValues {
        flip_status_indicators: Some(true),
        ..Default::default()
    };
    assert_eq!(playback_indicator(PlayerStatus::Playing, &flipped), "▮▮");
    assert_eq!(playback_indicator(PlayerStatus::Paused, &flipped), "▶ ");
    assert_eq!(playback_indicator(PlayerStatus::Stopped, &flipped), "▶ ");
}

#[test]
fn repeat_icons() {
    let values = ConfigValues::default();
    assert_eq!(repeat_icon_str(RepeatSetting::Off, &values), "X");
    assert_eq!(repeat_icon_str(RepeatSetting::RepeatPlaylist, &values), "R");
    assert_eq!(repeat_icon_str(RepeatSetting::RepeatTrack, &values), "R1");
    let values = ConfigValues {
        icons: Some(IconsConfig {
            repeat_track: Some("T  ".into()),
            ..Default::default()
        }),
        ..Default::default()
    };
    assert_eq!(repeat_icon_str(RepeatSetting::RepeatTrack, &values), "T1");
}

#[test]
fn buttons_are_laid_out() {
    let buttons = controls_layout(
        &player(None),
        &UserState::default(),
        &ConfigValues::default(),
    );
    let places: Vec<(ControlButton, usize, usize)> =
        buttons.iter().map(|b| (b.kind, b.start, b.end)).collect();
    assert_eq!(
        places,
        vec![
            (ControlButton::Play, 2, 8),
            (ControlButton::Prev, 10, 16),
            (ControlButton::Next, 17, 23),
            (ControlButton::Shuffle, 25, 30),
            (ControlButton::Repeat, 32, 37),
        ]
    );
    assert!(buttons.iter().all(|b| !b.active));
}

#[test]
fn three_clicks_come_round() {
    let mut state = UserState::default();
    let mut seen = vec![];
    for _ in 0..3 {
        let plan = cycle_shuffle(&state);
        state.shuffle = plan.shuffle;
        state.smart_shuffle_visual = plan.smart;
        seen.push((plan.shuffle, plan.smart));
        // Suggested tracks belong to smart shuffle only.
        assert!(plan.remove_suggested);
        assert_eq!(plan.recommend, plan.smart);
    }
    assert_eq!(seen, vec![(true, false), (true, true), (false, false)]);
    assert_eq!(cycle_repeat(RepeatSetting::Off), RepeatSetting::RepeatPlaylist);
    assert_eq!(
        cycle_repeat(RepeatSetting::RepeatPlaylist),
        RepeatSetting::RepeatTrack
    );
    assert_eq!(cycle_repeat(RepeatSetting::RepeatTrack), RepeatSetting::Off);
}

#[test]
fn recommendations_are_marked() {
    let track = Track {
        id: None,
        title: "t".into(),
        artists: vec![],
        artist_ids: vec![],
        album: None,
        duration: 1,
        cover_url: None,
        is_local: false,
        is_playable: None,
        is_suggested: false,
    };
    let suggested = suggestions(vec![track.clone(), track]);
    assert_eq!(suggested.len(), 2);
    assert!(suggested.iter().all(Playable::is_suggested));
    assert_eq!(animation_tick(PlayerStatus::Playing, false), (false, 300));
    assert_eq!(animation_tick(PlayerStatus::Paused, true), (false, 300));
    assert!(animation_tick(PlayerStatus::Playing, true).0);
}

#[test]
fn the_title_of_the_terminal() {
    let mut bar = StatusBar::new();
    let values = ConfigValues::default();
    let title = |text: &str| Some(text.to_string());
    assert_eq!(
        bar.update_terminal_title(&values, &title("ncspot - Song")),
        title("ncspot - Song")
    );
    assert_eq!(bar.update_terminal_title(&values, &title("ncspot - Song")), None);
    assert_eq!(bar.update_terminal_title(&values, &None), title("ncspot"));
    let off = ConfigValues {
        title_format: Some(String::new()),
        ..Default::default()
    };
    assert_eq!(bar.update_terminal_title(&off, &title("other")), None);
}

#[test]
fn the_bar_is_drawn() {
    let values = ConfigValues::default();
    let state = UserState::default();
    let size = at(40, 7);
    let frame = StatusBar::draw(&player(Some(song())), &state, None, size, &values);
    // 38 cells between the corners; the title and its blanks take 15 of them.
    let top = format!("╭{} Artist - Song {}╮", "─".repeat(11), "─".repeat(12));
    assert_eq!(texts_at(&frame, 0, 0), vec![top]);
    assert_eq!(
        texts_at(&frame, 0, 6),
        vec![format!("╰{}╯", "─".repeat(38))]
    );
    // Half of 36 cells, and one more.
    assert_eq!(
        texts_at(&frame, 2, 2),
        vec!["░".repeat(36), "█".repeat(19)]
    );
    assert_eq!(texts_at(&frame, 2, 4), vec!["[ ▶  ]"]);
    assert_eq!(texts_at(&frame, 10, 4), vec!["[ |< ]"]);
    let right = right_str(&player(Some(song())));
    assert_eq!(texts_at(&frame, 38 - 23, 4), vec![right]);
}

#[test]
fn long_titles_are_cut() {
    let values = ConfigValues::default();
    let state = UserState::default();
    let frame = StatusBar::draw(&player(Some(song())), &state, None, at(16, 7), &values);
    assert_eq!(texts_at(&frame, 0, 0), vec!["╭─ Artist - S ─╮"]);
    let nothing = StatusBar::draw(&player(None), &state, None, at(0, 7), &values);
    assert!(nothing.strokes.is_empty());
    let frame = StatusBar::draw(&player(None), &state, None, at(6, 7), &values);
    assert_eq!(texts_at(&frame, 0, 0), vec!["╭────╮"]);
    assert_eq!(texts_at(&frame, 2, 2), vec!["░░"]);
}

#[test]
fn suggested_tracks_have_a_tag() {
    let mut track = song();
    track.is_suggested = true;
    let state = UserState::default();
    let draw = |values: &ConfigValues| {
        let frame = StatusBar::draw(&player(Some(track.clone())), &state, None, at(40, 7), values);
        texts_at(&frame, 0, 0).remove(0)
    };
    assert!(draw(&ConfigValues::default()).contains(" [N] Artist - Song "));
    let untagged = with_statusbar(StatusbarConfig {
        suggested_tag: Some(String::new()),
        ..Default::default()
    });
    assert!(draw(&untagged).contains("─ Artist - Song ─"));
    let glyphs = shimmer_glyphs(
        &player(Some(track.clone())),
        at(40, 7),
        &ConfigValues::default(),
    );
    assert_eq!(glyphs.len(), 17);
    assert_eq!((glyphs[0].text.as_str(), glyphs[0].x), ("[", 11));
    assert_eq!(glyphs[16].x, 27);
    let off = with_statusbar(StatusbarConfig {
        suggested_shimmer: Some(false),
        ..Default::default()
    });
    assert!(shimmer_glyphs(&player(Some(track.clone())), at(40, 7), &off).is_empty());
}

#[test]
fn rounded_bars_have_caps() {
    let values = with_statusbar(StatusbarConfig {
        style: Some("rounded".into()),
        height: Some(2),
        progress_cap_left: Some("(".into()),
        progress_cap_right: Some(")".into()),
        ..Default::default()
    });
    assert_eq!(bar_height(&values), 2);
    assert_eq!(StatusBar::required_size(at(8, 1), &values), at(8, 8));
    let state = UserState::default();
    let frame = StatusBar::draw(&player(None), &state, None, at(8, 8), &values);
    let row: Vec<String> = (2..6).map(|x| texts_at(&frame, x, 3).remove(0)).collect();
    assert_eq!(row, vec!["(", "░", "░", ")"]);
}

#[test]
fn the_wheel_changes_the_volume() {
    let mut bar = StatusBar::new();
    bar.layout(at(40, 7));
    let values = ConfigValues::default();
    let state = UserState::default();
    let mut wheel = |event, volume| {
        let mut player = player(None);
        player.volume = volume;
        let event = Event::Mouse {
            offset: at(0, 0),
            position: at(1, 1),
            event,
        };
        bar.on_event(event, &player, &state, &values, 655)
    };
    assert_eq!(wheel(MouseEvent::WheelUp, 1000), BarAction::SetVolume(1655));
    assert_eq!(wheel(MouseEvent::WheelUp, 65500), BarAction::SetVolume(65535));
    assert_eq!(wheel(MouseEvent::WheelDown, 1000), BarAction::SetVolume(345));
    assert_eq!(wheel(MouseEvent::WheelDown, 100), BarAction::SetVolume(0));
}

#[test]
fn clicks_on_the_bar() {
    let mut bar = StatusBar::new();
    bar.layout(at(40, 7));
    let values = ConfigValues::default();
    let state = UserState::default();
    let playing = player(Some(song()));
    let mut click = |x: usize, y: usize| {
        let event = Event::Mouse {
            offset: at(10, 20),
            position: at(10 + x, 20 + y),
            event: MouseEvent::Press(MouseButton::Left),
        };
        bar.on_event(event, &playing, &state, &values, 655)
    };
    assert_eq!(click(11, 2), BarAction::Seek { column: 9, columns: 36 });
    assert_eq!(click(0, 2), BarAction::Seek { column: 0, columns: 36 });
    assert_eq!(click(12, 4), BarAction::Previous);
    assert_eq!(click(17, 4), BarAction::Next);
    assert_eq!(click(26, 4), BarAction::CycleShuffle);
    assert_eq!(click(36, 4), BarAction::CycleRepeat);
    assert_eq!(click(2, 4), BarAction::TogglePlayback);
    assert_eq!(click(39, 4), BarAction::TogglePlayback);
    assert_eq!(click(5, 0), BarAction::TogglePlayback);
    assert_eq!(
        bar.on_event(Event::Char('x'), &playing, &state, &values, 655),
        BarAction::Ignore
    );
}
