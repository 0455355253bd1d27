use ncspot_core::config::{
    Config, ConfigValues, IconKind, IconsConfig, LayoutConfig, NotificationFormat, PlaybackState,
    TrackFormat, UserState,
};
use ncspot_core::model::RepeatSetting;
use ncspot_core::text_map::TextMap;

fn with_values(values: ConfigValues) -> Config {
    Config::new(None, "config.toml", values, UserState::default())
}

#[test]
fn icon_resolution_precedence() {
    // ASCII defaults without nerdfont
    let cfg = with_values(ConfigValues::default());
    assert_eq!(cfg.icon(IconKind::Playing), "▶ ");
    assert_eq!(cfg.icon(IconKind::Saved), "✓");

    // Nerd-font defaults with use_nerdfont
    let cfg = with_values(ConfigValues {
        use_nerdfont: Some(true),
        ..Default::default()
    });
    assert_eq!(cfg.icon(IconKind::Playing), "\u{f04b} ");
    assert_eq!(cfg.icon(IconKind::Saved), "\u{f012c}");

    // User overrides beat both defaults
    let cfg = with_values(ConfigValues {
        use_nerdfont: Some(true),
        icons: Some(IconsConfig {
            playing: Some(">> ".into()),
            ..Default::default()
        }),
        ..Default::default()
    });
    assert_eq!(cfg.icon(IconKind::Playing), ">> ");
    // Unset icons still fall back to the nerd-font default
    assert_eq!(cfg.icon(IconKind::Paused), "\u{f04c} ");
}

#[test]
fn the_file_wins_over_the_state() {
    let values = ConfigValues {
        shuffle: Some(true),
        repeat: Some(RepeatSetting::RepeatTrack),
        ..Default::default()
    };
    let mut state = UserState::default();
    state.playback_state = PlaybackState::Paused;
    let config = Config::new(Some("other.toml".into()), "config.toml", values, state);
    assert_eq!(config.filename, "other.toml");
    assert!(config.state().shuffle);
    assert_eq!(config.state().repeat, RepeatSetting::RepeatTrack);
    assert_eq!(config.state().playback_state, PlaybackState::Paused);
    let again = Config::new(None, "config.toml", config.values, config.state);
    assert_eq!(again.filename, "config.toml");
    assert!(again.state().shuffle);
}

#[test]
fn a_failed_reload_changes_nothing() {
    let mut config = with_values(ConfigValues {
        use_nerdfont: Some(true),
        ..Default::default()
    });
    assert_eq!(
        config.reload(Err("no such file".into())),
        Err("no such file".to_string())
    );
    assert_eq!(config.values().use_nerdfont, Some(true));
    assert_eq!(config.reload(Ok(ConfigValues::default())), Ok(()));
    assert_eq!(config.values().use_nerdfont, None);
}

#[test]
fn the_state_has_a_version() {
    let mut state = UserState::default();
    state.cache_version = 0;
    let mut config = Config::new(None, "config.toml", ConfigValues::default(), state);
    config.update_state_cache_version();
    assert_eq!(config.state().cache_version, 1);
}

#[test]
fn defaults() {
    let state = UserState::default();
    assert_eq!(state.volume, u16::MAX);
    assert!(!state.shuffle);
    assert_eq!(state.repeat, RepeatSetting::Off);
    assert_eq!(state.playback_state, PlaybackState::Default);
    let layout = LayoutConfig::default();
    assert_eq!(layout.columns.len(), 2);
    assert_eq!(TrackFormat::default().left.as_deref(), Some("%artists - %title"));
    assert_eq!(NotificationFormat::default().title.as_deref(), Some("%title"));
}

#[test]
fn texts_lead_to_values() {
    let mut map: TextMap<u8> = TextMap::new();
    assert_eq!(map.get("a"), None);
    map.insert("a", 1);
    map.insert("b", 2);
    map.insert("a", 3);
    assert_eq!(map.get("a"), Some(&3));
    assert_eq!(map.get("b"), Some(&2));
    assert_eq!(map.entries(), [("a".to_string(), 3), ("b".to_string(), 2)]);
}
