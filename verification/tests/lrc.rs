use ncspot_core::lyrics::lrc::{parse, parse_timestamp};
use ncspot_core::lyrics::LyricsLine;

#[test]
fn parses_simple_lines() {
    let lrc = "[00:12.00]Line one\n[00:17.20]Line two";
    let lines = parse(lrc);
    assert_eq!(
        lines,
        vec![
            LyricsLine {
                time_ms: 12_000,
                text: "Line one".into()
            },
            LyricsLine {
                time_ms: 17_200,
                text: "Line two".into()
            },
        ]
    );
}

#[test]
fn parses_multiple_timestamps_per_line() {
    let lines = parse("[00:50.00][00:10.00]Chorus");
    assert_eq!(lines.len(), 2);
    assert_eq!(lines[0].time_ms, 10_000);
    assert_eq!(lines[1].time_ms, 50_000);
    assert!(lines.iter().all(|l| l.text == "Chorus"));
}

#[test]
fn ignores_metadata_tags() {
    let lrc = "[ar:Some Artist]\n[ti:Some Title]\n[00:01.50]Hello";
    let lines = parse(lrc);
    assert_eq!(lines.len(), 1);
    assert_eq!(lines[0].time_ms, 1_500);
    assert_eq!(lines[0].text, "Hello");
}

#[test]
fn keeps_empty_lines_for_pauses() {
    let lines = parse("[00:05.00]\n[00:10.00]After the pause");
    assert_eq!(lines.len(), 2);
    assert_eq!(lines[0].text, "");
}

#[test]
fn sorts_by_time() {
    let lines = parse("[01:00.00]B\n[00:30.00]A");
    assert_eq!(lines[0].text, "A");
    assert_eq!(lines[1].text, "B");
}

#[test]
fn parses_timestamp_without_fraction() {
    assert_eq!(parse_timestamp("02:03"), Some(123_000));
    assert_eq!(parse_timestamp("xx:03"), None);
    assert_eq!(parse_timestamp("02:73"), None);
}
