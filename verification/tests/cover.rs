use std::sync::Arc;

use ncspot_core::command::{Command, GotoMode, TargetMode};
use ncspot_core::geometry::Vec2;
use ncspot_core::ui::cover::sixel::{
    black_pixels, clear_area, emit, encode_file, is_complete, probe_support, set_shared, shared,
    sixel_cache_file, usable_cache, CacheKey, SixelBackend, SixelImageCache, MAX_CACHE_ENTRIES,
};
use ncspot_core::ui::cover::ueberzug::{add_command, place, remove_command};
use ncspot_core::ui::cover::{
    cell_size_px, detect_terminal_capabilities, sixel_supported, Capabilities, CoverAction,
    CoverItem, CoverStep, CoverView,
};
use ncspot_core::ui::paint::{Ink, PaletteColor, Shade};

fn at(x: usize, y: usize) -> Vec2 {
    Vec2 { x, y }
}

fn key(url: &str, side: usize) -> CacheKey {
    CacheKey {
        url: url.into(),
        width: side,
        height: side,
    }
}

/// A PNG file of four opaque red pixels.
fn red_png() -> Vec<u8> {
    let pixels = image::RgbaImage::from_pixel(2, 2, image::Rgba([255, 0, 0, 255]));
    let mut file = std::io::Cursor::new(Vec::new());
    image::DynamicImage::ImageRgba8(pixels)
        .write_to(&mut file, image::ImageFormat::Png)
        .unwrap();
    file.into_inner()
}

#[test]
fn the_first_probe_counts() {
    let mut capabilities = Capabilities::default();
    assert!(!sixel_supported(&capabilities));
    detect_terminal_capabilities(&mut capabilities, true);
    assert!(sixel_supported(&capabilities));
    detect_terminal_capabilities(&mut capabilities, false);
    assert!(sixel_supported(&capabilities));
}

#[test]
fn cells_have_a_size() {
    assert_eq!(cell_size_px(50, 100, 1050, 1100), at(10, 22));
    assert_eq!(cell_size_px(50, 100, 0, 1100), at(8, 16));
    assert_eq!(cell_size_px(0, 100, 1000, 1100), at(8, 16));
}

#[test]
fn a_cover_is_emitted_twice_and_left_alone() {
    let mut view = CoverView::new();
    let (offset, size) = (at(3, 4), at(20, 10));
    let (frame, step) = view.draw(Some("url"), offset, size);
    assert_eq!(frame.strokes.len(), 10);
    assert_eq!(frame.strokes[9].ink, Ink::Blank(20));
    assert_eq!(
        frame.strokes[9].style.back,
        Shade::Palette(PaletteColor::Background)
    );
    assert_eq!(step, CoverStep::Emit);
    assert!(view.emitted("url", offset, size));
    assert_eq!(view.draw(Some("url"), offset, size).1, CoverStep::Emit);
    assert!(!view.emitted("url", offset, size));
    assert_eq!(view.draw(Some("url"), offset, size).1, CoverStep::Nothing);
    // Another place, another size and another cover are changes.
    assert_eq!(view.draw(Some("url"), at(0, 0), size).1, CoverStep::Emit);
    assert_eq!(view.draw(Some("url"), offset, at(21, 10)).1, CoverStep::Emit);
    assert_eq!(view.draw(Some("other"), offset, size).1, CoverStep::Emit);
}

#[test]
fn a_change_starts_over() {
    let mut view = CoverView::new();
    let (offset, size) = (at(0, 0), at(20, 10));
    assert_eq!(view.draw(Some("a"), offset, size).1, CoverStep::Emit);
    assert!(view.emitted("a", offset, size));
    assert_eq!(view.draw(Some("b"), offset, size).1, CoverStep::Emit);
    assert!(view.emitted("b", offset, size));
    assert_eq!(view.draw(Some("b"), offset, size).1, CoverStep::Emit);
    assert!(!view.emitted("b", offset, size));
}

#[test]
fn a_paused_cover_is_emitted_anew() {
    let mut view = CoverView::new();
    let (offset, size) = (at(0, 0), at(20, 10));
    view.draw(Some("a"), offset, size);
    view.emitted("a", offset, size);
    view.draw(Some("a"), offset, size);
    view.emitted("a", offset, size);
    view.pause(true);
    assert_eq!(view.draw(Some("a"), offset, size).1, CoverStep::Nothing);
    view.pause(false);
    assert_eq!(view.draw(Some("a"), offset, size).1, CoverStep::Emit);
}

#[test]
fn a_cover_is_taken_down_once() {
    let mut view = CoverView::new();
    let (offset, size) = (at(2, 3), at(20, 10));
    assert_eq!(view.clear_cover(), CoverStep::Nothing);
    view.draw(Some("a"), offset, size);
    view.emitted("a", offset, size);
    assert_eq!(
        view.draw(None, offset, size).1,
        CoverStep::Erase { offset, size }
    );
    assert_eq!(view.draw(None, offset, size).1, CoverStep::Nothing);
}

#[test]
fn there_is_no_room_in_a_single_row() {
    let mut view = CoverView::new();
    assert_eq!(view.draw(Some("a"), at(0, 0), at(1, 10)).1, CoverStep::Nothing);
    assert_eq!(view.draw(Some("a"), at(0, 0), at(10, 1)).1, CoverStep::Nothing);
    assert_eq!(view.required_size(at(30, 40)), at(30, 2));
}

#[test]
fn commands_on_the_cover() {
    let view = CoverView::new();
    let item = |has_album, artists| {
        Some(CoverItem {
            share_url: Some("link".into()),
            has_album,
            artists,
        })
    };
    let run = |command, current| view.on_command(&command, &current);
    assert_eq!(run(Command::Save, item(true, None)), CoverAction::Save);
    assert_eq!(run(Command::Save, None), CoverAction::Nothing);
    assert_eq!(run(Command::Delete, item(true, None)), CoverAction::Delete);
    assert_eq!(
        run(Command::Share(TargetMode::Current), item(true, None)),
        CoverAction::Share(Some("link".into()))
    );
    assert_eq!(
        run(Command::Share(TargetMode::Selected), None),
        CoverAction::Share(None)
    );
    let album = || Command::Goto(GotoMode::Album);
    let artist = || Command::Goto(GotoMode::Artist);
    assert_eq!(run(album(), item(true, None)), CoverAction::Open(GotoMode::Album));
    assert_eq!(run(album(), item(false, None)), CoverAction::Nothing);
    assert_eq!(run(artist(), item(true, Some(0))), CoverAction::Consumed);
    assert_eq!(
        run(artist(), item(true, Some(2))),
        CoverAction::Open(GotoMode::Artist)
    );
    assert_eq!(run(artist(), item(true, None)), CoverAction::Nothing);
    assert_eq!(run(artist(), None), CoverAction::Nothing);
    assert_eq!(run(Command::Back, item(true, None)), CoverAction::Nothing);
}

#[test]
fn the_shared_cache_is_set_once() {
    let mut kept: Option<Arc<u8>> = None;
    assert!(shared(&kept).is_none());
    set_shared(&mut kept, Arc::new(1));
    set_shared(&mut kept, Arc::new(2));
    assert_eq!(shared(&kept).map(|n| **n), Some(1));
}

#[test]
fn an_image_is_asked_for_once() {
    let mut images = SixelImageCache::new();
    assert_eq!(images.get("url", 0, 10), None);
    assert!(images.take_job().is_none());
    assert_eq!(images.get("url", 10, 10), None);
    assert_eq!(images.get("url", 10, 10), None);
    assert_eq!(images.get("url", 20, 20), None);
    assert_eq!(images.take_job(), Some(key("url", 10)));
    assert_eq!(images.get("url", 10, 10), None);
    assert_eq!(images.take_job(), Some(key("url", 20)));
    assert!(images.take_job().is_none());
    assert!(images.settle(&key("url", 10), Ok("sixel".into())));
    assert_eq!(images.get("url", 10, 10).as_deref(), Some("sixel"));
    // What failed may be asked for again.
    assert!(!images.settle(&key("url", 20), Err("no such file".into())));
    assert_eq!(images.get("url", 20, 20), None);
    assert_eq!(images.take_job(), Some(key("url", 20)));
}

#[test]
fn the_oldest_image_is_evicted() {
    let mut images = SixelImageCache::new();
    for n in 0..MAX_CACHE_ENTRIES {
        images.store(&key("url", n + 1), format!("{n}"));
    }
    // An image that is encoded again keeps its age.
    images.store(&key("url", 1), "again".into());
    assert_eq!(images.get("url", 1, 1).as_deref(), Some("again"));
    images.store(&key("other", 1), "new".into());
    assert_eq!(images.get("other", 1, 1).as_deref(), Some("new"));
    assert_eq!(images.get("url", 1, 1), None);
    assert_eq!(images.get("url", 2, 2).as_deref(), Some("1"));
    let last = MAX_CACHE_ENTRIES;
    assert_eq!(
        images.get("url", last, last),
        Some(format!("{}", last - 1))
    );
}

#[test]
fn blanks_are_opaque_and_black() {
    assert_eq!(black_pixels(2, 1), vec![0, 0, 0, 255, 0, 0, 0, 255]);
    let mut images = SixelImageCache::new();
    assert_eq!(images.blank(0, 4), None);
    let blank = images.blank(4, 6).unwrap();
    assert!(blank.starts_with("\x1bP9;1;0q\"1;1;4;6"));
    assert!(blank.ends_with("\x1b\\"));
    assert_eq!(images.blank(4, 6), Some(blank));
    // Larger images cannot be encoded.
    assert!(images.blank(1_000_000, 1).is_some());
    assert_eq!(images.blank(1_000_001, 1), None);
    assert!(images.blank(1, 999_996).is_some());
    assert_eq!(images.blank(1, 999_997), None);
}

#[test]
fn files_are_encoded() {
    let sixel = encode_file(red_png(), 8, 12).unwrap();
    assert!(sixel.starts_with("\x1bP9;1;0q\"1;1;8;12"));
    assert!(sixel.contains(";2;100;0;0"));
    assert!(encode_file(b"no image".to_vec(), 8, 12).is_err());
    assert_eq!(
        encode_file(red_png(), 0, 12),
        Err("image too large".to_string())
    );
    assert_eq!(
        encode_file(red_png(), usize::MAX, 12),
        Err("image too large".to_string())
    );
    // One more than the longest side, and more pixels than there may be in all.
    assert_eq!(
        encode_file(red_png(), 1_000_001, 1),
        Err("image too large".to_string())
    );
    assert_eq!(
        encode_file(red_png(), 1, 999_997),
        Err("image too large".to_string())
    );
    assert_eq!(
        encode_file(red_png(), 8193, 8196),
        Err("image too large".to_string())
    );
}

#[test]
fn the_cache_on_disk() {
    assert_eq!(sixel_cache_file("ab67", 64, 32), "ab67-64x32.six");
    assert_eq!(usable_cache(Some("sixel".into())).as_deref(), Some("sixel"));
    assert_eq!(usable_cache(Some(String::new())), None);
    assert_eq!(usable_cache(None), None);
}

#[test]
fn an_image_is_written_at_a_cell() {
    assert_eq!(
        emit("IMG", at(4, 9)),
        "\x1b[?2026h\x1b7\x1b[10;5HIMG\x1b8\x1b[?2026l"
    );
    assert_eq!(
        clear_area(at(1, 2), at(3, 2)).as_deref(),
        Some("\x1b[?2026h\x1b7\x1b[3;2H   \x1b[4;2H   \x1b8\x1b[?2026l")
    );
    assert_eq!(clear_area(at(1, 2), at(0, 2)), None);
    assert_eq!(clear_area(at(1, 2), at(3, 0)), None);
}

#[test]
fn covers_are_centred_squares() {
    let mut images = SixelImageCache::new();
    // 20x10 cells of 10x20 pixels: the square is 200 pixels wide, 20 cells, and 10 cells high.
    images.store(&key("url", 200), "IMG".into());
    // 40x10 cells: the same square in the middle of 40 columns.
    let mut backend = SixelBackend::new(images);
    assert_eq!(
        backend.draw("url", at(5, 1), at(40, 10), at(10, 20)),
        Some(emit("IMG", at(15, 1)))
    );
    assert_eq!(backend.draw("url", at(0, 0), at(0, 10), at(10, 20)), None);
    assert!(backend.images.take_job().is_none());
    // Covers are at most 640 pixels wide.
    assert_eq!(backend.draw("url", at(0, 0), at(100, 100), at(10, 20)), None);
    assert_eq!(backend.images.take_job(), Some(key("url", 640)));
    assert_eq!(backend.clear(at(1, 2), at(3, 2)), clear_area(at(1, 2), at(3, 2)));
}

#[test]
fn terminals_report_sixel_support() {
    let probe = |answer: &[u8]| probe_support(&Ok(answer.to_vec()));
    assert!(probe(b"\x1b[?64;4;22c"));
    assert!(probe(b"\x1b[?4c"));
    assert!(probe(b"\x1b[?62;22;4c"));
    assert!(!probe(b"\x1b[?64;22c"));
    assert!(!probe(b"\x1b[?64;44;14c"));
    assert!(!probe(b""));
    assert!(!probe_support(&Err("no terminal".into())));
    assert!(is_complete(b"\x1b[?64c"));
    assert!(!is_complete(b"\x1b[?64"));
}

#[test]
fn ueberzug_gets_an_area() {
    // 640 pixels are 64 columns of 10 and 32 rows of 20 pixels.
    let placement = place(at(640, 640), at(1, 2), at(80, 40), at(10, 20));
    assert_eq!(placement.size, at(64, 33));
    assert_eq!(placement.offset, at(9, 6));
    // The space is the same on either side.
    let placement = place(at(640, 640), at(0, 0), at(81, 20), at(10, 20));
    assert_eq!(placement.size, at(63, 20));
    assert_eq!(placement.offset, at(9, 0));
    assert_eq!(
        add_command(placement, "/tmp/x"),
        "{\"action\":\"add\",\"scaler\":\"fit_contain\",\"identifier\":\"cover\",\
         \"x\":9,\"y\":0,\"width\":63,\"height\":20,\"path\":\"/tmp/x\"}\n"
    );
    assert_eq!(
        remove_command(),
        "{\"action\": \"remove\", \"identifier\": \"cover\"}\n"
    );
}
