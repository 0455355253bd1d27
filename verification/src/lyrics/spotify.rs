//! Fallback lyrics source: Spotify's color-lyrics endpoint.

use vstd::prelude::*;

use librespot_core::SpotifyId;

use super::{
    lemma_sorted_lines_are_in_time, line_views, maybe_lyrics, showable, sort_lines, sorted_by_time,
    LineView, Lyrics, LyricsLine, LyricsSource, LyricsModel,
};
use crate::text::{chars_of, join, joined, parse_u32, read_u32, same_text, texts};

verus! {

/// The value of a digit to the base 62: the digits, the small letters and the capital letters.
pub open spec fn base62_digit(c: char) -> Option<nat> {
    if '0' <= c <= '9' {
        Some((c as int - '0' as int) as nat)
    } else if 'a' <= c <= 'z' {
        Some((c as int - 'a' as int + 10) as nat)
    } else if 'A' <= c <= 'Z' {
        Some((c as int - 'A' as int + 36) as nat)
    } else {
        None
    }
}

/// The number that a text gives to the base 62, if it holds nothing but digits.
pub open spec fn base62_number(text: Seq<char>) -> Option<nat>
    decreases text.len(),
{
    if text.len() == 0 {
        Some(0)
    } else {
        match (base62_number(text.drop_last()), base62_digit(text.last())) {
            (Some(number), Some(digit)) => Some(number * 62 + digit),
            _ => None,
        }
    }
}

/// The track that an id names: 22 digits to the base 62 that give a number of 128 bits.
pub open spec fn track_number(id: Seq<char>) -> Option<u128> {
    match base62_number(id) {
        Some(number) => if id.len() == 22 && number <= u128::MAX {
            Some(number as u128)
        } else {
            None
        },
        None => None,
    }
}

/// `SpotifyId::from_base62` reads an id of 22 digits to the base 62, and fails on any other text
/// and on numbers of more than 128 bits.
#[verifier::external_body]
fn parse_id(id: &str) -> (number: Option<u128>)
    ensures
        number == track_number(id@),
{
    SpotifyId::from_base62(id).ok().map(|id| id.id)
}

/// The track to ask the endpoint for: None if the id names none, and then there are no lyrics.
pub fn fetch(track_id: &str) -> (number: Option<u128>)
    ensures
        number == track_number(track_id@),
{
    parse_id(track_id)
}

/// The lyrics of a track, as the endpoint gives them.
#[derive(Clone, Debug, Default)]
pub struct ColorLyrics {
    pub sync_type: Option<String>,
    pub lines: Vec<ColorLyricsLine>,
}

#[derive(Clone, Debug, Default)]
pub struct ColorLyricsLine {
    pub start_time_ms: String,
    pub words: String,
}

/// The lines whose start time can be read, in the order in which they stand.
pub open spec fn timed(lines: Seq<ColorLyricsLine>) -> Seq<LineView>
    decreases lines.len(),
{
    if lines.len() == 0 {
        Seq::empty()
    } else {
        let before = timed(lines.drop_last());
        match parse_u32(lines.last().start_time_ms@) {
            Some(time_ms) => before.push(LineView { time_ms, text: lines.last().words@ }),
            None => before,
        }
    }
}

pub open spec fn words(lines: Seq<ColorLyricsLine>) -> Seq<Seq<char>> {
    lines.map_values(|line: ColorLyricsLine| line.words@)
}

/// Whether the lines of the lyrics are tied to times.
pub open spec fn line_synced(lyrics: ColorLyrics) -> bool {
    lyrics.sync_type is Some && lyrics.sync_type->0@ == "LINE_SYNCED"@
}

/// The lyrics in an answer of the endpoint. The plain text is there whenever there are lines; the
/// synced lines are there if the lines are tied to times, and some start time can be read.
pub open spec fn converted(lyrics: ColorLyrics) -> Option<LyricsModel> {
    let synced = if line_synced(lyrics) && timed(lyrics.lines@).len() > 0 {
        Some(sorted_by_time(timed(lyrics.lines@)))
    } else {
        None
    };
    if lyrics.lines@.len() > 0 {
        Some(
            LyricsModel {
                synced,
                plain: Some(join(words(lyrics.lines@), "\n"@)),
                source: LyricsSource::Spotify,
            },
        )
    } else {
        None
    }
}

/// The lyrics in an answer of the endpoint, or None where it has no lines.
pub fn convert(lyrics: &ColorLyrics) -> (found: Option<Lyrics>)
    ensures
        maybe_lyrics(found) == converted(*lyrics),
{
    let lines = &lyrics.lines;
    if lines.len() == 0 {
        return None;
    }
    let is_synced = match &lyrics.sync_type {
        Some(sync_type) => same_text(sync_type.as_str(), "LINE_SYNCED"),
        None => false,
    };
    let mut in_order: Vec<LyricsLine> = Vec::new();
    let mut plain: Vec<String> = Vec::new();
    let mut i: usize = 0;
    assert(lines@.take(0) =~= Seq::<ColorLyricsLine>::empty());
    assert(line_views(in_order@) =~= Seq::<LineView>::empty());
    assert(texts(plain@) =~= words(lines@.take(0)));
    while i < lines.len()
        invariant
            i <= lines@.len(),
            line_views(in_order@) == timed(lines@.take(i as int)),
            texts(plain@) == words(lines@.take(i as int)),
        decreases lines@.len() - i,
    {
        let ghost head = lines@.take(i + 1);
        let ghost before = line_views(in_order@);
        assert(head.drop_last() =~= lines@.take(i as int));
        assert(head.last() == lines@[i as int]);
        let line = &lines[i];
        if let Some(time_ms) = read_u32(chars_of(line.start_time_ms.as_str()).as_slice()) {
            in_order.push(LyricsLine { time_ms, text: line.words.clone() });
            assert(line_views(in_order@) =~= before.push(
                LineView { time_ms, text: line.words@ },
            ));
        }
        let ghost plain_before = texts(plain@);
        plain.push(line.words.clone());
        assert(texts(plain@) =~= plain_before.push(line.words@));
        assert(words(head) =~= words(lines@.take(i as int)).push(line.words@));
        i += 1;
    }
    assert(lines@.take(i as int) =~= lines@);
    assert(line_views(in_order@).len() == in_order@.len());
    let synced = if is_synced && in_order.len() > 0 {
        Some(sort_lines(in_order))
    } else {
        None
    };
    Some(
        Lyrics {
            synced,
            plain: Some(joined(plain.as_slice(), "\n")),
            source: LyricsSource::Spotify,
        },
    )
}

/// Lyrics from Spotify always have something to show, and synced lines are in time.
pub proof fn lemma_converted_is_showable(lyrics: ColorLyrics)
    ensures
        converted(lyrics) is Some ==> showable(converted(lyrics)->0),
{
    let lines = timed(lyrics.lines@);
    lemma_sorted_lines_are_in_time(lines);
    crate::sort::lemma_sort_len(lines, super::rank_lines());
}

/// The digits to the base 62 have the values from 0 to 61, each of them its own.
pub proof fn lemma_digits_of_ids(a: char, b: char)
    ensures
        base62_digit(a) matches Some(value) ==> value < 62,
        base62_digit(a) is Some && base62_digit(a) == base62_digit(b) ==> a == b,
        base62_digit('0') == Some(0nat),
        base62_digit('9') == Some(9nat),
        base62_digit('a') == Some(10nat),
        base62_digit('z') == Some(35nat),
        base62_digit('A') == Some(36nat),
        base62_digit('Z') == Some(61nat),
{
}

/// Different ids name different tracks.
pub proof fn lemma_ids_name_different_tracks(a: Seq<char>, b: Seq<char>)
    requires
        track_number(a) is Some,
        track_number(a) == track_number(b),
    ensures
        a == b,
        a.len() == 22,
{
    lemma_numbers_differ(a, b);
}

proof fn lemma_numbers_differ(a: Seq<char>, b: Seq<char>)
    requires
        a.len() == b.len(),
        base62_number(a) is Some,
        base62_number(a) == base62_number(b),
    ensures
        a == b,
    decreases a.len(),
{
    if a.len() > 0 {
        lemma_digits_of_ids(a.last(), b.last());
        lemma_digits_of_ids(b.last(), a.last());
        let m = base62_number(a.drop_last())->0;
        let n = base62_number(b.drop_last())->0;
        assert(m == n);
        lemma_numbers_differ(a.drop_last(), b.drop_last());
        assert(a =~= a.drop_last().push(a.last()));
        assert(b =~= b.drop_last().push(b.last()));
    } else {
        assert(a =~= b);
    }
}

/// A line whose start time can be read is kept with that time and its words; one whose time cannot
/// be read is left out.
pub proof fn lemma_timed_lines_are_kept(lines: Seq<ColorLyricsLine>, line: ColorLyricsLine)
    ensures
        parse_u32(line.start_time_ms@) matches Some(time_ms) ==> timed(lines.push(line)) == timed(
            lines,
        ).push(LineView { time_ms, text: line.words@ }),
        parse_u32(line.start_time_ms@) is None ==> timed(lines.push(line)) == timed(lines),
        timed(Seq::empty()).len() == 0,
{
    assert(lines.push(line).drop_last() =~= lines);
}

/// There are lyrics just if there are lines. Their plain text is the words of all lines, one below
/// the other; there are synced lines only if the lines are tied to times.
pub proof fn lemma_converted_holds_the_lines(lyrics: ColorLyrics)
    ensures
        converted(lyrics) is Some <==> lyrics.lines@.len() > 0,
        converted(lyrics) matches Some(model) ==> {
            &&& model.source == LyricsSource::Spotify
            &&& model.plain == Some(
                join(lyrics.lines@.map_values(|line: ColorLyricsLine| line.words@), "\n"@),
            )
            &&& model.synced is Some <==> lyrics.sync_type is Some && lyrics.sync_type->0@
                == "LINE_SYNCED"@ && timed(lyrics.lines@).len() > 0
            &&& model.synced matches Some(lines) ==> lines.to_multiset() == timed(
                lyrics.lines@,
            ).to_multiset()
        },
{
    super::lemma_sorted_lines_are_in_time(timed(lyrics.lines@));
}

/// A digit behind a number gives sixty-two times the number and the digit; what is no digit makes it
/// no number. An id of the right length names the track of its number, as far as that fits.
pub proof fn lemma_ids_are_numbers(text: Seq<char>, c: char)
    ensures
        base62_number(Seq::empty()) == Some(0nat),
        base62_digit(c) is None ==> base62_number(text.push(c)) is None,
        base62_number(text) matches Some(number) ==> base62_digit(c) matches Some(digit)
            ==> base62_number(text.push(c)) == Some((62 * number + digit) as nat),
        text.len() != 22 ==> track_number(text) is None,
        base62_number(text) matches Some(number) ==> text.len() == 22 && number <= u128::MAX
            ==> track_number(text) == Some(number as u128),
{
    assert(text.push(c).drop_last() =~= text);
}

} // verus!
