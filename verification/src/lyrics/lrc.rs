//! Parser for the LRC lyrics format used by lrclib.net.

use vstd::prelude::*;

use super::seconds::{lemma_seconds_are_decimal, parse_seconds, read_seconds};
use super::{line_views, sort_lines, sorted_by_time, LineView, LyricsLine};
use crate::text::{
    all_digits, chars_of, digit_value, digits_value, find, is_digit, lemma_position,
    lemma_trim_start, lines, parse_u32, position, read_u32, split_lines, string_of, texts, trim,
    trim_start, trimmed, trimmed_start, white_space,
};

verus! {

/// The milliseconds that a `mm:ss.xx` (or `mm:ss`) timestamp stands for. The minutes are a number
/// without a fraction, the seconds a decimal number below 60. A time that does not fit into 32 bits
/// is none.
pub open spec fn timestamp(tag: Seq<char>) -> Option<u32> {
    let colon = position(tag, ':');
    if 0 <= colon < tag.len() {
        match (parse_u32(trim(tag.take(colon))), parse_seconds(trim(tag.skip(colon + 1)))) {
            (Some(minutes), Some(ms)) => if minutes * 60_000 + ms <= u32::MAX {
                Some((minutes * 60_000 + ms) as u32)
            } else {
                None
            },
            _ => None,
        }
    } else {
        None
    }
}

/// Parses a `mm:ss.xx` (or `mm:ss`) timestamp into milliseconds.
pub fn parse_timestamp(tag: &str) -> (ms: Option<u32>)
    ensures
        ms == timestamp(tag@),
{
    read_timestamp(chars_of(tag).as_slice())
}

fn read_timestamp(tag: &[char]) -> (ms: Option<u32>)
    ensures
        ms == timestamp(tag@),
{
    let colon: usize = find(tag, ':');
    if colon >= tag.len() {
        return None;
    }
    assert(tag@.take(colon as int) =~= tag@.subrange(0, colon as int));
    assert(tag@.skip(colon + 1) =~= tag@.subrange(colon + 1, tag@.len() as int));
    let minutes: u32 = match read_u32(trimmed(&tag[0..colon])) {
        Some(minutes) => minutes,
        None => return None,
    };
    let ms: u32 = match read_seconds(trimmed(&tag[colon + 1..tag.len()])) {
        Some(ms) => ms,
        None => return None,
    };
    let time: u64 = minutes as u64 * 60_000 + ms as u64;
    if time <= 0xffff_ffff {
        Some(time as u32)
    } else {
        None
    }
}

/// The timestamps at the start of a line, and what is left of the line behind them. A tag that is
/// no timestamp ends the run.
pub open spec fn tag_run(rest: Seq<char>) -> (Seq<u32>, Seq<char>)
    decreases rest.len(),
{
    let inner = rest.skip(1);
    let end = position(inner, ']');
    let after = trim_start(inner.skip(end + 1));
    if rest.len() > 0 && rest[0] == '[' && end < inner.len() && timestamp(inner.take(end)) is Some {
        proof {
            lemma_position(inner, ']');
            lemma_trim_start(inner.skip(end + 1));
        }
        let (times, left) = tag_run(after);
        (seq![timestamp(inner.take(end))->0] + times, left)
    } else {
        (Seq::empty(), rest)
    }
}

/// The lyrics lines in one line of the file: one for each timestamp, all with the same text.
pub open spec fn line_entries(raw: Seq<char>) -> Seq<LineView> {
    let (times, left) = tag_run(trim(raw));
    times.map_values(|time_ms: u32| LineView { time_ms, text: trim(left) })
}

/// The lyrics lines of a file in the order in which they stand.
pub open spec fn entries(raws: Seq<Seq<char>>) -> Seq<LineView>
    decreases raws.len(),
{
    if raws.len() == 0 {
        Seq::empty()
    } else {
        entries(raws.drop_last()) + line_entries(raws.last())
    }
}

/// The lyrics that an LRC text holds: its lines by their time, those of one time as they stand.
pub open spec fn lyrics_of(lrc: Seq<char>) -> Seq<LineView> {
    sorted_by_time(entries(lines(lrc)))
}

/// Parses LRC text into lines sorted by start time.
///
/// Supports multiple timestamps per line (`[00:12.00][01:50.32]text`) and
/// ignores metadata tags like `[ar:...]`.
pub fn parse(lrc: &str) -> (lyrics: Vec<LyricsLine>)
    ensures
        line_views(lyrics@) == lyrics_of(lrc@),
{
    let raws = split_lines(chars_of(lrc).as_slice());
    let mut found: Vec<LyricsLine> = Vec::new();
    let mut i: usize = 0;
    assert(texts(raws@).take(0) =~= Seq::<Seq<char>>::empty());
    assert(line_views(found@) =~= Seq::<LineView>::empty());
    while i < raws.len()
        invariant
            i <= raws@.len(),
            texts(raws@) == lines(lrc@),
            line_views(found@) == entries(texts(raws@).take(i as int)),
        decreases raws@.len() - i,
    {
        let ghost head = texts(raws@).take(i + 1);
        assert(head.drop_last() =~= texts(raws@).take(i as int));
        assert(head.last() == raws@[i as int]@);
        let raw = chars_of(raws[i].as_str());
        let ghost before = line_views(found@);
        let mut more = parse_line(raw.as_slice());
        let ghost added = line_views(more@);
        found.append(&mut more);
        assert(line_views(found@) =~= before + added);
        i += 1;
    }
    assert(texts(raws@).take(i as int) =~= lines(lrc@));
    sort_lines(found)
}

fn parse_line(raw: &[char]) -> (found: Vec<LyricsLine>)
    ensures
        line_views(found@) == line_entries(raw@),
{
    let whole = trimmed(raw);
    let mut rest: &[char] = whole;
    let mut times: Vec<u32> = Vec::new();
    assert(times@ + tag_run(rest@).0 =~= tag_run(whole@).0);
    while rest.len() > 0 && rest[0] == '['
        invariant_except_break
            times@ + tag_run(rest@).0 == tag_run(whole@).0,
            tag_run(rest@).1 == tag_run(whole@).1,
        ensures
            times@ == tag_run(whole@).0,
            rest@ == tag_run(whole@).1,
        decreases rest@.len(),
    {
        let ghost inner = rest@.skip(1);
        assert(inner =~= rest@.subrange(1, rest@.len() as int));
        let stripped = &rest[1..rest.len()];
        let end: usize = find(stripped, ']');
        let ghost run = tag_run(rest@);
        if end >= stripped.len() {
            assert(run == (Seq::<u32>::empty(), rest@));
            assert(times@ + run.0 =~= times@);
            break;
        }
        assert(inner.take(end as int) =~= inner.subrange(0, end as int));
        assert(inner.skip(end + 1) =~= inner.subrange(end + 1, inner.len() as int));
        let ghost before = times@;
        match read_timestamp(&stripped[0..end]) {
            Some(time_ms) => {
                let after = trimmed_start(&stripped[end + 1..stripped.len()]);
                times.push(time_ms);
                assert(after@.len() < rest@.len());
                assert(run.0 == seq![time_ms] + tag_run(after@).0);
                assert(times@ + tag_run(after@).0 =~= before + run.0);
                rest = after;
            },
            None => {
                assert(run == (Seq::<u32>::empty(), rest@));
                assert(times@ + run.0 =~= times@);
                break;
            },
        }
        if rest.len() == 0 || rest[0] != '[' {
            assert(tag_run(rest@) == (Seq::<u32>::empty(), rest@));
            assert(times@ + tag_run(rest@).0 =~= times@);
        }
    }
    let text = trimmed(rest);
    let mut found: Vec<LyricsLine> = Vec::new();
    let mut i: usize = 0;
    while i < times.len()
        invariant
            i <= times@.len(),
            found@.len() == i,
            forall|j: int|
                0 <= j < i ==> (#[trigger] found@[j])@ == (LineView {
                    time_ms: times@[j],
                    text: text@,
                }),
        decreases times@.len() - i,
    {
        found.push(LyricsLine { time_ms: times[i], text: string_of(text) });
        i += 1;
    }
    assert(line_views(found@) =~= line_entries(raw@));
    found
}

// What is read from a text

/// A timestamp in the form `mm:ss` or `mm:ss.xx` stands for its minutes, seconds and hundredths.
pub proof fn lemma_timestamps_are_read(minutes: Seq<char>, seconds: Seq<char>, hundredths: Seq<char>)
    requires
        all_digits(minutes) && minutes.len() > 0,
        all_digits(seconds) && seconds.len() > 0,
        all_digits(hundredths) && hundredths.len() == 2,
        digits_value(seconds) < 60,
        60_000 * digits_value(minutes) + 60_000 <= u32::MAX,
    ensures
        timestamp(minutes + seq![':'] + seconds) == Some(
            (60_000 * digits_value(minutes) + 1000 * digits_value(seconds)) as u32,
        ),
        timestamp(minutes + seq![':'] + (seconds + seq!['.'] + hundredths)) == Some(
            (60_000 * digits_value(minutes) + 1000 * digits_value(seconds) + 10 * digits_value(
                hundredths,
            )) as u32,
        ),
{
    lemma_seconds_are_decimal(seconds, hundredths);
    lemma_pair_is_read(minutes, seconds);
    lemma_pair_is_read(minutes, seconds + seq!['.'] + hundredths);
    assert(digits_value(hundredths) < 100) by {
        let first = hundredths.drop_last();
        assert(first.drop_last() =~= Seq::<char>::empty());
        assert(digits_value(first.drop_last()) == 0);
        assert(is_digit(hundredths[0]) && is_digit(hundredths[1]));
        assert(first.last() == hundredths[0]);
        assert(digits_value(first) == digit_value(hundredths[0]));
    }
}

proof fn lemma_pair_is_read(minutes: Seq<char>, seconds: Seq<char>)
    requires
        all_digits(minutes) && minutes.len() > 0,
        digits_value(minutes) <= u32::MAX,
        seconds.len() > 0,
        is_digit(seconds[0]) && is_digit(seconds.last()),
    ensures
        ({
            let tag = minutes + seq![':'] + seconds;
            let colon = position(tag, ':');
            &&& colon == minutes.len()
            &&& parse_u32(trim(tag.take(colon))) == Some(digits_value(minutes) as u32)
            &&& trim(tag.skip(colon + 1)) == seconds
        }),
{
    let tag = minutes + seq![':'] + seconds;
    assert forall|j: int| 0 <= j < minutes.len() implies tag[j] != ':' by {
        assert(is_digit(minutes[j]));
        assert(tag[j] == minutes[j]);
    }
    crate::text::lemma_position_unique(tag, ':', minutes.len() as int);
    assert(tag.take(minutes.len() as int) =~= minutes);
    assert(tag.skip(minutes.len() + 1int) =~= seconds);
    assert(is_digit(minutes[0]) && is_digit(minutes[minutes.len() - 1]));
    crate::text::lemma_trimmed_stays(minutes);
    crate::text::lemma_trimmed_stays(seconds);
}

/// A tag without a colon, with minutes that are no number, or with seconds from 60 on is no
/// timestamp.
pub proof fn lemma_other_tags_are_no_timestamps(tag: Seq<char>)
    requires
        timestamp(tag) is Some,
    ensures
        exists|i: int| 0 <= i < tag.len() && #[trigger] tag[i] == ':',
        ({
            let colon = position(tag, ':');
            &&& parse_u32(trim(tag.take(colon))) is Some
            &&& parse_seconds(trim(tag.skip(colon + 1))) is Some
            &&& timestamp(tag)->0 % 60_000 == parse_seconds(trim(tag.skip(colon + 1)))->0
            &&& timestamp(tag)->0 / 60_000 == parse_u32(trim(tag.take(colon)))->0
        }),
{
    let colon = position(tag, ':');
    lemma_position(tag, ':');
    assert(tag[colon] == ':');
    super::seconds::lemma_no_seconds(trim(tag.skip(colon + 1)));
}

/// A timestamp in brackets at the start of a line gives the line its time; what stands behind it is
/// read in the same way.
pub proof fn lemma_tags_are_read(tag: Seq<char>, rest: Seq<char>)
    requires
        forall|i: int| 0 <= i < tag.len() ==> (#[trigger] tag[i]) != ']',
    ensures
        ({
            let raw = seq!['['] + tag + seq![']'] + rest;
            let (times, left) = tag_run(trim_start(rest));
            &&& timestamp(tag) is Some ==> tag_run(raw) == (seq![timestamp(tag)->0] + times, left)
            &&& timestamp(tag) is None ==> tag_run(raw) == (Seq::<u32>::empty(), raw)
        }),
{
    let raw = seq!['['] + tag + seq![']'] + rest;
    let inner = raw.skip(1);
    assert(inner =~= tag + seq![']'] + rest);
    crate::text::lemma_position_unique(inner, ']', tag.len() as int);
    assert(inner.take(tag.len() as int) =~= tag);
    assert(inner.skip(tag.len() + 1int) =~= rest);
}

/// What does not start with a bracket has no times.
pub proof fn lemma_text_has_no_times(rest: Seq<char>)
    requires
        rest.len() == 0 || rest[0] != '[',
    ensures
        tag_run(rest) == (Seq::<u32>::empty(), rest),
{
}

/// A line with one timestamp and a text is one line of lyrics: the text, at that time. A line with
/// two timestamps is the same text at both times.
pub proof fn lemma_lines_of_lyrics(first: Seq<char>, second: Seq<char>, text: Seq<char>)
    requires
        forall|i: int| 0 <= i < first.len() ==> (#[trigger] first[i]) != ']',
        forall|i: int| 0 <= i < second.len() ==> (#[trigger] second[i]) != ']',
        timestamp(first) is Some,
        timestamp(second) is Some,
        text.len() > 0,
        text[0] != '[',
        !white_space(text[0]) && !white_space(text.last()),
    ensures
        line_entries(seq!['['] + first + seq![']'] + text) == seq![
            LineView { time_ms: timestamp(first)->0, text },
        ],
        line_entries(seq!['['] + first + seq![']'] + (seq!['['] + second + seq![']'] + text))
            == seq![
            LineView { time_ms: timestamp(first)->0, text },
            LineView { time_ms: timestamp(second)->0, text },
        ],
{
    let one = seq!['['] + second + seq![']'] + text;
    let raw = seq!['['] + first + seq![']'] + text;
    let both = seq!['['] + first + seq![']'] + one;
    crate::text::lemma_trimmed_stays(text);
    assert(raw.last() == text.last() && raw[0] == '[');
    assert(one.last() == text.last() && one[0] == '[');
    assert(both.last() == text.last() && both[0] == '[');
    crate::text::lemma_trimmed_stays(raw);
    crate::text::lemma_trimmed_stays(one);
    crate::text::lemma_trimmed_stays(both);
    lemma_tags_are_read(first, text);
    lemma_tags_are_read(second, text);
    lemma_tags_are_read(first, one);
    lemma_text_has_no_times(text);
    let t1 = timestamp(first)->0;
    let t2 = timestamp(second)->0;
    assert(seq![t1] + Seq::<u32>::empty() =~= seq![t1]);
    assert(seq![t2] + Seq::<u32>::empty() =~= seq![t2]);
    assert(tag_run(both).0 =~= seq![t1, t2]);
    assert(line_entries(raw) =~= seq![LineView { time_ms: t1, text }]);
    assert(line_entries(both) =~= seq![
        LineView { time_ms: t1, text },
        LineView { time_ms: t2, text },
    ]);
}

/// The lyrics of a text are those of its lines, one behind the other.
pub proof fn lemma_entries_add(a: Seq<Seq<char>>, b: Seq<Seq<char>>)
    ensures
        entries(a + b) == entries(a) + entries(b),
    decreases b.len(),
{
    if b.len() == 0 {
        assert(a + b =~= a);
        assert(entries(a) + entries(b) =~= entries(a));
    } else {
        lemma_entries_add(a, b.drop_last());
        assert((a + b).drop_last() =~= a + b.drop_last());
        assert((a + b).last() == b.last());
        assert(entries(a) + entries(b.drop_last()) + line_entries(b.last()) =~= entries(a) + (
        entries(b.drop_last()) + line_entries(b.last())));
    }
}

/// A text has just the lyrics lines of its lines, each of them once.
pub proof fn lemma_no_line_is_lost(lrc: Seq<char>)
    ensures
        lyrics_of(lrc).to_multiset() == entries(lines(lrc)).to_multiset(),
        lyrics_of(lrc).len() == entries(lines(lrc)).len(),
{
    super::lemma_sorted_lines_are_in_time(entries(lines(lrc)));
    crate::sort::lemma_sort_len(entries(lines(lrc)), super::rank_lines());
}

} // verus!
