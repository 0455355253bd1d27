//! The lrclib.net lyrics API.

use vstd::prelude::*;

use super::lrc::{lyrics_of, parse};
use super::{
    lemma_parsed_lines_are_in_time, line_views, maybe_lyrics, showable, Lyrics, LyricsSource,
    LyricsModel,
};
use crate::text::{chars_of, decimal, decimal_text, trim, trimmed};

verus! {

/// What lrclib.net knows of a track.
#[derive(Clone, Debug, Default)]
pub struct LrclibResponse {
    pub instrumental: Option<bool>,
    pub plain_lyrics: Option<String>,
    pub synced_lyrics: Option<String>,
}

/// The parameters of a request, each with its name.
pub open spec fn parameters(query: Seq<(&str, String)>) -> Seq<(Seq<char>, Seq<char>)> {
    query.map_values(|p: (&str, String)| (p.0@, p.1@))
}

/// The first artist, or nothing where there is none.
pub open spec fn first_artist(artists: Seq<String>) -> Seq<char> {
    if artists.len() > 0 {
        artists[0]@
    } else {
        Seq::empty()
    }
}

fn artist_of(artists: &[String]) -> (artist: String)
    ensures
        artist@ == first_artist(artists@),
{
    if artists.len() > 0 {
        artists[0].clone()
    } else {
        let artist = String::new();
        assert(artist@ =~= Seq::<char>::empty());
        artist
    }
}

/// The whole seconds of a length in milliseconds, rounded up.
pub open spec fn seconds_up(duration_ms: int) -> int {
    (duration_ms + 999) / 1000
}

/// The parameters of a look-up by the exact signature of a track.
pub fn lookup_query(
    artists: &[String],
    title: &str,
    album: &Option<String>,
    duration_ms: u32,
) -> (query: Vec<(&'static str, String)>)
    ensures
        parameters(query@) == ({
            let base = seq![
                ("artist_name"@, first_artist(artists@)),
                ("track_name"@, title@),
                ("duration"@, decimal(seconds_up(duration_ms as int) as nat)),
            ];
            match *album {
                Some(album) => base.push(("album_name"@, album@)),
                None => base,
            }
        }),
{
    let seconds: u64 = (duration_ms as u64 + 999) / 1000;
    let mut query: Vec<(&'static str, String)> = Vec::new();
    query.push(("artist_name", artist_of(artists)));
    query.push(("track_name", title.to_owned()));
    query.push(("duration", decimal_text(seconds)));
    let ghost base = seq![
        ("artist_name"@, first_artist(artists@)),
        ("track_name"@, title@),
        ("duration"@, decimal(seconds_up(duration_ms as int) as nat)),
    ];
    assert(parameters(query@) =~= base);
    if let Some(album) = album {
        query.push(("album_name", album.clone()));
        assert(parameters(query@) =~= base.push(("album_name"@, album@)));
    }
    query
}

/// The parameters of a search for a track.
pub fn search_query(artists: &[String], title: &str) -> (query: Vec<(&'static str, String)>)
    ensures
        parameters(query@) == seq![
            ("artist_name"@, first_artist(artists@)),
            ("track_name"@, title@),
        ],
{
    let mut query: Vec<(&'static str, String)> = Vec::new();
    query.push(("artist_name", artist_of(artists)));
    query.push(("track_name", title.to_owned()));
    assert(parameters(query@) =~= seq![
        ("artist_name"@, first_artist(artists@)),
        ("track_name"@, title@),
    ]);
    query
}

/// How lrclib.net has answered a look-up by the exact signature.
#[derive(Clone, Debug)]
pub enum LookUpReply {
    Known(LrclibResponse),
    /// An answer that cannot be read.
    Unreadable,
    /// A refusal with a status code.
    Refused(u16),
    /// No answer at all.
    Failed,
}

/// What follows from the answer to a look-up.
#[derive(Clone, Debug)]
pub enum AfterLookUp {
    Done(Option<Lyrics>),
    Search,
}

/// The status code of an unknown track.
pub const NOT_FOUND: u16 = 404;

/// Only a look-up for an unknown track is followed by a search.
pub fn after_lookup(reply: LookUpReply) -> (next: AfterLookUp)
    ensures
        match reply {
            LookUpReply::Known(response) => next is Done && maybe_lyrics(next->Done_0) == converted(
                response,
            ),
            LookUpReply::Refused(code) => if code == NOT_FOUND {
                next is Search
            } else {
                next is Done && next->Done_0 is None
            },
            _ => next is Done && next->Done_0 is None,
        },
{
    match reply {
        LookUpReply::Known(response) => AfterLookUp::Done(convert(&response)),
        LookUpReply::Unreadable => AfterLookUp::Done(None),
        LookUpReply::Refused(code) => if code == NOT_FOUND {
            AfterLookUp::Search
        } else {
            AfterLookUp::Done(None)
        },
        LookUpReply::Failed => AfterLookUp::Done(None),
    }
}

/// The lyrics in an answer: a note for an instrumental, or else the synced lines and the plain
/// text, as far as there are any.
pub open spec fn converted(response: LrclibResponse) -> Option<LyricsModel> {
    let synced = match response.synced_lyrics {
        Some(text) => if lyrics_of(text@).len() > 0 {
            Some(lyrics_of(text@))
        } else {
            None
        },
        None => None,
    };
    let plain = match response.plain_lyrics {
        Some(text) => if trim(text@).len() > 0 {
            Some(text@)
        } else {
            None
        },
        None => None,
    };
    if response.instrumental == Some(true) {
        Some(
            LyricsModel {
                synced: None,
                plain: Some("♪ instrumental ♪"@),
                source: LyricsSource::Lrclib,
            },
        )
    } else if synced is None && plain is None {
        None
    } else {
        Some(LyricsModel { synced, plain, source: LyricsSource::Lrclib })
    }
}

pub fn convert(response: &LrclibResponse) -> (lyrics: Option<Lyrics>)
    ensures
        maybe_lyrics(lyrics) == converted(*response),
{
    if let Some(true) = response.instrumental {
        return Some(
            Lyrics {
                synced: None,
                plain: Some("♪ instrumental ♪".to_owned()),
                source: LyricsSource::Lrclib,
            },
        );
    }
    let synced = match &response.synced_lyrics {
        Some(text) => {
            let lines = parse(text.as_str());
            assert(line_views(lines@).len() == lines@.len());
            if lines.len() > 0 {
                Some(lines)
            } else {
                None
            }
        },
        None => None,
    };
    let plain = match &response.plain_lyrics {
        Some(text) => if trimmed(chars_of(text.as_str()).as_slice()).len() > 0 {
            Some(text.clone())
        } else {
            None
        },
        None => None,
    };
    if synced.is_none() && plain.is_none() {
        return None;
    }
    Some(Lyrics { synced, plain, source: LyricsSource::Lrclib })
}

/// The position of the search result to take: the last one with synced lyrics, or the last one
/// where none has any.
pub open spec fn best_result(results: Seq<LrclibResponse>) -> int
    decreases results.len(),
{
    if results.len() <= 1 || results.last().synced_lyrics is Some {
        results.len() - 1
    } else {
        let before = best_result(results.drop_last());
        if results[before].synced_lyrics is Some {
            before
        } else {
            results.len() - 1
        }
    }
}

/// The lyrics that a search has found. Prefers a synced result over plain text.
pub fn pick(results: &[LrclibResponse]) -> (lyrics: Option<Lyrics>)
    ensures
        maybe_lyrics(lyrics) == if results@.len() == 0 {
            None
        } else {
            converted(results@[best_result(results@)])
        },
{
    if results.len() == 0 {
        return None;
    }
    let mut best: usize = 0;
    let mut i: usize = 1;
    while i < results.len()
        invariant
            1 <= i <= results@.len(),
            best < i,
            best == best_result(results@.take(i as int)),
        decreases results@.len() - i,
    {
        let ghost head = results@.take(i + 1);
        assert(head.drop_last() =~= results@.take(i as int));
        assert(head.last() == results@[i as int]);
        if results[i].synced_lyrics.is_some() || results[best].synced_lyrics.is_none() {
            best = i;
        }
        i += 1;
    }
    assert(results@.take(i as int) =~= results@);
    convert(&results[best])
}

/// The result that is taken has synced lyrics whenever any result has.
pub proof fn lemma_synced_is_preferred(results: Seq<LrclibResponse>, i: int)
    requires
        0 <= i < results.len(),
        results[i].synced_lyrics is Some,
    ensures
        0 <= best_result(results) < results.len(),
        results[best_result(results)].synced_lyrics is Some,
    decreases results.len(),
{
    if results.len() > 1 && results.last().synced_lyrics is None {
        lemma_synced_is_preferred(results.drop_last(), i);
    }
}

/// Lyrics from lrclib.net always have something to show, and synced lines are in time.
pub proof fn lemma_converted_is_showable(response: LrclibResponse)
    ensures
        converted(response) is Some ==> showable(converted(response)->0),
{
    if response.synced_lyrics is Some {
        lemma_parsed_lines_are_in_time(response.synced_lyrics->0@);
    }
}

/// The note for instrumentals is given just where the answer says that the track is one; then
/// neither the plain text nor the synced lines of the answer are shown.
pub proof fn lemma_only_instrumentals_get_the_note(response: LrclibResponse)
    ensures
        response.instrumental == Some(true) ==> converted(response) == Some(
            LyricsModel {
                synced: None,
                plain: Some("♪ instrumental ♪"@),
                source: LyricsSource::Lrclib,
            },
        ),
        response.instrumental != Some(true) ==> converted(response) == converted(
            LrclibResponse { instrumental: None, ..response },
        ),
{
}

/// Unless the track is an instrumental, the synced lines of an answer are its parsed lines, if there
/// are any, its plain text is the answer's unless that is blank, and there are lyrics just if there
/// is either.
pub proof fn lemma_converted_holds_the_answer(response: LrclibResponse)
    requires
        response.instrumental != Some(true),
    ensures
        ({
            let lines = response.synced_lyrics is Some && lyrics_of(
                response.synced_lyrics->0@,
            ).len() > 0;
            let text = response.plain_lyrics is Some && trim(response.plain_lyrics->0@).len() > 0;
            &&& converted(response) is Some <==> lines || text
            &&& converted(response) matches Some(lyrics) ==> {
                &&& lyrics.source == LyricsSource::Lrclib
                &&& lyrics.synced is Some <==> lines
                &&& lines ==> lyrics.synced == Some(lyrics_of(response.synced_lyrics->0@))
                &&& lyrics.plain is Some <==> text
                &&& text ==> lyrics.plain == Some(response.plain_lyrics->0@)
            }
        }),
{
}

/// A result is taken that none behind it beats: it has synced lyrics, or no result has any, and
/// those behind it have none.
pub proof fn lemma_last_best_result_is_taken(results: Seq<LrclibResponse>)
    requires
        results.len() > 0,
    ensures
        0 <= best_result(results) < results.len(),
        results[best_result(results)].synced_lyrics is None ==> best_result(results)
            == results.len() - 1 && forall|i: int|
            0 <= i < results.len() ==> (#[trigger] results[i]).synced_lyrics is None,
        forall|i: int|
            best_result(results) < i < results.len() ==> (#[trigger] results[i]).synced_lyrics
                is None,
    decreases results.len(),
{
    if results.len() > 1 && results.last().synced_lyrics is None {
        let before = results.drop_last();
        lemma_last_best_result_is_taken(before);
        assert forall|i: int| best_result(results) < i < results.len() implies (
        #[trigger] results[i]).synced_lyrics is None by {
            if i < before.len() {
                assert(before[i] == results[i]);
            }
        }
        if results[best_result(results)].synced_lyrics is None {
            assert forall|i: int| 0 <= i < results.len() implies (
            #[trigger] results[i]).synced_lyrics is None by {
                if i < before.len() {
                    assert(before[i] == results[i]);
                }
            }
        }
    }
}

/// The length in a look-up is in whole seconds, rounded up: no shorter than the track, and less than
/// a second longer.
pub proof fn lemma_seconds_are_rounded_up(duration_ms: int)
    requires
        0 <= duration_ms,
    ensures
        duration_ms <= 1000 * seconds_up(duration_ms) < duration_ms + 1000,
{
}

/// A search follows just where the track is unknown, and a failed look-up finds nothing.
pub proof fn lemma_only_unknown_tracks_are_searched(reply: LookUpReply, next: AfterLookUp)
    requires
        call_ensures(after_lookup, (reply,), next),
    ensures
        next is Search <==> reply == LookUpReply::Refused(404),
        next matches AfterLookUp::Done(Some(_)) ==> reply is Known,
{
}

/// A look-up names the first artist, the title and the length in whole seconds, rounded up, and the
/// album where there is one; a search names the same artist and title and nothing else.
pub proof fn lemma_requests_name_the_track(
    artists: &[String],
    title: &str,
    album: Option<String>,
    duration_ms: u32,
    lookup: Vec<(&'static str, String)>,
    search: Vec<(&'static str, String)>,
)
    requires
        call_ensures(lookup_query, (artists, title, &album, duration_ms), lookup),
        call_ensures(search_query, (artists, title), search),
    ensures
        search@.len() == 2,
        lookup@.len() == if album is Some {
            4int
        } else {
            3
        },
        artists@.len() > 0 ==> lookup@[0].1@ == artists@[0]@,
        artists@.len() == 0 ==> lookup@[0].1@.len() == 0,
        lookup@[0].0@ == "artist_name"@ && lookup@[1].0@ == "track_name"@ && lookup@[2].0@
            == "duration"@,
        lookup@[1].1@ == title@,
        lookup@[2].1@ == decimal(seconds_up(duration_ms as int) as nat),
        album matches Some(name) ==> lookup@[3].0@ == "album_name"@ && lookup@[3].1@ == name@,
        search@[0].0@ == lookup@[0].0@ && search@[0].1@ == lookup@[0].1@,
        search@[1].0@ == lookup@[1].0@ && search@[1].1@ == lookup@[1].1@,
{
    let a = parameters(lookup@);
    let s = parameters(search@);
    assert(a.len() == lookup@.len() && s.len() == search@.len());
    assert(a[0] == (lookup@[0].0@, lookup@[0].1@));
    assert(a[1] == (lookup@[1].0@, lookup@[1].1@));
    assert(a[2] == (lookup@[2].0@, lookup@[2].1@));
    if album is Some {
        assert(a[3] == (lookup@[3].0@, lookup@[3].1@));
    }
    assert(s[0] == (search@[0].0@, search@[0].1@));
    assert(s[1] == (search@[1].0@, search@[1].1@));
}

} // verus!
