//! Synced lyrics.
//!
//! Lyrics are fetched from lrclib.net first and from Spotify's color-lyrics
//! endpoint as fallback. Results are cached on disk per track, including
//! negative results so missing tracks aren't re-requested on every play.

pub mod lrc;
pub mod lrclib;
pub mod seconds;
pub mod spotify;

use vstd::prelude::*;

use crate::model::{Playable, Track};
use crate::sort::{lemma_sort_of_views, lemma_stable_sort, sort, stable_sort, Ranked};
use crate::text::{maybe_text, same_text};

verus! {

/// A single time-tagged lyrics line.
#[derive(Clone, Debug, PartialEq, Eq)]
pub struct LyricsLine {
    /// Start time of the line relative to the start of the track.
    pub time_ms: u32,
    pub text: String,
}

/// A lyrics line, with its text as a sequence of characters.
pub ghost struct LineView {
    pub time_ms: u32,
    pub text: Seq<char>,
}

impl View for LyricsLine {
    type V = LineView;

    open spec fn view(&self) -> LineView {
        LineView { time_ms: self.time_ms, text: self.text@ }
    }
}

pub open spec fn line_views(lines: Seq<LyricsLine>) -> Seq<LineView> {
    lines.map_values(|line: LyricsLine| line@)
}

impl Ranked for LyricsLine {
    open spec fn ranks(self, other: LyricsLine) -> bool {
        self.time_ms <= other.time_ms
    }

    fn ranks_before_or_with(&self, other: &LyricsLine) -> (yes: bool) {
        self.time_ms <= other.time_ms
    }
}

/// Lines by their start time.
pub open spec fn rank_lines() -> spec_fn(LineView, LineView) -> bool {
    |a: LineView, b: LineView| a.time_ms <= b.time_ms
}

/// The lines by their start time, those of one time in the order in which they stand.
pub open spec fn sorted_by_time(lines: Seq<LineView>) -> Seq<LineView> {
    stable_sort(lines, rank_lines())
}

pub(crate) fn sort_lines(lines: Vec<LyricsLine>) -> (sorted: Vec<LyricsLine>)
    ensures
        line_views(sorted@) == sorted_by_time(line_views(lines@)),
{
    let ghost all = lines@;
    let sorted = sort(lines);
    proof {
        lemma_sort_of_views(
            all,
            |line: LyricsLine| line@,
            |a: LyricsLine, b: LyricsLine| a.ranks(b),
            rank_lines(),
        );
    }
    sorted
}

/// Whether no line starts before one that stands before it.
pub open spec fn in_time(lines: Seq<LineView>) -> bool {
    forall|i: int, j: int|
        0 <= i < j < lines.len() ==> (#[trigger] lines[i]).time_ms <= (#[trigger] lines[j]).time_ms
}

/// Sorted lines are in the order of their start times, and are the same lines.
pub proof fn lemma_sorted_lines_are_in_time(lines: Seq<LineView>)
    ensures
        in_time(sorted_by_time(lines)),
        sorted_by_time(lines).to_multiset() == lines.to_multiset(),
{
    let rank = rank_lines();
    assert forall|a: LineView, b: LineView| #[trigger] rank(a, b) || rank(b, a) by {}
    assert forall|a: LineView, b: LineView, c: LineView| #[trigger] rank(a, b) && #[trigger] rank(
        b,
        c,
    ) implies rank(a, c) by {}
    lemma_stable_sort(lines, rank);
    let sorted = sorted_by_time(lines);
    assert forall|i: int, j: int| 0 <= i < j < sorted.len() implies (#[trigger] sorted[i]).time_ms
        <= (#[trigger] sorted[j]).time_ms by {
        assert(rank(sorted[i], sorted[j]));
    }
}

/// The lines of an LRC text come out in the order of their start times.
pub proof fn lemma_parsed_lines_are_in_time(text: Seq<char>)
    ensures
        in_time(lrc::lyrics_of(text)),
{
    lemma_sorted_lines_are_in_time(lrc::entries(crate::text::lines(text)));
}

#[derive(Clone, Copy, Debug, PartialEq, Eq, Structural)]
pub enum LyricsSource {
    Lrclib,
    Spotify,
}

#[derive(Clone, Debug)]
pub struct Lyrics {
    /// Time-synced lines, sorted by time, if the source provides them.
    pub synced: Option<Vec<LyricsLine>>,
    /// Plain lyrics text as fallback for unsynced sources.
    pub plain: Option<String>,
    pub source: LyricsSource,
}

/// Lyrics, with texts as sequences of characters.
pub ghost struct LyricsModel {
    pub synced: Option<Seq<LineView>>,
    pub plain: Option<Seq<char>>,
    pub source: LyricsSource,
}

impl View for Lyrics {
    type V = LyricsModel;

    open spec fn view(&self) -> LyricsModel {
        LyricsModel {
            synced: match self.synced {
                Some(lines) => Some(line_views(lines@)),
                None => None,
            },
            plain: maybe_text(self.plain),
            source: self.source,
        }
    }
}

pub open spec fn maybe_lyrics(lyrics: Option<Lyrics>) -> Option<LyricsModel> {
    match lyrics {
        Some(lyrics) => Some(lyrics@),
        None => None,
    }
}

/// Lyrics have something to show: lines in time, or a text.
pub open spec fn showable(lyrics: LyricsModel) -> bool {
    &&& lyrics.synced is Some || lyrics.plain is Some
    &&& lyrics.synced is Some ==> lyrics.synced->0.len() > 0 && in_time(lyrics.synced->0)
}

#[derive(Clone, Debug)]
pub enum LyricsStatus {
    Loading,
    Found(Lyrics),
    NotFound,
}

/// The track whose lyrics are held, if any, and how far they are.
pub ghost struct Held {
    pub track: Option<Seq<char>>,
    pub status: LyricsStatus,
}

impl Held {
    /// How far the lyrics of a track are, if they are those that are held.
    pub open spec fn status_of(self, id: Seq<char>) -> Option<LyricsStatus> {
        if self.track == Some(id) {
            Some(self.status)
        } else {
            None
        }
    }

    /// What is held once something else is played, and the track whose lyrics have to be looked
    /// up, if any. Episodes and tracks without an id have no lyrics.
    pub open spec fn fetch(self, playable: Playable) -> (Held, Option<Seq<char>>) {
        match playable {
            Playable::Episode(episode) => (
                Held { track: Some(episode.id@), status: LyricsStatus::NotFound },
                None,
            ),
            Playable::Track(track) => match track.id {
                None => (Held { track: None, status: LyricsStatus::NotFound }, None),
                Some(id) => if self.track == Some(id@) {
                    (self, None)
                } else {
                    (Held { track: Some(id@), status: LyricsStatus::Loading }, Some(id@))
                },
            },
        }
    }

    /// What is held once a look-up has come to its end.
    pub open spec fn publish(self, id: Seq<char>, lyrics: Option<Lyrics>) -> Held {
        if self.track == Some(id) {
            Held {
                status: match lyrics {
                    Some(lyrics) => LyricsStatus::Found(lyrics),
                    None => LyricsStatus::NotFound,
                },
                ..self
            }
        } else {
            self
        }
    }
}

/// The owner of the lyrics for the currently playing track.
pub struct LyricsManager {
    track_id: Option<String>,
    status: LyricsStatus,
}

impl View for LyricsManager {
    type V = Held;

    closed spec fn view(&self) -> Held {
        Held { track: maybe_text(self.track_id), status: self.status }
    }
}

impl LyricsManager {
    pub fn new() -> (manager: LyricsManager)
        ensures
            manager@ == (Held { track: None, status: LyricsStatus::NotFound }),
    {
        LyricsManager { track_id: None, status: LyricsStatus::NotFound }
    }

    /// The lyrics status for `track_id`, or None if lyrics for a different track are loaded.
    pub fn status(&self, track_id: &str) -> (status: Option<&LyricsStatus>)
        ensures
            match status {
                Some(status) => self@.status_of(track_id@) == Some(*status),
                None => self@.status_of(track_id@) is None,
            },
    {
        match &self.track_id {
            Some(held) => if same_text(held.as_str(), track_id) {
                Some(&self.status)
            } else {
                None
            },
            None => None,
        }
    }

    /// Prepares to hold the lyrics for `playable`. Gives the id of the track whose lyrics have to
    /// be looked up, if any. Look-ups are deduplicated by track id, so calling this on every track
    /// change is fine.
    pub fn fetch(&mut self, playable: &Playable) -> (wanted: Option<String>)
        ensures
            (final(self)@, maybe_text(wanted)) == old(self)@.fetch(*playable),
    {
        match playable {
            Playable::Episode(episode) => {
                self.track_id = Some(episode.id.clone());
                self.status = LyricsStatus::NotFound;
                None
            },
            Playable::Track(track) => match &track.id {
                None => {
                    self.track_id = None;
                    self.status = LyricsStatus::NotFound;
                    None
                },
                Some(id) => {
                    if self.status(id.as_str()).is_some() {
                        return None;
                    }
                    self.track_id = Some(id.clone());
                    self.status = LyricsStatus::Loading;
                    Some(id.clone())
                },
            },
        }
    }

    /// Takes in what a look-up for `track_id` has found, unless a newer track took over in the
    /// meantime. Tells whether there is something new to show.
    pub fn publish(&mut self, track_id: &str, lyrics: Option<Lyrics>) -> (changed: bool)
        ensures
            changed == (old(self)@.track == Some(track_id@)),
            final(self)@ == old(self)@.publish(track_id@, lyrics),
    {
        if self.status(track_id).is_none() {
            return false;
        }
        self.status = match lyrics {
            Some(lyrics) => LyricsStatus::Found(lyrics),
            None => LyricsStatus::NotFound,
        };
        true
    }
}

/// The lyrics of a track are looked up once, however often it is played in a row: what follows a
/// track asks for no look-up and changes nothing if it is the same track.
pub proof fn lemma_looked_up_once(held: Held, first: Track, again: Track)
    requires
        first.id is Some,
        maybe_text(again.id) == maybe_text(first.id),
    ensures
        ({
            let after = held.fetch(Playable::Track(first)).0;
            after.fetch(Playable::Track(again)) == (after, None::<Seq<char>>)
        }),
{
}

/// What a look-up has found is what the track's status says from there on.
pub proof fn lemma_found_lyrics_are_held(held: Held, track: Track, lyrics: Option<Lyrics>)
    requires
        track.id is Some,
    ensures
        held.fetch(Playable::Track(track)).0.publish(track.id->0@, lyrics).status_of(
            track.id->0@,
        ) == Some(
            match lyrics {
                Some(lyrics) => LyricsStatus::Found(lyrics),
                None => LyricsStatus::NotFound,
            },
        ),
{
}

/// What a look-up has found is dropped if something else has been played in the meantime.
pub proof fn lemma_late_lyrics_are_dropped(
    held: Held,
    newer: Playable,
    id: Seq<char>,
    lyrics: Option<Lyrics>,
)
    requires
        match newer {
            Playable::Track(track) => maybe_text(track.id) != Some(id),
            Playable::Episode(episode) => episode.id@ != id,
        },
    ensures
        held.fetch(newer).0.publish(id, lyrics) == held.fetch(newer).0,
{
}

/// What is known in the course of a look-up.
#[derive(Clone, Debug)]
pub enum LookUpEvent {
    /// The cache holds a result for the track, which may be that there are no lyrics.
    Cached(Option<Lyrics>),
    /// The cache holds nothing for the track, or nothing that can be read.
    NotCached,
    /// What lrclib.net has for the track.
    FromLrclib(Option<Lyrics>),
    /// What Spotify has for the track.
    FromSpotify(Option<Lyrics>),
}

/// What has to be done next in the course of a look-up.
#[derive(Clone, Debug)]
pub enum LookUpAction {
    AskLrclib,
    AskSpotify,
    /// The look-up has come to its end; the result goes into the cache first if `keep` is set.
    Finish { lyrics: Option<Lyrics>, keep: bool },
}

/// The next step of a look-up: the cache first, then lrclib.net, then Spotify. What a source has
/// found ends the look-up. Results that come from the cache are not written there again; all
/// others are, also where no source has lyrics.
pub fn resolve(event: LookUpEvent) -> (action: LookUpAction)
    ensures
        match event {
            LookUpEvent::Cached(lyrics) => action == (LookUpAction::Finish {
                lyrics,
                keep: false,
            }),
            LookUpEvent::NotCached => action is AskLrclib,
            LookUpEvent::FromLrclib(Some(lyrics)) => action == (LookUpAction::Finish {
                lyrics: Some(lyrics),
                keep: true,
            }),
            LookUpEvent::FromLrclib(None) => action is AskSpotify,
            LookUpEvent::FromSpotify(lyrics) => action == (LookUpAction::Finish {
                lyrics,
                keep: true,
            }),
        },
{
    match event {
        LookUpEvent::Cached(lyrics) => LookUpAction::Finish { lyrics, keep: false },
        LookUpEvent::NotCached => LookUpAction::AskLrclib,
        LookUpEvent::FromLrclib(Some(lyrics)) => LookUpAction::Finish {
            lyrics: Some(lyrics),
            keep: true,
        },
        LookUpEvent::FromLrclib(None) => LookUpAction::AskSpotify,
        LookUpEvent::FromSpotify(lyrics) => LookUpAction::Finish { lyrics, keep: true },
    }
}

/// The name of the file in the cache that holds the result for a track.
pub fn cache_file_name(track_id: &str) -> (name: String)
    ensures
        name@ == track_id@ + ".json"@,
{
    crate::text::concat(track_id, ".json")
}

/// Lyrics are looked up just for a track that is not the one whose lyrics are held; the track that
/// is asked for is the one that is played, and it is loading from then on. Other things that are
/// played have no lyrics.
pub proof fn lemma_what_is_looked_up(held: Held, playable: Playable)
    ensures
        ({
            let (after, wanted) = held.fetch(playable);
            match playable {
                Playable::Track(track) => {
                    &&& wanted is Some ==> wanted == maybe_text(track.id) && after.track == wanted
                        && after.status is Loading
                    &&& wanted is Some <==> track.id is Some && held.track != maybe_text(track.id)
                    &&& track.id is None ==> after.track is None && after.status is NotFound
                    &&& track.id is Some && wanted is None ==> after == held
                },
                Playable::Episode(episode) => {
                    &&& wanted is None
                    &&& after.track == Some(episode.id@)
                    &&& after.status is NotFound
                },
            }
        }),
{
}

/// The status is that of the track whose lyrics are held, and of no other.
pub proof fn lemma_status_is_of_the_held_track(held: Held, id: Seq<char>)
    ensures
        held.status_of(id) is Some <==> held.track == Some(id),
        held.status_of(id) is Some ==> held.status_of(id) == Some(held.status),
{
}

/// The cache is asked before lrclib.net, and lrclib.net before Spotify; what is found ends the
/// look-up, and goes to the cache unless it comes from there.
pub proof fn lemma_sources_in_their_order(
    lyrics: Option<Lyrics>,
    found: Lyrics,
    cached: LookUpAction,
    missed: LookUpAction,
    known: LookUpAction,
    unknown: LookUpAction,
    last: LookUpAction,
)
    requires
        call_ensures(resolve, (LookUpEvent::Cached(lyrics),), cached),
        call_ensures(resolve, (LookUpEvent::NotCached,), missed),
        call_ensures(resolve, (LookUpEvent::FromLrclib(Some(found)),), known),
        call_ensures(resolve, (LookUpEvent::FromLrclib(None),), unknown),
        call_ensures(resolve, (LookUpEvent::FromSpotify(lyrics),), last),
    ensures
        cached == (LookUpAction::Finish { lyrics, keep: false }),
        missed is AskLrclib,
        known == (LookUpAction::Finish { lyrics: Some(found), keep: true }),
        unknown is AskSpotify,
        last == (LookUpAction::Finish { lyrics, keep: true }),
{
}

/// Lines of one time stay in the order in which they stand.
pub proof fn lemma_lines_of_one_time_stay_in_order(lines: Seq<LineView>, line: LineView)
    ensures
        sorted_by_time(lines).filter(|other: LineView| other.time_ms == line.time_ms)
            == lines.filter(|other: LineView| other.time_ms == line.time_ms),
{
    let rank = rank_lines();
    assert(crate::sort::is_total_order(rank));
    crate::sort::lemma_stable_sort_is_stable(lines, rank, line);
    let same = |other: LineView| other.time_ms == line.time_ms;
    let tie = |other: LineView| rank(other, line) && rank(line, other);
    assert(same =~= tie);
}

} // verus!
