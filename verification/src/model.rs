//! What is played, and how.

use vstd::prelude::*;

verus! {

/// A song, as far as the user interface reads it.
#[derive(Clone, Debug, PartialEq, Eq)]
pub struct Track {
    /// The id of the track; local files have none.
    pub id: Option<String>,
    pub title: String,
    pub artists: Vec<String>,
    pub artist_ids: Vec<String>,
    pub album: Option<String>,
    /// How long the track plays, in milliseconds.
    pub duration: u32,
    pub cover_url: Option<String>,
    pub is_local: bool,
    pub is_playable: Option<bool>,
    /// Whether the track was added by a recommendation.
    pub is_suggested: bool,
}

/// An episode of a podcast, as far as the user interface reads it.
#[derive(Clone, Debug, PartialEq, Eq)]
pub struct Episode {
    pub id: String,
    pub name: String,
    /// How long the episode plays, in milliseconds.
    pub duration: u32,
    pub cover_url: Option<String>,
}

#[derive(Clone, Debug, PartialEq, Eq)]
pub enum Playable {
    Track(Track),
    Episode(Episode),
}

impl Playable {
    /// The title of a track or the name of an episode.
    pub open spec fn name(self) -> Seq<char> {
        match self {
            Playable::Track(track) => track.title@,
            Playable::Episode(episode) => episode.name@,
        }
    }

    pub fn title(&self) -> (title: &str)
        ensures
            title@ == self.name(),
    {
        match self {
            Playable::Track(track) => track.title.as_str(),
            Playable::Episode(episode) => episode.name.as_str(),
        }
    }

    /// How long it plays, in milliseconds.
    pub open spec fn length(self) -> u32 {
        match self {
            Playable::Track(track) => track.duration,
            Playable::Episode(episode) => episode.duration,
        }
    }

    pub fn duration(&self) -> (ms: u32)
        ensures
            ms == self.length(),
    {
        match self {
            Playable::Track(track) => track.duration,
            Playable::Episode(episode) => episode.duration,
        }
    }

    /// Whether it was added by a recommendation. Episodes never are.
    pub open spec fn suggested(self) -> bool {
        match self {
            Playable::Track(track) => track.is_suggested,
            Playable::Episode(_) => false,
        }
    }

    pub fn is_suggested(&self) -> (yes: bool)
        ensures
            yes == self.suggested(),
    {
        match self {
            Playable::Track(track) => track.is_suggested,
            Playable::Episode(_) => false,
        }
    }
}

/// What follows the end of a track.
#[derive(Clone, Copy, Debug, PartialEq, Eq, Structural)]
pub enum RepeatSetting {
    Off,
    RepeatPlaylist,
    RepeatTrack,
}

/// What the player does.
#[derive(Clone, Copy, Debug, PartialEq, Eq, Structural)]
pub enum PlayerStatus {
    Playing,
    Paused,
    Stopped,
    FinishedTrack,
}

} // verus!
