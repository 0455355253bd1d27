//! The commands that a view can be given.

use vstd::prelude::*;

verus! {

/// Which item a command is about.
#[derive(Clone, Copy, Debug, PartialEq, Eq, Structural)]
pub enum TargetMode {
    Current,
    Selected,
}

#[derive(Clone, Copy, Debug, PartialEq, Eq, Structural)]
pub enum MoveMode {
    Up,
    Down,
    Left,
    Right,
    Playing,
}

/// How far a move goes. A share of the view's height is given as the number of rows it comes to.
#[derive(Clone, Copy, Debug, PartialEq, Eq, Structural)]
pub enum MoveAmount {
    Integer(i32),
    Share(i32),
    Extreme,
}

#[derive(Clone, Debug, PartialEq, Eq)]
pub enum JumpMode {
    Previous,
    Next,
    Query(String),
}

#[derive(Clone, Copy, Debug, PartialEq, Eq, Structural)]
pub enum GotoMode {
    Album,
    Artist,
}

#[derive(Clone, Copy, Debug, PartialEq, Eq, Structural)]
pub enum PaneDirection {
    Left,
    Right,
    Up,
    Down,
    Next,
}

#[derive(Clone, Copy, Debug, PartialEq, Eq, Structural)]
pub enum SortKey {
    Title,
    Duration,
    Artist,
    Album,
    Added,
}

#[derive(Clone, Copy, Debug, PartialEq, Eq, Structural)]
pub enum SortDirection {
    Ascending,
    Descending,
}

/// The kinds of things that a link can lead to.
#[derive(Clone, Copy, Debug, PartialEq, Eq, Structural)]
pub enum UriType {
    Album,
    Artist,
    Episode,
    Playlist,
    Show,
    Track,
}

/// A link to something that can be opened.
#[derive(Clone, Debug, PartialEq, Eq)]
pub struct SpotifyUrl {
    pub id: String,
    pub uri_type: UriType,
}

#[derive(Clone, Debug, PartialEq, Eq)]
pub enum InsertSource {
    Clipboard,
    Input(SpotifyUrl),
}

/// A command, as far as the views tell it from others.
#[derive(Clone, Debug, PartialEq, Eq)]
pub enum Command {
    Play,
    PlayNext,
    Queue,
    Save,
    Add,
    Delete,
    Share(TargetMode),
    Jump(JumpMode),
    Move(MoveMode, MoveAmount),
    Open(TargetMode),
    Goto(GotoMode),
    Insert(InsertSource),
    ShowRecommendations(TargetMode),
    Sort(SortKey, SortDirection),
    FocusPane(PaneDirection),
    Back,
    Other,
}

} // verus!
