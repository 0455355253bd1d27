//! The decisions of the worker that drives the player: what it makes of the commands of the
//! user interface and of the messages of the player.
//!
//! The worker performs nothing by itself. It answers everything that arrives with the actions to
//! perform, in order.

use vstd::prelude::*;

use librespot_core::SpotifyUri;

verus! {

#[verifier::external_type_specification]
#[verifier::external_body]
pub struct ExSpotifyUri(SpotifyUri);

/// What `SpotifyUri::from_uri` makes of a text: the item that it names, if it is well-formed.
pub uninterp spec fn parsed_uri(text: Seq<char>) -> Option<SpotifyUri>;

/// `SpotifyUri::from_uri` parses a text; the item depends on the text alone. Which of its errors
/// a malformed text gives is dropped.
#[verifier::external_body]
pub(crate) fn parse_uri(text: &str) -> (uri: Option<SpotifyUri>)
    ensures
        uri == parsed_uri(text@),
{
    SpotifyUri::from_uri(text).ok()
}

/// What `SpotifyUri::is_playable` says of an item.
pub uninterp spec fn names_audio(uri: SpotifyUri) -> bool;

/// `SpotifyUri::is_playable` says whether an item is audio; it depends on the item alone.
#[verifier::external_body]
pub(crate) fn is_audio(uri: &SpotifyUri) -> (yes: bool)
    ensures
        yes == names_audio(*uri),
{
    uri.is_playable()
}

/// What to play, whether to play it at once, and from which position, in milliseconds.
#[derive(Clone, Debug)]
pub struct PendingLoad {
    pub uri: String,
    pub start_playing: bool,
    pub position_ms: u32,
}

/// What the user interface asks of the worker. What is played is given by its URI.
#[derive(Clone, Debug)]
pub enum WorkerCommand {
    Load(PendingLoad),
    Play,
    Pause,
    Stop,
    Seek(u32),
    SetVolume(u16),
    Preload(String),
    Shutdown,
}

/// What the player does, as far as the worker knows.
#[derive(Clone, Copy, Debug, PartialEq, Eq, Structural)]
pub enum PlayerStatus {
    Playing,
    Paused,
    Stopped,
}

/// What the player reports.
#[derive(Clone, Copy, Debug, PartialEq, Eq, Structural)]
pub enum PlayerMessage {
    Playing { position_ms: u32 },
    Paused { position_ms: u32 },
    Stopped,
    PlayRequestIdChanged { play_request_id: u64 },
    EndOfTrack { play_request_id: u64 },
    TimeToPreloadNextTrack { play_request_id: u64 },
    Seeked { position_ms: u32 },
    Other,
}

/// What to tell the rest of the program.
#[derive(Clone, Copy, Debug, PartialEq, Eq, Structural)]
pub enum Notice {
    /// The player plays; it is this far into the track, in milliseconds.
    Playing(u32),
    /// The player pauses at this position, in milliseconds.
    Paused(u32),
    Stopped,
    FinishedTrack,
    PreloadTrackRequest,
}

/// What the worker has its surroundings do.
pub enum WorkerAction {
    Play,
    Pause,
    Stop,
    Seek(u32),
    SetVolume(u16),
    Preload(SpotifyUri),
    Load { uri: SpotifyUri, start_playing: bool, position_ms: u32 },
    ShutDownSession,
    Send(Notice),
    /// Redraw the user interface.
    Trigger,
    /// Leave the loop.
    Terminate,
}

/// The actions for a command other than to load.
pub open spec fn command_actions(command: WorkerCommand) -> Seq<WorkerAction> {
    match command {
        WorkerCommand::Load(_) => Seq::empty(),
        WorkerCommand::Play => seq![WorkerAction::Play],
        WorkerCommand::Pause => seq![WorkerAction::Pause],
        WorkerCommand::Stop => seq![WorkerAction::Stop],
        WorkerCommand::Seek(position) => seq![WorkerAction::Seek(position)],
        WorkerCommand::SetVolume(volume) => seq![WorkerAction::SetVolume(volume)],
        WorkerCommand::Preload(text) => match parsed_uri(text@) {
            Some(uri) => seq![WorkerAction::Preload(uri)],
            None => Seq::empty(),
        },
        WorkerCommand::Shutdown => seq![WorkerAction::Stop, WorkerAction::ShutDownSession],
    }
}

/// What cannot be played counts as finished, so that the queue goes on.
pub open spec fn load_actions(load: PendingLoad) -> Seq<WorkerAction> {
    match parsed_uri(load.uri@) {
        Some(uri) => if names_audio(uri) {
            seq![
                WorkerAction::Load {
                    uri,
                    start_playing: load.start_playing,
                    position_ms: load.position_ms,
                },
            ]
        } else {
            seq![WorkerAction::Send(Notice::FinishedTrack)]
        },
        None => seq![WorkerAction::Send(Notice::FinishedTrack)],
    }
}

/// Performs a command other than to load.
pub fn handle_command(command: WorkerCommand) -> (actions: Vec<WorkerAction>)
    requires
        !(command is Load),
    ensures
        actions@ == command_actions(command),
{
    let mut actions: Vec<WorkerAction> = Vec::new();
    match command {
        WorkerCommand::Load(_) => {},
        WorkerCommand::Play => actions.push(WorkerAction::Play),
        WorkerCommand::Pause => actions.push(WorkerAction::Pause),
        WorkerCommand::Stop => actions.push(WorkerAction::Stop),
        WorkerCommand::Seek(position) => actions.push(WorkerAction::Seek(position)),
        WorkerCommand::SetVolume(volume) => actions.push(WorkerAction::SetVolume(volume)),
        WorkerCommand::Preload(text) => {
            if let Some(uri) = parse_uri(text.as_str()) {
                actions.push(WorkerAction::Preload(uri));
            }
        },
        WorkerCommand::Shutdown => {
            actions.push(WorkerAction::Stop);
            actions.push(WorkerAction::ShutDownSession);
        },
    }
    actions
}

/// Loads what is to be played, if it can be.
pub fn open(pending: &PendingLoad) -> (action: WorkerAction)
    ensures
        seq![action] == load_actions(*pending),
{
    match parse_uri(pending.uri.as_str()) {
        Some(uri) => if is_audio(&uri) {
            WorkerAction::Load {
                uri,
                start_playing: pending.start_playing,
                position_ms: pending.position_ms,
            }
        } else {
            WorkerAction::Send(Notice::FinishedTrack)
        },
        None => WorkerAction::Send(Notice::FinishedTrack),
    }
}

/// How a command goes on.
pub enum CommandStep {
    /// Look whether another command is queued already, and call [`after_load`] with it.
    Coalesce(PendingLoad),
    /// Perform these actions.
    Perform(Vec<WorkerAction>),
}

/// What the worker makes of a command; `None` when there will be no more commands.
pub fn on_command(command: Option<WorkerCommand>) -> (step: CommandStep)
    ensures
        match command {
            Some(WorkerCommand::Load(load)) => step == CommandStep::Coalesce(load),
            Some(other) => step matches CommandStep::Perform(actions) && actions@
                == command_actions(other),
            None => step matches CommandStep::Perform(actions) && actions@ == Seq::<
                WorkerAction,
            >::empty(),
        },
{
    match command {
        Some(WorkerCommand::Load(load)) => CommandStep::Coalesce(load),
        Some(other) => CommandStep::Perform(handle_command(other)),
        None => CommandStep::Perform(Vec::new()),
    }
}

/// Goes on with a load once the next queued command is known, if there is one.
///
/// Rapid clicks can stack several loads, and loading twice before the player acknowledges the
/// first one crashes it. So a queued load takes the place of the earlier one. Another command is
/// performed first, and ends the wait.
pub fn after_load(pending: PendingLoad, queued: Option<WorkerCommand>) -> (step: CommandStep)
    ensures
        match queued {
            Some(WorkerCommand::Load(later)) => step == CommandStep::Coalesce(later),
            Some(other) => step matches CommandStep::Perform(actions) && actions@
                == command_actions(other) + load_actions(pending),
            None => step matches CommandStep::Perform(actions) && actions@ == load_actions(pending),
        },
{
    match queued {
        Some(WorkerCommand::Load(later)) => CommandStep::Coalesce(later),
        Some(other) => {
            let mut actions = handle_command(other);
            let action = open(&pending);
            let ghost before = actions@;
            actions.push(action);
            assert(actions@ == before + seq![action]);
            CommandStep::Perform(actions)
        },
        None => {
            let mut actions: Vec<WorkerAction> = Vec::new();
            let action = open(&pending);
            actions.push(action);
            assert(actions@ == seq![action]);
            CommandStep::Perform(actions)
        },
    }
}

/// What comes of a load when these commands are queued behind it: the actions, and the commands
/// that stay queued. Each step is one of [`after_load`].
pub open spec fn coalesced(pending: PendingLoad, queue: Seq<WorkerCommand>) -> (
    Seq<WorkerAction>,
    Seq<WorkerCommand>,
)
    decreases queue.len(),
{
    if queue.len() == 0 {
        (load_actions(pending), queue)
    } else {
        match queue[0] {
            WorkerCommand::Load(later) => coalesced(later, queue.skip(1)),
            other => (command_actions(other) + load_actions(pending), queue.skip(1)),
        }
    }
}

/// Of a load and the `n` loads queued directly behind it only the last is performed. A command
/// other than to load that follows them is performed before it.
pub proof fn lemma_the_last_load_wins(pending: PendingLoad, queue: Seq<WorkerCommand>, n: nat)
    requires
        n <= queue.len(),
        forall|i: int| 0 <= i < n ==> (#[trigger] queue[i]) is Load,
        n < queue.len() ==> !(queue[n as int] is Load),
    ensures
        ({
            let last = if n == 0 {
                pending
            } else {
                queue[n - 1]->Load_0
            };
            coalesced(pending, queue) == if n < queue.len() {
                (command_actions(queue[n as int]) + load_actions(last), queue.skip(n as int + 1))
            } else {
                (load_actions(last), Seq::empty())
            }
        }),
    decreases n,
{
    if n > 0 {
        let rest = queue.skip(1);
        assert(queue[0] is Load);
        assert forall|i: int| 0 <= i < n - 1 implies (#[trigger] rest[i]) is Load by {
            assert(rest[i] == queue[i + 1]);
        }
        lemma_the_last_load_wins(queue[0]->Load_0, rest, (n - 1) as nat);
        assert(coalesced(pending, queue) == coalesced(queue[0]->Load_0, rest));
        if n < queue.len() {
            assert(rest.skip(n as int) =~= queue.skip(n as int + 1));
        }
    } else if queue.len() == 0 {
        assert(queue =~= Seq::<WorkerCommand>::empty());
    }
}

/// What the worker knows of the player.
#[derive(Clone, Copy, Debug, PartialEq, Eq, Structural)]
pub struct Worker {
    pub player_status: PlayerStatus,
    /// The id that the player assigned to the most recent load. Messages that carry another one
    /// come from a track that was skipped meanwhile.
    pub current_play_request_id: Option<u64>,
}

impl Worker {
    pub fn new() -> (worker: Worker)
        ensures
            worker.player_status == PlayerStatus::Stopped,
            worker.current_play_request_id is None,
    {
        Worker { player_status: PlayerStatus::Stopped, current_play_request_id: None }
    }

    /// The worker after a message of the player.
    pub open spec fn after(self, message: PlayerMessage) -> Worker {
        match message {
            PlayerMessage::Playing { .. } => Worker {
                player_status: PlayerStatus::Playing,
                ..self
            },
            PlayerMessage::Paused { .. } => Worker { player_status: PlayerStatus::Paused, ..self },
            PlayerMessage::Stopped => Worker { player_status: PlayerStatus::Stopped, ..self },
            PlayerMessage::PlayRequestIdChanged { play_request_id } => Worker {
                current_play_request_id: Some(play_request_id),
                ..self
            },
            _ => self,
        }
    }

    /// What a message of the player is passed on as.
    pub open spec fn notice(self, message: PlayerMessage) -> Option<Notice> {
        match message {
            PlayerMessage::Playing { position_ms } => Some(Notice::Playing(position_ms)),
            PlayerMessage::Paused { position_ms } => Some(Notice::Paused(position_ms)),
            PlayerMessage::Stopped => Some(Notice::Stopped),
            PlayerMessage::EndOfTrack { play_request_id } => if self.current_play_request_id
                == Some(play_request_id) {
                Some(Notice::FinishedTrack)
            } else {
                None
            },
            PlayerMessage::TimeToPreloadNextTrack { play_request_id } => if
            self.current_play_request_id == Some(play_request_id) {
                Some(Notice::PreloadTrackRequest)
            } else {
                None
            },
            PlayerMessage::Seeked { position_ms } => Some(
                match self.player_status {
                    PlayerStatus::Playing => Notice::Playing(position_ms),
                    PlayerStatus::Paused => Notice::Paused(position_ms),
                    PlayerStatus::Stopped => Notice::Stopped,
                },
            ),
            _ => None,
        }
    }

    fn is_current(&self, play_request_id: u64) -> (yes: bool)
        ensures
            yes == (self.current_play_request_id == Some(play_request_id)),
    {
        match self.current_play_request_id {
            Some(current) => current == play_request_id,
            None => false,
        }
    }

    /// What the worker makes of a message of the player; `None` when the player is gone.
    pub fn on_player_event(&mut self, message: Option<PlayerMessage>) -> (action: Option<
        WorkerAction,
    >)
        ensures
            match message {
                Some(message) => {
                    &&& *final(self) == old(self).after(message)
                    &&& action == match old(self).notice(message) {
                        Some(notice) => Some(WorkerAction::Send(notice)),
                        None => None,
                    }
                },
                None => *final(self) == *old(self) && action == Some(WorkerAction::Terminate),
            },
    {
        let message = match message {
            Some(message) => message,
            None => {
                return Some(WorkerAction::Terminate);
            },
        };
        let notice = match message {
            PlayerMessage::Playing { position_ms } => {
                self.player_status = PlayerStatus::Playing;
                Some(Notice::Playing(position_ms))
            },
            PlayerMessage::Paused { position_ms } => {
                self.player_status = PlayerStatus::Paused;
                Some(Notice::Paused(position_ms))
            },
            PlayerMessage::Stopped => {
                self.player_status = PlayerStatus::Stopped;
                Some(Notice::Stopped)
            },
            PlayerMessage::PlayRequestIdChanged { play_request_id } => {
                self.current_play_request_id = Some(play_request_id);
                None
            },
            PlayerMessage::EndOfTrack { play_request_id } => if self.is_current(play_request_id) {
                Some(Notice::FinishedTrack)
            } else {
                None
            },
            PlayerMessage::TimeToPreloadNextTrack { play_request_id } => if self.is_current(
                play_request_id,
            ) {
                Some(Notice::PreloadTrackRequest)
            } else {
                None
            },
            PlayerMessage::Seeked { position_ms } => Some(
                match self.player_status {
                    PlayerStatus::Playing => Notice::Playing(position_ms),
                    PlayerStatus::Paused => Notice::Paused(position_ms),
                    PlayerStatus::Stopped => Notice::Stopped,
                },
            ),
            PlayerMessage::Other => None,
        };
        match notice {
            Some(notice) => Some(WorkerAction::Send(notice)),
            None => None,
        }
    }

    /// What the worker does at regular intervals. Only while the player plays is there anything
    /// to redraw: otherwise the progress is static.
    pub fn on_tick(&self) -> (action: Option<WorkerAction>)
        ensures
            action == if self.player_status == PlayerStatus::Playing {
                Some(WorkerAction::Trigger)
            } else {
                None
            },
    {
        match self.player_status {
            PlayerStatus::Playing => Some(WorkerAction::Trigger),
            _ => None,
        }
    }
}

/// What the worker does before it waits: once the session is invalid, it says that the player has
/// stopped, and ends.
pub fn before_waiting(session_is_invalid: bool) -> (actions: Vec<WorkerAction>)
    ensures
        actions@ == if session_is_invalid {
            seq![WorkerAction::Send(Notice::Stopped), WorkerAction::Terminate]
        } else {
            Seq::empty()
        },
{
    let mut actions: Vec<WorkerAction> = Vec::new();
    if session_is_invalid {
        actions.push(WorkerAction::Send(Notice::Stopped));
        actions.push(WorkerAction::Terminate);
    }
    actions
}

/// After the player has assigned an id to a load, the end of a track with another id, and the
/// reminder to preload that comes with another id, change nothing and are not passed on.
pub proof fn lemma_stale_messages_are_ignored(worker: Worker, current: u64, stale: u64)
    requires
        current != stale,
    ensures
        ({
            let loaded = worker.after(
                PlayerMessage::PlayRequestIdChanged { play_request_id: current },
            );
            let end = PlayerMessage::EndOfTrack { play_request_id: stale };
            let preload = PlayerMessage::TimeToPreloadNextTrack { play_request_id: stale };
            &&& loaded.after(end) == loaded
            &&& loaded.notice(end) is None
            &&& loaded.after(preload) == loaded
            &&& loaded.notice(preload) is None
            &&& loaded.notice(PlayerMessage::EndOfTrack { play_request_id: current }) == Some(
                Notice::FinishedTrack,
            )
        }),
{
}

/// A seek tells again what the player last told of itself, at the new position.
pub proof fn lemma_seeking_keeps_the_status(worker: Worker, before: u32, position_ms: u32)
    ensures
        worker.after(PlayerMessage::Playing { position_ms: before }).notice(
            PlayerMessage::Seeked { position_ms },
        ) == Some(Notice::Playing(position_ms)),
        worker.after(PlayerMessage::Paused { position_ms: before }).notice(
            PlayerMessage::Seeked { position_ms },
        ) == Some(Notice::Paused(position_ms)),
        worker.after(PlayerMessage::Stopped).notice(PlayerMessage::Seeked { position_ms }) == Some(
            Notice::Stopped,
        ),
{
}

/// The player's status is passed on as it is: the worker holds the status that the message names,
/// and tells of the same status, at the position in the message.
pub proof fn lemma_status_is_passed_on(worker: Worker, position_ms: u32)
    ensures
        worker.notice(PlayerMessage::Playing { position_ms }) == Some(Notice::Playing(position_ms)),
        worker.notice(PlayerMessage::Paused { position_ms }) == Some(Notice::Paused(position_ms)),
        worker.notice(PlayerMessage::Stopped) == Some(Notice::Stopped),
        worker.after(PlayerMessage::Playing { position_ms }).player_status is Playing,
        worker.after(PlayerMessage::Paused { position_ms }).player_status is Paused,
        worker.after(PlayerMessage::Stopped).player_status is Stopped,
{
}

/// Whatever notice of a status goes out, it is of the status that the worker holds after the
/// message.
pub proof fn lemma_notices_name_the_status(worker: Worker, message: PlayerMessage)
    ensures
        ({
            let held = worker.after(message).player_status;
            match worker.notice(message) {
                Some(Notice::Playing(position)) => held is Playing && (message
                    == (PlayerMessage::Playing { position_ms: position }) || message
                    == (PlayerMessage::Seeked { position_ms: position })),
                Some(Notice::Paused(position)) => held is Paused && (message
                    == (PlayerMessage::Paused { position_ms: position }) || message
                    == (PlayerMessage::Seeked { position_ms: position })),
                Some(Notice::Stopped) => held is Stopped,
                Some(Notice::FinishedTrack) => message matches PlayerMessage::EndOfTrack {
                    play_request_id,
                } && worker.current_play_request_id == Some(play_request_id),
                Some(Notice::PreloadTrackRequest) => message
                    matches PlayerMessage::TimeToPreloadNextTrack { play_request_id }
                    && worker.current_play_request_id == Some(play_request_id),
                None => true,
            }
        }),
{
}

/// Only the messages on the status change the status, and only a new id changes the id.
pub proof fn lemma_messages_change_what_they_name(worker: Worker, message: PlayerMessage)
    ensures
        ({
            let after = worker.after(message);
            &&& !(message is Playing || message is Paused || message is Stopped)
                ==> after.player_status == worker.player_status
            &&& !(message is PlayRequestIdChanged) ==> after.current_play_request_id
                == worker.current_play_request_id
            &&& message matches PlayerMessage::PlayRequestIdChanged { play_request_id }
                ==> after.current_play_request_id == Some(play_request_id)
        }),
{
}

/// While an id is current, the end of its track and its reminder to preload are passed on, each as
/// what it is.
pub proof fn lemma_current_messages_are_passed_on(worker: Worker, id: u64)
    requires
        worker.current_play_request_id == Some(id),
    ensures
        worker.notice(PlayerMessage::EndOfTrack { play_request_id: id }) == Some(
            Notice::FinishedTrack,
        ),
        worker.notice(PlayerMessage::TimeToPreloadNextTrack { play_request_id: id }) == Some(
            Notice::PreloadTrackRequest,
        ),
{
}

/// A command has its own action performed, with the value that the command carries, and nothing
/// else; a shutdown stops the player before it shuts down the session.
pub proof fn lemma_commands_are_performed(
    position_ms: u32,
    volume: u16,
    uri: String,
    item: SpotifyUri,
)
    ensures
        command_actions(WorkerCommand::Play) == seq![WorkerAction::Play],
        command_actions(WorkerCommand::Pause) == seq![WorkerAction::Pause],
        command_actions(WorkerCommand::Stop) == seq![WorkerAction::Stop],
        command_actions(WorkerCommand::Seek(position_ms)) == seq![WorkerAction::Seek(position_ms)],
        command_actions(WorkerCommand::SetVolume(volume)) == seq![WorkerAction::SetVolume(volume)],
        parsed_uri(uri@) == Some(item) ==> command_actions(WorkerCommand::Preload(uri)) == seq![
            WorkerAction::Preload(item),
        ],
        parsed_uri(uri@) is None ==> command_actions(WorkerCommand::Preload(uri)).len() == 0,
        command_actions(WorkerCommand::Shutdown) == seq![
            WorkerAction::Stop,
            WorkerAction::ShutDownSession,
        ],
{
}

/// What is loaded is just what was asked for: the same item, from the same position, and at once or
/// not. What is no audio, or cannot be read, is not loaded: it counts as finished.
pub proof fn lemma_loads_what_was_asked_for(load: PendingLoad)
    ensures
        load_actions(load).len() == 1,
        match load_actions(load)[0] {
            WorkerAction::Load { uri, start_playing, position_ms } => {
                &&& parsed_uri(load.uri@) == Some(uri)
                &&& names_audio(uri)
                &&& start_playing == load.start_playing
                &&& position_ms == load.position_ms
            },
            WorkerAction::Send(Notice::FinishedTrack) => {
                parsed_uri(load.uri@) matches Some(uri) ==> !names_audio(uri)
            },
            _ => false,
        },
{
}

/// There is something to redraw at regular intervals just while the player's last word was that it
/// plays.
pub proof fn lemma_redraws_while_playing(
    worker: Worker,
    message: PlayerMessage,
    action: Option<WorkerAction>,
)
    requires
        message is Playing || message is Paused || message is Stopped,
        call_ensures(Worker::on_tick, (&worker.after(message),), action),
    ensures
        message is Playing ==> action == Some(WorkerAction::Trigger),
        !(message is Playing) ==> action is None,
{
}

} // verus!
