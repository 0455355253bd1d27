//! What friends listen to.

use vstd::prelude::*;

use crate::text::{
    after_last, chars_of, concat, contains, decimal, decimal_text, has_part, maybe_text,
    part_after_last, string_of,
};
use crate::ui::paint::PaletteColor;

verus! {

/// Appended to the base address of the service.
pub const BUDDYLIST_ENDPOINT: &'static str = "/presence-view/v1/buddylist";

/// A friend whose last activity is within this window is shown as online, in milliseconds.
pub const ONLINE_WINDOW_MS: i64 = 300_000;

/// What the service answers.
#[derive(Clone, Debug, Default)]
pub struct BuddylistResponse {
    pub friends: Vec<BuddylistFriend>,
}

#[derive(Clone, Debug)]
pub struct BuddylistFriend {
    pub timestamp: i64,
    pub user: BuddylistUser,
    pub track: Option<BuddylistTrack>,
}

#[derive(Clone, Debug)]
pub struct BuddylistUser {
    pub uri: String,
    pub name: String,
    pub image_url: Option<String>,
}

#[derive(Clone, Debug)]
pub struct BuddylistTrack {
    pub name: String,
    pub context: Option<BuddylistNamed>,
}

#[derive(Clone, Debug)]
pub struct BuddylistNamed {
    pub uri: String,
    pub name: String,
}

/// A friend's current or last listening activity.
#[derive(Clone, Debug)]
pub struct Friend {
    pub user_uri: String,
    pub name: String,
    pub image_url: Option<String>,
    pub track_name: Option<String>,
    /// Listening context (usually the playlist or album): its URI and name.
    pub context_uri: Option<String>,
    pub context_name: Option<String>,
    /// Unix epoch milliseconds of the friend's last activity.
    pub timestamp_ms: i64,
}

/// What a friend's entry opens.
#[derive(Clone, Debug, PartialEq, Eq)]
pub enum FriendTarget {
    /// The playlist with this id.
    Playlist(String),
    /// The album with this id.
    Album(String),
}

/// The time now, in milliseconds since the Unix epoch: `chrono::Utc::now` and
/// `DateTime::timestamp_millis`. Nothing can be promised of it.
#[verifier::external_body]
pub(crate) fn now_ms() -> (now: i64) {
    chrono::Utc::now().timestamp_millis()
}

/// The milliseconds from one time to another, as far as they can be counted.
pub open spec fn elapsed(from: i64, to: i64) -> int {
    let difference = to - from;
    if difference > i64::MAX {
        i64::MAX as int
    } else if difference < i64::MIN {
        i64::MIN as int
    } else {
        difference
    }
}

fn elapsed_ms(from: i64, to: i64) -> (ms: i64)
    ensures
        ms == elapsed(from, to),
{
    let difference: i128 = to as i128 - from as i128;
    if difference > 0x7fff_ffff_ffff_ffff {
        i64::MAX
    } else if difference < -0x8000_0000_0000_0000 {
        i64::MIN
    } else {
        difference as i64
    }
}

/// A time span in its largest unit: days, hours or minutes.
pub open spec fn span_text(ms: int) -> Seq<char> {
    if ms >= 86_400_000 {
        decimal((ms / 86_400_000) as nat) + "d"@
    } else if ms >= 3_600_000 {
        decimal((ms / 3_600_000) as nat) + "h"@
    } else if ms >= 60_000 {
        decimal((ms / 60_000) as nat) + "m"@
    } else {
        "now"@
    }
}

fn text_of_span(ms: i64) -> (text: String)
    ensures
        text@ == span_text(ms as int),
{
    if ms >= 86_400_000 {
        concat(decimal_text((ms / 86_400_000) as u64).as_str(), "d")
    } else if ms >= 3_600_000 {
        concat(decimal_text((ms / 3_600_000) as u64).as_str(), "h")
    } else if ms >= 60_000 {
        concat(decimal_text((ms / 60_000) as u64).as_str(), "m")
    } else {
        "now".to_owned()
    }
}

impl Friend {
    /// Whether the last activity is recent at a given time.
    pub open spec fn online_at(self, now: i64) -> bool {
        elapsed(self.timestamp_ms, now) <= ONLINE_WINDOW_MS
    }

    /// The time since the last activity. Whether the friend is online is looked up before the
    /// time is.
    pub open spec fn seen_at(self, checked: i64, now: i64) -> Seq<char> {
        if self.online_at(checked) {
            "now"@
        } else {
            span_text(elapsed(self.timestamp_ms, now))
        }
    }

    /// Whether the friend's last activity was recent enough at a given time, in milliseconds
    /// since the Unix epoch, to treat them as online.
    pub fn was_online(&self, now: i64) -> (yes: bool)
        ensures
            yes == self.online_at(now),
    {
        elapsed_ms(self.timestamp_ms, now) <= ONLINE_WINDOW_MS
    }

    /// True when the friend's last activity is recent enough to treat them as currently online.
    pub fn is_online(&self) -> (yes: bool)
        ensures
            exists|now: i64| yes == #[trigger] self.online_at(now),
    {
        let now: i64 = now_ms();
        self.was_online(now)
    }

    /// The time since the friend was last active, given the times at which it is looked up
    /// whether they are online, and for how long they were not.
    pub fn seen(&self, checked: i64, now: i64) -> (text: String)
        ensures
            text@ == self.seen_at(checked, now),
    {
        if self.was_online(checked) {
            "now".to_owned()
        } else {
            text_of_span(elapsed_ms(self.timestamp_ms, now))
        }
    }

    /// Human-readable time since the friend was last active, e.g. "now", "3m", "2h", "5d".
    pub fn last_seen(&self) -> (text: String)
        ensures
            exists|checked: i64, now: i64| text@ == #[trigger] self.seen_at(checked, now),
    {
        let checked: i64 = now_ms();
        let now: i64 = now_ms();
        self.seen(checked, now)
    }

    /// The text on the left of the second row: the title of the song.
    pub fn display_second_left(&self) -> (text: &str)
        ensures
            text@ == match self.track_name {
                Some(name) => name@,
                None => Seq::empty(),
            },
    {
        match &self.track_name {
            Some(name) => name.as_str(),
            None => {
                proof {
                    reveal_strlit("");
                }
                ""
            },
        }
    }

    /// The text on the right of the second row: the listening context.
    pub fn display_second_right(&self) -> (text: &str)
        ensures
            text@ == match self.context_name {
                Some(name) => name@,
                None => Seq::empty(),
            },
    {
        match &self.context_name {
            Some(name) => name.as_str(),
            None => {
                proof {
                    reveal_strlit("");
                }
                ""
            },
        }
    }

    /// The color of the name, if it has one of its own: that of friends who are online.
    pub fn left_color(&self, online: bool) -> (color: Option<PaletteColor>)
        ensures
            color == if online {
                Some(PaletteColor::Secondary)
            } else {
                None
            },
    {
        if online {
            Some(PaletteColor::Secondary)
        } else {
            None
        }
    }

    /// What the friend's entry opens: what they are listening to, if it is a playlist or an
    /// album.
    pub fn open_target(&self) -> (target: Option<FriendTarget>)
        ensures
            match self.context_uri {
                None => target is None,
                Some(uri) => if contains(uri@, ":playlist:"@) {
                    target matches Some(FriendTarget::Playlist(id)) && id@ == after_last(uri@, ':')
                } else if contains(uri@, ":album:"@) {
                    target matches Some(FriendTarget::Album(id)) && id@ == after_last(uri@, ':')
                } else {
                    target is None
                },
            },
    {
        match &self.context_uri {
            None => None,
            Some(uri) => {
                let chars = chars_of(uri.as_str());
                if has_part(&chars, &chars_of(":playlist:")) {
                    Some(FriendTarget::Playlist(string_of(part_after_last(&chars, ':'))))
                } else if has_part(&chars, &chars_of(":album:")) {
                    Some(FriendTarget::Album(string_of(part_after_last(&chars, ':'))))
                } else {
                    None
                }
            },
        }
    }

    /// The address of the friend's profile.
    pub fn share_url(&self) -> (url: Option<String>)
        ensures
            maybe_text(url) == if self.user_uri@.len() == 0 {
                None
            } else {
                Some("https://open.spotify.com/user/"@ + after_last(self.user_uri@, ':'))
            },
    {
        let chars = chars_of(self.user_uri.as_str());
        if chars.len() == 0 {
            return None;
        }
        let id = string_of(part_after_last(&chars, ':'));
        Some(concat("https://open.spotify.com/user/", id.as_str()))
    }
}

/// Whether a friend is the one of an entry of the service's answer.
pub open spec fn is_friend_of(friend: Friend, entry: BuddylistFriend) -> bool {
    &&& friend.user_uri == entry.user.uri
    &&& friend.name == entry.user.name
    &&& friend.image_url == entry.user.image_url
    &&& friend.timestamp_ms == entry.timestamp
    &&& match entry.track {
        None => friend.track_name is None && friend.context_uri is None && friend.context_name
            is None,
        Some(track) => {
            &&& friend.track_name == Some(track.name)
            &&& match track.context {
                None => friend.context_uri is None && friend.context_name is None,
                Some(context) => friend.context_uri == Some(context.uri) && friend.context_name
                    == Some(context.name),
            }
        },
    }
}

fn friend_of(entry: BuddylistFriend) -> (friend: Friend)
    ensures
        is_friend_of(friend, entry),
{
    let (track_name, context) = match entry.track {
        Some(track) => (Some(track.name), track.context),
        None => (None, None),
    };
    let (context_uri, context_name) = match context {
        Some(context) => (Some(context.uri), Some(context.name)),
        None => (None, None),
    };
    Friend {
        user_uri: entry.user.uri,
        name: entry.user.name,
        image_url: entry.user.image_url,
        track_name,
        context_uri,
        context_name,
        timestamp_ms: entry.timestamp,
    }
}

/// The friends in the service's answer, in its order. Where the answer could not be had or read,
/// there are none.
pub fn friends_in(answer: Option<BuddylistResponse>) -> (friends: Vec<Friend>)
    ensures
        match answer {
            None => friends@.len() == 0,
            Some(response) => {
                &&& friends@.len() == response.friends@.len()
                &&& forall|i: int|
                    0 <= i < friends@.len() ==> is_friend_of(
                        #[trigger] friends@[i],
                        response.friends@[i],
                    )
            },
        },
{
    let mut friends: Vec<Friend> = Vec::new();
    let mut rest = match answer {
        None => {
            return friends;
        },
        Some(response) => response.friends,
    };
    let ghost entries = rest@;
    while rest.len() > 0
        invariant
            friends@.len() + rest@.len() == entries.len(),
            rest@ == entries.skip(friends@.len() as int),
            forall|i: int|
                0 <= i < friends@.len() ==> is_friend_of(#[trigger] friends@[i], entries[i]),
        decreases rest@.len(),
    {
        let ghost n = friends@.len() as int;
        let entry = rest.remove(0);
        assert(entry == entries[n]);
        friends.push(friend_of(entry));
        assert(rest@ =~= entries.skip(n + 1));
    }
    friends
}

/// A friend who counts as online at some time counts as online at every earlier time, too.
pub proof fn lemma_online_while_recent(friend: Friend, earlier: i64, now: i64)
    requires
        earlier <= now,
        friend.online_at(now),
    ensures
        friend.online_at(earlier),
{
}

/// While a friend counts as online, they were last seen now; later, as long ago as it is.
pub proof fn lemma_online_friends_are_seen_now(friend: Friend, now: i64)
    ensures
        friend.online_at(now) ==> friend.seen_at(now, now) == "now"@,
        !friend.online_at(now) ==> friend.seen_at(now, now) == span_text(
            elapsed(friend.timestamp_ms, now),
        ) && elapsed(friend.timestamp_ms, now) >= 60_000,
{
}

/// A time span is given in whole days, hours or minutes, rounded down, in the largest unit of which
/// there is a whole one.
pub proof fn lemma_spans_are_in_their_largest_unit(ms: int, n: int)
    requires
        1 <= n,
    ensures
        ms < 60_000 ==> span_text(ms) == "now"@,
        60_000 * n <= ms < 60_000 * (n + 1) && n < 60 ==> span_text(ms) == decimal(n as nat) + "m"@,
        3_600_000 * n <= ms < 3_600_000 * (n + 1) && n < 24 ==> span_text(ms) == decimal(n as nat)
            + "h"@,
        86_400_000 * n <= ms < 86_400_000 * (n + 1) ==> span_text(ms) == decimal(n as nat) + "d"@,
{
}

/// The time that has passed is the difference of the times, and a friend counts as online just while
/// it is no longer than the window.
pub proof fn lemma_friends_are_online_for_a_while(friend: Friend, passed: i64)
    requires
        0 <= passed,
        friend.timestamp_ms + passed <= i64::MAX,
    ensures
        elapsed(friend.timestamp_ms, (friend.timestamp_ms + passed) as i64) == passed,
        friend.online_at((friend.timestamp_ms + passed) as i64) <==> passed <= ONLINE_WINDOW_MS,
        ONLINE_WINDOW_MS > 0,
{
}

/// What a friend's entry opens is what they are listening to, by the last part of its address.
pub proof fn lemma_entries_open_what_is_heard(friend: Friend, target: Option<FriendTarget>)
    requires
        call_ensures(Friend::open_target, (&friend,), target),
    ensures
        friend.context_uri is None ==> target is None,
        target matches Some(FriendTarget::Playlist(id)) ==> friend.context_uri is Some && contains(
            friend.context_uri->0@,
            ":playlist:"@,
        ) && id@ == after_last(friend.context_uri->0@, ':'),
        target matches Some(FriendTarget::Album(id)) ==> friend.context_uri is Some && contains(
            friend.context_uri->0@,
            ":album:"@,
        ) && id@ == after_last(friend.context_uri->0@, ':'),
{
}

/// A friend is who the service says they are, and has a track, and what it is played from, just
/// where the service names them.
pub proof fn lemma_friends_are_as_the_service_says(friend: Friend, entry: BuddylistFriend)
    requires
        is_friend_of(friend, entry),
    ensures
        friend.name == entry.user.name && friend.user_uri == entry.user.uri && friend.image_url
            == entry.user.image_url,
        friend.timestamp_ms == entry.timestamp,
        friend.track_name is Some <==> entry.track is Some,
        friend.context_uri is Some <==> entry.track is Some && entry.track->0.context is Some,
        friend.context_name is Some <==> friend.context_uri is Some,
        entry.track matches Some(track) ==> friend.track_name == Some(track.name),
        entry.track matches Some(track) ==> track.context matches Some(context)
            ==> friend.context_uri == Some(context.uri) && friend.context_name == Some(
            context.name,
        ),
{
}

} // verus!
