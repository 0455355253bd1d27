use ncspot_core::friends::{
    friends_in, BuddylistFriend, BuddylistNamed, BuddylistResponse, BuddylistTrack,
    BuddylistUser, Friend, FriendTarget,
};
use ncspot_core::ui::paint::PaletteColor;

fn friend(timestamp_ms: i64) -> Friend {
    Friend {
        user_uri: "spotify:user:jane".into(),
        name: "Jane".into(),
        image_url: None,
        track_name: Some("Song".into()),
        context_uri: Some("spotify:playlist:37i9".into()),
        context_name: None,
        timestamp_ms,
    }
}

const HOUR: i64 = 3_600_000;

#[test]
fn friends_are_online_for_five_minutes() {
    let friend = friend(1_000_000);
    assert!(friend.was_online(1_000_000 + 300_000));
    assert!(!friend.was_online(1_000_000 + 300_001));
    // A clock that runs behind does not matter.
    assert!(friend.was_online(0));
}

#[test]
fn last_seen_in_the_largest_unit() {
    let friend = friend(0);
    assert_eq!(friend.seen(0, 0), "now");
    assert_eq!(friend.seen(HOUR, 6 * 60_000), "6m");
    assert_eq!(friend.seen(HOUR, HOUR - 1), "59m");
    assert_eq!(friend.seen(HOUR, HOUR), "1h");
    assert_eq!(friend.seen(HOUR, 23 * HOUR), "23h");
    assert_eq!(friend.seen(HOUR, 5 * 24 * HOUR), "5d");
    assert_eq!(friend.seen(HOUR, 59_999), "now");
}

#[test]
fn far_apart_times_do_not_overflow() {
    let past = friend(i64::MIN);
    assert!(!past.was_online(i64::MAX));
    assert_eq!(past.seen(i64::MAX, i64::MAX), "106751991167d");
    let future = friend(i64::MAX);
    assert!(future.was_online(i64::MIN));
}

#[test]
fn the_clock_is_read() {
    // The clock is past the year 2020 and far from the end of time.
    assert!(!friend(0).is_online());
    assert!(friend(0).last_seen().ends_with('d'));
    assert!(friend(i64::MAX).is_online());
    assert_eq!(friend(i64::MAX).last_seen(), "now");
}

#[test]
fn what_a_friend_shows() {
    let mut jane = friend(0);
    assert_eq!(jane.display_second_left(), "Song");
    assert_eq!(jane.display_second_right(), "");
    jane.track_name = None;
    jane.context_name = Some("Mix".into());
    assert_eq!(jane.display_second_left(), "");
    assert_eq!(jane.display_second_right(), "Mix");
    assert_eq!(jane.left_color(true), Some(PaletteColor::Secondary));
    assert_eq!(jane.left_color(false), None);
}

#[test]
fn what_a_friend_opens() {
    let mut jane = friend(0);
    assert_eq!(jane.open_target(), Some(FriendTarget::Playlist("37i9".into())));
    jane.context_uri = Some("spotify:user:x:album:42".into());
    assert_eq!(jane.open_target(), Some(FriendTarget::Album("42".into())));
    jane.context_uri = Some("spotify:artist:42".into());
    assert_eq!(jane.open_target(), None);
    jane.context_uri = None;
    assert_eq!(jane.open_target(), None);
}

#[test]
fn profiles_can_be_shared() {
    let mut jane = friend(0);
    assert_eq!(
        jane.share_url().as_deref(),
        Some("https://open.spotify.com/user/jane")
    );
    jane.user_uri = "jane".into();
    assert_eq!(
        jane.share_url().as_deref(),
        Some("https://open.spotify.com/user/jane")
    );
    jane.user_uri = String::new();
    assert_eq!(jane.share_url(), None);
}

#[test]
fn the_answer_becomes_friends() {
    assert!(friends_in(None).is_empty());
    let user = |name: &str| BuddylistUser {
        uri: format!("spotify:user:{name}"),
        name: name.into(),
        image_url: Some("image".into()),
    };
    let response = BuddylistResponse {
        friends: vec![
            BuddylistFriend {
                timestamp: 1,
                user: user("a"),
                track: Some(BuddylistTrack {
                    name: "Song".into(),
                    context: Some(BuddylistNamed {
                        uri: "spotify:album:1".into(),
                        name: "Album".into(),
                    }),
                }),
            },
            BuddylistFriend {
                timestamp: 2,
                user: user("b"),
                track: Some(BuddylistTrack {
                    name: "Other".into(),
                    context: None,
                }),
            },
            BuddylistFriend {
                timestamp: 3,
                user: user("c"),
                track: None,
            },
        ],
    };
    let friends = friends_in(Some(response));
    assert_eq!(friends.len(), 3);
    assert_eq!(friends[0].context_uri.as_deref(), Some("spotify:album:1"));
    assert_eq!(friends[0].context_name.as_deref(), Some("Album"));
    assert_eq!(friends[0].image_url.as_deref(), Some("image"));
    assert_eq!(friends[1].track_name.as_deref(), Some("Other"));
    assert_eq!(friends[1].context_name, None);
    assert_eq!(friends[2].track_name, None);
    assert_eq!(friends[2].user_uri, "spotify:user:c");
    assert_eq!(friends[2].timestamp_ms, 3);
}
