//! Users as others see them: online status, identicons, and which follow
//! counts are shown.
use vstd::prelude::*;
use crate::text::{chars_of, string_of, push_chars, to_lowercase, lowercase, opt_chars};
use crate::id_service::now_millis;

verus! {

/// A user counts as online within ten minutes of activity.
pub const USER_ONLINE_THRESHOLD: i64 = 600000;

/// A user counts as active within three days of activity.
pub const USER_ACTIVE_THRESHOLD: i64 = 259200000;

/// How much of a user is packed.
#[derive(Clone, Copy, Debug, PartialEq, Eq, Structural)]
pub enum UserPackSchema {
    MeDetailed,
    UserDetailedNotMe,
    UserDetailed,
    UserLite,
}

impl Default for UserPackSchema {
    fn default() -> (r: Self)
        ensures
            r == UserPackSchema::UserLite,
    {
        UserPackSchema::UserLite
    }
}

/// How the viewer relates to another user.
#[derive(Clone, Debug)]
pub struct UserRelation {
    pub id: String,
    pub is_following: bool,
    pub is_followed: bool,
    pub has_pending_follow_request_from_you: bool,
    pub has_pending_follow_request_to_you: bool,
    pub is_blocking: bool,
    pub is_blocked: bool,
    pub is_muted: bool,
    pub is_renote_muted: bool,
}

/// Options for packing users, with what the caller already knows.
#[derive(Clone, Debug)]
pub struct UserPackOptions {
    pub schema: UserPackSchema,
    pub include_secrets: bool,
    pub user_relations: Option<Vec<UserRelation>>,
    pub user_memos: Option<Vec<(String, String)>>,
}

impl Default for UserPackOptions {
    fn default() -> (r: Self)
        ensures
            r.schema == UserPackSchema::UserLite,
            !r.include_secrets,
            r.user_relations is None,
            r.user_memos is None,
    {
        UserPackOptions {
            schema: UserPackSchema::UserLite,
            include_secrets: false,
            user_relations: None,
            user_memos: None,
        }
    }
}

/// Whether a user is shown online, active, offline or not at all.
#[allow(non_camel_case_types)]
#[derive(Clone, Copy, Debug, PartialEq, Eq, Structural)]
pub enum OnlineStatus {
    unknown,
    online,
    active,
    offline,
}

/// The status of a user last active at `last_active` (milliseconds), seen at
/// `now`: unknown when hidden or never active; else online, active or offline
/// by the time since.
pub open spec fn status_at(hide: bool, last_active: Option<i64>, now: i64) -> OnlineStatus {
    if hide {
        OnlineStatus::unknown
    } else {
        match last_active {
            Some(t) => {
                let elapsed = now - t;
                if elapsed < USER_ONLINE_THRESHOLD {
                    OnlineStatus::online
                } else if elapsed < USER_ACTIVE_THRESHOLD {
                    OnlineStatus::active
                } else {
                    OnlineStatus::offline
                }
            },
            None => OnlineStatus::unknown,
        }
    }
}

/// A time in milliseconds that chrono can hold.
pub open spec fn millis_in_range(t: i64) -> bool {
    -8_300_000_000_000_000 < t < 8_300_000_000_000_000
}

/// The status of a user at a given time (see `status_at`).
pub fn online_status_at(hide_online_status: bool, last_active: Option<i64>, now: i64) -> (r: OnlineStatus)
    requires
        millis_in_range(now),
        last_active matches Some(t) ==> millis_in_range(t),
    ensures
        r == status_at(hide_online_status, last_active, now),
        hide_online_status || last_active is None ==> r == OnlineStatus::unknown,
        !hide_online_status && last_active is Some ==> (r == OnlineStatus::online
            <==> now - last_active->0 < 1000 * 60 * 10),
        !hide_online_status && last_active is Some ==> (r == OnlineStatus::active
            <==> 1000 * 60 * 10 <= now - last_active->0 < 1000 * 60 * 60 * 24 * 3),
        !hide_online_status && last_active is Some ==> (r == OnlineStatus::offline
            <==> 1000 * 60 * 60 * 24 * 3 <= now - last_active->0),
{
    if hide_online_status {
        OnlineStatus::unknown
    } else if let Some(t) = last_active {
        let elapsed = now - t;
        if elapsed < USER_ONLINE_THRESHOLD {
            OnlineStatus::online
        } else if elapsed < USER_ACTIVE_THRESHOLD {
            OnlineStatus::active
        } else {
            OnlineStatus::offline
        }
    } else {
        OnlineStatus::unknown
    }
}

/// How recently a status says the user was seen: online above active above
/// offline, and unknown below them all.
pub open spec fn recency(s: OnlineStatus) -> int {
    match s {
        OnlineStatus::online => 3,
        OnlineStatus::active => 2,
        OnlineStatus::offline => 1,
        OnlineStatus::unknown => 0,
    }
}

/// A status only fades with time: seen later, a user is never shown more
/// recently active than before, and a hidden or never active user stays
/// unknown.
pub proof fn lemma_status_fades(hide: bool, last_active: Option<i64>, now1: i64, now2: i64)
    requires
        now1 <= now2,
    ensures
        recency(status_at(hide, last_active, now2)) <= recency(status_at(hide, last_active, now1)),
        hide || last_active is None ==> status_at(hide, last_active, now2) == OnlineStatus::unknown,
{
}

/// The fields of a user that packing reads.
#[derive(Clone, Debug)]
pub struct UserFacts {
    pub id: String,
    pub username: String,
    pub host: Option<String>,
    pub hide_online_status: bool,
    /// When the user was last active, in milliseconds since the epoch.
    pub last_active_date: Option<i64>,
}

/// The server settings that user URLs are built from.
#[derive(Clone, Debug)]
pub struct UserServiceConfig {
    /// The server's URL, ending in `/`.
    pub url: String,
    /// The server's host name.
    pub host: String,
}

/// Packs users.
#[derive(Clone, Debug)]
pub struct UserService {
    pub config: UserServiceConfig,
}

pub open spec fn identicon_infix() -> Seq<char> {
    seq!['i', 'd', 'e', 'n', 't', 'i', 'c', 'o', 'n', '/']
}

impl UserService {
    pub fn new(config: UserServiceConfig) -> (r: Self)
        ensures
            r.config == config,
    {
        UserService { config }
    }

    /// A user is remote when it has a host.
    pub fn is_remote_user(&self, user: &UserFacts) -> (r: bool)
        ensures
            r == user.host is Some,
    {
        user.host.is_some()
    }

    /// The generated avatar of a user:
    /// `{url}identicon/{lower-case username}@{host, or this server's}`.
    pub fn identicon_url(&self, user: &UserFacts) -> (r: String)
        ensures
            r@ == self.config.url@ + identicon_infix() + lowercase(user.username@) + seq!['@']
                + (match user.host {
                Some(h) => h@,
                None => self.config.host@,
            }),
    {
        let mut s = string_of(&chars_of(self.config.url.as_str()));
        push_chars(&mut s, &vec!['i', 'd', 'e', 'n', 't', 'i', 'c', 'o', 'n', '/']);
        let low = to_lowercase(user.username.as_str());
        push_chars(&mut s, &chars_of(low.as_str()));
        push_chars(&mut s, &vec!['@']);
        match &user.host {
            Some(h) => push_chars(&mut s, &chars_of(h.as_str())),
            None => push_chars(&mut s, &chars_of(self.config.host.as_str())),
        }
        s
    }

    /// The user's status now (see `status_at`); the time is read from the
    /// clock.
    pub fn online_status(&self, user: &UserFacts) -> (r: OnlineStatus)
        requires
            user.last_active_date matches Some(t) ==> millis_in_range(t),
        ensures
            exists|now: i64| millis_in_range(now) && r == status_at(user.hide_online_status, user.last_active_date, now),
    {
        let now = now_millis();
        let r = online_status_at(user.hide_online_status, user.last_active_date, now);
        assert(millis_in_range(now) && r == status_at(user.hide_online_status, user.last_active_date, now));
        r
    }
}

/// Who may see a follow list.
#[derive(Clone, Copy, Debug, PartialEq, Eq, Structural)]
pub enum FfVisibility {
    Public,
    Followers,
    Private,
}

/// A follow count as shown: to the user, a moderator or anyone when public; to
/// followers when so set; else (or without a profile) hidden.
pub open spec fn shown_count(
    visibility: Option<FfVisibility>,
    is_me: bool,
    i_am_moderator: bool,
    viewer_follows: bool,
    count: i32,
) -> Option<i32> {
    match visibility {
        Some(v) => if is_me || i_am_moderator || v == FfVisibility::Public {
            Some(count)
        } else if v == FfVisibility::Followers && viewer_follows {
            Some(count)
        } else {
            None
        },
        None => None,
    }
}

/// Who sees a follow count: nobody without a profile; the user themself and
/// moderators always; everyone when it is public; followers only when it is
/// for followers; nobody else when it is private. A shown count is the count.
pub proof fn lemma_shown_count(
    visibility: Option<FfVisibility>,
    is_me: bool,
    i_am_moderator: bool,
    viewer_follows: bool,
    count: i32,
)
    ensures
        shown_count(visibility, is_me, i_am_moderator, viewer_follows, count) is Some
            ==> shown_count(visibility, is_me, i_am_moderator, viewer_follows, count) == Some(count),
        visibility is None ==> shown_count(visibility, is_me, i_am_moderator, viewer_follows, count) is None,
        visibility is Some && (is_me || i_am_moderator)
            ==> shown_count(visibility, is_me, i_am_moderator, viewer_follows, count) == Some(count),
        visibility == Some(FfVisibility::Public)
            ==> shown_count(visibility, is_me, i_am_moderator, viewer_follows, count) == Some(count),
        visibility == Some(FfVisibility::Followers) && viewer_follows
            ==> shown_count(visibility, is_me, i_am_moderator, viewer_follows, count) == Some(count),
        visibility == Some(FfVisibility::Followers) && !viewer_follows && !is_me && !i_am_moderator
            ==> shown_count(visibility, is_me, i_am_moderator, viewer_follows, count) is None,
        visibility == Some(FfVisibility::Private) && !is_me && !i_am_moderator
            ==> shown_count(visibility, is_me, i_am_moderator, viewer_follows, count) is None,
{
}

/// A follow count as shown (see `shown_count`).
pub fn visible_count(
    visibility: Option<FfVisibility>,
    is_me: bool,
    i_am_moderator: bool,
    viewer_follows: bool,
    count: i32,
) -> (r: Option<i32>)
    ensures
        r == shown_count(visibility, is_me, i_am_moderator, viewer_follows, count),
        r is Some ==> r == Some(count),
        visibility is None ==> r is None,
        visibility is Some && (is_me || i_am_moderator) ==> r == Some(count),
        visibility == Some(FfVisibility::Public) ==> r == Some(count),
        visibility == Some(FfVisibility::Followers) && viewer_follows ==> r == Some(count),
        visibility == Some(FfVisibility::Followers) && !viewer_follows && !is_me && !i_am_moderator ==> r is None,
        visibility == Some(FfVisibility::Private) && !is_me && !i_am_moderator ==> r is None,
{
    proof {
        lemma_shown_count(visibility, is_me, i_am_moderator, viewer_follows, count);
    }
    match visibility {
        Some(v) => {
            if is_me || i_am_moderator || v == FfVisibility::Public {
                Some(count)
            } else if v == FfVisibility::Followers {
                if viewer_follows {
                    Some(count)
                } else {
                    None
                }
            } else {
                None
            }
        },
        None => None,
    }
}

/// Whether a user's unread notifications are counted.
#[derive(Clone, Copy, Debug, PartialEq, Eq, Structural)]
pub struct NotificationsInfo {
    pub has_unread: bool,
    pub unread_count: i32,
}

/// The unread notifications: after the last read one, the entries read back
/// from the stream (which include the last read one) less one; with nothing
/// read yet, the whole stream's length.
pub fn notifications_info(entries_since_read: Option<usize>, stream_len: i32) -> (r: NotificationsInfo)
    requires
        entries_since_read matches Some(n) ==> 1 <= n <= i32::MAX,
    ensures
        r.unread_count == (match entries_since_read {
            Some(n) => n - 1,
            None => stream_len as int,
        }),
        r.has_unread == (r.unread_count > 0),
{
    let unread_count = match entries_since_read {
        Some(n) => n as i32 - 1,
        None => stream_len,
    };
    NotificationsInfo { unread_count, has_unread: unread_count > 0 }
}

/// The instance a remote user belongs to, as packed.
#[derive(Clone, Debug)]
pub struct PackedInstance {
    pub name: Option<String>,
    pub software_name: Option<String>,
    pub software_version: Option<String>,
    pub icon_url: Option<String>,
    pub favicon_url: Option<String>,
    pub theme_color: Option<String>,
}

/// A packed user (implemented by the packed forms).
pub trait PackedUser {
}

} // verus!
