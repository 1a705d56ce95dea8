//! Notifications: which types carry a note, when a notification is skipped,
//! and how its stream entry is named.
use vstd::prelude::*;
use crate::text::{chars_of, string_of, push_chars, chars_eq, views, strings_contain};
use crate::radix::{radix_string, signed_radix_str};
use crate::order::{text_lt, text_less};

verus! {

/// The notification types whose packed form includes the note.
pub open spec fn note_required(t: Seq<char>) -> bool {
    ||| t == seq!['n', 'o', 't', 'e']
    ||| t == seq!['m', 'e', 'n', 't', 'i', 'o', 'n']
    ||| t == seq!['r', 'e', 'p', 'l', 'y']
    ||| t == seq!['r', 'e', 'n', 'o', 't', 'e']
    ||| t == seq!['r', 'e', 'n', 'o', 't', 'e', ':', 'g', 'r', 'o', 'u', 'p', 'e', 'd']
    ||| t == seq!['q', 'u', 'o', 't', 'e']
    ||| t == seq!['r', 'e', 'a', 'c', 't', 'i', 'o', 'n']
    ||| t == seq!['r', 'e', 'a', 'c', 't', 'i', 'o', 'n', ':', 'g', 'r', 'o', 'u', 'p', 'e', 'd']
    ||| t == seq!['p', 'o', 'l', 'l', 'E', 'n', 'd', 'e', 'd']
}

/// Whether a notification of this type includes its note.
pub fn is_note_required(t: &str) -> (r: bool)
    ensures
        r == note_required(t@),
{
    let v = chars_of(t);
    chars_eq(&v, &vec!['n', 'o', 't', 'e'])
        || chars_eq(&v, &vec!['m', 'e', 'n', 't', 'i', 'o', 'n'])
        || chars_eq(&v, &vec!['r', 'e', 'p', 'l', 'y'])
        || chars_eq(&v, &vec!['r', 'e', 'n', 'o', 't', 'e'])
        || chars_eq(&v, &vec!['r', 'e', 'n', 'o', 't', 'e', ':', 'g', 'r', 'o', 'u', 'p', 'e', 'd'])
        || chars_eq(&v, &vec!['q', 'u', 'o', 't', 'e'])
        || chars_eq(&v, &vec!['r', 'e', 'a', 'c', 't', 'i', 'o', 'n'])
        || chars_eq(&v, &vec!['r', 'e', 'a', 'c', 't', 'i', 'o', 'n', ':', 'g', 'r', 'o', 'u', 'p', 'e', 'd'])
        || chars_eq(&v, &vec!['p', 'o', 'l', 'l', 'E', 'n', 'd', 'e', 'd'])
}

/// A notification that can be stored and packed.
pub trait MiNotification {
}

/// A notification that someone reacted to a note.
#[derive(Clone, Debug)]
pub struct MiReactionNotification {
    pub notification_type: String,
    pub note_id: String,
    pub reaction: String,
}

impl MiNotification for MiReactionNotification {
}

impl MiReactionNotification {
    /// A reaction notification (its type is `reaction`).
    pub fn new(note_id: String, reaction: String) -> (r: Self)
        ensures
            r.notification_type@ == seq!['r', 'e', 'a', 'c', 't', 'i', 'o', 'n'],
            r.note_id == note_id,
            r.reaction == reaction,
    {
        MiReactionNotification {
            notification_type: string_of(&vec!['r', 'e', 'a', 'c', 't', 'i', 'o', 'n']),
            note_id,
            reaction,
        }
    }
}

/// From whom a user receives notifications of a type.
#[derive(Clone, Debug)]
pub enum NotificationReceiveType {
    All,
    Never,
    Following,
    Follower,
    MutualFollow,
    FollowingOrFollower,
    List(Vec<String>),
}

/// Whether a notification from `notifier` to `notifiee` is dropped: never with
/// no setting or `All`; always with `Never`; else unless the notifier is
/// followed by the notifiee (`Following`), follows the notifiee (`Follower`),
/// both (`MutualFollow`), either (`FollowingOrFollower`), or is in the list.
pub open spec fn skipped(
    config: Option<NotificationReceiveType>,
    notifiee_follows_notifier: bool,
    notifier_follows_notifiee: bool,
    notifier: Seq<char>,
) -> bool {
    match config {
        None => false,
        Some(NotificationReceiveType::All) => false,
        Some(NotificationReceiveType::Never) => true,
        Some(NotificationReceiveType::Following) => !notifiee_follows_notifier,
        Some(NotificationReceiveType::Follower) => !notifier_follows_notifiee,
        Some(NotificationReceiveType::MutualFollow) => !(notifiee_follows_notifier && notifier_follows_notifiee),
        Some(NotificationReceiveType::FollowingOrFollower) => !(notifiee_follows_notifier || notifier_follows_notifiee),
        Some(NotificationReceiveType::List(l)) => !views(l@).contains(notifier),
    }
}

/// Whether a notification is dropped (see `skipped`), given whom the notifiee
/// follows and whom the notifier follows.
pub fn is_skip_notification(
    config: Option<&NotificationReceiveType>,
    notifiee: &str,
    notifier: &str,
    notifiee_followings: &Vec<String>,
    notifier_followings: &Vec<String>,
) -> (r: bool)
    ensures
        r == skipped(
            match config {
                Some(c) => Some(*c),
                None => None,
            },
            views(notifiee_followings@).contains(notifier@),
            views(notifier_followings@).contains(notifiee@),
            notifier@,
        ),
{
    let config = match config {
        Some(c) => c,
        None => return false,
    };
    match config {
        NotificationReceiveType::All => false,
        NotificationReceiveType::Never => true,
        NotificationReceiveType::Following => !strings_contain(notifiee_followings, notifier),
        NotificationReceiveType::Follower => !strings_contain(notifier_followings, notifiee),
        NotificationReceiveType::MutualFollow => !(strings_contain(notifiee_followings, notifier)
            && strings_contain(notifier_followings, notifiee)),
        NotificationReceiveType::FollowingOrFollower => !(strings_contain(notifiee_followings, notifier)
            || strings_contain(notifier_followings, notifiee)),
        NotificationReceiveType::List(l) => !strings_contain(l, notifier),
    }
}

/// The id of a notification's entry in the Redis stream: its creation time in
/// microseconds, then `-0`.
pub fn to_xlist_id(created_at_micros: i64) -> (r: String)
    ensures
        r@ == signed_radix_str(created_at_micros as int, 10) + seq!['-', '0'],
{
    let d = radix_string(created_at_micros, 10);
    let mut s = string_of(&d);
    push_chars(&mut s, &vec!['-', '0']);
    s
}

/// The reaction a packed notification shows: its own, for a reaction
/// notification only.
pub fn packed_reaction(notification_type: &str, reaction: Option<String>) -> (r: Option<String>)
    ensures
        r == (if notification_type@ == seq!['r', 'e', 'a', 'c', 't', 'i', 'o', 'n'] { reaction } else { None }),
{
    if chars_eq(&chars_of(notification_type), &vec!['r', 'e', 'a', 'c', 't', 'i', 'o', 'n']) {
        reaction
    } else {
        None
    }
}

/// The string fields of a stored notification, each `None` where the stored
/// object has no such key or its value is not a string.
#[derive(Clone, Debug)]
pub struct NotificationEntries {
    pub id: Option<String>,
    pub created_at: Option<String>,
    pub notification_type: Option<String>,
    pub notifier_id: Option<String>,
    pub note_id: Option<String>,
    pub reaction: Option<String>,
}

/// Why a stored notification cannot be packed: a field it needs is missing or
/// not a string.
#[derive(Clone, Copy, Debug, PartialEq, Eq, Structural)]
pub enum NotificationPackError {
    CreatedAt,
    Id,
    Type,
}

/// The fields of a packed notification, and the user and note that are loaded
/// and packed with it.
#[derive(Clone, Debug)]
pub struct PackedNotificationFields {
    pub id: String,
    pub created_at: String,
    pub notification_type: String,
    pub user_id: Option<String>,
    pub reaction: Option<String>,
    pub user_to_load: Option<String>,
    pub note_to_load: Option<String>,
}

/// Packs a stored notification: its creation time, id and type are needed, in
/// that order (the first missing one is the error); the notifier becomes
/// `userId` and is loaded; the note is loaded only for the types that carry
/// one; the reaction is kept for a reaction notification only.
pub fn pack_notification_fields(e: NotificationEntries) -> (r: Result<PackedNotificationFields, NotificationPackError>)
    ensures
        e.created_at is None ==> r == Err::<PackedNotificationFields, NotificationPackError>(NotificationPackError::CreatedAt),
        e.created_at is Some && e.id is None ==> r == Err::<PackedNotificationFields, NotificationPackError>(NotificationPackError::Id),
        e.created_at is Some && e.id is Some && e.notification_type is None
            ==> r == Err::<PackedNotificationFields, NotificationPackError>(NotificationPackError::Type),
        e.created_at is Some && e.id is Some && e.notification_type is Some ==> (r matches Ok(p) && {
            let t = e.notification_type->0@;
            &&& p.id == e.id->0
            &&& p.created_at == e.created_at->0
            &&& p.notification_type == e.notification_type->0
            &&& p.user_id == e.notifier_id
            &&& p.user_to_load == e.notifier_id
            &&& p.note_to_load == (if note_required(t) { e.note_id } else { None })
            &&& p.reaction == (if t == seq!['r', 'e', 'a', 'c', 't', 'i', 'o', 'n'] { e.reaction } else { None })
        }),
{
    let created_at = match e.created_at {
        Some(c) => c,
        None => return Err(NotificationPackError::CreatedAt),
    };
    let id = match e.id {
        Some(i) => i,
        None => return Err(NotificationPackError::Id),
    };
    let notification_type = match e.notification_type {
        Some(t) => t,
        None => return Err(NotificationPackError::Type),
    };
    let note_to_load = if is_note_required(notification_type.as_str()) {
        e.note_id
    } else {
        None
    };
    let reaction = packed_reaction(notification_type.as_str(), e.reaction);
    let user_to_load = e.notifier_id.clone();
    Ok(PackedNotificationFields {
        id,
        created_at,
        notification_type,
        user_id: e.notifier_id,
        reaction,
        user_to_load,
        note_to_load,
    })
}

/// How many times a new notification is offered to the user's stream before
/// storing it fails.
pub const STREAM_ADD_ATTEMPTS: u32 = 5;

/// What follows an attempt to add a notification to the stream.
#[derive(Clone, Debug, PartialEq, Eq)]
pub enum StreamAddStep {
    /// The stream took it under this entry id.
    Stored(String),
    /// Try again.
    Retry,
    /// Every attempt failed.
    Failed,
}

/// The step after attempt number `attempt` (counting from 0) gave `added`:
/// stored when the stream took the notification, another try while fewer than
/// `STREAM_ADD_ATTEMPTS` have been made, else failure.
pub open spec fn stream_step(attempt: int, added: Option<String>) -> StreamAddStep {
    match added {
        Some(id) => StreamAddStep::Stored(id),
        None => if attempt + 1 < STREAM_ADD_ATTEMPTS { StreamAddStep::Retry } else { StreamAddStep::Failed },
    }
}

/// The step after an attempt (see `stream_step`).
pub fn after_stream_attempt(attempt: u32, added: Option<String>) -> (r: StreamAddStep)
    ensures
        r == stream_step(attempt as int, added),
{
    match added {
        Some(id) => StreamAddStep::Stored(id),
        None => if attempt < STREAM_ADD_ATTEMPTS - 1 {
            StreamAddStep::Retry
        } else {
            StreamAddStep::Failed
        },
    }
}

/// Retrying ends: from attempt `STREAM_ADD_ATTEMPTS - 1` on, a failed attempt
/// is never retried, so the stream is offered a notification at most
/// `STREAM_ADD_ATTEMPTS` times.
pub proof fn lemma_stream_attempts_bounded(attempt: int, added: Option<String>)
    requires
        attempt + 1 >= STREAM_ADD_ATTEMPTS,
    ensures
        stream_step(attempt, added) != StreamAddStep::Retry,
{
}

/// How long, in milliseconds, to wait before checking whether a new
/// notification was read: a test notification is checked at once, any other
/// after two seconds.
pub fn unread_check_delay_ms(notification_type: &str) -> (r: u64)
    ensures
        r == (if notification_type@ == seq!['t', 'e', 's', 't'] { 0u64 } else { 2000u64 }),
{
    if chars_eq(&chars_of(notification_type), &vec!['t', 'e', 's', 't']) {
        0
    } else {
        2000
    }
}

/// Whether the "unread notification" event is still due: the user has read
/// nothing, or nothing at or after the new entry.
pub fn unread_event_due(latest_read: Option<&String>, entry_id: &String) -> (r: bool)
    ensures
        r == (match latest_read {
            Some(l) => text_lt(l@, entry_id@),
            None => true,
        }),
{
    match latest_read {
        Some(l) => text_less(&chars_of(l.as_str()), &chars_of(entry_id.as_str())),
        None => true,
    }
}

} // verus!
