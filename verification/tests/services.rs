use yojo_backend::activitypub::render::{ApRenderService, EmojiRecord, LikedNote, NoteReaction};
use yojo_backend::activitypub::signature::{sha256_digest, signature_header, signing_plan, SigningPlan};
use yojo_backend::activitypub::types::ApContext;
use yojo_backend::announcement::AnnouncementService;
use yojo_backend::event::{event_message, DriveEventType, EventMessage, MainEventType, NoteEventType, StreamChannels};
use yojo_backend::id_service::IdService;
use yojo_backend::note::{
    mark_voted, my_cached_reaction, pack_note_fields, NoteFacts, my_reaction_source, poll_choices, reaction_count,
    retain_positive_reactions, strip_colons, total_votes, visibility_at, MyReactionSource,
    NoteVisibility,
};
use yojo_backend::notification::{
    pack_notification_fields, NotificationEntries, NotificationPackError, after_stream_attempt,
    unread_check_delay_ms, StreamAddStep, STREAM_ADD_ATTEMPTS,
    is_note_required, is_skip_notification, packed_reaction, to_xlist_id, unread_event_due,
    MiReactionNotification, NotificationReceiveType,
};
use yojo_backend::role::{active_assignments, assigned_roles, is_administrator, is_moderator, user_policies, Policy, Role, RoleAssignment};
use yojo_backend::token_service::{resolve_permission, AccessToken, MasterUser, PermissionKind, TokenPermission, TokenService};
use yojo_backend::user::{
    notifications_info, online_status_at, visible_count, FfVisibility, OnlineStatus, UserFacts,
    UserPackOptions, UserPackSchema, UserService, UserServiceConfig,
};

fn s(x: &str) -> String {
    x.to_owned()
}

#[test]
fn channel_ids() {
    let u = s("u1");
    assert_eq!(StreamChannels::Main(&u).channel_id(), "mainStream:u1");
    assert_eq!(StreamChannels::Drive(&u).channel_id(), "driveStream:u1");
    assert_eq!(StreamChannels::Note(&u).channel_id(), "noteStream:u1");
}

#[test]
fn event_names() {
    assert_eq!(MainEventType::DriveFileCreated.name(), "driveFileCreated");
    assert_eq!(DriveEventType::FileCreated.name(), "fileCreated");
    assert_eq!(DriveEventType::FileDeleted.name(), "fileDeleted");
    assert_eq!(NoteEventType::NoteUpdated.name(), "reacted");
}

#[test]
fn token_permissions() {
    assert_eq!(PermissionKind::WriteDrive.to_json(), "\"write:drive\"");
    let t = TokenPermission::Token(AccessToken {
        id: s("t"),
        user_id: s("u1"),
        permission: vec![s("\"read:drive\""), s("\"write:drive\"")],
    });
    assert!(t.is_allow(PermissionKind::WriteDrive));
    assert_eq!(t.as_user_id(), Some(&s("u1")));
    let plain = TokenPermission::Token(AccessToken { id: s("t"), user_id: s("u1"), permission: vec![s("write:drive")] });
    assert!(!plain.is_allow(PermissionKind::WriteDrive));
    let m = TokenPermission::Master(MasterUser { id: s("u2") });
    assert!(m.is_allow(PermissionKind::ReadDrive));
    assert_eq!(m.as_user_id(), Some(&s("u2")));
    assert!(!TokenPermission::Guest.is_allow(PermissionKind::ReadDrive));
    assert_eq!(TokenPermission::Guest.as_user_id(), None);
    assert!(matches!(resolve_permission(None, None), TokenPermission::Guest));
    assert!(matches!(resolve_permission(None, Some(MasterUser { id: s("u") })), TokenPermission::Master(_)));
    let svc = TokenService::new(IdService::new("aid"));
    let _ = svc.id_service.is_safe_t(1);
}

#[test]
fn online_statuses() {
    assert_eq!(online_status_at(true, Some(0), 1), OnlineStatus::unknown);
    assert_eq!(online_status_at(false, None, 1), OnlineStatus::unknown);
    assert_eq!(online_status_at(false, Some(0), 599_999), OnlineStatus::online);
    assert_eq!(online_status_at(false, Some(0), 600_000), OnlineStatus::active);
    assert_eq!(online_status_at(false, Some(0), 259_200_000), OnlineStatus::offline);
}

#[test]
fn user_urls_and_counts() {
    let svc = UserService::new(UserServiceConfig { url: s("https://local.example/"), host: s("local.example") });
    let mut u = UserFacts { id: s("u1"), username: s("Alice"), host: None, hide_online_status: true, last_active_date: None };
    assert_eq!(svc.identicon_url(&u), "https://local.example/identicon/alice@local.example");
    assert!(!svc.is_remote_user(&u));
    assert_eq!(svc.online_status(&u), OnlineStatus::unknown);
    u.host = Some(s("remote.example"));
    assert_eq!(svc.identicon_url(&u), "https://local.example/identicon/alice@remote.example");
    assert!(svc.is_remote_user(&u));
    assert_eq!(visible_count(Some(FfVisibility::Public), false, false, false, 5), Some(5));
    assert_eq!(visible_count(Some(FfVisibility::Followers), false, false, false, 5), None);
    assert_eq!(visible_count(Some(FfVisibility::Followers), false, false, true, 5), Some(5));
    assert_eq!(visible_count(Some(FfVisibility::Private), true, false, false, 5), Some(5));
    assert_eq!(visible_count(Some(FfVisibility::Private), false, true, false, 5), Some(5));
    assert_eq!(visible_count(Some(FfVisibility::Private), false, false, true, 5), None);
    assert_eq!(visible_count(None, true, true, true, 5), None);
    let i = notifications_info(Some(3), 0);
    assert_eq!((i.unread_count, i.has_unread), (2, true));
    let i = notifications_info(Some(1), 9);
    assert_eq!((i.unread_count, i.has_unread), (0, false));
    let i = notifications_info(None, 4);
    assert_eq!((i.unread_count, i.has_unread), (4, true));
    assert_eq!(UserPackSchema::default(), UserPackSchema::UserLite);
    assert_eq!(UserPackOptions::default().schema, UserPackSchema::UserLite);
}

#[test]
fn reactions_of_notes() {
    let r = retain_positive_reactions(vec![(s(":a:"), 2), (s(":b:"), 0), (s(":c:"), -1), (s(":d:"), 3)]);
    assert_eq!(r, vec![(s(":a:"), 2), (s(":d:"), 3)]);
    assert_eq!(reaction_count(&r), 5);
    assert_eq!(strip_colons(":blob:"), "blob");
    assert_eq!(strip_colons("::"), "::");
    assert_eq!(strip_colons(":a"), ":a");
    assert_eq!(strip_colons("👍"), "👍");
    let pairs = vec![s("u2/:x:"), s("u1"), s("u1/:like@.:/extra"), s("u1/:other:")];
    assert_eq!(my_cached_reaction(&pairs, "u1"), Some(s(":like@.:")));
    assert_eq!(my_cached_reaction(&pairs, "u3"), None);
    assert_eq!(my_reaction_source(0, true, 0, 0, 10_000), MyReactionSource::NoReaction);
    assert_eq!(my_reaction_source(2, false, 5, 0, 10_000), MyReactionSource::NoReaction);
    assert_eq!(my_reaction_source(2, true, 2, 0, 10_000), MyReactionSource::PairCache);
    assert_eq!(my_reaction_source(3, true, 2, 9_000, 10_000), MyReactionSource::TooRecent);
    assert_eq!(my_reaction_source(3, true, 2, 0, 10_000), MyReactionSource::Database);
}

#[test]
fn polls() {
    let choices = poll_choices(&vec![s("a"), s("b"), s("c")], &vec![1, 0, 4, 9]);
    assert_eq!(choices.len(), 3);
    assert_eq!(total_votes(&choices), 5);
    let marked = mark_voted(choices.clone(), &vec![0, 2], true);
    let flags: Vec<bool> = marked.iter().map(|c| c.is_voted).collect();
    assert_eq!(flags, vec![false, false, true]);
    let marked = mark_voted(choices.clone(), &vec![1, 2], false);
    let flags: Vec<bool> = marked.iter().map(|c| c.is_voted).collect();
    assert_eq!(flags, vec![false, true, false]);
    let marked = mark_voted(choices, &vec![7], true);
    assert!(marked.iter().all(|c| !c.is_voted));
}

#[test]
fn followers_only_before() {
    assert_eq!(visibility_at(NoteVisibility::Public, Some(-10), 0, 20_000), NoteVisibility::Followers);
    assert_eq!(visibility_at(NoteVisibility::Public, Some(-10), 15_000, 20_000), NoteVisibility::Public);
    assert_eq!(visibility_at(NoteVisibility::Home, Some(100), 99_999, 1), NoteVisibility::Followers);
    assert_eq!(visibility_at(NoteVisibility::Home, Some(100), 100_000, 1), NoteVisibility::Home);
    assert_eq!(visibility_at(NoteVisibility::Specified, Some(100), 0, 1), NoteVisibility::Specified);
    assert_eq!(visibility_at(NoteVisibility::Public, None, 0, 1), NoteVisibility::Public);
}

#[test]
fn notifications() {
    assert!(is_note_required("reaction"));
    assert!(is_note_required("renote:grouped"));
    assert!(!is_note_required("follow"));
    let n = MiReactionNotification::new(s("n1"), s(":a:"));
    assert_eq!(n.notification_type, "reaction");
    let follows = vec![s("alice")];
    let none: Vec<String> = vec![];
    assert!(!is_skip_notification(None, "me", "alice", &follows, &none));
    assert!(!is_skip_notification(Some(&NotificationReceiveType::All), "me", "alice", &none, &none));
    assert!(is_skip_notification(Some(&NotificationReceiveType::Never), "me", "alice", &follows, &none));
    assert!(!is_skip_notification(Some(&NotificationReceiveType::Following), "me", "alice", &follows, &none));
    assert!(is_skip_notification(Some(&NotificationReceiveType::Following), "me", "bob", &follows, &none));
    assert!(is_skip_notification(Some(&NotificationReceiveType::MutualFollow), "me", "alice", &follows, &none));
    assert!(!is_skip_notification(Some(&NotificationReceiveType::FollowingOrFollower), "me", "alice", &follows, &none));
    assert!(!is_skip_notification(Some(&NotificationReceiveType::List(vec![s("alice")])), "me", "alice", &none, &none));
    assert_eq!(to_xlist_id(1_700_000_000_000_000), "1700000000000000-0");
    assert_eq!(packed_reaction("reaction", Some(s(":a:"))), Some(s(":a:")));
    assert_eq!(packed_reaction("follow", Some(s(":a:"))), None);
    assert!(unread_event_due(None, &s("5-0")));
    assert!(!unread_event_due(Some(&s("5-0")), &s("5-0")));
    assert!(unread_event_due(Some(&s("4-0")), &s("5-0")));
}

fn role(id: &str, m: bool, a: bool, policies: Vec<(String, Policy)>) -> Role {
    Role { id: s(id), is_moderator: m, is_administrator: a, policies }
}

#[test]
fn roles_and_policies() {
    let roles = vec![role("r1", false, false, vec![]), role("r2", false, true, vec![])];
    assert!(is_moderator(Some(&roles)));
    assert!(is_administrator(Some(&roles)));
    assert!(!is_moderator(None));
    assert!(!is_moderator(Some(&vec![role("r1", false, false, vec![])])));
    let assigns = vec![
        RoleAssignment { role_id: s("r1"), expires_at: Some(5) },
        RoleAssignment { role_id: s("r2"), expires_at: None },
        RoleAssignment { role_id: s("r3"), expires_at: Some(50) },
    ];
    let active: Vec<String> = active_assignments(assigns, 10).iter().map(|a| a.role_id.clone()).collect();
    assert_eq!(active, vec![s("r2"), s("r3")]);
    let held = assigned_roles(roles.clone(), Some(&vec![s("r2")]));
    assert_eq!(held.len(), 1);
    assert_eq!(held[0].id, "r2");
    assert!(assigned_roles(roles, None).is_empty());

    let defaults = vec![(s("a"), s("1")), (s("b"), s("2")), (s("c"), s("3"))];
    let meta = vec![(s("b"), s("20"))];
    let p = |d: bool, pr: i32, v: &str| Policy { use_default: d, priority: pr, value: s(v) };
    let rs = vec![
        role("x", false, false, vec![(s("a"), p(false, 0, "9")), (s("c"), p(false, -1, "7"))]),
        role("y", false, false, vec![(s("a"), p(false, 0, "8")), (s("b"), p(true, 2, "0"))]),
    ];
    assert_eq!(
        user_policies(&defaults, Some(&meta), Some(&rs)),
        vec![(s("a"), s("8")), (s("b"), s("20")), (s("c"), s("3"))]
    );
    assert_eq!(
        user_policies(&defaults, Some(&meta), None),
        vec![(s("a"), s("1")), (s("b"), s("20")), (s("c"), s("3"))]
    );
}

#[test]
fn activitypub_like() {
    let svc = ApRenderService::new(s("https://local.example/"));
    let note = LikedNote { id: s("n1"), uri: None };
    let reaction = NoteReaction { id: s("r1"), note_id: s("n1"), user_id: s("u1"), reaction: s(":blob@.:") };
    let like = svc.render_like(&note, reaction, None);
    assert_eq!(like.ap_type, "Like");
    assert_eq!(like.id, "https://local.example/likes/r1");
    assert_eq!(like.actor, "https://local.example/users/u1");
    assert_eq!(like.object, "https://local.example/notes/n1");
    assert_eq!(like.content, ":blob@.:");
    assert!(like.tag.is_empty());
    let remote = LikedNote { id: s("n1"), uri: Some(s("https://remote.example/notes/1")) };
    let reaction = NoteReaction { id: s("r2"), note_id: s("n1"), user_id: s("u1"), reaction: s(":blob:") };
    let emoji = EmojiRecord {
        name: s("blob"),
        updated_at: Some(0),
        image_type: None,
        public_url: s("https://local.example/emoji/blob.png"),
        license: None,
        aliases: vec![s("b"), s("lob")],
        is_sensitive: false,
        copy_permission: None,
        category: None,
        usage_info: None,
        description: None,
        is_based_on: None,
        author: Some(s("me")),
    };
    let like = svc.render_like(&remote, reaction, Some(emoji));
    assert_eq!(like.object, "https://remote.example/notes/1");
    assert_eq!(like.tag.len(), 1);
    let e = &like.tag[0];
    assert_eq!(e.id, "https://local.example//emojis/blob");
    assert_eq!(e.icon.media_type, "image/png");
    assert_eq!(e.keywords, "blob");
    assert_eq!(e.updated, "1970-01-01T00:00:00+00:00");
    assert_eq!(e.author.as_ref().map(|a| a.creator.clone()), Some(s("me")));
    assert_eq!(ApContext::standard().key, "sec:Key");
    let _ = AnnouncementService::new();
}

#[test]
fn digests_and_signing_plans() {
    assert_eq!(sha256_digest(b""), "SHA-256=47DEQpj8HBSa+/TImW+5JCeuQeRkm5NMpJWZG3hSuFU=");
    let plan = signing_plan("https://remote.example/inbox?x=1", "DATE", None, false).unwrap();
    assert_eq!(plan.host, "remote.example");
    assert_eq!(plan.request_target, "get /inboxx=1");
    assert_eq!(plan.sign_headers, "(request-target) host date accept");
    assert_eq!(
        plan.sign_target,
        "(request-target): get /inboxx=1\nhost: remote.example\ndate: DATE\naccept: application/activity+json, application/ld+json; profile=\"https://www.w3.org/ns/activitystreams\""
    );
    let d = s("SHA-256=abc");
    let plan = signing_plan("https://remote.example/inbox", "DATE", Some(&d), true).unwrap();
    assert_eq!(plan.sign_headers, "(request-target) host date digest content-type");
    assert_eq!(
        plan.sign_target,
        "(request-target): post /inbox\nhost: remote.example\ndate: DATE\ndigest: SHA-256=abc\ncontent-type: application/activity+json"
    );
    assert!(signing_plan("not a url", "DATE", None, false).is_none());
    let p = SigningPlan { host: s("h"), request_target: s("t"), sign_headers: s("x"), sign_target: s("y") };
    assert_eq!(signature_header("not a key", &p, "https://local.example/", "u1"), None);
}

#[test]
fn event_messages() {
    assert!(matches!(event_message::<u8>(None, None), EventMessage::Null));
    assert!(matches!(event_message(None, Some(3u8)), EventMessage::Body(3)));
    assert!(matches!(event_message(Some(1u8), None), EventMessage::Typed { event_type: 1, body: None }));
    assert!(matches!(event_message(Some(1u8), Some(2)), EventMessage::Typed { event_type: 1, body: Some(2) }));
}

#[test]
fn packed_note_fields() {
    let emoji = yojo_backend::emoji::EmojiService::new(s("local.example"));
    let facts = NoteFacts {
        visibility: NoteVisibility::Specified,
        visible_user_ids: vec![s("u2")],
        reactions: vec![(s(":a:"), 2), (s(":b@remote.example:"), 1), (s(":a@.:"), 3), (s("x"), 0)],
        emojis: vec![s(":blob:"), s("plain")],
        tags: vec![],
        mentions: vec![s("u3")],
        disable_right_click: true,
    };
    let f = pack_note_fields(&emoji, facts, true);
    assert_eq!(f.visible_user_ids, Some(vec![s("u2")]));
    assert_eq!(f.reaction_count, 6);
    assert_eq!(f.reactions, vec![(s(":a@.:"), 3), (s(":b@remote.example:"), 1)]);
    assert_eq!(f.reaction_emoji_names, vec![s("a"), s("b@remote.example"), s("a@.")]);
    assert_eq!(f.emojis, Some(vec![s("blob"), s("plain")]));
    assert_eq!(f.tags, None);
    assert_eq!(f.mentions, Some(vec![s("u3")]));
    assert_eq!(f.disable_right_click, Some(true));
}

#[test]
fn delivery_jobs_per_inbox() {
    let inboxes = vec![s("https://a.example/inbox"), s("https://b.example/inbox")];
    let json = s("");
    let jobs = yojo_backend::activitypub::deliver::deliver_jobs(&inboxes, &s("u1"), &json);
    assert_eq!(jobs.len(), 2);
    assert_eq!(jobs[0].inbox, "https://a.example/inbox");
    assert_eq!(jobs[1].inbox, "https://b.example/inbox");
    for j in &jobs {
        assert_eq!(j.me_id, "u1");
        assert_eq!(j.json, "");
        assert_eq!(j.hash, "SHA-256=47DEQpj8HBSa+/TImW+5JCeuQeRkm5NMpJWZG3hSuFU=");
    }
    assert!(yojo_backend::activitypub::deliver::deliver_jobs(&vec![], &s("u1"), &json).is_empty());
}

#[test]
fn context_ids_carry_a_fresh_uuid() {
    let svc = ApRenderService::new(s("https://local.example"));
    let a = svc.context_id();
    let b = svc.context_id();
    assert!(a.starts_with("https://local.example/"));
    let u = &a["https://local.example/".len()..];
    assert_eq!(u.len(), 36);
    for (i, c) in u.chars().enumerate() {
        if [8, 13, 18, 23].contains(&i) {
            assert_eq!(c, '-');
        } else {
            assert!(c.is_ascii_hexdigit() && !c.is_ascii_uppercase());
        }
    }
    assert_eq!(u.chars().nth(14), Some('4'));
    assert_ne!(a, b);
}

#[test]
fn packing_stored_notifications() {
    let entries = |t: Option<&str>| NotificationEntries {
        id: Some(s("n1")),
        created_at: Some(s("2024-01-01T00:00:00+00:00")),
        notification_type: t.map(s),
        notifier_id: Some(s("u1")),
        note_id: Some(s("note1")),
        reaction: Some(s(":a@.:")),
    };
    let p = pack_notification_fields(entries(Some("reaction"))).unwrap();
    assert_eq!(p.id, "n1");
    assert_eq!(p.user_id, Some(s("u1")));
    assert_eq!(p.user_to_load, Some(s("u1")));
    assert_eq!(p.note_to_load, Some(s("note1")));
    assert_eq!(p.reaction, Some(s(":a@.:")));
    let p = pack_notification_fields(entries(Some("follow"))).unwrap();
    assert_eq!(p.note_to_load, None);
    assert_eq!(p.reaction, None);
    assert_eq!(pack_notification_fields(entries(None)).unwrap_err(), NotificationPackError::Type);
    let mut e = entries(Some("note"));
    e.id = None;
    assert_eq!(pack_notification_fields(e).unwrap_err(), NotificationPackError::Id);
    let mut e = entries(None);
    e.created_at = None;
    assert_eq!(pack_notification_fields(e).unwrap_err(), NotificationPackError::CreatedAt);
}

#[test]
fn stream_attempts_and_unread_delay() {
    assert_eq!(STREAM_ADD_ATTEMPTS, 5);
    assert_eq!(after_stream_attempt(0, Some(s("1-0"))), StreamAddStep::Stored(s("1-0")));
    assert_eq!(after_stream_attempt(0, None), StreamAddStep::Retry);
    assert_eq!(after_stream_attempt(3, None), StreamAddStep::Retry);
    assert_eq!(after_stream_attempt(4, None), StreamAddStep::Failed);
    assert_eq!(after_stream_attempt(4, Some(s("2-0"))), StreamAddStep::Stored(s("2-0")));
    assert_eq!(unread_check_delay_ms("test"), 0);
    assert_eq!(unread_check_delay_ms("reaction"), 2000);
}
