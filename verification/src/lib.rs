//! Service-layer logic of a Misskey-compatible server: identifier schemes,
//! custom-emoji and reaction normalisation, drive file rules, timeline
//! selection, permissions, role policies and ActivityPub rendering.
pub mod text;
pub mod radix;
pub mod id_service;
pub mod emoji;
pub mod drive;
pub mod order;
pub mod timeline;
pub mod fanout_timeline;
pub mod event;
pub mod token_service;
pub mod announcement;
pub mod user;
pub mod note;
pub mod role;
pub mod activitypub;
pub mod notification;
