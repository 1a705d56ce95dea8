//! Streaming events: the channel an event is published on and the names of
//! the event types.
use vstd::prelude::*;
use crate::text::{chars_of, string_of, push_chars};

verus! {

/// A stream that events are published on: a user's main or drive stream, or
/// a note's stream.
pub enum StreamChannels<'a> {
    Main(&'a String),
    Drive(&'a String),
    Note(&'a String),
}

pub open spec fn main_prefix() -> Seq<char> {
    seq!['m', 'a', 'i', 'n', 'S', 't', 'r', 'e', 'a', 'm', ':']
}

pub open spec fn drive_prefix() -> Seq<char> {
    seq!['d', 'r', 'i', 'v', 'e', 'S', 't', 'r', 'e', 'a', 'm', ':']
}

pub open spec fn note_prefix() -> Seq<char> {
    seq!['n', 'o', 't', 'e', 'S', 't', 'r', 'e', 'a', 'm', ':']
}

/// The id of a channel: `mainStream:`, `driveStream:` or `noteStream:`
/// followed by the user's or note's id.
pub open spec fn channel_name(c: StreamChannels) -> Seq<char> {
    match c {
        StreamChannels::Main(u) => main_prefix() + u@,
        StreamChannels::Drive(u) => drive_prefix() + u@,
        StreamChannels::Note(n) => note_prefix() + n@,
    }
}

impl StreamChannels<'_> {
    /// The channel's id (see `channel_name`).
    pub fn channel_id(&self) -> (r: String)
        ensures
            r@ == channel_name(*self),
    {
        let (prefix, id): (Vec<char>, &String) = match self {
            StreamChannels::Main(u) => (vec!['m', 'a', 'i', 'n', 'S', 't', 'r', 'e', 'a', 'm', ':'], u),
            StreamChannels::Drive(u) => (vec!['d', 'r', 'i', 'v', 'e', 'S', 't', 'r', 'e', 'a', 'm', ':'], u),
            StreamChannels::Note(n) => (vec!['n', 'o', 't', 'e', 'S', 't', 'r', 'e', 'a', 'm', ':'], n),
        };
        let mut s = string_of(&prefix);
        push_chars(&mut s, &chars_of(id.as_str()));
        proof {
            match self {
                StreamChannels::Main(u) => assert(prefix@ =~= main_prefix()),
                StreamChannels::Drive(u) => assert(prefix@ =~= drive_prefix()),
                StreamChannels::Note(n) => assert(prefix@ =~= note_prefix()),
            }
        }
        s
    }
}

/// Events on a user's main stream.
#[derive(Clone, Copy, Debug, PartialEq, Eq, Structural)]
pub enum MainEventType {
    DriveFileCreated,
}

/// Events on a user's drive stream.
#[derive(Clone, Copy, Debug, PartialEq, Eq, Structural)]
pub enum DriveEventType {
    FileCreated,
    FileDeleted,
}

/// Events on a note's stream.
#[derive(Clone, Copy, Debug, PartialEq, Eq, Structural)]
pub enum NoteEventType {
    NoteUpdated,
}

impl MainEventType {
    /// The name the event carries on the wire.
    pub fn name(&self) -> (r: String)
        ensures
            r@ == seq!['d', 'r', 'i', 'v', 'e', 'F', 'i', 'l', 'e', 'C', 'r', 'e', 'a', 't', 'e', 'd'],
    {
        let v = vec!['d', 'r', 'i', 'v', 'e', 'F', 'i', 'l', 'e', 'C', 'r', 'e', 'a', 't', 'e', 'd'];
        string_of(&v)
    }
}

impl DriveEventType {
    /// The name the event carries on the wire.
    pub fn name(&self) -> (r: String)
        ensures
            r@ == (match self {
                DriveEventType::FileCreated => seq!['f', 'i', 'l', 'e', 'C', 'r', 'e', 'a', 't', 'e', 'd'],
                DriveEventType::FileDeleted => seq!['f', 'i', 'l', 'e', 'D', 'e', 'l', 'e', 't', 'e', 'd'],
            }),
    {
        match self {
            DriveEventType::FileCreated => string_of(&vec!['f', 'i', 'l', 'e', 'C', 'r', 'e', 'a', 't', 'e', 'd']),
            DriveEventType::FileDeleted => string_of(&vec!['f', 'i', 'l', 'e', 'D', 'e', 'l', 'e', 't', 'e', 'd']),
        }
    }
}

impl NoteEventType {
    /// The name the event carries on the wire: a note update is sent as
    /// `reacted`.
    pub fn name(&self) -> (r: String)
        ensures
            r@ == seq!['r', 'e', 'a', 'c', 't', 'e', 'd'],
    {
        string_of(&vec!['r', 'e', 'a', 'c', 't', 'e', 'd'])
    }
}

} // verus!

verus! {

/// The message of a published event: nothing, a bare body, or a type with an
/// optional body.
pub enum EventMessage<J> {
    Null,
    Body(J),
    Typed { event_type: J, body: Option<J> },
}

/// The message for an event: without a type, the body alone (nothing when
/// there is none); with a type, the type and the body.
pub fn event_message<J>(event_type: Option<J>, value: Option<J>) -> (r: EventMessage<J>)
    ensures
        match (event_type, value) {
            (None, None) => r is Null,
            (None, Some(b)) => r == EventMessage::Body(b),
            (Some(k), b) => r == (EventMessage::Typed { event_type: k, body: b }),
        },
{
    match (event_type, value) {
        (None, None) => EventMessage::Null,
        (None, Some(b)) => EventMessage::Body(b),
        (Some(k), b) => EventMessage::Typed { event_type: k, body: b },
    }
}

} // verus!
