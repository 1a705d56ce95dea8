//! Announcements.
use vstd::prelude::*;

verus! {

/// Reads announcements; unread ones are selected by the database.
#[derive(Clone, Debug)]
pub struct AnnouncementService {}

impl AnnouncementService {
    pub fn new() -> Self {
        AnnouncementService {}
    }
}

} // verus!
