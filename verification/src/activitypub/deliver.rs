//! Delivery of activities: one queued job per inbox, each carrying the body and
//! its digest.
use vstd::prelude::*;
use crate::activitypub::signature::{sha256_digest, digest_prefix, base64_text, sha256_of};

verus! {

/// A queued delivery of an activity to one inbox.
#[derive(Clone, Debug)]
pub struct DeliverJob {
    pub inbox: String,
    pub me_id: String,
    pub json: String,
    pub hash: String,
}

/// The jobs that deliver the activity `json` of user `me_id`: one per inbox,
/// in order, each with the body's `Digest` header (see `sha256_digest`).
pub fn deliver_jobs(inboxes: &Vec<String>, me_id: &String, json: &String) -> (r: Vec<DeliverJob>)
    ensures
        r@.len() == inboxes@.len(),
        forall|i: int| 0 <= i < r@.len() ==> {
            &&& #[trigger] r@[i].inbox == inboxes@[i]
            &&& r@[i].me_id == *me_id
            &&& r@[i].json == *json
            &&& r@[i].hash@ == digest_prefix() + base64_text(sha256_of(vstd::utf8::encode_utf8(json@)))
        },
{
    let hash = sha256_digest(json.as_str().as_bytes());
    let mut r: Vec<DeliverJob> = Vec::new();
    let mut i: usize = 0;
    while i < inboxes.len()
        invariant
            i <= inboxes@.len(),
            r@.len() == i,
            hash@ == digest_prefix() + base64_text(sha256_of(vstd::utf8::encode_utf8(json@))),
            forall|k: int| 0 <= k < i ==> #[trigger] r@[k] == (DeliverJob { inbox: inboxes@[k], me_id: *me_id, json: *json, hash: hash }),
        decreases inboxes@.len() - i,
    {
        r.push(DeliverJob { inbox: inboxes[i].clone(), me_id: me_id.clone(), json: json.clone(), hash: hash.clone() });
        i = i + 1;
    }
    r
}

} // verus!
