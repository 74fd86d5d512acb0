//! The activity record as the source API reports it.

use vstd::prelude::*;

verus! {

/// One activity event. `timestamp` is the source's own text: it is meant to be
/// RFC 3339, but nothing guarantees it, so every consumer parses it for itself.
/// `meta` is the activity-specific payload as compact JSON text; it is the
/// caller's to see that it is JSON, since it goes into the log line unread.
#[derive(Clone, Debug, PartialEq, Eq)]
pub struct Event {
    pub id: String,
    pub timestamp: String,
    pub activity: String,
    pub activity_code: String,
    pub initiator_id: Option<String>,
    pub initiator_email: Option<String>,
    pub initiator_name: Option<String>,
    pub target_id: Option<String>,
    pub account_id: Option<String>,
    pub meta: Option<String>,
}

/// The text of an optional field, or `absent` where the field is missing.
pub open spec fn text_or(field: Option<String>, absent: Seq<char>) -> Seq<char> {
    match field {
        Some(s) => s@,
        None => absent,
    }
}

} // verus!
