//! The log line of an event.

use crate::models::{text_or, Event};
use crate::text::{append_quoted, json_string_text};
use vstd::prelude::*;

verus! {

/// The log line of an event: a compact JSON object with its keys in order.
/// Absent actor, target and account are empty strings; an absent payload is
/// `null`, a present one stands as it is, so the line is well-formed JSON
/// exactly where the payload text is.
pub open spec fn log_line(e: Event) -> Seq<char> {
    "{\"account_id\":"@ + json_string_text(text_or(e.account_id, Seq::empty()))
        + ",\"activity\":"@ + json_string_text(e.activity@) + ",\"activity_code\":"@
        + json_string_text(e.activity_code@) + ",\"event_id\":"@ + json_string_text(e.id@)
        + ",\"initiator_id\":"@ + json_string_text(text_or(e.initiator_id, Seq::empty()))
        + ",\"meta\":"@ + text_or(e.meta, "null"@) + ",\"target_id\":"@ + json_string_text(
        text_or(e.target_id, Seq::empty()),
    ) + ",\"timestamp\":"@ + json_string_text(e.timestamp@) + "}"@
}

/// The text of an optional field, or the empty text.
fn text_or_empty(field: &Option<String>) -> (r: &str)
    ensures
        r@ == text_or(*field, Seq::empty()),
{
    match field {
        Some(s) => s.as_str(),
        None => {
            proof {
                reveal_strlit("");
            }
            assert(""@ =~= Seq::<char>::empty());
            ""
        },
    }
}

/// Renders the log line of `event`.
pub fn render_log_line(event: &Event) -> (line: String)
    ensures
        line@ == log_line(*event),
{
    let mut out = String::from_str("{\"account_id\":");
    append_quoted(&mut out, text_or_empty(&event.account_id));
    out.append(",\"activity\":");
    append_quoted(&mut out, event.activity.as_str());
    out.append(",\"activity_code\":");
    append_quoted(&mut out, event.activity_code.as_str());
    out.append(",\"event_id\":");
    append_quoted(&mut out, event.id.as_str());
    out.append(",\"initiator_id\":");
    append_quoted(&mut out, text_or_empty(&event.initiator_id));
    out.append(",\"meta\":");
    match &event.meta {
        Some(m) => out.append(m.as_str()),
        None => out.append("null"),
    }
    out.append(",\"target_id\":");
    append_quoted(&mut out, text_or_empty(&event.target_id));
    out.append(",\"timestamp\":");
    append_quoted(&mut out, event.timestamp.as_str());
    out.append("}");
    out
}

} // verus!
