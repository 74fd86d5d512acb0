//! The sink side: the push body, where it goes, and how the answer is read.

use crate::labels::{LabelSet, LabelSetView};
use crate::models::Event;
use crate::netbird::{is_success, is_success_code};
use crate::streams::{build_push_request, entries_of, grouped, PushRequest, Stream, StreamView};
use crate::text::{append_quoted, decimal, decimal_text, json_string_text};
use crate::timestamp::{line_instant, parse_line_instant};
use vstd::prelude::*;

verus! {

/// Seconds after which a request to the sink is abandoned.
pub const SINK_TIMEOUT_SECS: u64 = 30;

/// Seconds after which a push is abandoned.
pub const PUSH_TIMEOUT_SECS: u64 = 10;

/// Seconds after which a readiness probe is abandoned, and seconds to wait
/// before the next one.
pub const PROBE_INTERVAL_SECS: u64 = 2;

/// How many readiness probes are made before giving up.
pub const PROBE_ATTEMPTS: u32 = 60;

/// Every how many failed probes the wait is reported.
pub const PROBE_REPORT_EVERY: u32 = 10;

/// Why a batch was not forwarded.
#[derive(Clone, Debug, PartialEq, Eq)]
pub enum ForwardError {
    /// The sink could not be reached; `detail` says why.
    SinkUnavailable { detail: String },
    /// The sink answered with a status other than success.
    SinkRejected { status: u16, body: String },
}

/// What came back from the sink.
#[derive(Clone, Debug, PartialEq, Eq)]
pub struct SinkReply {
    pub status: u16,
    pub body: String,
}

/// The label set as a JSON object, keys in order.
pub open spec fn labels_json(l: LabelSetView) -> Seq<char> {
    "{\"account_id\":"@ + json_string_text(l.account_id) + ",\"activity\":"@ + json_string_text(
        l.activity,
    ) + ",\"activity_code\":"@ + json_string_text(l.activity_code) + ",\"job\":"@
        + json_string_text(l.job) + "}"@
}

/// A stamped line as a JSON array of two strings.
pub open spec fn value_json(v: (Seq<char>, Seq<char>)) -> Seq<char> {
    "["@ + json_string_text(v.0) + ","@ + json_string_text(v.1) + "]"@
}

/// The texts one after the other, a comma between each two.
pub open spec fn comma_joined(parts: Seq<Seq<char>>) -> Seq<char>
    decreases parts.len(),
{
    if parts.len() == 0 {
        Seq::empty()
    } else if parts.len() == 1 {
        parts[0]
    } else {
        comma_joined(parts.drop_last()) + ","@ + parts.last()
    }
}

/// A stream as a JSON object of its labels and its stamped lines.
pub open spec fn stream_json(s: StreamView) -> Seq<char> {
    "{\"stream\":"@ + labels_json(s.stream) + ",\"values\":["@ + comma_joined(
        s.values.map_values(|v: (Seq<char>, Seq<char>)| value_json(v)),
    ) + "]}"@
}

/// The body of a push: a JSON object that holds all streams.
pub open spec fn body_json(streams: Seq<StreamView>) -> Seq<char> {
    "{\"streams\":["@ + comma_joined(streams.map_values(|s: StreamView| stream_json(s))) + "]}"@
}

/// Joining one part more: the part alone where it is the first, else the
/// parts before it, a comma, and the part.
proof fn lemma_comma_joined_step(parts: Seq<Seq<char>>, i: int)
    requires
        0 <= i < parts.len(),
    ensures
        comma_joined(parts.subrange(0, i + 1)) == if i == 0 {
            parts[i]
        } else {
            comma_joined(parts.subrange(0, i)) + ","@ + parts[i]
        },
{
    let now = parts.subrange(0, i + 1);
    assert(now.drop_last() == parts.subrange(0, i));
    assert(now.last() == parts[i]);
}

/// Appends the label set as a JSON object.
fn append_labels(out: &mut String, labels: &LabelSet)
    ensures
        final(out)@ == old(out)@ + labels_json(labels@),
{
    out.append("{\"account_id\":");
    append_quoted(out, labels.account_id.as_str());
    out.append(",\"activity\":");
    append_quoted(out, labels.activity.as_str());
    out.append(",\"activity_code\":");
    append_quoted(out, labels.activity_code.as_str());
    out.append(",\"job\":");
    append_quoted(out, labels.job.as_str());
    out.append("}");
    assert(out@ =~= old(out)@ + labels_json(labels@));
}

/// Appends a stamped line as a JSON array.
fn append_value(out: &mut String, value: &(String, String))
    ensures
        final(out)@ == old(out)@ + value_json((value.0@, value.1@)),
{
    out.append("[");
    append_quoted(out, value.0.as_str());
    out.append(",");
    append_quoted(out, value.1.as_str());
    out.append("]");
    assert(out@ =~= old(out)@ + value_json((value.0@, value.1@)));
}

/// Appends a stream as a JSON object.
fn append_stream(out: &mut String, stream: &Stream)
    ensures
        final(out)@ == old(out)@ + stream_json(stream@),
{
    let ghost parts = stream@.values.map_values(|v: (Seq<char>, Seq<char>)| value_json(v));
    out.append("{\"stream\":");
    append_labels(out, &stream.stream);
    out.append(",\"values\":[");
    let ghost head = out@;
    let mut i: usize = 0;
    assert(parts.subrange(0, 0) =~= Seq::<Seq<char>>::empty());
    while i < stream.values.len()
        invariant
            i <= stream.values.len(),
            parts == stream@.values.map_values(|v: (Seq<char>, Seq<char>)| value_json(v)),
            out@ == head + comma_joined(parts.subrange(0, i as int)),
        decreases stream.values.len() - i,
    {
        if i > 0 {
            out.append(",");
        }
        append_value(out, &stream.values[i]);
        proof {
            lemma_comma_joined_step(parts, i as int);
            assert(out@ =~= head + comma_joined(parts.subrange(0, i + 1)));
        }
        i = i + 1;
    }
    out.append("]}");
    proof {
        assert(parts.subrange(0, i as int) == parts);
        assert(out@ =~= old(out)@ + stream_json(stream@));
    }
}

/// Renders the body of a push.
pub fn render_body(request: &PushRequest) -> (body: String)
    ensures
        body@ == body_json(request@),
{
    let ghost parts = request@.map_values(|s: StreamView| stream_json(s));
    let mut out = String::from_str("{\"streams\":[");
    let ghost head = out@;
    let mut i: usize = 0;
    assert(parts.subrange(0, 0) =~= Seq::<Seq<char>>::empty());
    while i < request.streams.len()
        invariant
            i <= request.streams.len(),
            parts == request@.map_values(|s: StreamView| stream_json(s)),
            out@ == head + comma_joined(parts.subrange(0, i as int)),
        decreases request.streams.len() - i,
    {
        if i > 0 {
            out.append(",");
        }
        assert(request@[i as int] == request.streams[i as int]@);
        append_stream(&mut out, &request.streams[i]);
        proof {
            lemma_comma_joined_step(parts, i as int);
            assert(out@ =~= head + comma_joined(parts.subrange(0, i + 1)));
        }
        i = i + 1;
    }
    out.append("]}");
    proof {
        assert(parts.subrange(0, i as int) == parts);
    }
    out
}

/// One write to the sink: where it goes and what it carries.
#[derive(Clone, Debug, PartialEq, Eq)]
pub struct Push {
    pub url: String,
    pub body: String,
}

/// What forwarding `events` through the sink at `base` amounts to, given
/// the clock reading `now`: nothing for an empty batch, else one push of all
/// streams, as `(url, body)`.
pub open spec fn push_of(base: Seq<char>, events: Seq<Event>, now: i64) -> Option<
    (Seq<char>, Seq<char>),
> {
    if events.len() == 0 {
        None
    } else {
        Some((base + "/loki/api/v1/push"@, body_json(grouped(entries_of(events, now)))))
    }
}

/// Whether the timestamp of every event can be read, so that no stamp is
/// taken from the clock.
pub open spec fn all_readable(events: Seq<Event>) -> bool {
    forall|i: int| 0 <= i < events.len() ==> line_instant((#[trigger] events[i]).timestamp@) is Some
}

/// Where every timestamp can be read, the push does not depend on the clock.
pub proof fn lemma_readable_batch_ignores_clock(
    base: Seq<char>,
    events: Seq<Event>,
    a: i64,
    b: i64,
)
    requires
        all_readable(events),
    ensures
        entries_of(events, a) == entries_of(events, b),
        push_of(base, events, a) == push_of(base, events, b),
{
    assert forall|i: int| 0 <= i < events.len() implies entries_of(events, a)[i] == entries_of(
        events,
        b,
    )[i] by {
        assert(line_instant(events[i].timestamp@) is Some);
    }
    assert(entries_of(events, a) =~= entries_of(events, b));
}

/// Whether some event of the batch has a timestamp that cannot be read, so
/// that forwarding the batch needs a reading of the clock.
pub fn needs_clock(events: &Vec<Event>) -> (r: bool)
    ensures
        r == !all_readable(events@),
{
    let mut i: usize = 0;
    while i < events.len()
        invariant
            i <= events.len(),
            forall|k: int| 0 <= k < i ==> line_instant((#[trigger] events[k]).timestamp@) is Some,
        decreases events.len() - i,
    {
        if parse_line_instant(events[i].timestamp.as_str()).is_none() {
            return true;
        }
        i = i + 1;
    }
    false
}

/// A push as plain text.
pub open spec fn push_view(push: Option<Push>) -> Option<(Seq<char>, Seq<char>)> {
    match push {
        Some(p) => Some((p.url@, p.body@)),
        None => None,
    }
}

/// What a push comes to. `transport` is the sink's reply, or, where none
/// arrived, the reason. Success is any 2xx status; any other status rejects
/// the whole batch and keeps status and body.
pub open spec fn forward_outcome(transport: Result<SinkReply, String>) -> Result<(), ForwardError> {
    match transport {
        Err(detail) => Err(ForwardError::SinkUnavailable { detail }),
        Ok(reply) => if is_success_code(reply.status) {
            Ok(())
        } else {
            Err(ForwardError::SinkRejected { status: reply.status, body: reply.body })
        },
    }
}

/// What is known of the sink: its base URL.
pub struct LokiClient {
    loki_url: String,
}

impl LokiClient {
    /// The base URL requests go to.
    pub closed spec fn base(&self) -> Seq<char> {
        self.loki_url@
    }

    /// A client for the sink at `loki_url`.
    pub fn new(loki_url: String) -> (c: LokiClient)
        ensures
            c.base() == loki_url@,
    {
        LokiClient { loki_url }
    }

    /// The URL of the readiness probe.
    pub fn ready_url(&self) -> (r: String)
        ensures
            r@ == self.base() + "/ready"@,
    {
        let mut url = self.loki_url.clone();
        url.append("/ready");
        url
    }

    /// The URL that pushes go to.
    pub fn push_url(&self) -> (r: String)
        ensures
            r@ == self.base() + "/loki/api/v1/push"@,
    {
        let mut url = self.loki_url.clone();
        url.append("/loki/api/v1/push");
        url
    }

    /// A fresh readiness wait for this sink.
    pub fn wait_for_ready(&self) -> (p: ReadinessProbe)
        ensures
            p.attempts() == 0,
            p.url() == self.base() + "/ready"@,
    {
        ReadinessProbe { url: self.ready_url(), attempts: 0 }
    }

    /// What is to be sent for `events`: nothing for an empty batch, else one
    /// push of all streams. `now` is the clock's reading, which stamps the
    /// events whose timestamp cannot be read; where `needs_clock` says that
    /// there are none, any value serves.
    pub fn send_events(&self, events: &Vec<Event>, now: i64) -> (push: Option<Push>)
        ensures
            push_view(push) == push_of(self.base(), events@, now),
    {
        if events.len() == 0 {
            return None;
        }
        let request = build_push_request(events, now);
        Some(Push { url: self.push_url(), body: render_body(&request) })
    }

    /// Reads what a push came to: the sink's reply, or the reason why none
    /// arrived.
    pub fn push_outcome(&self, transport: Result<SinkReply, String>) -> (r: Result<
        (),
        ForwardError,
    >)
        ensures
            r == forward_outcome(transport),
    {
        match transport {
            Err(detail) => Err(ForwardError::SinkUnavailable { detail }),
            Ok(reply) => {
                if is_success(reply.status) {
                    Ok(())
                } else {
                    Err(ForwardError::SinkRejected { status: reply.status, body: reply.body })
                }
            },
        }
    }
}

/// What a forward error says.
pub open spec fn forward_error_text(e: ForwardError) -> Seq<char> {
    match e {
        ForwardError::SinkUnavailable { detail } => "Failed to reach Loki: "@ + detail@,
        ForwardError::SinkRejected { status, body } => "Failed to send to Loki: "@ + decimal_text(
            status as int,
        ) + " - "@ + body@,
    }
}

impl ForwardError {
    /// The error in words.
    pub fn message(&self) -> (r: String)
        ensures
            r@ == forward_error_text(*self),
    {
        match self {
            ForwardError::SinkUnavailable { detail } => {
                let mut out = String::from_str("Failed to reach Loki: ");
                out.append(detail.as_str());
                out
            },
            ForwardError::SinkRejected { status, body } => {
                let mut out = String::from_str("Failed to send to Loki: ");
                out.append(decimal(*status as i64).as_str());
                out.append(" - ");
                out.append(body.as_str());
                out
            },
        }
    }
}

/// What to do after a readiness probe.
#[derive(Clone, Copy, Debug, PartialEq, Eq, Structural)]
pub enum ProbeVerdict {
    /// The sink answered with success: stop waiting.
    Ready,
    /// Wait for the probe interval, then probe again. `report` asks for a
    /// progress line first.
    Retry { report: bool },
    /// Wait for the probe interval, then give up: the last probe allowed has
    /// failed. `report` asks for a progress line first.
    GiveUp { report: bool },
}

/// The verdict on a probe, `attempts` probes having been made before it.
pub open spec fn verdict_after(attempts: u32, ready: bool) -> ProbeVerdict {
    if ready {
        ProbeVerdict::Ready
    } else if attempts + 1 >= PROBE_ATTEMPTS {
        ProbeVerdict::GiveUp {
            report: attempts < PROBE_ATTEMPTS && (attempts + 1) % (PROBE_REPORT_EVERY as int) == 0,
        }
    } else {
        ProbeVerdict::Retry { report: (attempts + 1) % (PROBE_REPORT_EVERY as int) == 0 }
    }
}

/// The wait for the sink to become ready: which URL to probe and how many
/// probes have been made.
pub struct ReadinessProbe {
    url: String,
    attempts: u32,
}

impl ReadinessProbe {
    /// The URL to probe.
    pub closed spec fn url(&self) -> Seq<char> {
        self.url@
    }

    /// How many probes have been recorded, never more than are allowed.
    pub closed spec fn attempts(&self) -> u32 {
        self.attempts
    }

    /// The URL to probe.
    pub fn probe_url(&self) -> (r: &String)
        ensures
            r@ == self.url(),
    {
        &self.url
    }

    /// How many probes have been recorded.
    pub fn attempts_made(&self) -> (r: u32)
        ensures
            r == self.attempts(),
    {
        self.attempts
    }

    /// Records the outcome of one probe, `ready` saying whether the sink
    /// answered with success, and says what to do next.
    pub fn record(&mut self, ready: bool) -> (v: ProbeVerdict)
        ensures
            v == verdict_after(old(self).attempts(), ready),
            final(self).url() == old(self).url(),
            final(self).attempts() == if old(self).attempts() < PROBE_ATTEMPTS {
                (old(self).attempts() + 1) as u32
            } else {
                old(self).attempts()
            },
    {
        let before = self.attempts;
        if before < PROBE_ATTEMPTS {
            self.attempts = before + 1;
        }
        if ready {
            ProbeVerdict::Ready
        } else if before >= PROBE_ATTEMPTS - 1 {
            ProbeVerdict::GiveUp {
                report: before < PROBE_ATTEMPTS && (before + 1) % PROBE_REPORT_EVERY == 0,
            }
        } else {
            ProbeVerdict::Retry { report: (before + 1) % PROBE_REPORT_EVERY == 0 }
        }
    }

    /// What giving up says.
    pub fn give_up_message(&self) -> (r: String)
        ensures
            r@ == "Failed to connect to Loki after 60 attempts"@,
    {
        String::from_str("Failed to connect to Loki after 60 attempts")
    }
}

} // verus!
