//! The source side: where events are fetched and how a reply is read.

use crate::models::Event;
use crate::text::{decimal, decimal_text, strip_trailing, strip_trailing_text, trim_trailing,
    trim_trailing_text};
use vstd::prelude::*;

verus! {

/// Seconds after which a request to the source is abandoned.
pub const SOURCE_TIMEOUT_SECS: u64 = 30;

/// Whether an HTTP status code reports success.
pub open spec fn is_success_code(status: u16) -> bool {
    200 <= status < 300
}

/// Whether an HTTP status code reports success.
pub fn is_success(status: u16) -> (r: bool)
    ensures
        r == is_success_code(status),
{
    200 <= status && status < 300
}

/// Why a fetch yielded no events.
#[derive(Clone, Debug, PartialEq, Eq)]
pub enum FetchError {
    /// The source could not be reached (`status` is `None`, `body` says
    /// why), or it answered with a status other than success.
    SourceUnavailable { status: Option<u16>, body: String },
    /// The source answered with success, but its body is no list of events.
    SourceMalformed,
}

/// What came back from the source.
#[derive(Clone, Debug, PartialEq, Eq)]
pub struct SourceReply {
    pub status: u16,
    pub body: String,
    /// The events that the body holds, in the body's order; `None` where the
    /// body is no list of events.
    pub decoded: Option<Vec<Event>>,
}

/// What a request to the source comes to. `transport` is the reply, or, where
/// none arrived, the reason. No reply and a reply other than success are
/// `SourceUnavailable`; success with a body that is no list of events is
/// `SourceMalformed`; else the events are the decoded ones, as they are.
pub open spec fn fetch_outcome(transport: Result<SourceReply, String>) -> Result<
    Vec<Event>,
    FetchError,
> {
    match transport {
        Err(detail) => Err(FetchError::SourceUnavailable { status: None, body: detail }),
        Ok(reply) => if !is_success_code(reply.status) {
            Err(FetchError::SourceUnavailable { status: Some(reply.status), body: reply.body })
        } else {
            match reply.decoded {
                Some(events) => Ok(events),
                None => Err(FetchError::SourceMalformed),
            }
        },
    }
}

/// The base URL under which the source's API lives: without trailing
/// slashes, and then without a trailing `/api`.
pub open spec fn api_base(base_url: Seq<char>) -> Seq<char> {
    strip_trailing_text(strip_trailing(base_url, '/'), "/api"@)
}

/// What is known of the source: its base URL and the API token.
pub struct NetbirdClient {
    base_url: String,
    token: String,
}

impl NetbirdClient {
    /// The base URL requests go to.
    pub closed spec fn base(&self) -> Seq<char> {
        self.base_url@
    }

    /// The API token requests carry.
    pub closed spec fn api_token(&self) -> Seq<char> {
        self.token@
    }

    /// A client for the source at `base_url`, which may be given with or
    /// without trailing slashes and with or without its `/api` suffix.
    pub fn new(base_url: String, token: String) -> (c: NetbirdClient)
        ensures
            c.base() == api_base(base_url@),
            c.api_token() == token@,
    {
        let trimmed = trim_trailing(base_url.as_str(), '/');
        let base_url = trim_trailing_text(trimmed.as_str(), "/api");
        NetbirdClient { base_url, token }
    }

    /// The URL of the event list.
    pub fn events_url(&self) -> (r: String)
        ensures
            r@ == self.base() + "/api/events"@,
    {
        let mut url = self.base_url.clone();
        url.append("/api/events");
        url
    }

    /// The value of the `Authorization` header.
    pub fn authorization(&self) -> (r: String)
        ensures
            r@ == "Token "@ + self.api_token(),
    {
        let mut value = String::from_str("Token ");
        value.append(self.token.as_str());
        value
    }

    /// The value of the `Accept` header.
    pub fn accept(&self) -> (r: String)
        ensures
            r@ == "application/json"@,
    {
        String::from_str("application/json")
    }

    /// Reads what a request for the event list came to: the reply, or the
    /// reason why none arrived.
    pub fn fetch_events(&self, transport: Result<SourceReply, String>) -> (r: Result<
        Vec<Event>,
        FetchError,
    >)
        ensures
            r == fetch_outcome(transport),
    {
        match transport {
            Err(detail) => Err(FetchError::SourceUnavailable { status: None, body: detail }),
            Ok(reply) => {
                if !is_success(reply.status) {
                    return Err(
                        FetchError::SourceUnavailable {
                            status: Some(reply.status),
                            body: reply.body,
                        },
                    );
                }
                match reply.decoded {
                    Some(events) => Ok(events),
                    None => Err(FetchError::SourceMalformed),
                }
            },
        }
    }
}

/// What a fetch error says: for an answer of the source its status and body,
/// for an unreachable source the reason, for an undecodable body a fixed text.
pub open spec fn fetch_error_text(e: FetchError) -> Seq<char> {
    match e {
        FetchError::SourceUnavailable { status: Some(code), body } => "Netbird API Error: "@
            + decimal_text(code as int) + " - "@ + body@,
        FetchError::SourceUnavailable { status: None, body } =>
            "Failed to send request to Netbird API: "@ + body@,
        FetchError::SourceMalformed => "Failed to parse Netbird API response"@,
    }
}

impl FetchError {
    /// The error in words.
    pub fn message(&self) -> (r: String)
        ensures
            r@ == fetch_error_text(*self),
    {
        match self {
            FetchError::SourceUnavailable { status: Some(code), body } => {
                let mut out = String::from_str("Netbird API Error: ");
                out.append(decimal(*code as i64).as_str());
                out.append(" - ");
                out.append(body.as_str());
                out
            },
            FetchError::SourceUnavailable { status: None, body } => {
                let mut out = String::from_str("Failed to send request to Netbird API: ");
                out.append(body.as_str());
                out
            },
            FetchError::SourceMalformed => String::from_str("Failed to parse Netbird API response"),
        }
    }
}

} // verus!
