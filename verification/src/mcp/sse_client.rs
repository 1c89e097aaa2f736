//! The older MCP transport over server-sent events.
//!
//! One long-lived request carries events from the server; its first `endpoint` event
//! announces where messages are posted.
use vstd::prelude::*;

use crate::text;
use crate::urls;

verus! {

/// How long the server may take to answer the first request, in seconds.
pub const ENDPOINT_DISCOVERY_TIMEOUT_SECS: u64 = 15;

/// What can go wrong with the transport. `source` is the text of the underlying error.
#[derive(Debug)]
pub enum SseClientError {
    BadEndpointUrl { base: String, raw: String },
    BadStatus { status: u16, url: String },
    Closed,
    Connect { source: String, url: String },
    Join(String),
    MissingEndpointEvent { url: String },
    Post { source: String, url: String },
    PostStatus { body: String, status: u16, url: String },
    Serialize(String),
    Stream(String),
}

impl SseClientError {
    /// The message of the error.
    pub open spec fn message(self) -> Seq<char> {
        match self {
            SseClientError::BadEndpointUrl { base, raw } => "SSE endpoint URL "@ + raw@
                + " is not absolute and not joinable against "@ + base@,
            SseClientError::BadStatus { status, url } => "SSE endpoint "@ + url@
                + " returned HTTP "@ + text::decimal(status as nat),
            SseClientError::Closed => "SSE transport closed"@,
            SseClientError::Connect { source, url } => "failed to connect to SSE endpoint "@ + url@
                + ": "@ + source@,
            SseClientError::Join(e) => "worker join error: "@ + e@,
            SseClientError::MissingEndpointEvent { url } => "SSE stream from "@ + url@
                + " ended before sending the initial `endpoint` event (the server doesn't speak the MCP-over-SSE protocol)"@,
            SseClientError::Post { source, url } => "failed to POST message to "@ + url@ + ": "@
                + source@,
            SseClientError::PostStatus { body, status, url } => "POST to "@ + url@
                + " returned HTTP "@ + text::decimal(status as nat) + ": "@ + body@,
            SseClientError::Serialize(e) => "failed to serialize outgoing message: "@ + e@,
            SseClientError::Stream(e) => "SSE event stream error: "@ + e@,
        }
    }

    /// The message of the error.
    pub fn to_text(&self) -> (r: String)
        ensures
            r@ == self.message(),
    {
        let mut m = String::new();
        match self {
            SseClientError::BadEndpointUrl { base, raw } => {
                m.append("SSE endpoint URL ");
                m.append(raw);
                m.append(" is not absolute and not joinable against ");
                m.append(base);
            },
            SseClientError::BadStatus { status, url } => {
                m.append("SSE endpoint ");
                m.append(url);
                m.append(" returned HTTP ");
                m.append(text::format_u64(*status as u64).as_str());
            },
            SseClientError::Closed => {
                m.append("SSE transport closed");
            },
            SseClientError::Connect { source, url } => {
                m.append("failed to connect to SSE endpoint ");
                m.append(url);
                m.append(": ");
                m.append(source);
            },
            SseClientError::Join(e) => {
                m.append("worker join error: ");
                m.append(e);
            },
            SseClientError::MissingEndpointEvent { url } => {
                m.append("SSE stream from ");
                m.append(url);
                m.append(
                    " ended before sending the initial `endpoint` event (the server doesn't speak the MCP-over-SSE protocol)",
                );
            },
            SseClientError::Post { source, url } => {
                m.append("failed to POST message to ");
                m.append(url);
                m.append(": ");
                m.append(source);
            },
            SseClientError::PostStatus { body, status, url } => {
                m.append("POST to ");
                m.append(url);
                m.append(" returned HTTP ");
                m.append(text::format_u64(*status as u64).as_str());
                m.append(": ");
                m.append(body);
            },
            SseClientError::Serialize(e) => {
                m.append("failed to serialize outgoing message: ");
                m.append(e);
            },
            SseClientError::Stream(e) => {
                m.append("SSE event stream error: ");
                m.append(e);
            },
        }
        m
    }
}

/// The absolute URL that an `endpoint` event announces: the URL in it, or what it comes
/// to against the URL of the stream.
pub open spec fn endpoint_url(base: Seq<char>, raw: Seq<char>) -> Option<Seq<char>> {
    if text::starts_with_text(raw, "http://"@) || text::starts_with_text(raw, "https://"@) {
        Some(raw)
    } else {
        urls::url_joined(base, raw)
    }
}

/// Resolves the data of an `endpoint` event to an absolute URL.
pub fn resolve_endpoint(base: &str, raw: &str) -> (r: Result<String, SseClientError>)
    ensures
        match r {
            Ok(u) => endpoint_url(base@, raw@) == Some(u@),
            Err(e) => endpoint_url(base@, raw@) is None && e is BadEndpointUrl
                && e->BadEndpointUrl_base@ == base@ && e->BadEndpointUrl_raw@ == raw@,
        },
{
    if text::starts_with(raw, "http://") || text::starts_with(raw, "https://") {
        return Ok(raw.to_owned());
    }
    match urls::join_url(base, raw) {
        Some(u) => Ok(u),
        None => Err(SseClientError::BadEndpointUrl { base: base.to_owned(), raw: raw.to_owned() }),
    }
}

/// What the stream delivered.
pub enum Delivery {
    /// An event by its name and data.
    Event { data: String, event: String },
    /// The stream failed.
    Failed(String),
    /// The stream ended.
    Ended,
}

/// Takes a delivery while the endpoint is not yet known: the URL to post to, or `None`
/// to wait for the next. Events before the `endpoint` event are passed over.
pub fn await_endpoint(url: &str, delivery: Delivery) -> (r: Result<Option<String>, SseClientError>)
    ensures
        match delivery {
            Delivery::Event { data, event } => if event@ == "endpoint"@ {
                match endpoint_url(url@, text::trim_of(data@)) {
                    Some(u) => r is Ok && text::opt_text(r->Ok_0) == Some(u),
                    None => r is Err && r->Err_0 is BadEndpointUrl,
                }
            } else {
                r == Ok::<Option<String>, SseClientError>(None)
            },
            Delivery::Failed(e) => r == Err::<Option<String>, _>(SseClientError::Stream(e)),
            Delivery::Ended => r is Err && r->Err_0 is MissingEndpointEvent
                && r->Err_0->MissingEndpointEvent_url@ == url@,
        },
{
    match delivery {
        Delivery::Event { data, event } => {
            if text::str_eq(event.as_str(), "endpoint") {
                let trimmed = text::trim(data.as_str());
                match resolve_endpoint(url, trimmed.as_str()) {
                    Ok(u) => Ok(Some(u)),
                    Err(e) => Err(e),
                }
            } else {
                Ok(None)
            }
        },
        Delivery::Failed(e) => Err(SseClientError::Stream(e)),
        Delivery::Ended => Err(SseClientError::MissingEndpointEvent { url: url.to_owned() }),
    }
}

/// What to do with a delivery once the session runs.
pub enum Incoming {
    /// Pass over it.
    Skip,
    /// Hand this JSON text to the session.
    Message(String),
    /// Stop: the stream failed.
    Fatal(SseClientError),
    /// Stop: the stream ended.
    TransportClosed,
}

/// Sorts a delivery: only unnamed events and `message` events carry messages, and empty
/// ones are passed over.
pub fn run(delivery: Delivery) -> (r: Incoming)
    ensures
        match delivery {
            Delivery::Event { data, event } => {
                let body = text::trim_of(data@);
                if (event@.len() > 0 && event@ != "message"@) || body.len() == 0 {
                    r is Skip
                } else {
                    r is Message && r->Message_0@ == body
                }
            },
            Delivery::Failed(e) => r == Incoming::Fatal(SseClientError::Stream(e)),
            Delivery::Ended => r is TransportClosed,
        },
{
    match delivery {
        Delivery::Event { data, event } => {
            if !event.as_str().is_empty() && !text::str_eq(event.as_str(), "message") {
                return Incoming::Skip;
            }
            let body = text::trim(data.as_str());
            if body.as_str().is_empty() {
                Incoming::Skip
            } else {
                Incoming::Message(body)
            }
        },
        Delivery::Failed(e) => Incoming::Fatal(SseClientError::Stream(e)),
        Delivery::Ended => Incoming::TransportClosed,
    }
}

/// The reply's status code says that the request succeeded.
pub open spec fn success_status(status: u16) -> bool {
    200 <= status < 300
}

/// Whether the first request opened the stream.
pub fn check_stream(url: &str, status: u16) -> (r: Result<(), SseClientError>)
    ensures
        match r {
            Ok(_) => success_status(status),
            Err(e) => !success_status(status) && e is BadStatus && e->BadStatus_status == status
                && e->BadStatus_url@ == url@,
        },
{
    if 200 <= status && status < 300 {
        Ok(())
    } else {
        Err(SseClientError::BadStatus { status, url: url.to_owned() })
    }
}

/// Whether a posted message was accepted; `body` is the reply's text.
pub fn post_message(url: &str, status: u16, body: String) -> (r: Result<(), SseClientError>)
    ensures
        match r {
            Ok(_) => success_status(status),
            Err(e) => !success_status(status) && e is PostStatus && e->PostStatus_status == status
                && e->PostStatus_url@ == url@ && e->PostStatus_body == body,
        },
{
    if 200 <= status && status < 300 {
        Ok(())
    } else {
        Err(SseClientError::PostStatus { body, status, url: url.to_owned() })
    }
}

/// The name of the worker that owns a stream.
pub fn worker_name(base_url: &str) -> (r: String)
    ensures
        r@ == "sse-client:"@ + base_url@,
{
    let mut name = String::from_str("sse-client:");
    name.append(base_url);
    name
}

/// An absolute endpoint is taken as it is; any other is joined to the URL of the stream.
pub proof fn law_absolute_endpoint_is_kept(base: Seq<char>, rest: Seq<char>, raw: Seq<char>)
    ensures
        endpoint_url(base, "http://"@ + rest) == Some("http://"@ + rest),
        endpoint_url(base, "https://"@ + rest) == Some("https://"@ + rest),
        !text::starts_with_text(raw, "http"@) ==> endpoint_url(base, raw) == urls::url_joined(
            base,
            raw,
        ),
{
    reveal_strlit("http://");
    reveal_strlit("https://");
    reveal_strlit("http");
    let plain = "http://"@ + rest;
    let secure = "https://"@ + rest;
    assert(plain.take("http://"@.len() as int) =~= "http://"@);
    assert(secure.take("https://"@.len() as int) =~= "https://"@);
    if text::starts_with_text(raw, "http://"@) {
        assert(raw.take(7) == "http://"@);
        assert forall|i: int| 0 <= i < 4 implies raw[i] == #[trigger] "http"@[i] by {
            assert(raw.take(7)[i] == raw[i]);
        }
        assert(raw.take(4) =~= "http"@);
    }
    if text::starts_with_text(raw, "https://"@) {
        assert(raw.take(8) == "https://"@);
        assert forall|i: int| 0 <= i < 4 implies raw[i] == #[trigger] "http"@[i] by {
            assert(raw.take(8)[i] == raw[i]);
        }
        assert(raw.take(4) =~= "http"@);
    }
}

/// The statuses of success are those of two hundred, and no others.
pub proof fn law_success_is_two_hundred(status: u16)
    ensures
        success_status(status) <==> status / 100 == 2,
{
}

/// A message says what the error carries: the URL that it is about, the status of a reply,
/// and the text of what lies under it.
pub proof fn law_message_says_what_it_is_about(e: SseClientError)
    ensures
        match e {
            SseClientError::BadEndpointUrl { base, raw } => text::contains_text(e.message(), raw@)
                && text::ends_with_text(e.message(), base@),
            SseClientError::BadStatus { status, url } => text::contains_text(e.message(), url@)
                && text::ends_with_text(e.message(), text::decimal(status as nat)),
            SseClientError::Connect { source, url }
            | SseClientError::Post { source, url } => text::contains_text(e.message(), url@)
                && text::ends_with_text(e.message(), source@),
            SseClientError::Join(why)
            | SseClientError::Serialize(why)
            | SseClientError::Stream(why) => text::ends_with_text(e.message(), why@),
            SseClientError::MissingEndpointEvent { url } => text::contains_text(e.message(), url@),
            SseClientError::PostStatus { body, status, url } => text::contains_text(
                e.message(),
                url@,
            ) && text::contains_text(e.message(), text::decimal(status as nat))
                && text::ends_with_text(e.message(), body@),
            SseClientError::Closed => e.message().len() > 0,
        },
{
    let none = Seq::<char>::empty();
    match e {
        SseClientError::BadEndpointUrl { base, raw } => {
            text::lemma_says_two(
                "SSE endpoint URL "@,
                raw@,
                " is not absolute and not joinable against "@,
                base@,
                none,
            );
        },
        SseClientError::BadStatus { status, url } => {
            text::lemma_says_two(
                "SSE endpoint "@,
                url@,
                " returned HTTP "@,
                text::decimal(status as nat),
                none,
            );
        },
        SseClientError::Connect { source, url } => {
            text::lemma_says_two(
                "failed to connect to SSE endpoint "@,
                url@,
                ": "@,
                source@,
                none,
            );
        },
        SseClientError::Post { source, url } => {
            text::lemma_says_two("failed to POST message to "@, url@, ": "@, source@, none);
        },
        SseClientError::Join(why) => {
            text::lemma_says_one("worker join error: "@, why@, none);
        },
        SseClientError::Serialize(why) => {
            text::lemma_says_one("failed to serialize outgoing message: "@, why@, none);
        },
        SseClientError::Stream(why) => {
            text::lemma_says_one("SSE event stream error: "@, why@, none);
        },
        SseClientError::MissingEndpointEvent { url } => {
            text::lemma_says_one(
                "SSE stream from "@,
                url@,
                " ended before sending the initial `endpoint` event (the server doesn't speak the MCP-over-SSE protocol)"@,
            );
        },
        SseClientError::PostStatus { body, status, url } => {
            let code = text::decimal(status as nat);
            let rest = ": "@ + body@;
            text::lemma_says_two("POST to "@, url@, " returned HTTP "@, code, rest);
            assert(e.message() =~= "POST to "@ + url@ + " returned HTTP "@ + code + rest);
            let said = e.message();
            assert(said.skip(said.len() - body@.len()) =~= body@);
        },
        SseClientError::Closed => {
            reveal_strlit("SSE transport closed");
        },
    }
}

} // verus!
