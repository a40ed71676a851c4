//! The result record of a single work unit and its classification from
//! what the transport reported.

use crate::text::{decimal, decimal_string};
use vstd::prelude::*;
use vstd::string::*;

verus! {

/// The outcome of one work unit: one HTTP call or one WebSocket session.
#[derive(Debug)]
pub struct RequestResult {
    pub duration_ms: u64,
    pub success: bool,
    pub status_code: Option<u16>,
    pub error: Option<String>,
}

/// The tally key of a failed result without a message of its own.
pub open spec fn unknown_error_key() -> Seq<char> {
    "unknown error"@
}

impl RequestResult {
    /// A successful result never carries an error message.
    pub open spec fn wf(self) -> bool {
        self.success ==> self.error is None
    }

    /// The tally key of a failed result: its message, or the fixed
    /// unknown-error key when it has none.
    pub open spec fn error_key(self) -> Seq<char> {
        match self.error {
            Some(m) => m@,
            None => unknown_error_key(),
        }
    }
}

/// Whether an HTTP status is in the success class.
pub open spec fn is_success_status(code: u16) -> bool {
    200 <= code < 300
}

/// The message of a work unit whose configured method is unrecognized.
pub open spec fn unsupported_method_message(m: Seq<char>) -> Seq<char> {
    "unsupported HTTP method: "@ + m
}

/// The message of an HTTP response outside the success class.
pub open spec fn http_status_message(code: u16) -> Seq<char> {
    "HTTP status: "@ + decimal(code as nat)
}

/// The message of a WebSocket target that is not a well-formed URL.
pub open spec fn url_error_message(e: Seq<char>) -> Seq<char> {
    "URL parse error: "@ + e
}

/// The message of a WebSocket connection that could not be opened.
pub open spec fn ws_connect_message(e: Seq<char>) -> Seq<char> {
    "WebSocket connect failed: "@ + e
}

/// The message of a WebSocket text frame that could not be sent.
pub open spec fn ws_send_message(e: Seq<char>) -> Seq<char> {
    "WebSocket send failed: "@ + e
}

/// The immediate failure of a work unit whose method string is
/// unrecognized; no network call is made for it.
pub fn unsupported_method_result(method: &str, elapsed_ms: u64) -> (r: RequestResult)
    ensures
        r.duration_ms == elapsed_ms,
        !r.success,
        r.status_code is None,
        r.error matches Some(m) && m@ == unsupported_method_message(method@),
        r.wf(),
{
    let m = String::from_str("unsupported HTTP method: ").concat(method);
    RequestResult { duration_ms: elapsed_ms, success: false, status_code: None, error: Some(m) }
}

/// Classifies one HTTP exchange: a reached response is a success exactly
/// when its status is in the success class and always keeps its status
/// code; a transport failure keeps its message and has no status code.
pub fn http_exchange_result(exchange: Result<u16, String>, elapsed_ms: u64) -> (r: RequestResult)
    ensures
        r.duration_ms == elapsed_ms,
        r.wf(),
        exchange matches Ok(code) ==> {
            &&& r.success == is_success_status(code)
            &&& r.status_code == Some(code)
            &&& is_success_status(code) ==> r.error is None
            &&& !is_success_status(code) ==> (r.error matches Some(m) && m@ == http_status_message(
                code,
            ))
        },
        exchange matches Err(e) ==> {
            &&& !r.success
            &&& r.status_code is None
            &&& r.error matches Some(m) && m@ == e@
        },
{
    match exchange {
        Ok(code) => {
            if 200 <= code && code < 300 {
                RequestResult {
                    duration_ms: elapsed_ms,
                    success: true,
                    status_code: Some(code),
                    error: None,
                }
            } else {
                let m = String::from_str("HTTP status: ").concat(
                    decimal_string(code as u64).as_str(),
                );
                RequestResult {
                    duration_ms: elapsed_ms,
                    success: false,
                    status_code: Some(code),
                    error: Some(m),
                }
            }
        },
        Err(e) => RequestResult {
            duration_ms: elapsed_ms,
            success: false,
            status_code: None,
            error: Some(e),
        },
    }
}

/// What a WebSocket session reported after its URL was accepted.
#[derive(Debug)]
pub enum WsEvent {
    ConnectFailed(String),
    SendFailed(String),
    Completed,
}

/// Classifies one WebSocket session. A session never carries an HTTP
/// status code; a completed session, held or not, is one success.
pub fn websocket_result(event: WsEvent, elapsed_ms: u64) -> (r: RequestResult)
    ensures
        r.duration_ms == elapsed_ms,
        r.status_code is None,
        r.wf(),
        event matches WsEvent::Completed ==> r.success && r.error is None,
        event matches WsEvent::ConnectFailed(e) ==> {
            &&& !r.success
            &&& r.error matches Some(m) && m@ == ws_connect_message(e@)
        },
        event matches WsEvent::SendFailed(e) ==> {
            &&& !r.success
            &&& r.error matches Some(m) && m@ == ws_send_message(e@)
        },
{
    match event {
        WsEvent::Completed => RequestResult {
            duration_ms: elapsed_ms,
            success: true,
            status_code: None,
            error: None,
        },
        WsEvent::ConnectFailed(e) => {
            let m = String::from_str("WebSocket connect failed: ").concat(e.as_str());
            RequestResult {
                duration_ms: elapsed_ms,
                success: false,
                status_code: None,
                error: Some(m),
            }
        },
        WsEvent::SendFailed(e) => {
            let m = String::from_str("WebSocket send failed: ").concat(e.as_str());
            RequestResult {
                duration_ms: elapsed_ms,
                success: false,
                status_code: None,
                error: Some(m),
            }
        },
    }
}

/// What parsing a URL yields: its normalized form, or the message of
/// the fault found in it.
pub uninterp spec fn url_parse(s: Seq<char>) -> Result<Seq<char>, Seq<char>>;

/// Relies on url::Url::parse: the outcome depends on the input string
/// alone; an accepted URL is handed on in the crate's normalized form,
/// a rejected one as the rendering of its parse error.
#[verifier::external_body]
fn parse_url(s: &str) -> (r: Result<String, String>)
    ensures
        r is Ok <==> url_parse(s@) is Ok,
        r matches Ok(u) ==> (url_parse(s@) matches Ok(n) && u@ == n),
        r matches Err(e) ==> (url_parse(s@) matches Err(m) && e@ == m),
{
    match url::Url::parse(s) {
        Ok(u) => Ok(String::from(u)),
        Err(e) => Err(e.to_string()),
    }
}

/// Checks the WebSocket target before any connection attempt: a
/// well-formed URL comes back in normalized form for the handshake, a
/// malformed one as the immediate failure of that work unit.
pub fn check_ws_url(target: &str, elapsed_ms: u64) -> (r: Result<String, RequestResult>)
    ensures
        r is Ok <==> url_parse(target@) is Ok,
        r matches Ok(u) ==> (url_parse(target@) matches Ok(n) && u@ == n),
        r matches Err(res) ==> {
            &&& url_parse(target@) matches Err(e) && res.error matches Some(m) && m@
                == url_error_message(e)
            &&& !res.success
            &&& res.status_code is None
            &&& res.duration_ms == elapsed_ms
            &&& res.wf()
        },
{
    match parse_url(target) {
        Ok(u) => Ok(u),
        Err(e) => {
            let m = String::from_str("URL parse error: ").concat(e.as_str());
            Err(
                RequestResult {
                    duration_ms: elapsed_ms,
                    success: false,
                    status_code: None,
                    error: Some(m),
                },
            )
        },
    }
}

} // verus!
