//! The builder's side of the RPC connection: where it connects, how it
//! authenticates, how it reports failed requests, and when it gives up on
//! the tunnel from the queue runner.

use vstd::prelude::*;

use crate::protocol::messages::{AbortMessage, BuildMessage, RunnerMessage};
use crate::protocol::RpcError;
use crate::text::{chars_of, concat, decimal, has_prefix, has_prefix_at, str_equal,
    string_from_chars, u64_decimal};

verus! {

// ---------------------------------------------------------------------------
// The gateway endpoint
// ---------------------------------------------------------------------------

/// What `url::Url::parse` gives for a string, read through `Url::scheme`,
/// `Url::host_str` and `Url::port`: the scheme, the host if there is one,
/// and the port if one is given that is not the scheme's default; `None`
/// where the string is not an absolute URL.
pub uninterp spec fn url_parts(s: Seq<char>) -> Option<(Seq<char>, Option<Seq<char>>, Option<u16>)>;

/// The view of the parts of a URL.
pub open spec fn url_parts_view(r: Option<(String, Option<String>, Option<u16>)>) -> Option<
    (Seq<char>, Option<Seq<char>>, Option<u16>),
> {
    match r {
        Some((scheme, host, port)) => Some(
            (
                scheme@,
                match host {
                    Some(h) => Some(h@),
                    None => None,
                },
                port,
            ),
        ),
        None => None,
    }
}

/// Calls `url::Url::parse` and reads the scheme, the host and the port of
/// the URL. The contract names the result; it claims nothing about which
/// strings parse.
#[verifier::external_body]
fn parse_url(s: &str) -> (r: Option<(String, Option<String>, Option<u16>)>)
    ensures
        url_parts_view(r) == url_parts(s@),
{
    match url::Url::parse(s) {
        Ok(u) => Some((u.scheme().to_owned(), u.host_str().map(|h| h.to_owned()), u.port())),
        Err(_) => None,
    }
}

/// Where the builder reaches the queue runner.
#[derive(Debug, Clone, PartialEq, Eq)]
pub enum GatewayTarget {
    /// A Unix socket at `path`.
    Unix { path: String },
    /// A TCP connection to `addr` (`host:port`), over TLS where `tls` holds.
    Tcp { host: String, port: u16, addr: String, tls: bool },
}

/// Why the gateway endpoint cannot be used.
#[derive(Debug, Clone, Copy, PartialEq, Eq, Structural)]
pub enum GatewayError {
    /// The endpoint is not a URL.
    Unparsable,
    /// The URL names no host.
    NoHost,
}

impl GatewayError {
    /// The description of the failure.
    pub fn message(self) -> (m: &'static str)
        ensures
            self == GatewayError::Unparsable ==> m@ == "Failed to parse gateway_endpoint"@,
            self == GatewayError::NoHost ==> m@ == "No host in gateway_endpoint"@,
    {
        match self {
            GatewayError::Unparsable => "Failed to parse gateway_endpoint",
            GatewayError::NoHost => "No host in gateway_endpoint",
        }
    }
}

/// The port to connect to: the URL's own, else 443 for `https` and 80
/// otherwise.
pub open spec fn gateway_port(scheme: Seq<char>, port: Option<u16>) -> u16 {
    match port {
        Some(p) => p,
        None => if scheme == "https"@ {
            443
        } else {
            80
        },
    }
}

/// A port that the URL gives is the one connected to, whatever the scheme;
/// only a URL without a port falls back on its scheme's default, 443 for
/// `https` and 80 for any other.
pub proof fn lemma_gateway_port(scheme: Seq<char>, port: Option<u16>)
    ensures
        forall|p: u16| port == Some(p) ==> gateway_port(scheme, port) == p,
        port is None && scheme == "https"@ ==> gateway_port(scheme, port) == 443,
        port is None && scheme != "https"@ ==> gateway_port(scheme, port) == 80,
{
}

/// Where a gateway endpoint leads: a `unix://` endpoint is the socket at the
/// rest of it; any other is parsed as a URL, whose host and port are
/// connected to, over TLS for `https` or where mutual TLS is enabled.
pub fn gateway_target(endpoint: &str, mtls_enabled: bool) -> (r: Result<GatewayTarget, GatewayError>)
    ensures
        has_prefix(endpoint@, "unix://"@) ==> (r matches Ok(GatewayTarget::Unix { path }) && path@
            == endpoint@.skip(7)),
        !has_prefix(endpoint@, "unix://"@) ==> match url_parts(endpoint@) {
            None => r == Err::<GatewayTarget, GatewayError>(GatewayError::Unparsable),
            Some((scheme, host, port)) => match host {
                None => r == Err::<GatewayTarget, GatewayError>(GatewayError::NoHost),
                Some(h) => r matches Ok(GatewayTarget::Tcp { host: rh, port: rp, addr, tls }) && rh@
                    == h && rp == gateway_port(scheme, port) && addr@ == h + ":"@ + decimal(
                    rp as nat,
                ) && tls == (scheme == "https"@ || mtls_enabled),
            },
        },
        !has_prefix(endpoint@, "unix://"@) ==> (url_parts(endpoint@) matches Some(
            (scheme, host, port),
        ) ==> (host is Some && port is Some ==> (r matches Ok(GatewayTarget::Tcp { port: rp, .. })
            && Some(rp) == port))),
        !has_prefix(endpoint@, "unix://"@) ==> (url_parts(endpoint@) matches Some(
            (scheme, host, port),
        ) ==> (host is Some && port is None ==> (r matches Ok(GatewayTarget::Tcp { port: rp, .. })
            && rp == (if scheme == "https"@ {
            443u16
        } else {
            80u16
        })))),
{
    let chars = chars_of(endpoint);
    let prefix = chars_of("unix://");
    proof {
        reveal_strlit("unix://");
        assert(chars@.skip(0) =~= chars@);
    }
    if has_prefix_at(chars.as_slice(), 0, prefix.as_slice()) {
        let path = string_from_chars(&chars.as_slice()[7..chars.len()]);
        proof {
            assert(chars@.subrange(7, chars@.len() as int) =~= endpoint@.skip(7));
        }
        return Ok(GatewayTarget::Unix { path });
    }
    let (scheme, host, port) = match parse_url(endpoint) {
        Some(parts) => parts,
        None => {
            return Err(GatewayError::Unparsable);
        },
    };
    let host = match host {
        Some(h) => h,
        None => {
            return Err(GatewayError::NoHost);
        },
    };
    let https = str_equal(scheme.as_str(), "https");
    let port: u16 = match port {
        Some(p) => p,
        None => if https {
            443
        } else {
            80
        },
    };
    let digits = u64_decimal(port as u64);
    let addr = concat(host.as_str(), ":");
    let addr = concat(addr.as_str(), string_from_chars(digits.as_slice()).as_str());
    Ok(GatewayTarget::Tcp { host, port, addr, tls: https || mtls_enabled })
}

/// The `authorization` header that carries a token.
pub fn bearer_header(token: &str) -> (h: String)
    ensures
        h@ == "Bearer "@ + token@,
{
    concat("Bearer ", token)
}

// ---------------------------------------------------------------------------
// Failed requests
// ---------------------------------------------------------------------------

/// The error of a request that the queue runner refused: the `RpcError` that
/// its answer carried, or where the answer carried none, its status as text.
pub fn rpc_failure_message(error: Option<&RpcError>, status: &str) -> (m: String)
    ensures
        match error {
            Some(e) => m@ == "RPC error "@ + decimal(e.code as nat) + ": "@ + e.message@,
            None => m@ == "RPC error: status "@ + status@,
        },
{
    match error {
        Some(e) => e.to_string(),
        None => concat("RPC error: status ", status),
    }
}

// ---------------------------------------------------------------------------
// Messages from the queue runner
// ---------------------------------------------------------------------------

/// What the builder does with a message from the queue runner.
#[derive(Debug, Clone, PartialEq, Eq)]
pub enum RunnerAction {
    /// Allow this many downloads at once.
    SetMaxConcurrentDownloads(u32),
    /// Nothing: the message only keeps the tunnel open.
    Ignore,
    /// Start the build.
    Schedule(BuildMessage),
    /// Abort the build.
    Abort(AbortMessage),
}

/// The action for a message from the queue runner: the answer to joining
/// and a configuration update both set the number of concurrent
/// downloads.
pub fn runner_action(msg: RunnerMessage) -> (r: RunnerAction)
    ensures
        match msg {
            RunnerMessage::Join(m) => r == RunnerAction::SetMaxConcurrentDownloads(
                m.max_concurrent_downloads,
            ),
            RunnerMessage::ConfigUpdate(m) => r == RunnerAction::SetMaxConcurrentDownloads(
                m.max_concurrent_downloads,
            ),
            RunnerMessage::Ping(_) => r == RunnerAction::Ignore,
            RunnerMessage::Build(m) => r == RunnerAction::Schedule(m),
            RunnerMessage::Abort(m) => r == RunnerAction::Abort(m),
        },
{
    match msg {
        RunnerMessage::Join(m) => RunnerAction::SetMaxConcurrentDownloads(m.max_concurrent_downloads),
        RunnerMessage::ConfigUpdate(m) => RunnerAction::SetMaxConcurrentDownloads(
            m.max_concurrent_downloads,
        ),
        RunnerMessage::Ping(_) => RunnerAction::Ignore,
        RunnerMessage::Build(m) => RunnerAction::Schedule(m),
        RunnerMessage::Abort(m) => RunnerAction::Abort(m),
    }
}

// ---------------------------------------------------------------------------
// Receiving from the tunnel
// ---------------------------------------------------------------------------

/// The number of failures in a row after which the builder gives up.
pub const MAX_CONSECUTIVE_FAILURES: u32 = 10;

/// What the receiving end of the tunnel saw.
#[derive(Debug, Clone, Copy, PartialEq, Eq, Structural)]
pub enum RecvEvent {
    /// A message was decoded.
    Message,
    /// A frame did not decode as a message.
    DecodeFailed,
    /// The stream reported an error.
    StreamFailed,
    /// The stream ended.
    Closed,
}

/// What the builder does next.
#[derive(Debug, Clone, Copy, PartialEq, Eq, Structural)]
pub enum RecvAction {
    /// Handle the decoded message and go on.
    Handle,
    /// Go on receiving.
    Continue,
    /// Give up: too many failures in a row.
    Terminate,
    /// Stop: the stream ended.
    Stop,
}

/// The failures in a row after an event, and what follows from it.
pub open spec fn recv_next(failures: u32, event: RecvEvent) -> (u32, RecvAction) {
    match event {
        RecvEvent::Message => (0, RecvAction::Handle),
        RecvEvent::Closed => (failures, RecvAction::Stop),
        _ => if failures + 1 == MAX_CONSECUTIVE_FAILURES {
            ((failures + 1) as u32, RecvAction::Terminate)
        } else {
            ((failures + 1) as u32, RecvAction::Continue)
        },
    }
}

/// One step of the receiving loop: a decoded message resets the count of
/// failures in a row, a failure adds one and gives up at the limit, the end
/// of the stream stops.
pub fn recv_step(failures: u32, event: RecvEvent) -> (r: (u32, RecvAction))
    requires
        failures < MAX_CONSECUTIVE_FAILURES,
    ensures
        r == recv_next(failures, event),
        r.1 != RecvAction::Terminate ==> r.0 < MAX_CONSECUTIVE_FAILURES,
{
    match event {
        RecvEvent::Message => (0, RecvAction::Handle),
        RecvEvent::Closed => (failures, RecvAction::Stop),
        _ => {
            let n = failures + 1;
            if n == MAX_CONSECUTIVE_FAILURES {
                (n, RecvAction::Terminate)
            } else {
                (n, RecvAction::Continue)
            }
        },
    }
}

/// The failures in a row at the end of the events (the end of the stream
/// counts as neither).
pub open spec fn trailing_failures(events: Seq<RecvEvent>) -> nat
    decreases events.len(),
{
    if events.len() == 0 {
        0
    } else {
        match events.last() {
            RecvEvent::Message => 0,
            RecvEvent::Closed => trailing_failures(events.drop_last()),
            _ => trailing_failures(events.drop_last()) + 1,
        }
    }
}

/// The count and the last action after the loop has taken the events in
/// turn, starting from no failures.
pub open spec fn recv_run(events: Seq<RecvEvent>) -> (u32, RecvAction)
    decreases events.len(),
{
    if events.len() == 0 {
        (0, RecvAction::Continue)
    } else {
        recv_next(recv_run(events.drop_last()).0, events.last())
    }
}

/// The loop gives up exactly at the tenth failure in a row: as long as it
/// has not given up, its count is the number of failures since the last
/// message, and the event that gives up is the one that brings that number
/// to ten.
pub proof fn lemma_recv_gives_up_at_limit(events: Seq<RecvEvent>)
    requires
        forall|i: int| 0 < i < events.len() ==> recv_run(#[trigger] events.take(i)).1 != RecvAction::Terminate,
    ensures
        recv_run(events).0 == trailing_failures(events),
        recv_run(events).1 == RecvAction::Terminate <==> (trailing_failures(events) == MAX_CONSECUTIVE_FAILURES
            && events.len() > 0 && (events.last() == RecvEvent::DecodeFailed || events.last()
            == RecvEvent::StreamFailed)),
        recv_run(events).1 != RecvAction::Terminate ==> trailing_failures(events) < MAX_CONSECUTIVE_FAILURES,
    decreases events.len(),
{
    if events.len() > 0 {
        let d = events.drop_last();
        assert forall|i: int| 0 < i < d.len() implies recv_run(#[trigger] d.take(i)).1
            != RecvAction::Terminate by {
            assert(d.take(i) =~= events.take(i));
        }
        lemma_recv_gives_up_at_limit(d);
        if d.len() > 0 {
            assert(events.take(d.len() as int) =~= d);
        }
    }
}

} // verus!
