//! The daemon's request protocol: what a request asks the orchestrator, and
//! what is answered for each outcome, on the line protocol and in events.

use crate::number::{decimal, push_decimal};
use crate::paths::{join_path, joined};
use crate::text::{chars_of, push_str, string_of, text_of};
use vstd::prelude::*;
use vstd::utf8::{decode_utf8, valid_utf8};

verus! {

/// The port of the line protocol over TCP.
pub const DEFAULT_PORT: u16 = 7655;

/// The port of the event protocol.
pub const DEFAULT_WS_PORT: u16 = 7656;

/// Bytes of a result that go into one event.
pub const WS_CHUNK_SIZE: usize = 100;

/// A request of the line protocol.
#[derive(Debug, Clone)]
pub struct DaemonRequest {
    pub command: String,
    pub args: Option<String>,
}

/// A response of the line protocol.
#[derive(Debug, Clone)]
pub struct DaemonResponse {
    pub success: bool,
    pub result: Option<String>,
    pub error: Option<String>,
}

/// A request of the event protocol.
#[derive(Debug, Clone)]
pub struct WsRequest {
    pub id: String,
    pub command: String,
    pub args: Option<String>,
}

/// An event of the event protocol: `chunk`, `complete` or `error`.
#[derive(Debug, Clone)]
pub struct WsResponse {
    pub id: String,
    pub event: String,
    pub data: Option<String>,
}

/// What the daemon is doing.
#[derive(Debug, Clone)]
pub struct DaemonStatus {
    pub running: bool,
    pub watching: bool,
    pub data_dir: String,
}

/// Where a client finds the daemon.
#[derive(Debug, Clone)]
pub struct DaemonClient {
    pub socket_path: Option<String>,
    pub tcp_addr: Option<String>,
}

/// How the orchestrator dealt with a request.
#[derive(Debug, Clone)]
pub enum Outcome {
    /// The command was carried out, with this result.
    Done(String),
    /// The command failed, with this message.
    Failed(String),
    /// The request could not be handed over: the orchestrator has ended.
    Terminated,
    /// The orchestrator took the request and gave no answer.
    Dropped,
}

/// The input that a request hands to the orchestrator: its command, then a
/// space and its arguments where it has any.
pub open spec fn input_of(command: Seq<char>, args: Option<Seq<char>>) -> Seq<char> {
    match args {
        Some(a) => command + seq![' '] + a,
        None => command,
    }
}

/// Makes the input that a request hands to the orchestrator.
pub fn command_line(command: &str, args: &Option<String>) -> (r: String)
    ensures
        r@ == input_of(command@, text_of(*args)),
{
    match args {
        Some(a) => {
            let mut out = chars_of(command);
            out.push(' ');
            push_str(&mut out, a.as_str());
            string_of(&out)
        },
        None => String::from_str(command),
    }
}

impl DaemonRequest {
    /// The input that this request hands to the orchestrator.
    pub fn input(&self) -> (r: String)
        ensures
            r@ == input_of(self.command@, text_of(self.args)),
    {
        command_line(self.command.as_str(), &self.args)
    }

    /// The request by which a client finds out whether the daemon runs.
    pub fn probe() -> (r: Self)
        ensures
            r.command@ == "/stats"@,
            r.args is None,
    {
        DaemonRequest { command: String::from_str("/stats"), args: None }
    }
}

impl WsRequest {
    /// The input that this request hands to the orchestrator.
    pub fn input(&self) -> (r: String)
        ensures
            r@ == input_of(self.command@, text_of(self.args)),
    {
        command_line(self.command.as_str(), &self.args)
    }
}

/// The message for an outcome that is no success.
pub open spec fn failure_text(outcome: Outcome) -> Seq<char> {
    match outcome {
        Outcome::Done(_) => seq![],
        Outcome::Failed(e) => e@,
        Outcome::Terminated => "Orchestrator thread terminated"@,
        Outcome::Dropped => "Response channel closed"@,
    }
}

fn failure_text_exec(outcome: Outcome) -> (r: String)
    ensures
        r@ == failure_text(outcome),
{
    match outcome {
        Outcome::Done(_) => String::new(),
        Outcome::Failed(e) => e,
        Outcome::Terminated => String::from_str("Orchestrator thread terminated"),
        Outcome::Dropped => String::from_str("Response channel closed"),
    }
}

impl DaemonResponse {
    /// The response to a request that could not be read.
    pub fn invalid(reason: &str) -> (r: Self)
        ensures
            !r.success,
            r.result is None,
            text_of(r.error) == Some("Invalid request: "@ + reason@),
    {
        let mut out = chars_of("Invalid request: ");
        push_str(&mut out, reason);
        DaemonResponse { success: false, result: None, error: Some(string_of(&out)) }
    }

    /// The response for an outcome: the result of a command that was
    /// carried out, else the message of what went wrong.
    pub fn from_outcome(outcome: Outcome) -> (r: Self)
        ensures
            r.success == (outcome is Done),
            text_of(r.result) == match outcome {
                Outcome::Done(s) => Some(s@),
                _ => None,
            },
            text_of(r.error) == match outcome {
                Outcome::Done(_) => None,
                _ => Some(failure_text(outcome)),
            },
    {
        match outcome {
            Outcome::Done(s) => DaemonResponse { success: true, result: Some(s), error: None },
            other => DaemonResponse {
                success: false,
                result: None,
                error: Some(failure_text_exec(other)),
            },
        }
    }
}

/// `core::str::from_utf8`, as owned text: the text that the bytes encode,
/// exactly where they are valid UTF-8.
#[verifier::external_body]
fn text_of_utf8(bytes: &[u8]) -> (r: Option<String>)
    ensures
        match r {
            Some(s) => valid_utf8(bytes@) && s@ == decode_utf8(bytes@),
            None => !valid_utf8(bytes@),
        },
{
    match core::str::from_utf8(bytes) {
        Ok(s) => Some(s.to_string()),
        Err(_) => None,
    }
}

/// The text of one piece of a result: what its bytes encode, or nothing
/// where they are not valid UTF-8 by themselves.
pub open spec fn piece_text(bytes: Seq<u8>) -> Seq<char> {
    if valid_utf8(bytes) {
        decode_utf8(bytes)
    } else {
        seq![]
    }
}

/// The texts of the pieces of `size` bytes that the bytes from `from` on
/// fall into; the last piece may be shorter.
pub open spec fn pieces_from(bytes: Seq<u8>, from: int, size: nat) -> Seq<Seq<char>>
    decreases bytes.len() - from,
{
    if from < 0 || from >= bytes.len() || size == 0 {
        seq![]
    } else {
        let end = if from + size < bytes.len() {
            from + size
        } else {
            bytes.len() as int
        };
        seq![piece_text(bytes.subrange(from, end))] + pieces_from(bytes, end, size)
    }
}

/// An event as plain values.
pub struct EventView {
    pub id: Seq<char>,
    pub event: Seq<char>,
    pub data: Option<Seq<char>>,
}

impl View for WsResponse {
    type V = EventView;

    open spec fn view(&self) -> EventView {
        EventView { id: self.id@, event: self.event@, data: text_of(self.data) }
    }
}

/// The views of a sequence of events.
pub open spec fn event_views(events: Seq<WsResponse>) -> Seq<EventView> {
    events.map_values(|e: WsResponse| e@)
}

/// A `chunk` event for each text.
pub open spec fn chunk_events(id: Seq<char>, texts: Seq<Seq<char>>) -> Seq<EventView> {
    texts.map_values(|t: Seq<char>| EventView { id, event: "chunk"@, data: Some(t) })
}

/// The events that answer a request: for a result, its pieces as `chunk`
/// events and then `complete`; else one `error` event with the message.
pub open spec fn events_for(id: Seq<char>, outcome: Outcome) -> Seq<EventView> {
    match outcome {
        Outcome::Done(s) => chunk_events(
            id,
            pieces_from(vstd::utf8::encode_utf8(s@), 0, WS_CHUNK_SIZE as nat),
        ).push(EventView { id, event: "complete"@, data: None }),
        _ => seq![EventView { id, event: "error"@, data: Some(failure_text(outcome)) }],
    }
}

fn slice_bytes(bytes: &[u8], from: usize, to: usize) -> (r: Vec<u8>)
    requires
        from <= to <= bytes@.len(),
    ensures
        r@ == bytes@.subrange(from as int, to as int),
{
    let mut r: Vec<u8> = Vec::new();
    let mut i: usize = from;
    while i < to
        invariant
            from <= i <= to <= bytes@.len(),
            r@ == bytes@.subrange(from as int, i as int),
        decreases to - i,
    {
        r.push(bytes[i]);
        i += 1;
    }
    r
}

/// Cuts a result into the texts of its pieces of `WS_CHUNK_SIZE` bytes.
pub fn ws_chunks(result: &str) -> (r: Vec<String>)
    ensures
        r@.map_values(|s: String| s@) == pieces_from(
            vstd::utf8::encode_utf8(result@),
            0,
            WS_CHUNK_SIZE as nat,
        ),
{
    let bytes = result.as_bytes();
    let n = bytes.len();
    let ghost all = bytes@;
    let mut out: Vec<String> = Vec::new();
    let mut from: usize = 0;
    assert(out@.map_values(|s: String| s@) + pieces_from(all, 0, WS_CHUNK_SIZE as nat)
        =~= pieces_from(all, 0, WS_CHUNK_SIZE as nat));
    while from < n
        invariant
            from <= n == bytes@.len(),
            all == bytes@,
            out@.map_values(|s: String| s@) + pieces_from(all, from as int, WS_CHUNK_SIZE as nat)
                == pieces_from(all, 0, WS_CHUNK_SIZE as nat),
        decreases n - from,
    {
        let end: usize = if WS_CHUNK_SIZE < n - from {
            from + WS_CHUNK_SIZE
        } else {
            n
        };
        let piece = slice_bytes(bytes, from, end);
        let text = match text_of_utf8(piece.as_slice()) {
            Some(t) => t,
            None => String::new(),
        };
        let ghost before = out@;
        out.push(text);
        proof {
            assert(out@.map_values(|s: String| s@) =~= before.map_values(|s: String| s@).push(
                text@,
            ));
            assert(out@.map_values(|s: String| s@) + pieces_from(
                all,
                end as int,
                WS_CHUNK_SIZE as nat,
            ) =~= pieces_from(all, 0, WS_CHUNK_SIZE as nat));
        }
        from = end;
    }
    assert(out@.map_values(|s: String| s@) =~= pieces_from(all, 0, WS_CHUNK_SIZE as nat));
    out
}

impl WsResponse {
    /// The event that answers a request that could not be read.
    pub fn invalid(reason: &str) -> (r: Self)
        ensures
            r@ == (EventView {
                id: "unknown"@,
                event: "error"@,
                data: Some("Invalid request: "@ + reason@),
            }),
    {
        let mut out = chars_of("Invalid request: ");
        push_str(&mut out, reason);
        WsResponse {
            id: String::from_str("unknown"),
            event: String::from_str("error"),
            data: Some(string_of(&out)),
        }
    }
}

/// Makes the events that answer a request, in the order in which they are
/// sent.
pub fn ws_events(id: &str, outcome: Outcome) -> (r: Vec<WsResponse>)
    ensures
        event_views(r@) == events_for(id@, outcome),
{
    let mut out: Vec<WsResponse> = Vec::new();
    match outcome {
        Outcome::Done(s) => {
            let chunks = ws_chunks(s.as_str());
            let ghost texts = chunks@.map_values(|c: String| c@);
            let mut i: usize = 0;
            assert(event_views(out@) =~= chunk_events(id@, texts.take(0)));
            while i < chunks.len()
                invariant
                    i <= chunks.len(),
                    texts == chunks@.map_values(|c: String| c@),
                    event_views(out@) == chunk_events(id@, texts.take(i as int)),
                decreases chunks.len() - i,
            {
                let ghost before = out@;
                let e = WsResponse {
                    id: String::from_str(id),
                    event: String::from_str("chunk"),
                    data: Some(chunks[i].clone()),
                };
                out.push(e);
                proof {
                    assert(event_views(out@) =~= event_views(before).push(e@));
                    assert(texts.take(i + 1) =~= texts.take(i as int).push(chunks@[i as int]@));
                    assert(event_views(out@) =~= chunk_events(id@, texts.take(i + 1)));
                }
                i += 1;
            }
            assert(texts.take(chunks@.len() as int) =~= texts);
            let ghost before = out@;
            let done = WsResponse {
                id: String::from_str(id),
                event: String::from_str("complete"),
                data: None,
            };
            out.push(done);
            assert(event_views(out@) =~= event_views(before).push(done@));
        },
        other => {
            let e = WsResponse {
                id: String::from_str(id),
                event: String::from_str("error"),
                data: Some(failure_text_exec(other)),
            };
            out.push(e);
            assert(event_views(out@) =~= seq![e@]);
        },
    }
    out
}

impl DaemonStatus {
    /// The status of a running daemon.
    pub fn running(watching: bool, data_dir: &str) -> (r: Self)
        ensures
            r.running,
            r.watching == watching,
            r.data_dir@ == data_dir@,
    {
        DaemonStatus { running: true, watching, data_dir: String::from_str(data_dir) }
    }
}

/// The address of the line protocol over TCP on this machine.
pub open spec fn local_address(port: u16) -> Seq<char> {
    "127.0.0.1:"@ + decimal(port as nat)
}

/// Makes the address of a port on this machine.
pub fn local_addr(port: u16) -> (r: String)
    ensures
        r@ == local_address(port),
{
    let mut out = chars_of("127.0.0.1:");
    push_decimal(&mut out, port as u64);
    string_of(&out)
}

impl DaemonClient {
    /// A client that talks to the daemon's socket in the data directory.
    pub fn unix(data_dir: &str) -> (r: Self)
        ensures
            text_of(r.socket_path) == Some(joined(data_dir@, "sovereign.sock"@)),
            r.tcp_addr is None,
    {
        DaemonClient { socket_path: Some(join_path(data_dir, "sovereign.sock")), tcp_addr: None }
    }

    /// A client that talks to the daemon over TCP, on the default port
    /// where none is given.
    pub fn tcp(port: Option<u16>) -> (r: Self)
        ensures
            r.socket_path is None,
            text_of(r.tcp_addr) == Some(
                local_address(
                    match port {
                        Some(p) => p,
                        None => DEFAULT_PORT,
                    },
                ),
            ),
    {
        let p = match port {
            Some(p) => p,
            None => DEFAULT_PORT,
        };
        DaemonClient { socket_path: None, tcp_addr: Some(local_addr(p)) }
    }
}

} // verus!
