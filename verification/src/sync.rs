//! The peer-to-peer sync protocol: commands, framed blobs, and what a
//! server and a client do at each point of an exchange.

use crate::number::{decimal, push_decimal};
use crate::paths::{join_path, joined};
use crate::text::{push_str, string_of};
use vstd::prelude::*;

verus! {

/// The sync service of one data directory.
pub struct P2PSync {
    pub data_dir: String,
    pub port: u16,
}

/// What an exchange with a peer moved.
#[derive(Debug, Clone)]
pub struct SyncResult {
    pub bytes_sent: usize,
    pub bytes_received: usize,
    pub status: String,
}

/// Where peers reach this service.
#[derive(Debug, Clone)]
pub struct ConnectionInfo {
    pub hostname: String,
    pub port: u16,
    pub has_data: bool,
}

/// A command of the protocol.
#[derive(Debug, Clone, Copy, PartialEq, Eq, Structural)]
pub enum SyncCommand {
    Push,
    Pull,
    Sync,
}

/// Why an exchange ended early.
#[derive(Debug, Clone, Copy, PartialEq, Eq, Structural)]
pub enum SyncError {
    /// Fewer bytes came than were asked for.
    ShortRead,
    /// The four bytes of the command are none of the known ones.
    UnknownCommand,
    /// The length of a blob does not fit the machine.
    LengthOverflow,
    /// The local document could not be read or written.
    Storage,
    /// The peer did not acknowledge a push.
    PushRefused,
}

/// The four ASCII bytes of a command: `PUSH`, `PULL`, `SYNC`.
pub open spec fn command_bytes(c: SyncCommand) -> Seq<u8> {
    match c {
        SyncCommand::Push => seq![0x50u8, 0x55u8, 0x53u8, 0x48u8],
        SyncCommand::Pull => seq![0x50u8, 0x55u8, 0x4cu8, 0x4cu8],
        SyncCommand::Sync => seq![0x53u8, 0x59u8, 0x4eu8, 0x43u8],
    }
}

/// The command that four bytes stand for.
pub open spec fn command_of(bytes: Seq<u8>) -> Option<SyncCommand> {
    if bytes == command_bytes(SyncCommand::Push) {
        Some(SyncCommand::Push)
    } else if bytes == command_bytes(SyncCommand::Pull) {
        Some(SyncCommand::Pull)
    } else if bytes == command_bytes(SyncCommand::Sync) {
        Some(SyncCommand::Sync)
    } else {
        None
    }
}

/// The acknowledgement of a push: `OK` and two spaces.
pub open spec fn ack_bytes() -> Seq<u8> {
    seq![0x4fu8, 0x4bu8, 0x20u8, 0x20u8]
}

/// 256 to the power `e`.
pub open spec fn pow256(e: nat) -> nat
    decreases e,
{
    if e == 0 {
        1
    } else {
        256 * pow256((e - 1) as nat)
    }
}

/// The last `count` big-endian bytes of `n`.
pub open spec fn be_bytes(n: nat, count: nat) -> Seq<u8>
    decreases count,
{
    if count == 0 {
        seq![]
    } else {
        be_bytes(n / 256, (count - 1) as nat).push((n % 256) as u8)
    }
}

/// The eight big-endian bytes of a length.
pub open spec fn length_bytes(n: nat) -> Seq<u8> {
    be_bytes(n, 8)
}

/// The number that big-endian bytes denote.
pub open spec fn be_value(bytes: Seq<u8>) -> nat
    decreases bytes.len(),
{
    if bytes.len() == 0 {
        0
    } else {
        be_value(bytes.drop_last()) * 256 + bytes.last() as nat
    }
}

/// A blob on the wire: its length in eight big-endian bytes, then its bytes.
pub open spec fn framed(data: Seq<u8>) -> Seq<u8> {
    length_bytes(data.len()) + data
}

proof fn lemma_pow256()
    ensures
        pow256(0) == 1,
        pow256(1) == 0x100,
        pow256(2) == 0x1_0000,
        pow256(3) == 0x100_0000,
        pow256(4) == 0x1_0000_0000,
        pow256(5) == 0x100_0000_0000,
        pow256(6) == 0x1_0000_0000_0000,
        pow256(7) == 0x100_0000_0000_0000,
{
    reveal_with_fuel(pow256, 9);
}

/// A number below 256 to the power `count` is read back from its bytes.
pub proof fn lemma_be_round_trip(n: nat, count: nat)
    requires
        n < pow256(count),
    ensures
        be_bytes(n, count).len() == count,
        be_value(be_bytes(n, count)) == n,
    decreases count,
{
    if count > 0 {
        lemma_be_round_trip(n / 256, (count - 1) as nat);
        let b = be_bytes(n, count);
        assert(b.drop_last() =~= be_bytes(n / 256, (count - 1) as nat));
    }
}

/// Bytes denote a number below 256 to the power of their count.
pub proof fn lemma_be_value_bound(bytes: Seq<u8>)
    ensures
        be_value(bytes) < pow256(bytes.len()),
    decreases bytes.len(),
{
    if bytes.len() > 0 {
        lemma_be_value_bound(bytes.drop_last());
    }
}

/// A length is read back from its eight bytes.
pub proof fn lemma_length_round_trip(n: nat)
    requires
        n <= u64::MAX,
    ensures
        length_bytes(n).len() == 8,
        be_value(length_bytes(n)) == n,
{
    lemma_pow256();
    assert(pow256(8) == 256 * pow256(7));
    lemma_be_round_trip(n, 8);
}

impl SyncCommand {
    /// The command that the first four bytes of an exchange stand for.
    pub fn from_bytes(bytes: &[u8]) -> (r: Option<Self>)
        ensures
            r == command_of(bytes@),
    {
        if bytes.len() != 4 {
            return None;
        }
        let a = bytes[0];
        let b = bytes[1];
        let c = bytes[2];
        let d = bytes[3];
        if a == 0x50 && b == 0x55 && c == 0x53 && d == 0x48 {
            assert(bytes@ =~= command_bytes(SyncCommand::Push));
            Some(SyncCommand::Push)
        } else if a == 0x50 && b == 0x55 && c == 0x4c && d == 0x4c {
            assert(bytes@ =~= command_bytes(SyncCommand::Pull));
            Some(SyncCommand::Pull)
        } else if a == 0x53 && b == 0x59 && c == 0x4e && d == 0x43 {
            assert(bytes@ =~= command_bytes(SyncCommand::Sync));
            Some(SyncCommand::Sync)
        } else {
            None
        }
    }

    /// The four bytes that open an exchange with this command.
    pub fn to_bytes(&self) -> (r: Vec<u8>)
        ensures
            r@ == command_bytes(*self),
    {
        let r: Vec<u8> = match self {
            SyncCommand::Push => vec![0x50u8, 0x55u8, 0x53u8, 0x48u8],
            SyncCommand::Pull => vec![0x50u8, 0x55u8, 0x4cu8, 0x4cu8],
            SyncCommand::Sync => vec![0x53u8, 0x59u8, 0x4eu8, 0x43u8],
        };
        assert(r@ =~= command_bytes(*self));
        r
    }
}

/// The acknowledgement of a push.
pub fn ack() -> (r: Vec<u8>)
    ensures
        r@ == ack_bytes(),
{
    let r: Vec<u8> = vec![0x4fu8, 0x4bu8, 0x20u8, 0x20u8];
    assert(r@ =~= ack_bytes());
    r
}

/// Whether four bytes are the acknowledgement of a push.
pub fn is_ack(bytes: &[u8]) -> (r: bool)
    ensures
        r == (bytes@ == ack_bytes()),
{
    if bytes.len() != 4 {
        return false;
    }
    let r = bytes[0] == 0x4f && bytes[1] == 0x4b && bytes[2] == 0x20 && bytes[3] == 0x20;
    if r {
        assert(bytes@ =~= ack_bytes());
    }
    r
}

fn be_bytes_exec(n: u64, count: u8) -> (r: Vec<u8>)
    ensures
        r@ == be_bytes(n as nat, count as nat),
    decreases count,
{
    if count == 0 {
        Vec::new()
    } else {
        let mut r = be_bytes_exec(n / 256, count - 1);
        r.push((n % 256) as u8);
        r
    }
}

/// Writes a length as eight big-endian bytes.
pub fn encode_length(n: u64) -> (r: Vec<u8>)
    ensures
        r@ == length_bytes(n as nat),
{
    be_bytes_exec(n, 8)
}

/// Reads a length from eight big-endian bytes.
pub fn decode_length(bytes: &[u8]) -> (r: u64)
    requires
        bytes@.len() == 8,
    ensures
        r == be_value(bytes@),
{
    let mut v: u64 = 0;
    let mut i: usize = 0;
    assert(bytes@.take(0) =~= Seq::<u8>::empty());
    while i < 8
        invariant
            i <= 8 == bytes@.len(),
            v == be_value(bytes@.take(i as int)),
        decreases 8 - i,
    {
        proof {
            lemma_pow256();
            lemma_be_value_bound(bytes@.take(i as int));
            assert(bytes@.take(i + 1).drop_last() =~= bytes@.take(i as int));
            assert(bytes@.take(i + 1).last() == bytes@[i as int]);
        }
        v = v * 256 + bytes[i] as u64;
        i += 1;
    }
    assert(bytes@.take(8) =~= bytes@);
    v
}

/// Puts a blob on the wire: its length, then its bytes.
pub fn frame_blob(data: &[u8]) -> (r: Vec<u8>)
    ensures
        r@ == framed(data@),
{
    let mut r = encode_length(data.len() as u64);
    let mut i: usize = 0;
    while i < data.len()
        invariant
            i <= data.len(),
            r@ == length_bytes(data@.len()) + data@.take(i as int),
        decreases data.len() - i,
    {
        r.push(data[i]);
        assert(data@.take(i + 1) =~= data@.take(i as int).push(data@[i as int]));
        i += 1;
    }
    assert(data@.take(data@.len() as int) =~= data@);
    r
}

/// Where a server stands in an exchange.
#[derive(Debug, Clone, Copy, PartialEq, Eq, Structural)]
pub enum ServerState {
    /// Waiting for the four bytes of the command.
    AwaitCommand,
    /// Waiting for the eight bytes of a blob's length.
    AwaitLength(SyncCommand),
    /// Waiting for the bytes of a blob of the given length.
    AwaitBlob(SyncCommand, usize),
    /// Waiting for the pushed blob to be stored beside the document.
    AwaitStore,
    /// Waiting for the local document.
    AwaitLocal,
    /// The exchange is over.
    Closed,
}

/// What happened since the server's last action.
pub enum ServerEvent {
    /// The bytes asked for, or fewer where the peer sent no more.
    Received(Vec<u8>),
    /// The pushed blob is stored.
    Stored,
    /// The bytes of the local document; none where there is no document.
    Loaded(Vec<u8>),
    /// Reading or writing the local files failed.
    StorageFailed,
}

/// What the server does next.
pub enum ServerAction {
    /// Read exactly this many bytes from the peer.
    Receive(usize),
    /// Store these bytes beside the document, never over it.
    StoreIncoming(Vec<u8>),
    /// Read the local document.
    LoadLocal,
    /// Send these bytes; the exchange is then over.
    Reply(Vec<u8>),
    /// End the exchange with an error.
    Fail(SyncError),
}

/// An event as plain values.
pub enum EventView {
    Received(Seq<u8>),
    Stored,
    Loaded(Seq<u8>),
    StorageFailed,
}

/// An action as plain values.
pub enum ActionView {
    Receive(nat),
    StoreIncoming(Seq<u8>),
    LoadLocal,
    Reply(Seq<u8>),
    Fail(SyncError),
}

impl View for ServerEvent {
    type V = EventView;

    open spec fn view(&self) -> EventView {
        match self {
            ServerEvent::Received(b) => EventView::Received(b@),
            ServerEvent::Stored => EventView::Stored,
            ServerEvent::Loaded(b) => EventView::Loaded(b@),
            ServerEvent::StorageFailed => EventView::StorageFailed,
        }
    }
}

impl View for ServerAction {
    type V = ActionView;

    open spec fn view(&self) -> ActionView {
        match self {
            ServerAction::Receive(n) => ActionView::Receive(*n as nat),
            ServerAction::StoreIncoming(b) => ActionView::StoreIncoming(b@),
            ServerAction::LoadLocal => ActionView::LoadLocal,
            ServerAction::Reply(b) => ActionView::Reply(b@),
            ServerAction::Fail(e) => ActionView::Fail(*e),
        }
    }
}

/// What a server does on an event, and where it then stands.
///
/// A server first receives the command. For `PUSH` it receives a blob,
/// stores it beside the document and acknowledges. For `PULL` it sends the
/// local document as a blob. For `SYNC` it receives a blob and then sends
/// the local document as a blob. Anything else ends the exchange: fewer
/// bytes than asked for, an unknown command, a length that does not fit the
/// machine, a failure of the local files, or an event that is not awaited.
pub open spec fn server_next(state: ServerState, event: EventView) -> (ServerState, ActionView) {
    match (state, event) {
        (ServerState::AwaitCommand, EventView::Received(b)) => if b.len() != 4 {
            (ServerState::Closed, ActionView::Fail(SyncError::ShortRead))
        } else {
            match command_of(b) {
                Some(SyncCommand::Pull) => (ServerState::AwaitLocal, ActionView::LoadLocal),
                Some(c) => (ServerState::AwaitLength(c), ActionView::Receive(8)),
                None => (ServerState::Closed, ActionView::Fail(SyncError::UnknownCommand)),
            }
        },
        (ServerState::AwaitLength(c), EventView::Received(b)) => if b.len() != 8 {
            (ServerState::Closed, ActionView::Fail(SyncError::ShortRead))
        } else if be_value(b) > usize::MAX {
            (ServerState::Closed, ActionView::Fail(SyncError::LengthOverflow))
        } else {
            (ServerState::AwaitBlob(c, be_value(b) as usize), ActionView::Receive(be_value(b)))
        },
        (ServerState::AwaitBlob(c, n), EventView::Received(b)) => if b.len() != n {
            (ServerState::Closed, ActionView::Fail(SyncError::ShortRead))
        } else if c == SyncCommand::Push {
            (ServerState::AwaitStore, ActionView::StoreIncoming(b))
        } else {
            (ServerState::AwaitLocal, ActionView::LoadLocal)
        },
        (ServerState::AwaitStore, EventView::Stored) => (
            ServerState::Closed,
            ActionView::Reply(ack_bytes()),
        ),
        (ServerState::AwaitLocal, EventView::Loaded(b)) => (
            ServerState::Closed,
            ActionView::Reply(framed(b)),
        ),
        (_, EventView::StorageFailed) => (ServerState::Closed, ActionView::Fail(SyncError::Storage)),
        _ => (ServerState::Closed, ActionView::Fail(SyncError::ShortRead)),
    }
}

/// The action that opens an exchange on the server's side.
pub fn server_start() -> (r: (ServerState, ServerAction))
    ensures
        r.0 == ServerState::AwaitCommand,
        r.1@ == ActionView::Receive(4),
{
    (ServerState::AwaitCommand, ServerAction::Receive(4))
}

/// Decides what a server does on an event, and where it then stands.
pub fn server_step(state: ServerState, event: ServerEvent) -> (r: (ServerState, ServerAction))
    ensures
        (r.0, r.1@) == server_next(state, event@),
{
    match event {
        ServerEvent::StorageFailed => (ServerState::Closed, ServerAction::Fail(SyncError::Storage)),
        ServerEvent::Stored => match state {
            ServerState::AwaitStore => (ServerState::Closed, ServerAction::Reply(ack())),
            _ => (ServerState::Closed, ServerAction::Fail(SyncError::ShortRead)),
        },
        ServerEvent::Loaded(b) => match state {
            ServerState::AwaitLocal => (
                ServerState::Closed,
                ServerAction::Reply(frame_blob(b.as_slice())),
            ),
            _ => (ServerState::Closed, ServerAction::Fail(SyncError::ShortRead)),
        },
        ServerEvent::Received(b) => match state {
            ServerState::AwaitCommand => {
                if b.len() != 4 {
                    (ServerState::Closed, ServerAction::Fail(SyncError::ShortRead))
                } else {
                    match SyncCommand::from_bytes(b.as_slice()) {
                        Some(SyncCommand::Pull) => (ServerState::AwaitLocal, ServerAction::LoadLocal),
                        Some(c) => (ServerState::AwaitLength(c), ServerAction::Receive(8)),
                        None => (
                            ServerState::Closed,
                            ServerAction::Fail(SyncError::UnknownCommand),
                        ),
                    }
                }
            },
            ServerState::AwaitLength(c) => {
                if b.len() != 8 {
                    (ServerState::Closed, ServerAction::Fail(SyncError::ShortRead))
                } else {
                    let n = decode_length(b.as_slice());
                    if n > usize::MAX as u64 {
                        (ServerState::Closed, ServerAction::Fail(SyncError::LengthOverflow))
                    } else {
                        (ServerState::AwaitBlob(c, n as usize), ServerAction::Receive(n as usize))
                    }
                }
            },
            ServerState::AwaitBlob(c, n) => {
                if b.len() != n {
                    (ServerState::Closed, ServerAction::Fail(SyncError::ShortRead))
                } else if c == SyncCommand::Push {
                    (ServerState::AwaitStore, ServerAction::StoreIncoming(b))
                } else {
                    (ServerState::AwaitLocal, ServerAction::LoadLocal)
                }
            },
            _ => (ServerState::Closed, ServerAction::Fail(SyncError::ShortRead)),
        },
    }
}

/// A server stores only a whole pushed blob: the bytes it stores are the
/// bytes it received, as many as the peer announced.
pub proof fn lemma_store_only_whole_push(state: ServerState, event: EventView)
    ensures
        server_next(state, event).1 is StoreIncoming ==> exists|n: usize|
            state == ServerState::AwaitBlob(SyncCommand::Push, n) && event == EventView::Received(
                server_next(state, event).1->StoreIncoming_0,
            ) && server_next(state, event).1->StoreIncoming_0.len() == n,
{
    if server_next(state, event).1 is StoreIncoming {
        match (state, event) {
            (ServerState::AwaitBlob(c, n), EventView::Received(b)) => {
                assert(state == ServerState::AwaitBlob(SyncCommand::Push, n));
            },
            _ => {},
        }
    }
}

/// What a client sends to push its document: the command, then the blob.
pub open spec fn push_message(local: Seq<u8>) -> Seq<u8> {
    command_bytes(SyncCommand::Push) + framed(local)
}

/// What a client sends to sync: the command, then its document as a blob.
pub open spec fn sync_message(local: Seq<u8>) -> Seq<u8> {
    command_bytes(SyncCommand::Sync) + framed(local)
}

fn message(command: SyncCommand, local: &[u8]) -> (r: Vec<u8>)
    ensures
        r@ == command_bytes(command) + framed(local@),
{
    let mut r = command.to_bytes();
    let mut blob = frame_blob(local);
    r.append(&mut blob);
    r
}

impl P2PSync {
    pub fn new(data_dir: String, port: u16) -> (r: Self)
        ensures
            r.data_dir == data_dir,
            r.port == port,
    {
        P2PSync { data_dir, port }
    }

    /// The path of the local document.
    pub fn sync_file(&self) -> (r: String)
        ensures
            r@ == joined(self.data_dir@, "memories.automerge"@),
    {
        join_path(self.data_dir.as_str(), "memories.automerge")
    }

    /// The path beside the local document where a pushed document is
    /// stored, so that it never overwrites the local one.
    pub fn incoming_file(&self) -> (r: String)
        ensures
            r@ == joined(self.data_dir@, "memories.automerge.incoming"@),
    {
        join_path(self.data_dir.as_str(), "memories.automerge.incoming")
    }

    /// The bytes that push a document to a peer.
    pub fn push_request(&self, local: &[u8]) -> (r: Vec<u8>)
        ensures
            r@ == push_message(local@),
    {
        message(SyncCommand::Push, local)
    }

    /// The result of a push of `sent` bytes, from the four bytes that the
    /// peer answered: success exactly where they acknowledge.
    pub fn push_result(&self, sent: usize, response: &[u8]) -> (r: Result<SyncResult, SyncError>)
        ensures
            r is Ok <==> response@ == ack_bytes(),
            r is Ok ==> r->Ok_0.bytes_sent == sent && r->Ok_0.bytes_received == 0
                && r->Ok_0.status@ == "Pushed successfully"@,
            r is Err ==> r->Err_0 == SyncError::PushRefused,
    {
        if is_ack(response) {
            Ok(
                SyncResult {
                    bytes_sent: sent,
                    bytes_received: 0,
                    status: String::from_str("Pushed successfully"),
                },
            )
        } else {
            Err(SyncError::PushRefused)
        }
    }

    /// The bytes that ask a peer for its document.
    pub fn pull_request(&self) -> (r: Vec<u8>)
        ensures
            r@ == command_bytes(SyncCommand::Pull),
    {
        SyncCommand::Pull.to_bytes()
    }

    /// The result of a pull that brought `received` bytes.
    pub fn pull_result(&self, received: usize) -> (r: SyncResult)
        ensures
            r.bytes_sent == 4,
            r.bytes_received == received,
            r.status@ == "Pulled successfully"@,
    {
        SyncResult {
            bytes_sent: 4,
            bytes_received: received,
            status: String::from_str("Pulled successfully"),
        }
    }

    /// The bytes that open a sync with a peer.
    pub fn sync_request(&self, local: &[u8]) -> (r: Vec<u8>)
        ensures
            r@ == sync_message(local@),
    {
        message(SyncCommand::Sync, local)
    }

    /// The result of a sync that sent `sent` bytes and brought `received`.
    pub fn sync_result(&self, sent: usize, received: usize) -> (r: SyncResult)
        ensures
            r.bytes_sent == sent,
            r.bytes_received == received,
            r.status@ == "Synced successfully"@,
    {
        SyncResult {
            bytes_sent: sent,
            bytes_received: received,
            status: String::from_str("Synced successfully"),
        }
    }

    /// Where peers reach this service: the name of this host, `localhost`
    /// where it has none, the port, and whether there is a local document.
    pub fn connection_info(&self, has_data: bool) -> (r: ConnectionInfo)
        ensures
            r.port == self.port,
            r.has_data == has_data,
    {
        let hostname = host_or_local(system_hostname());
        ConnectionInfo { hostname, port: self.port, has_data }
    }
}

/// `hostname::get`: the name of this host, as text; `None` where the system
/// gives none. Nothing is claimed of the name.
#[verifier::external_body]
fn system_hostname() -> (r: Option<String>) {
    match hostname::get() {
        Ok(h) => Some(h.to_string_lossy().into_owned()),
        Err(_) => None,
    }
}

/// The name under which a host is announced: its own, or `localhost`.
pub fn host_or_local(name: Option<String>) -> (r: String)
    ensures
        r@ == match name {
            Some(n) => n@,
            None => "localhost"@,
        },
{
    match name {
        Some(n) => n,
        None => String::from_str("localhost"),
    }
}

impl SyncResult {
    /// The line that reports a result.
    pub open spec fn text(self) -> Seq<char> {
        "Sent: "@ + decimal(self.bytes_sent as nat) + " bytes, Received: "@ + decimal(
            self.bytes_received as nat,
        ) + " bytes - "@ + self.status@
    }

    pub fn to_string(&self) -> (r: String)
        ensures
            r@ == self.text(),
    {
        let mut out: Vec<char> = Vec::new();
        push_str(&mut out, "Sent: ");
        push_decimal(&mut out, self.bytes_sent as u64);
        push_str(&mut out, " bytes, Received: ");
        push_decimal(&mut out, self.bytes_received as u64);
        push_str(&mut out, " bytes - ");
        push_str(&mut out, self.status.as_str());
        assert(out@ =~= self.text());
        string_of(&out)
    }
}

impl ConnectionInfo {
    /// The two lines that report where peers reach this service.
    pub open spec fn text(self) -> Seq<char> {
        "Host: "@ + self.hostname@ + seq![':'] + decimal(self.port as nat) + "\nHas sync data: "@
            + (if self.has_data {
            "yes"@
        } else {
            "no"@
        }) + seq!['\n']
    }

    pub fn to_string(&self) -> (r: String)
        ensures
            r@ == self.text(),
    {
        let mut out: Vec<char> = Vec::new();
        push_str(&mut out, "Host: ");
        push_str(&mut out, self.hostname.as_str());
        out.push(':');
        push_decimal(&mut out, self.port as u64);
        push_str(&mut out, "\nHas sync data: ");
        if self.has_data {
            push_str(&mut out, "yes");
        } else {
            push_str(&mut out, "no");
        }
        out.push('\n');
        assert(out@ =~= self.text());
        string_of(&out)
    }
}

} // verus!
