//! The agent's side of a viewer connection: the handshake, the per-viewer
//! service filter and the batching of entries; and the reaction of a
//! container watcher to what its log stream delivers.

use vstd::prelude::*;
use subtle::ConstantTimeEq;
use crate::common::{LogEntry, NetworkPacket};
use crate::parsers::LogParser;

verus! {

/// Entries are sent to a viewer in batches of this many, or earlier on
/// the flush timer.
pub const BATCH_SIZE: usize = 10;

/// Calls `subtle`'s `ConstantTimeEq::ct_eq` on two byte slices and turns
/// the `Choice` into a `bool`. Trusted: the result is true exactly when the
/// slices have the same length and the same bytes.
#[verifier::external_body]
fn ct_eq_bytes(a: &[u8], b: &[u8]) -> (r: bool)
    ensures
        r == (a@ == b@),
{
    a.ct_eq(b).into()
}

/// Whether the token a viewer sent is the shared secret (compared in
/// constant time).
pub fn secret_matches(token: &str, secret: &str) -> (r: bool)
    ensures
        r == (token@ == secret@),
{
    let r = ct_eq_bytes(token.as_bytes(), secret.as_bytes());
    proof {
        vstd::utf8::encode_utf8_decode_utf8(token@);
        vstd::utf8::encode_utf8_decode_utf8(secret@);
    }
    r
}

/// The agent's answer to the first message of a viewer.
/// `received`: `None` when nothing arrived in time, `Some(None)` when the
/// bytes were no packet, `Some(Some(p))` for packet `p`.
/// Result: `None` to close without answering; `Some(a)` to answer with
/// `HandshakeAck { accepted: a }` (and to close unless `a`).
pub open spec fn handshake_reply_of(received: Option<Option<NetworkPacket>>, secret: Seq<char>) -> Option<bool> {
    match received {
        None => None,
        Some(Some(NetworkPacket::Handshake { secret_token })) => Some(secret_token@ == secret),
        Some(_) => Some(false),
    }
}

/// Judges the first message of a viewer against the shared secret.
pub fn handshake_reply(received: Option<Option<NetworkPacket>>, secret: &str) -> (r: Option<bool>)
    ensures
        r == handshake_reply_of(received, secret@),
{
    match received {
        None => None,
        Some(Some(NetworkPacket::Handshake { secret_token })) => Some(
            secret_matches(secret_token.as_str(), secret),
        ),
        Some(_) => Some(false),
    }
}

/// The first packet sent to a newly accepted viewer: the entries the agent
/// kept, if there are any.
pub fn history_packet(history: Vec<LogEntry>) -> (p: Option<NetworkPacket>)
    ensures
        history@.len() == 0 ==> p is None,
        history@.len() > 0 ==> (p matches Some(NetworkPacket::Batch(b)) && b@ == history@),
{
    if history.len() == 0 {
        None
    } else {
        Some(NetworkPacket::Batch(history))
    }
}

/// The code of a character after ASCII lower-casing: `A` to `Z` become
/// `a` to `z`, every other character is unchanged.
pub open spec fn ascii_lower_code(c: char) -> int {
    if 65 <= (c as u32) <= 90 {
        c as u32 + 32
    } else {
        c as u32 as int
    }
}

/// Equality up to ASCII case (what `str::eq_ignore_ascii_case` tests):
/// the same length, and the same characters once ASCII letters are
/// lower-cased.
pub open spec fn eq_ignore_ascii_case(a: Seq<char>, b: Seq<char>) -> bool {
    &&& a.len() == b.len()
    &&& forall|i: int| 0 <= i < a.len() ==> ascii_lower_code(#[trigger] a[i]) == ascii_lower_code(b[i])
}

fn ascii_lower_code_of(c: char) -> (r: u32)
    ensures
        r == ascii_lower_code(c),
{
    let u = c as u32;
    if 65 <= u && u <= 90 {
        u + 32
    } else {
        u
    }
}

/// Whether two strings are equal up to ASCII case.
pub fn same_ignoring_ascii_case(a: &str, b: &str) -> (r: bool)
    ensures
        r == eq_ignore_ascii_case(a@, b@),
{
    let n = a.unicode_len();
    if n != b.unicode_len() {
        return false;
    }
    let mut i: usize = 0;
    while i < n
        invariant
            n == a@.len(),
            n == b@.len(),
            i <= n,
            forall|k: int| 0 <= k < i ==> ascii_lower_code(#[trigger] a@[k]) == ascii_lower_code(b@[k]),
        decreases n - i,
    {
        if ascii_lower_code_of(a.get_char(i)) != ascii_lower_code_of(b.get_char(i)) {
            return false;
        }
        i = i + 1;
    }
    true
}

/// Whether an entry is for a viewer with service filter `filter`.
pub open spec fn passes(e: LogEntry, filter: Option<Seq<char>>) -> bool {
    match filter {
        None => true,
        Some(f) => eq_ignore_ascii_case(e.service@, f),
    }
}

/// The state of one viewer's session, as a mathematical value.
pub struct SessionModel {
    pub filter: Option<Seq<char>>,
    pub pending: Seq<LogEntry>,
}

impl SessionModel {
    /// Invariant: fewer than a full batch waits.
    pub open spec fn wf(self) -> bool {
        self.pending.len() < BATCH_SIZE
    }

    /// A new entry: dropped when it does not pass the filter; else queued,
    /// and a full batch is handed out (the second component).
    pub open spec fn on_log(self, e: LogEntry) -> (SessionModel, Option<Seq<LogEntry>>) {
        if !passes(e, self.filter) {
            (self, None)
        } else {
            let p = self.pending.push(e);
            if p.len() >= BATCH_SIZE {
                (SessionModel { pending: Seq::empty(), ..self }, Some(p))
            } else {
                (SessionModel { pending: p, ..self }, None)
            }
        }
    }

    /// A packet from the viewer (`None`: bytes that were no packet). A
    /// filter update sets the filter and drops the queued entries.
    pub open spec fn on_packet(self, packet: Option<NetworkPacket>) -> SessionModel {
        match packet {
            Some(NetworkPacket::UpdateFilter { service }) => SessionModel {
                filter: match service {
                    Some(s) => Some(s@),
                    None => None,
                },
                pending: Seq::empty(),
            },
            _ => self,
        }
    }

    /// The flush timer: hand out the queued entries, if any.
    pub open spec fn on_tick(self) -> (SessionModel, Option<Seq<LogEntry>>) {
        if self.pending.len() > 0 {
            (SessionModel { pending: Seq::empty(), ..self }, Some(self.pending))
        } else {
            (self, None)
        }
    }
}

/// What happens on a viewer's connection after the handshake.
pub enum ClientEvent {
    /// An entry broadcast by the watchers.
    Log(LogEntry),
    /// The broadcast channel reported an error (entries were missed).
    BroadcastError,
    /// Bytes from the viewer (`None`: they were no packet).
    Packet(Option<NetworkPacket>),
    /// The viewer's stream could not be framed.
    FramingError,
    /// The viewer closed its stream.
    StreamClosed,
    /// The agent is shutting down.
    Cancelled,
    /// The flush timer fired.
    Tick,
    /// Sending to the viewer failed.
    SendFailed,
}

/// What the connection does next.
pub enum ClientStep {
    /// Send these entries as one batch.
    Send(Vec<LogEntry>),
    /// Nothing to send; keep serving.
    Continue,
    /// Close the connection.
    Stop,
}

/// The effect of an event on a session: the next session, the entries to
/// send (if any), and whether to close the connection.
pub open spec fn session_after_event(m: SessionModel, event: ClientEvent) -> (SessionModel, Option<Seq<LogEntry>>, bool) {
    match event {
        ClientEvent::Log(e) => (m.on_log(e).0, m.on_log(e).1, false),
        ClientEvent::BroadcastError => (m, None, false),
        ClientEvent::Packet(p) => (m.on_packet(p), None, false),
        ClientEvent::Tick => (m.on_tick().0, m.on_tick().1, false),
        ClientEvent::FramingError | ClientEvent::StreamClosed | ClientEvent::Cancelled
        | ClientEvent::SendFailed => (m, None, true),
    }
}

/// One viewer's session on the agent: its service filter and the entries
/// waiting to be sent.
pub struct ClientSession {
    pub filter: Option<String>,
    pub batch: Vec<LogEntry>,
}

impl ClientSession {
    /// The session as a mathematical value.
    pub open spec fn model(self) -> SessionModel {
        SessionModel {
            filter: match self.filter {
                Some(s) => Some(s@),
                None => None,
            },
            pending: self.batch@,
        }
    }

    /// The invariant of a session.
    pub open spec fn wf(self) -> bool {
        self.model().wf()
    }

    /// A new session: no filter, nothing queued.
    pub fn new() -> (s: ClientSession)
        ensures
            s.wf(),
            s.model() == (SessionModel { filter: None, pending: Seq::empty() }),
    {
        ClientSession { filter: None, batch: Vec::new() }
    }

    /// Takes the queued entries out of the session.
    fn take_batch(&mut self) -> (out: Vec<LogEntry>)
        ensures
            out@ == old(self).batch@,
            final(self).batch@ == Seq::<LogEntry>::empty(),
            final(self).filter == old(self).filter,
    {
        let mut out = Vec::new();
        std::mem::swap(&mut out, &mut self.batch);
        out
    }

    /// Handles an entry from the watchers; returns a full batch to send.
    pub fn on_log(&mut self, entry: LogEntry) -> (out: Option<Vec<LogEntry>>)
        requires
            old(self).wf(),
        ensures
            final(self).wf(),
            final(self).model() == old(self).model().on_log(entry).0,
            match out {
                None => old(self).model().on_log(entry).1 is None,
                Some(b) => old(self).model().on_log(entry).1 == Some(b@),
            },
    {
        if let Some(svc) = &self.filter {
            if !same_ignoring_ascii_case(entry.service.as_str(), svc.as_str()) {
                return None;
            }
        }
        self.batch.push(entry);
        if self.batch.len() >= BATCH_SIZE {
            Some(self.take_batch())
        } else {
            None
        }
    }

    /// Handles a packet from the viewer (`None`: bytes that were no packet).
    pub fn on_packet(&mut self, packet: Option<NetworkPacket>)
        requires
            old(self).wf(),
        ensures
            final(self).wf(),
            final(self).model() == old(self).model().on_packet(packet),
    {
        if let Some(NetworkPacket::UpdateFilter { service }) = packet {
            self.filter = service;
            self.batch.clear();
        }
    }

    /// Handles the flush timer; returns the queued entries to send, if any.
    pub fn on_tick(&mut self) -> (out: Option<Vec<LogEntry>>)
        requires
            old(self).wf(),
        ensures
            final(self).wf(),
            final(self).model() == old(self).model().on_tick().0,
            match out {
                None => old(self).model().on_tick().1 is None,
                Some(b) => old(self).model().on_tick().1 == Some(b@),
            },
    {
        if self.batch.len() > 0 {
            Some(self.take_batch())
        } else {
            None
        }
    }
}

impl ClientSession {
    /// Handles one event of the connection: entries, filter updates and
    /// timer ticks go to the session; a missed broadcast is ignored; a
    /// framing error, a closed stream, shutdown or a failed send close it.
    pub fn on_event(&mut self, event: ClientEvent) -> (step: ClientStep)
        requires
            old(self).wf(),
        ensures
            final(self).wf(),
            final(self).model() == session_after_event(old(self).model(), event).0,
            match step {
                ClientStep::Send(b) => session_after_event(old(self).model(), event).1 == Some(b@)
                    && !session_after_event(old(self).model(), event).2,
                ClientStep::Continue => session_after_event(old(self).model(), event).1 is None
                    && !session_after_event(old(self).model(), event).2,
                ClientStep::Stop => session_after_event(old(self).model(), event).1 is None
                    && session_after_event(old(self).model(), event).2,
            },
    {
        match event {
            ClientEvent::Log(entry) => match self.on_log(entry) {
                Some(b) => ClientStep::Send(b),
                None => ClientStep::Continue,
            },
            ClientEvent::BroadcastError => ClientStep::Continue,
            ClientEvent::Packet(p) => {
                self.on_packet(p);
                ClientStep::Continue
            },
            ClientEvent::Tick => match self.on_tick() {
                Some(b) => ClientStep::Send(b),
                None => ClientStep::Continue,
            },
            ClientEvent::FramingError | ClientEvent::StreamClosed | ClientEvent::Cancelled
            | ClientEvent::SendFailed => ClientStep::Stop,
        }
    }
}

/// What a container watcher's log stream delivered.
pub enum WatchEvent {
    /// A log line.
    Line(String),
    /// An error of the stream (logged, then watching goes on).
    StreamError,
    /// The stream ended.
    StreamEnded,
    /// The agent is shutting down.
    Cancelled,
}

/// What a container watcher does next.
pub enum WatchStep {
    /// Store this entry and broadcast it to the viewers.
    Forward(LogEntry),
    /// Nothing to do; keep reading.
    Skip,
    /// Wait, then open the log stream again.
    Reconnect,
    /// Stop watching.
    Stop,
}

/// The step for a line that the parser turned into `parsed`.
pub fn step_for_parsed(parsed: Option<LogEntry>) -> (s: WatchStep)
    ensures
        match parsed {
            Some(e) => s == WatchStep::Forward(e),
            None => s == WatchStep::Skip,
        },
{
    match parsed {
        Some(e) => WatchStep::Forward(e),
        None => WatchStep::Skip,
    }
}

/// The reaction of a watcher to one event of its log stream: a line is
/// handed to the service's parser, and the entry it gives is forwarded (no
/// entry: skip); a stream error is skipped; the end of the stream leads to
/// a reconnection; cancellation stops the watcher.
pub fn watch_step<P: LogParser>(parser: &P, event: WatchEvent) -> (s: WatchStep)
    ensures
        match event {
            WatchEvent::Line(l) => match s {
                WatchStep::Forward(e) => parser.parses_to(l@, Some(e)),
                WatchStep::Skip => parser.parses_to(l@, None),
                _ => false,
            },
            WatchEvent::StreamError => s is Skip,
            WatchEvent::StreamEnded => s is Reconnect,
            WatchEvent::Cancelled => s is Stop,
        },
{
    match event {
        WatchEvent::Line(line) => step_for_parsed(parser.parse(line.as_str())),
        WatchEvent::StreamError => WatchStep::Skip,
        WatchEvent::StreamEnded => WatchStep::Reconnect,
        WatchEvent::Cancelled => WatchStep::Stop,
    }
}

/// The entries of `es` that pass `filter`, in order.
pub open spec fn passing(es: Seq<LogEntry>, filter: Option<Seq<char>>) -> Seq<LogEntry>
    decreases es.len(),
{
    if es.len() == 0 {
        Seq::empty()
    } else {
        let rest = passing(es.drop_last(), filter);
        if passes(es.last(), filter) {
            rest.push(es.last())
        } else {
            rest
        }
    }
}

/// Feeding the entries `es` to a session one by one: the final session and
/// the concatenation of the batches handed out, in order.
pub open spec fn feed(m: SessionModel, es: Seq<LogEntry>) -> (SessionModel, Seq<LogEntry>)
    decreases es.len(),
{
    if es.len() == 0 {
        (m, Seq::empty())
    } else {
        let before = feed(m, es.drop_last());
        let after = before.0.on_log(es.last());
        (
            after.0,
            match after.1 {
                Some(b) => before.1 + b,
                None => before.1,
            },
        )
    }
}

/// A batch handed out for a new entry is full: it holds exactly
/// `BATCH_SIZE` entries.
pub proof fn law_batches_are_full(m: SessionModel, e: LogEntry)
    requires
        m.wf(),
    ensures
        m.on_log(e).0.wf(),
        m.on_log(e).1 matches Some(b) ==> b.len() == BATCH_SIZE,
{
}

/// Entries reach a viewer in order, none lost, none twice, and only those
/// that pass its filter: what is handed out while feeding entries, followed
/// by what still waits, is what waited before followed by the fed entries
/// that pass the filter.
pub proof fn law_entries_delivered_in_order(m: SessionModel, es: Seq<LogEntry>)
    requires
        m.wf(),
    ensures
        feed(m, es).0.wf(),
        feed(m, es).0.filter == m.filter,
        feed(m, es).1 + feed(m, es).0.pending == m.pending + passing(es, m.filter),
    decreases es.len(),
{
    if es.len() > 0 {
        let rest = es.drop_last();
        let e = es.last();
        law_entries_delivered_in_order(m, rest);
        let before = feed(m, rest);
        let p = before.0.pending.push(e);
        if passes(e, m.filter) {
            assert(before.1 + p =~= (before.1 + before.0.pending).push(e));
            assert((m.pending + passing(rest, m.filter)).push(e) =~= m.pending + passing(
                rest,
                m.filter,
            ).push(e));
            if p.len() >= BATCH_SIZE {
                assert(before.1 + p + Seq::<LogEntry>::empty() =~= before.1 + p);
            }
        }
    }
}

/// The flush timer hands out every non-empty queue, whole and in order,
/// and empties it; with nothing queued it hands out nothing. The filter
/// stays.
pub proof fn law_tick_flushes_pending(m: SessionModel)
    ensures
        m.pending.len() > 0 ==> m.on_tick().1 == Some(m.pending),
        m.pending.len() > 0 ==> m.on_tick().0.pending.len() == 0,
        m.pending.len() == 0 ==> m.on_tick().1 is None && m.on_tick().0 == m,
        m.on_tick().0.filter == m.filter,
        session_after_event(m, ClientEvent::Tick).1 == m.on_tick().1,
        !session_after_event(m, ClientEvent::Tick).2,
{
}

/// A new entry that does not pass the filter changes nothing; one that
/// passes is queued after the waiting ones, and when that makes a full
/// batch, the batch (waiting ones, then the entry) is handed out and the
/// queue emptied.
pub proof fn law_log_queues_or_sends(m: SessionModel, e: LogEntry)
    requires
        m.wf(),
    ensures
        !passes(e, m.filter) ==> m.on_log(e).0 == m && m.on_log(e).1 is None,
        passes(e, m.filter) && m.pending.len() + 1 < BATCH_SIZE ==> m.on_log(e).0.pending
            == m.pending.push(e) && m.on_log(e).1 is None,
        passes(e, m.filter) && m.pending.len() + 1 == BATCH_SIZE ==> m.on_log(e).1 == Some(
            m.pending.push(e),
        ) && m.on_log(e).0.pending.len() == 0,
        m.on_log(e).0.filter == m.filter,
{
}

/// A filter update sets the filter to what the viewer asked for and drops
/// the queued entries; any other packet changes nothing.
pub proof fn law_filter_update(m: SessionModel, packet: Option<NetworkPacket>)
    ensures
        packet matches Some(NetworkPacket::UpdateFilter { service: Some(s) }) ==> m.on_packet(
            packet,
        ).filter == Some(s@),
        packet matches Some(NetworkPacket::UpdateFilter { service: None }) ==> m.on_packet(
            packet,
        ).filter is None,
        packet matches Some(NetworkPacket::UpdateFilter { .. }) ==> m.on_packet(
            packet,
        ).pending.len() == 0,
        !(packet matches Some(NetworkPacket::UpdateFilter { .. })) ==> m.on_packet(packet) == m,
{
}

/// A viewer is accepted only with a handshake carrying the shared secret;
/// nothing received in time means no answer; anything else received is
/// refused.
pub proof fn law_handshake_accepts_only_the_secret(received: Option<Option<NetworkPacket>>, secret: Seq<char>)
    ensures
        handshake_reply_of(received, secret) == Some(true) ==> (received matches Some(
            Some(NetworkPacket::Handshake { secret_token }),
        ) && secret_token@ == secret),
        (received matches Some(Some(NetworkPacket::Handshake { secret_token })) && secret_token@
            == secret) ==> handshake_reply_of(received, secret) == Some(true),
        received is None <==> handshake_reply_of(received, secret) is None,
{
}

} // verus!
