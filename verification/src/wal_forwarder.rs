//! Forwarding the write-ahead log from the local server to a remote sink.
//!
//! A reader holds the replication connection. Each piece of log data it receives goes to the sink
//! as one frame; the position that the sink acknowledges goes back to the server in a status
//! update.
use crate::bytes::{be_bytes, push_be, push_bytes};
use crate::number::{
    decimal, digit_value, law_numeral_reads_back, lemma_numeral_first, parse_decimal,
    parse_int_message, read_decimal,
};
use crate::text::{
    chars_of, copy_str, cut_first, cut_last, first_of, last_of, lemma_first_of, lemma_last_of,
    rsplit_once, split_once, starts_with, text_of, trim_prefixes, without_prefixes,
};
use crate::wal_proto::lsn::Lsn;
use crate::wal_proto::replication::{
    copy_data, law_log_data_is_unwrapped, status_payload, status_update, xlog_body, WalItem, WalMsg,
};
use crate::wal_proto::wire::{IoKind, RecvError, RecvFault};
use vstd::prelude::*;

verus! {

// ---------------------------------------------------------------------------
// The address of the sink.
// ---------------------------------------------------------------------------
/// The part of `s` before the first slash, or all of it.
pub open spec fn up_to_slash(s: Seq<char>) -> Seq<char> {
    match split_once(s, '/') {
        Some((a, _)) => a,
        None => s,
    }
}

/// Host and port of a sink's URL. The scheme is dropped; the port stands behind the last colon
/// and ends with a slash or with the URL.
pub open spec fn sink_addr(url: Seq<char>) -> Result<(Seq<char>, nat), Seq<char>> {
    let rest = trim_prefixes(trim_prefixes(url, "http://"@), "https://"@);
    match rsplit_once(rest, ':') {
        None => Err("wal_sink URL missing port"@),
        Some((host, port)) => match parse_decimal(up_to_slash(port), 65535) {
            Ok(n) => Ok((host, n)),
            Err(e) => Err(parse_int_message(e)),
        },
    }
}

/// Reads host and port of a sink's URL.
pub fn parse_sink_addr(url: &str) -> (r: Result<(String, u16), String>)
    ensures
        match r {
            Ok((h, p)) => sink_addr(url@) == Ok::<(Seq<char>, nat), Seq<char>>((h@, p as nat)),
            Err(e) => sink_addr(url@) == Err::<(Seq<char>, nat), Seq<char>>(e@),
        },
{
    let cs: Vec<char> = chars_of(url);
    let rest: &[char] = without_prefixes(without_prefixes(cs.as_slice(), "http://"), "https://");
    let (host, after) = match cut_last(rest, ':') {
        Some(p) => p,
        None => return Err(copy_str("wal_sink URL missing port")),
    };
    let port: &[char] = match cut_first(after, '/') {
        Some((a, _)) => a,
        None => after,
    };
    match read_decimal(port, 65535) {
        Ok(n) => Ok((text_of(host), n as u16)),
        Err(e) => Err(copy_str(e.message())),
    }
}

/// A URL of scheme, plain host name and port is read as that host and that port.
pub proof fn law_plain_url_is_read(host: Seq<char>, port: nat)
    requires
        port <= 65535,
        forall|i: int| 0 <= i < host.len() ==> host[i] != ':' && host[i] != '/',
    ensures
        sink_addr("http://"@ + host.push(':') + decimal(port)) == Ok::<
            (Seq<char>, nat),
            Seq<char>,
        >((host, port)),
{
    let scheme = "http://"@;
    let digits = decimal(port);
    let rest = host.push(':') + digits;
    let url = "http://"@ + host.push(':') + decimal(port);
    reveal_strlit("http://");
    reveal_strlit("https://");
    lemma_numeral_first(port, 10, false);
    law_numeral_reads_back(port, 10, false, 65535);
    assert(url == scheme + rest);
    assert(url.take(7) == scheme && url.skip(7) == rest);
    assert forall|i: int| 0 <= i < digits.len() implies digits[i] != ':' && digits[i] != '/' by {
        assert(digit_value(digits[i]) < 16);
    }
    assert forall|i: int| 0 <= i < rest.len() implies rest[i] != '/' by {
        if i < host.len() {
            assert(rest[i] == host[i]);
        } else if i > host.len() {
            assert(rest[i] == digits[i - host.len() - 1]);
        }
    }
    if starts_with(rest, "http://"@) {
        assert(rest.take(7)[5] == '/');
        assert(rest[5] == '/');
    }
    if starts_with(rest, "https://"@) {
        assert(rest.take(8)[6] == '/');
        assert(rest[6] == '/');
    }
    assert(trim_prefixes(rest, "http://"@) == rest);
    assert(scheme.len() == 7 && starts_with(url, scheme));
    assert(trim_prefixes(url, "http://"@) == rest);
    assert(trim_prefixes(rest, "https://"@) == rest);
    lemma_last_of(rest, ':');
    assert(rest[host.len() as int] == ':');
    assert forall|j: int| host.len() < j < rest.len() implies rest[j] != ':' by {
        assert(rest[j] == digits[j - host.len() - 1]);
    }
    assert(last_of(rest, ':') == host.len());
    assert(rest.take(host.len() as int) == host);
    assert(rest.skip(host.len() as int + 1) == digits);
    lemma_first_of(digits, '/');
    assert(first_of(digits, '/') == digits.len());
}

// ---------------------------------------------------------------------------
// Retries.
// ---------------------------------------------------------------------------
/// The wait before the next attempt, in seconds.
#[derive(Clone, Copy, Debug, PartialEq, Eq, Structural)]
pub struct RetryDelay {
    pub secs: u64,
}

/// The wait after the first failure, in seconds.
pub open spec fn first_wait() -> int {
    1
}

/// The wait after one more failure, in seconds.
pub open spec fn longer_wait(secs: int) -> int {
    if 2 * secs < 30 {
        2 * secs
    } else {
        30
    }
}

impl RetryDelay {
    /// The wait lies between a second and half a minute.
    pub open spec fn wf(&self) -> bool {
        1 <= self.secs <= 30
    }

    /// The wait after the first failure.
    pub fn new() -> (r: RetryDelay)
        ensures
            r.secs == first_wait(),
    {
        RetryDelay { secs: 1 }
    }

    /// An attempt ended well: the next failure waits as if it were the first.
    pub fn on_success(&mut self)
        ensures
            final(self).secs == first_wait(),
    {
        self.secs = 1;
    }

    /// An attempt failed: how long to wait now. The wait doubles each time, up to the limit.
    pub fn on_failure(&mut self) -> (r: u64)
        requires
            old(self).wf(),
        ensures
            r == old(self).secs,
            final(self).wf(),
            final(self).secs == longer_wait(old(self).secs as int),
    {
        let wait: u64 = self.secs;
        self.secs = if wait * 2 < 30 {
            wait * 2
        } else {
            30
        };
        wait
    }
}

// ---------------------------------------------------------------------------
// Frames for the sink.
// ---------------------------------------------------------------------------
/// Builds the frame body for log data. The clock field is zero: the sink has its own clock.
pub fn sink_frame_body(start_lsn: Lsn, end_lsn: Lsn, data: &[u8]) -> (r: Vec<u8>)
    ensures
        r@ == xlog_body(start_lsn, end_lsn, 0, data@),
{
    let mut out: Vec<u8> = Vec::new();
    out.push(119);
    push_be(&mut out, start_lsn.0, 8);
    push_be(&mut out, end_lsn.0, 8);
    push_be(&mut out, 0, 8);
    push_bytes(&mut out, data);
    assert(out@ == xlog_body(start_lsn, end_lsn, 0, data@));
    out
}

/// What goes onto the stream for a frame body: its length, then the body.
pub open spec fn sink_message(body: Seq<u8>) -> Seq<u8> {
    be_bytes(body.len(), 4) + body
}

/// Builds what goes onto the stream for a frame body: its length, then the body.
pub fn sink_frame(body: &[u8]) -> (r: Vec<u8>)
    ensures
        r@ == sink_message(body@),
{
    let mut out: Vec<u8> = Vec::new();
    push_be(&mut out, body.len() as u64, 4);
    push_bytes(&mut out, body);
    out
}

/// The sink reads from a frame the data and the positions that the server sent.
pub proof fn law_sink_receives_what_was_sent(start: Lsn, end: Lsn, data: Seq<u8>)
    requires
        data.len() + 25 <= u32::MAX,
    ensures
        crate::bytes::be_value(
            be_bytes(xlog_body(start, end, 0, data).len(), 4),
        ) == xlog_body(start, end, 0, data).len(),
        copy_data(xlog_body(start, end, 0, data)) == Ok::<WalItem, Seq<char>>(
            WalItem::XLogData(start, end, data),
        ),
{
    law_log_data_is_unwrapped(start, end, 0, data);
    crate::bytes::lemma_be_bytes_len(start.0 as nat, 8);
    crate::bytes::lemma_be_bytes_len(end.0 as nat, 8);
    crate::bytes::lemma_be_bytes_len(0, 8);
    crate::bytes::lemma_capacities();
    crate::bytes::law_be_reads_back(xlog_body(start, end, 0, data).len(), 4);
}

// ---------------------------------------------------------------------------
// The reader.
// ---------------------------------------------------------------------------
/// The position to start streaming at, if the answer to the request for the slot gives one: zero is
/// none.
pub open spec fn slot_start(point: Option<Lsn>) -> Option<Lsn> {
    match point {
        Some(l) => if l.0 != 0 {
            Some(l)
        } else {
            None
        },
        None => None,
    }
}

/// The position to start streaming at, if the answer to the request for the slot gives one.
pub fn start_of_new_slot(point: Option<Lsn>) -> (r: Option<Lsn>)
    ensures
        r == slot_start(point),
{
    match point {
        Some(l) => {
            if l.0 != 0 {
                Some(l)
            } else {
                None
            }
        },
        None => None,
    }
}

/// How long the server may go without a status update, in nanoseconds.
pub const STATUS_INTERVAL_NS: u64 = 10_000_000_000;

/// The state of the reader.
#[derive(Clone, Copy, Debug, PartialEq, Eq, Structural)]
pub struct WalReader {
    pub write_lsn: Lsn,
    pub flush_lsn: Lsn,
    /// When the last status update went out, on a monotonic clock.
    pub last_status_ns: u64,
}

/// What the owner of the connection has to do about a message.
pub enum ReaderAction {
    /// Hand this frame to the sink, then wait for its acknowledgement.
    Forward { start_lsn: Lsn, body: Vec<u8> },
    /// Send a status update if one is due, then stop if the sink's side has gone.
    Check { status: bool },
    /// Give up.
    Fail(RecvError),
}

/// What the owner of the connection has to do, without its representation.
pub enum ReaderEffect {
    Forward(Lsn, Seq<u8>),
    Check(bool),
    Fail(RecvFault),
}

impl View for ReaderAction {
    type V = ReaderEffect;

    open spec fn view(&self) -> ReaderEffect {
        match self {
            ReaderAction::Forward { start_lsn, body } => ReaderEffect::Forward(*start_lsn, body@),
            ReaderAction::Check { status } => ReaderEffect::Check(*status),
            ReaderAction::Fail(e) => ReaderEffect::Fail(e@),
        }
    }
}

/// What was received, without its representation.
pub open spec fn received(r: Result<WalMsg, RecvError>) -> Result<WalItem, RecvFault> {
    match r {
        Ok(m) => Ok(m@),
        Err(e) => Err(e@),
    }
}

/// What a received message or a failure to receive one calls for.
pub open spec fn reader_effect(s: WalReader, r: Result<WalItem, RecvFault>, now_ns: u64) ->
    ReaderEffect {
    match r {
        Ok(WalItem::XLogData(start, end, data)) => ReaderEffect::Forward(
            start,
            xlog_body(start, end, 0, data),
        ),
        Ok(WalItem::Keepalive(_, reply_needed)) => ReaderEffect::Check(
            reply_needed || now_ns - s.last_status_ns > STATUS_INTERVAL_NS,
        ),
        Err(RecvFault::Io(IoKind::TimedOut, _)) => ReaderEffect::Check(true),
        Err(RecvFault::Io(IoKind::WouldBlock, _)) => ReaderEffect::Check(true),
        Err(f) => ReaderEffect::Fail(f),
    }
}

/// What happens to a reader.
pub enum ReaderEvent {
    /// The sink acknowledged a position.
    Acked(Lsn),
    /// A message arrived, or none did.
    Received(Result<WalItem, RecvFault>),
    /// A status update went out at this time.
    StatusSent(u64),
}

/// A reader after an event. Only an acknowledgement moves its positions.
pub open spec fn reader_step(s: WalReader, e: ReaderEvent) -> WalReader {
    match e {
        ReaderEvent::Acked(lsn) => WalReader { write_lsn: lsn, flush_lsn: lsn, ..s },
        ReaderEvent::Received(_) => s,
        ReaderEvent::StatusSent(now_ns) => WalReader { last_status_ns: now_ns, ..s },
    }
}

/// A reader that started streaming at `start`, after events.
pub open spec fn reader_after(start: Lsn, now_ns: u64, events: Seq<ReaderEvent>) -> WalReader
    decreases events.len(),
{
    if events.len() == 0 {
        WalReader { write_lsn: start, flush_lsn: start, last_status_ns: now_ns }
    } else {
        reader_step(reader_after(start, now_ns, events.drop_last()), events.last())
    }
}

/// The position that was acknowledged last, or `start` where none was.
pub open spec fn last_acked(start: Lsn, events: Seq<ReaderEvent>) -> Lsn
    decreases events.len(),
{
    if events.len() == 0 {
        start
    } else {
        match events.last() {
            ReaderEvent::Acked(lsn) => lsn,
            _ => last_acked(start, events.drop_last()),
        }
    }
}

/// What to do once a frame was handed to the sink.
#[derive(Clone, Copy, Debug, PartialEq, Eq, Structural)]
pub enum AfterForward {
    /// Send a status update.
    Report,
    /// The sink's side has gone: stop.
    Stop,
}

/// A reader after a frame was handed to the sink, and what to do.
pub open spec fn after_forward(s: WalReader, ack: Option<Lsn>) -> (WalReader, AfterForward) {
    match ack {
        Some(lsn) => (reader_step(s, ReaderEvent::Acked(lsn)), AfterForward::Report),
        None => (s, AfterForward::Stop),
    }
}

impl WalReader {
    /// A reader that starts streaming at `start`.
    pub fn new(start: Lsn, now_ns: u64) -> (r: WalReader)
        ensures
            r == reader_after(start, now_ns, seq![]),
    {
        WalReader { write_lsn: start, flush_lsn: start, last_status_ns: now_ns }
    }

    /// The sink acknowledged a position: it counts as written and flushed.
    pub fn on_ack(&mut self, lsn: Lsn)
        ensures
            *final(self) == reader_step(*old(self), ReaderEvent::Acked(lsn)),
            *final(self) == (WalReader { write_lsn: lsn, flush_lsn: lsn, ..*old(self) }),
    {
        self.flush_lsn = lsn;
        self.write_lsn = lsn;
    }

    /// A frame was handed to the sink, and this is its acknowledgement, or none where the sink's
    /// side has gone. An acknowledgement is reported to the server at once.
    pub fn on_forwarded(&mut self, ack: Option<Lsn>) -> (r: AfterForward)
        ensures
            (*final(self), r) == after_forward(*old(self), ack),
    {
        match ack {
            Some(lsn) => {
                self.on_ack(lsn);
                AfterForward::Report
            },
            None => AfterForward::Stop,
        }
    }

    /// The payload of a status update: it reports the reader's positions and no others.
    pub fn status(&self, now_us: u64) -> (r: Vec<u8>)
        ensures
            r@ == status_payload(self.write_lsn, self.flush_lsn, now_us),
            r@.len() == 34,
    {
        status_update(self.write_lsn, self.flush_lsn, now_us)
    }

    /// A status update went out.
    pub fn on_status_sent(&mut self, now_ns: u64)
        ensures
            *final(self) == reader_step(*old(self), ReaderEvent::StatusSent(now_ns)),
            *final(self) == (WalReader { last_status_ns: now_ns, ..*old(self) }),
    {
        self.last_status_ns = now_ns;
    }

    /// Says what a received message, or a failure to receive one, calls for.
    pub fn on_received(&self, r: Result<WalMsg, RecvError>, now_ns: u64) -> (action: ReaderAction)
        ensures
            action@ == reader_effect(*self, received(r), now_ns),
    {
        match r {
            Ok(WalMsg::XLogData { start_lsn, end_lsn, wal_data }) => ReaderAction::Forward {
                start_lsn,
                body: sink_frame_body(start_lsn, end_lsn, wal_data.as_slice()),
            },
            Ok(WalMsg::Keepalive { server_lsn: _, reply_needed }) => ReaderAction::Check {
                status: reply_needed || now_ns.saturating_sub(self.last_status_ns)
                    > STATUS_INTERVAL_NS,
            },
            Err(RecvError::Io(f)) => {
                if f.kind == IoKind::TimedOut || f.kind == IoKind::WouldBlock {
                    ReaderAction::Check { status: true }
                } else {
                    ReaderAction::Fail(RecvError::Io(f))
                }
            },
            Err(e) => ReaderAction::Fail(e),
        }
    }
}

/// Whatever happened to a reader so far, a status update reports as written and as flushed the
/// position that the sink acknowledged last, or the start where it acknowledged none: nothing that
/// the sink has not confirmed is ever reported.
pub proof fn law_only_acknowledged_positions_are_reported(
    start: Lsn,
    now_ns: u64,
    events: Seq<ReaderEvent>,
    now_us: u64,
)
    ensures
        ({
            let s = reader_after(start, now_ns, events);
            let last = last_acked(start, events);
            &&& s.write_lsn == last && s.flush_lsn == last
            &&& status_payload(s.write_lsn, s.flush_lsn, now_us) == status_payload(
                last,
                last,
                now_us,
            )
        }),
    decreases events.len(),
{
    if events.len() > 0 {
        law_only_acknowledged_positions_are_reported(start, now_ns, events.drop_last(), now_us);
    }
}

/// Log data is handed to the sink as the server sent it, whatever the state of the reader: its
/// positions, a zero clock, and its bytes. From the frame the sink reads all of them back.
pub proof fn law_log_data_reaches_the_sink(
    s: WalReader,
    start: Lsn,
    end: Lsn,
    data: Seq<u8>,
    now_ns: u64,
)
    ensures
        reader_effect(s, Ok(WalItem::XLogData(start, end, data)), now_ns) == ReaderEffect::Forward(
            start,
            seq!['w' as u8] + be_bytes(start.0 as nat, 8) + be_bytes(end.0 as nat, 8) + be_bytes(
                0,
                8,
            ) + data,
        ),
        copy_data(xlog_body(start, end, 0, data)) == Ok::<WalItem, Seq<char>>(
            WalItem::XLogData(start, end, data),
        ),
{
    law_log_data_is_unwrapped(start, end, 0, data);
}

/// The wait before the next attempt begins at a second, doubles with every failure and never exceeds
/// half a minute; it reaches that from any start.
pub proof fn law_wait_doubles(secs: int)
    requires
        1 <= secs <= 30,
    ensures
        first_wait() == 1,
        secs <= 15 ==> longer_wait(secs) == 2 * secs,
        secs > 15 ==> longer_wait(secs) == 30,
        longer_wait(longer_wait(longer_wait(longer_wait(longer_wait(secs))))) == 30,
{
}

/// A frame on the stream tells the length of its body in four bytes, and the body follows.
pub proof fn law_frame_tells_its_length(body: Seq<u8>)
    requires
        body.len() <= u32::MAX,
    ensures
        crate::bytes::be_value(sink_message(body).take(4)) == body.len(),
        sink_message(body).skip(4) == body,
{
    crate::bytes::lemma_capacities();
    crate::bytes::law_be_reads_back(body.len(), 4);
    assert(sink_message(body).take(4) =~= be_bytes(body.len(), 4));
    assert(sink_message(body).skip(4) =~= body);
}

/// A new slot starts the stream at its own position; without one, or with position zero, the start
/// has to come from elsewhere.
pub proof fn law_new_slot_starts_the_stream(l: Lsn)
    ensures
        slot_start(None) is None,
        slot_start(Some(Lsn(0))) is None,
        l.0 > 0 ==> slot_start(Some(l)) == Some(l),
{
}

/// A status update is due on a sign of life exactly if the server asks for one or ten seconds have
/// passed since the last; it is always due when nothing came in time; and any other failure ends
/// the stream.
pub proof fn law_status_is_due(s: WalReader, pos: Lsn, asked: bool, now_ns: u64, m: Seq<char>)
    ensures
        reader_effect(s, Ok(WalItem::Keepalive(pos, asked)), now_ns) == ReaderEffect::Check(
            asked || now_ns > s.last_status_ns + 10_000_000_000,
        ),
        reader_effect(s, Err(RecvFault::Io(IoKind::TimedOut, m)), now_ns) == ReaderEffect::Check(
            true,
        ),
        reader_effect(s, Err(RecvFault::Io(IoKind::WouldBlock, m)), now_ns) == ReaderEffect::Check(
            true,
        ),
        reader_effect(s, Err(RecvFault::Io(IoKind::Other, m)), now_ns) is Fail,
        reader_effect(s, Err(RecvFault::Io(IoKind::InvalidData, m)), now_ns) is Fail,
        reader_effect(s, Err(RecvFault::Protocol(m)), now_ns) is Fail,
        reader_effect(s, Err(RecvFault::Config(m)), now_ns) is Fail,
{
}

/// A URL without a port names no sink.
pub proof fn law_sink_needs_a_port(host: Seq<char>)
    requires
        forall|i: int| 0 <= i < host.len() ==> host[i] != ':',
        !starts_with(host, "http://"@),
        !starts_with(host, "https://"@),
    ensures
        sink_addr(host) == Err::<(Seq<char>, nat), Seq<char>>("wal_sink URL missing port"@),
{
    lemma_last_of(host, ':');
}

/// An acknowledgement is reported at once, as written and as flushed; where the sink's side has gone
/// nothing more is reported and the stream ends.
pub proof fn law_acknowledgement_is_reported(s: WalReader, lsn: Lsn, now_us: u64)
    ensures
        ({
            let (after, step) = after_forward(s, Some(lsn));
            &&& step == AfterForward::Report
            &&& status_payload(after.write_lsn, after.flush_lsn, now_us) == status_payload(
                lsn,
                lsn,
                now_us,
            )
            &&& after.last_status_ns == s.last_status_ns
        }),
        after_forward(s, None) == (s, AfterForward::Stop),
{
}

/// So is one of the secure scheme, and one with a path behind the port.
pub proof fn law_secure_url_is_read(host: Seq<char>, port: nat, path: Seq<char>)
    requires
        port <= 65535,
        forall|i: int| 0 <= i < host.len() ==> host[i] != ':' && host[i] != '/',
        path.len() > 0 ==> path[0] == '/',
        forall|i: int| 0 <= i < path.len() ==> path[i] != ':',
    ensures
        sink_addr("https://"@ + host.push(':') + decimal(port) + path) == Ok::<
            (Seq<char>, nat),
            Seq<char>,
        >((host, port)),
{
    let scheme = "https://"@;
    let digits = decimal(port);
    let behind = digits + path;
    let rest = host.push(':') + behind;
    let url = "https://"@ + host.push(':') + decimal(port) + path;
    reveal_strlit("http://");
    reveal_strlit("https://");
    lemma_numeral_first(port, 10, false);
    law_numeral_reads_back(port, 10, false, 65535);
    assert(url =~= scheme + rest);
    assert(url.take(8) =~= scheme && url.skip(8) =~= rest);
    assert(!starts_with(url, "http://"@)) by {
        assert(url.take(7)[4] == 's');
        assert("http://"@[4] == ':');
    }
    assert(trim_prefixes(url, "http://"@) == url);
    assert forall|i: int| 0 <= i < digits.len() implies digits[i] != ':' && digits[i] != '/' by {
        assert(digit_value(digits[i]) < 16);
    }
    assert(!starts_with(rest, "https://"@)) by {
        if starts_with(rest, "https://"@) {
            let t = rest.take(8);
            assert(t[5] == ':' && t[6] == '/');
            assert(rest[5] == ':' && rest[6] == '/');
            if 5 < host.len() {
                assert(rest[5] == host[5]);
            } else if 5 > host.len() {
                if 5 - host.len() - 1 < digits.len() {
                    assert(rest[5] == digits[5 - host.len() - 1]);
                } else {
                    assert(rest[5] == path[5 - host.len() - 1 - digits.len()]);
                }
            } else {
                assert(rest[6] == digits[0]);
            }
        }
    }
    assert(trim_prefixes(rest, "https://"@) == rest);
    assert(scheme.len() == 8 && starts_with(url, scheme));
    assert(trim_prefixes(url, "https://"@) == rest);
    lemma_last_of(rest, ':');
    assert(rest[host.len() as int] == ':');
    assert forall|j: int| host.len() < j < rest.len() implies rest[j] != ':' by {
        let k = j - host.len() - 1;
        assert(rest[j] == behind[k]);
        if k < digits.len() {
            assert(behind[k] == digits[k]);
        } else {
            assert(behind[k] == path[k - digits.len()]);
        }
    }
    assert(last_of(rest, ':') == host.len());
    assert(rest.take(host.len() as int) =~= host);
    assert(rest.skip(host.len() as int + 1) =~= behind);
    lemma_first_of(behind, '/');
    assert forall|j: int| 0 <= j < digits.len() implies behind[j] != '/' by {
        assert(behind[j] == digits[j]);
    }
    if path.len() > 0 {
        assert(behind[digits.len() as int] == '/');
    }
    assert(first_of(behind, '/') == digits.len());
    assert(behind.take(digits.len() as int) =~= digits);
    assert(path.len() == 0 ==> behind =~= digits);
}

} // verus!
