//! The replication commands and the messages that answer them.
//!
//! Each command has a payload to send and a state that takes the messages of the answer one by
//! one until it is complete.
use crate::bytes::{
    be_bytes, be_value, copy_bytes, push_be, push_text, read_be, read_text, tail, utf8_text,
};
use crate::http::{lemma_first_word, lemma_words_behind_space};
use crate::number::{
    all_hex, decimal, digit_value, is_all_hex, law_numeral_reads_back, lemma_numeral_first, numeral,
    numeral_of, parse_decimal, parse_uint, read_decimal, read_uint,
};
use crate::text::{
    chars_of, comes_before, copy_str, is_white, lemma_precedes_irreflexive,
    lemma_precedes_transitive, precedes, push_chars, same_str, words,
};
use crate::wal_proto::lsn::{lsn_parse, lsn_text, zero_padded, Lsn};
use crate::wal_proto::wire::{
    decode_error, error_field, error_fields, error_text, field_text, RecvError, RecvFault,
};
use vstd::prelude::*;
use vstd::slice::slice_subrange;
use vstd::utf8::encode_utf8;

verus! {

// ---------------------------------------------------------------------------
// Rows.
// ---------------------------------------------------------------------------
/// The value of the column `want` columns ahead, of `left` columns that start at `pos`: none
/// where the row ends first or the value is null.
pub open spec fn column_from(b: Seq<u8>, pos: int, left: nat, want: nat) -> Option<Seq<u8>>
    decreases left,
{
    if left == 0 || pos + 4 > b.len() {
        None
    } else {
        let len = be_value(b.subrange(pos, pos + 4));
        if len >= 0x8000_0000 {
            if want == 0 {
                None
            } else {
                column_from(b, pos + 4, (left - 1) as nat, (want - 1) as nat)
            }
        } else if pos + 4 + len > b.len() {
            None
        } else if want == 0 {
            Some(b.subrange(pos + 4, pos + 4 + len))
        } else {
            column_from(b, pos + 4 + len, (left - 1) as nat, (want - 1) as nat)
        }
    }
}

/// The value of column `want` of a row.
pub open spec fn row_column(b: Seq<u8>, want: nat) -> Option<Seq<u8>> {
    if b.len() < 2 {
        None
    } else {
        column_from(b, 2, be_value(b.take(2)), want)
    }
}

/// The value of column `want` as text; none where it is missing, null or not UTF-8.
pub open spec fn row_text(b: Seq<u8>, want: nat) -> Option<Seq<char>> {
    match row_column(b, want) {
        Some(v) => utf8_text(v),
        None => None,
    }
}

/// Finds the value of a column.
pub fn find_column<'a>(body: &'a [u8], want: usize) -> (r: Option<&'a [u8]>)
    ensures
        match r {
            Some(v) => row_column(body@, want as nat) == Some(v@),
            None => row_column(body@, want as nat) is None,
        },
{
    if body.len() < 2 {
        return None;
    }
    assert(body@.subrange(0, 2) == body@.take(2));
    let mut left: u64 = read_be(body, 0, 2);
    let mut pos: usize = 2;
    let mut ahead: usize = want;
    let size: usize = body.len();
    proof {
        crate::bytes::lemma_capacities();
    }
    while left > 0 && size - pos >= 4
        invariant
            size == body@.len(),
            pos <= size,
            row_column(body@, want as nat) == column_from(
                body@,
                pos as int,
                left as nat,
                ahead as nat,
            ),
        decreases left,
    {
        let len: u64 = read_be(body, pos, 4);
        proof {
            crate::bytes::lemma_capacities();
        }
        pos = pos + 4;
        if len >= 0x8000_0000 {
            if ahead == 0 {
                return None;
            }
        } else {
            if len > (size - pos) as u64 {
                return None;
            }
            let end: usize = pos + len as usize;
            if ahead == 0 {
                return Some(slice_subrange(body, pos, end));
            }
            pos = end;
        }
        ahead = ahead - 1;
        left = left - 1;
    }
    None
}

/// The value of a column as text.
pub fn column_text(body: &[u8], want: usize) -> (r: Option<String>)
    ensures
        match r {
            Some(t) => row_text(body@, want as nat) == Some(t@),
            None => row_text(body@, want as nat) is None,
        },
{
    match find_column(body, want) {
        Some(v) => match read_text(v) {
            Ok(t) => Some(t),
            Err(_) => None,
        },
        None => None,
    }
}

/// The fault that an error report amounts to.
pub open spec fn server_fault(body: Seq<u8>) -> RecvFault {
    RecvFault::Protocol("postgres error: "@ + error_text(body))
}

fn server_error(body: &[u8]) -> (r: RecvError)
    ensures
        r@ == server_fault(body@),
{
    let mut out = String::new();
    out.append("postgres error: ");
    out.append(decode_error(body).as_str());
    RecvError::Protocol(out)
}

/// A query as it is sent: its text and a zero byte.
pub open spec fn query_payload(sql: Seq<char>) -> Seq<u8> {
    encode_utf8(sql).push(0)
}

fn build_query(sql: &str) -> (r: Vec<u8>)
    ensures
        r@ == query_payload(sql@),
{
    let mut out: Vec<u8> = Vec::new();
    push_text(&mut out, sql);
    out.push(0);
    assert(out@ == query_payload(sql@));
    out
}

// ---------------------------------------------------------------------------
// CREATE_REPLICATION_SLOT.
// ---------------------------------------------------------------------------
/// The command that asks for a physical replication slot.
pub open spec fn create_slot_command(slot: Seq<char>) -> Seq<char> {
    "CREATE_REPLICATION_SLOT "@ + slot + " PHYSICAL"@
}

/// The payload that asks for a physical replication slot.
pub fn create_slot_payload(slot: &str) -> (r: Vec<u8>)
    ensures
        r@ == query_payload(create_slot_command(slot@)),
{
    let mut sql = String::new();
    sql.append("CREATE_REPLICATION_SLOT ");
    sql.append(slot);
    sql.append(" PHYSICAL");
    build_query(sql.as_str())
}

/// A request for a slot that is being answered.
#[derive(Clone, Copy, Debug, PartialEq, Eq, Structural)]
pub struct SlotRequest {
    /// The consistent point, as far as it is known.
    pub point: Option<Lsn>,
    /// The slot exists already: the answer is only read to its end.
    pub draining: bool,
}

/// What a message of the answer leads to.
pub enum SlotStep {
    Read,
    /// The slot is there. The consistent point is known only if it was created just now.
    Done(Option<Lsn>),
    Fail(RecvError),
}

/// The consistent point after a row.
pub open spec fn point_after_row(point: Option<Lsn>, body: Seq<u8>) -> Option<Lsn> {
    match row_text(body, 1) {
        None => point,
        Some(t) => match lsn_parse(t) {
            Ok(n) => Some(Lsn(n as u64)),
            Err(_) => None,
        },
    }
}

/// What a message of the answer to a request for a slot leads to, without its representation.
pub enum SlotOutcome {
    Read,
    Done(Option<Lsn>),
    Fail(RecvFault),
}

impl View for SlotStep {
    type V = SlotOutcome;

    open spec fn view(&self) -> SlotOutcome {
        match self {
            SlotStep::Read => SlotOutcome::Read,
            SlotStep::Done(p) => SlotOutcome::Done(*p),
            SlotStep::Fail(e) => SlotOutcome::Fail(e@),
        }
    }
}

/// Whether an error report says that the slot exists already: its code does. What the message says
/// does not count.
pub open spec fn says_slot_exists(body: Seq<u8>) -> bool {
    field_text(error_fields(body, 0), 'C' as u8) == "42710"@
}

/// What a message of the answer to a request for a slot leads to.
pub open spec fn slot_transition(s: SlotRequest, tag: u8, body: Seq<u8>) -> (
    SlotRequest,
    SlotOutcome,
) {
    if tag == 'Z' as u8 {
        (
            s,
            SlotOutcome::Done(
                if s.draining {
                    None
                } else {
                    s.point
                },
            ),
        )
    } else if s.draining {
        (s, SlotOutcome::Read)
    } else if tag == 'D' as u8 {
        (SlotRequest { point: point_after_row(s.point, body), ..s }, SlotOutcome::Read)
    } else if tag == 'E' as u8 {
        if says_slot_exists(body) {
            (SlotRequest { draining: true, ..s }, SlotOutcome::Read)
        } else {
            (s, SlotOutcome::Fail(server_fault(body)))
        }
    } else {
        (s, SlotOutcome::Read)
    }
}

/// A request for a slot that has just been sent.
pub open spec fn fresh_slot_request() -> SlotRequest {
    SlotRequest { point: None, draining: false }
}

impl SlotRequest {
    /// A request that has just been sent.
    pub fn new() -> (r: SlotRequest)
        ensures
            r == fresh_slot_request(),
    {
        SlotRequest { point: None, draining: false }
    }

    /// Takes the next message of the answer.
    pub fn on_message(&mut self, tag: u8, body: &[u8]) -> (r: SlotStep)
        ensures
            (*final(self), r@) == slot_transition(*old(self), tag, body@),
    {
        if self.draining {
            if tag == 90 {
                return SlotStep::Done(None);
            }
            return SlotStep::Read;
        }
        if tag == 68 {
            match column_text(body, 1) {
                Some(t) => {
                    self.point = match Lsn::parse(t.as_str()) {
                        Ok(l) => Some(l),
                        Err(_) => None,
                    };
                },
                None => {},
            }
            return SlotStep::Read;
        }
        if tag == 90 {
            return SlotStep::Done(self.point);
        }
        if tag == 69 {
            if same_str(error_field(body, 67).as_str(), "42710") {
                self.draining = true;
                return SlotStep::Read;
            }
            return SlotStep::Fail(server_error(body));
        }
        SlotStep::Read
    }
}

// ---------------------------------------------------------------------------
// IDENTIFY_SYSTEM.
// ---------------------------------------------------------------------------
/// The command that asks the server to identify itself.
pub open spec fn identify_command() -> Seq<char> {
    "IDENTIFY_SYSTEM"@
}

/// The payload that asks the server to identify itself.
pub fn identify_system_payload() -> (r: Vec<u8>)
    ensures
        r@ == query_payload(identify_command()),
{
    build_query("IDENTIFY_SYSTEM")
}

/// A request for the server's identity that is being answered.
#[derive(Clone, Copy, Debug, PartialEq, Eq, Structural)]
pub struct Identity {
    pub timeline: u32,
    pub xlogpos: Lsn,
}

/// What a message of the answer leads to.
pub enum IdentityStep {
    Read,
    Done(u32, Lsn),
    Fail(RecvError),
}

/// The timeline after a row: one where the column does not hold a number.
pub open spec fn timeline_after_row(timeline: u32, body: Seq<u8>) -> u32 {
    match row_text(body, 1) {
        None => timeline,
        Some(t) => match parse_decimal(t, u32::MAX as nat) {
            Ok(n) => n as u32,
            Err(_) => 1,
        },
    }
}

/// The log position after a row: zero where the column does not hold one.
pub open spec fn position_after_row(pos: Lsn, body: Seq<u8>) -> Lsn {
    match row_text(body, 2) {
        None => pos,
        Some(t) => match lsn_parse(t) {
            Ok(n) => Lsn(n as u64),
            Err(_) => Lsn(0),
        },
    }
}

/// What a message of the answer to a request for identification leads to, without its
/// representation.
pub enum IdentityOutcome {
    Read,
    Done(u32, Lsn),
    Fail(RecvFault),
}

impl View for IdentityStep {
    type V = IdentityOutcome;

    open spec fn view(&self) -> IdentityOutcome {
        match self {
            IdentityStep::Read => IdentityOutcome::Read,
            IdentityStep::Done(t, l) => IdentityOutcome::Done(*t, *l),
            IdentityStep::Fail(e) => IdentityOutcome::Fail(e@),
        }
    }
}

/// What a message of the answer to a request for identification leads to.
pub open spec fn identity_transition(s: Identity, tag: u8, body: Seq<u8>) -> (
    Identity,
    IdentityOutcome,
) {
    if tag == 'Z' as u8 {
        (s, IdentityOutcome::Done(s.timeline, s.xlogpos))
    } else if tag == 'E' as u8 {
        (s, IdentityOutcome::Fail(server_fault(body)))
    } else if tag == 'D' as u8 {
        (
            Identity {
                timeline: timeline_after_row(s.timeline, body),
                xlogpos: position_after_row(s.xlogpos, body),
            },
            IdentityOutcome::Read,
        )
    } else {
        (s, IdentityOutcome::Read)
    }
}

/// A request for the server's identity that has just been sent.
pub open spec fn unidentified() -> Identity {
    Identity { timeline: 1, xlogpos: Lsn(0) }
}

impl Identity {
    /// A request that has just been sent.
    pub fn new() -> (r: Identity)
        ensures
            r == unidentified(),
    {
        Identity { timeline: 1, xlogpos: Lsn(0) }
    }

    /// Takes the next message of the answer.
    pub fn on_message(&mut self, tag: u8, body: &[u8]) -> (r: IdentityStep)
        ensures
            (*final(self), r@) == identity_transition(*old(self), tag, body@),
    {
        if tag == 68 {
            match column_text(body, 1) {
                Some(t) => {
                    let cs: Vec<char> = chars_of(t.as_str());
                    self.timeline = match read_decimal(cs.as_slice(), u32::MAX as u64) {
                        Ok(n) => n as u32,
                        Err(_) => 1,
                    };
                },
                None => {},
            }
            match column_text(body, 2) {
                Some(t) => {
                    self.xlogpos = match Lsn::parse(t.as_str()) {
                        Ok(l) => l,
                        Err(_) => Lsn(0),
                    };
                },
                None => {},
            }
            return IdentityStep::Read;
        }
        if tag == 90 {
            return IdentityStep::Done(self.timeline, self.xlogpos);
        }
        if tag == 69 {
            return IdentityStep::Fail(server_error(body));
        }
        IdentityStep::Read
    }
}

// ---------------------------------------------------------------------------
// START_REPLICATION.
// ---------------------------------------------------------------------------
/// The command that starts streaming from a slot at a position.
pub open spec fn start_command(slot: Seq<char>, lsn: Lsn) -> Seq<char> {
    "START_REPLICATION SLOT "@ + slot + " PHYSICAL "@ + lsn_text(lsn.0)
}

/// The payload that starts streaming from a slot at a position.
pub fn start_replication_payload(slot: &str, lsn: Lsn) -> (r: Vec<u8>)
    ensures
        r@ == query_payload(start_command(slot@, lsn)),
{
    let mut sql = String::new();
    sql.append("START_REPLICATION SLOT ");
    sql.append(slot);
    sql.append(" PHYSICAL ");
    lsn.push_to(&mut sql);
    build_query(sql.as_str())
}

/// What a message of the answer leads to.
pub enum StartStep {
    Read,
    Started,
    Fail(RecvError),
}

/// What a message of the answer leads to, without its representation.
pub enum StartOutcome {
    Read,
    Started,
    Fail(RecvFault),
}

impl View for StartStep {
    type V = StartOutcome;

    open spec fn view(&self) -> StartOutcome {
        match self {
            StartStep::Read => StartOutcome::Read,
            StartStep::Started => StartOutcome::Started,
            StartStep::Fail(e) => StartOutcome::Fail(e@),
        }
    }
}

/// What a message of the answer to the request to start leads to.
pub open spec fn start_outcome(tag: u8, body: Seq<u8>) -> StartOutcome {
    if tag == 'W' as u8 {
        StartOutcome::Started
    } else if tag == 'E' as u8 {
        StartOutcome::Fail(server_fault(body))
    } else {
        StartOutcome::Read
    }
}

/// Takes the next message of the answer.
pub fn on_start_message(tag: u8, body: &[u8]) -> (r: StartStep)
    ensures
        r@ == start_outcome(tag, body@),
{
    if tag == 87 {
        return StartStep::Started;
    }
    if tag == 69 {
        return StartStep::Fail(server_error(body));
    }
    StartStep::Read
}

// ---------------------------------------------------------------------------
// The stream.
// ---------------------------------------------------------------------------
/// A message of the replication stream.
#[derive(Debug)]
pub enum WalMsg {
    /// Log data: `wal_data` starts at `start_lsn`, and the server's log ended at `end_lsn` when
    /// it was sent.
    XLogData { start_lsn: Lsn, end_lsn: Lsn, wal_data: Vec<u8> },
    /// A sign of life. `reply_needed` asks for a status update at once.
    Keepalive { server_lsn: Lsn, reply_needed: bool },
}

/// What a message of the stream is.
pub enum WalItem {
    XLogData(Lsn, Lsn, Seq<u8>),
    Keepalive(Lsn, bool),
}

impl View for WalMsg {
    type V = WalItem;

    open spec fn view(&self) -> WalItem {
        match self {
            WalMsg::XLogData { start_lsn, end_lsn, wal_data } => WalItem::XLogData(
                *start_lsn,
                *end_lsn,
                wal_data@,
            ),
            WalMsg::Keepalive { server_lsn, reply_needed } => WalItem::Keepalive(
                *server_lsn,
                *reply_needed,
            ),
        }
    }
}

/// The log position that eight bytes write.
pub open spec fn lsn_at(b: Seq<u8>, at: int) -> Lsn {
    Lsn(be_value(b.subrange(at, at + 8)) as u64)
}

/// The lower-case hexadecimal form of a byte, with its prefix.
pub open spec fn hex_byte(b: u8) -> Seq<char> {
    "0x"@ + numeral(b as nat, 16, false)
}

/// What the body of a data message holds.
pub open spec fn copy_data(body: Seq<u8>) -> Result<WalItem, Seq<char>> {
    if body.len() == 0 {
        Err("empty CopyData"@)
    } else if body[0] == 'w' as u8 {
        if body.len() < 25 {
            Err("short XLogData header"@)
        } else {
            Ok(WalItem::XLogData(lsn_at(body, 1), lsn_at(body, 9), body.skip(25)))
        }
    } else if body[0] == 'k' as u8 {
        if body.len() < 18 {
            Err("short PrimaryKeepalive"@)
        } else {
            Ok(WalItem::Keepalive(lsn_at(body, 1), body[17] != 0))
        }
    } else {
        Err("unknown CopyData sub-type "@ + hex_byte(body[0]))
    }
}

/// What a message of the stream leads to: nothing, an item, or a fault.
pub open spec fn wal_event(tag: u8, body: Seq<u8>) -> Option<Result<WalItem, RecvFault>> {
    if tag == 'd' as u8 {
        Some(
            match copy_data(body) {
                Ok(i) => Ok(i),
                Err(m) => Err(RecvFault::Protocol(m)),
            },
        )
    } else if tag == 'c' as u8 || tag == 'C' as u8 || tag == 'S' as u8 || tag == 'N' as u8 {
        None
    } else if tag == 'E' as u8 {
        Some(Err(server_fault(body)))
    } else {
        Some(
            Err(
                RecvFault::Protocol(
                    "unexpected tag "@ + hex_byte(tag) + " during replication"@,
                ),
            ),
        )
    }
}

fn push_hex_byte(out: &mut String, b: u8)
    ensures
        final(out)@ == old(out)@ + hex_byte(b),
{
    out.append("0x");
    let cs: Vec<char> = numeral_of(b as u64, 16, false);
    push_chars(out, cs.as_slice());
    assert(out@ == old(out)@ + hex_byte(b));
}

fn read_lsn(body: &[u8], at: usize) -> (r: Lsn)
    requires
        at + 8 <= body@.len(),
    ensures
        r == lsn_at(body@, at as int),
{
    Lsn(read_be(body, at, 8))
}

fn read_copy_data(body: &[u8]) -> (r: Result<WalMsg, String>)
    ensures
        match r {
            Ok(m) => copy_data(body@) == Ok::<WalItem, Seq<char>>(m@),
            Err(e) => copy_data(body@) == Err::<WalItem, Seq<char>>(e@),
        },
{
    if body.len() == 0 {
        return Err(copy_str("empty CopyData"));
    }
    if body[0] == 119 {
        if body.len() < 25 {
            return Err(copy_str("short XLogData header"));
        }
        return Ok(
            WalMsg::XLogData {
                start_lsn: read_lsn(body, 1),
                end_lsn: read_lsn(body, 9),
                wal_data: copy_bytes(tail(body, 25)),
            },
        );
    }
    if body[0] == 107 {
        if body.len() < 18 {
            return Err(copy_str("short PrimaryKeepalive"));
        }
        return Ok(
            WalMsg::Keepalive { server_lsn: read_lsn(body, 1), reply_needed: body[17] != 0 },
        );
    }
    let mut out = String::new();
    out.append("unknown CopyData sub-type ");
    push_hex_byte(&mut out, body[0]);
    Err(out)
}

/// Takes the next message of the stream: nothing where it carries no data.
pub fn recv_wal(tag: u8, body: &[u8]) -> (r: Option<Result<WalMsg, RecvError>>)
    ensures
        match r {
            None => wal_event(tag, body@) is None,
            Some(Ok(m)) => wal_event(tag, body@) == Some(Ok::<WalItem, RecvFault>(m@)),
            Some(Err(e)) => wal_event(tag, body@) == Some(Err::<WalItem, RecvFault>(e@)),
        },
{
    if tag == 100 {
        return match read_copy_data(body) {
            Ok(m) => Some(Ok(m)),
            Err(e) => Some(Err(RecvError::Protocol(e))),
        };
    }
    if tag == 99 || tag == 67 || tag == 83 || tag == 78 {
        return None;
    }
    if tag == 69 {
        return Some(Err(server_error(body)));
    }
    let mut out = String::new();
    out.append("unexpected tag ");
    push_hex_byte(&mut out, tag);
    out.append(" during replication");
    Some(Err(RecvError::Protocol(out)))
}

// ---------------------------------------------------------------------------
// Status updates.
// ---------------------------------------------------------------------------
/// The start of the year 2000 in seconds of Unix time.
pub const PG_EPOCH_UNIX_SECS: u64 = 946_684_800;

/// Microseconds since the start of the year 2000, as far as 64 bits reach. Before it the seconds
/// count as zero.
pub open spec fn pg_micros(secs: u64, micros: u32) -> int {
    let since = if secs < PG_EPOCH_UNIX_SECS {
        0
    } else {
        (secs - PG_EPOCH_UNIX_SECS) * 1_000_000
    };
    micros + if since > u64::MAX {
        u64::MAX as int
    } else {
        since
    }
}

/// The Postgres clock for a reading of the Unix clock.
pub fn pg_clock(secs: u64, micros: u32) -> (r: u64)
    requires
        pg_micros(secs, micros) <= u64::MAX,
    ensures
        r == pg_micros(secs, micros),
{
    let since: u64 = secs.saturating_sub(PG_EPOCH_UNIX_SECS);
    let us: u64 = match since.checked_mul(1_000_000) {
        Some(us) => us,
        None => u64::MAX,
    };
    us + micros as u64
}

/// The payload of a status update: what has been written, flushed and applied, when, and that no
/// reply is asked for. What has been flushed counts as applied.
pub open spec fn status_payload(write: Lsn, flush: Lsn, now_us: u64) -> Seq<u8> {
    seq!['r' as u8] + be_bytes(write.0 as nat, 8) + be_bytes(flush.0 as nat, 8) + be_bytes(
        flush.0 as nat,
        8,
    ) + be_bytes(
        (if now_us > i64::MAX {
            i64::MAX as nat
        } else {
            now_us as nat
        }),
        8,
    ) + seq![0]
}

/// Builds the payload of a status update.
pub fn status_update(write: Lsn, flush: Lsn, now_us: u64) -> (r: Vec<u8>)
    ensures
        r@ == status_payload(write, flush, now_us),
        r@.len() == 34,
{
    let clock: u64 = if now_us > i64::MAX as u64 {
        i64::MAX as u64
    } else {
        now_us
    };
    let mut out: Vec<u8> = Vec::new();
    out.push(114);
    push_be(&mut out, write.0, 8);
    push_be(&mut out, flush.0, 8);
    push_be(&mut out, flush.0, 8);
    push_be(&mut out, clock, 8);
    out.push(0);
    assert(out@ == status_payload(write, flush, now_us));
    proof {
        crate::bytes::lemma_be_bytes_len(write.0 as nat, 8);
        crate::bytes::lemma_be_bytes_len(flush.0 as nat, 8);
        crate::bytes::lemma_be_bytes_len(clock as nat, 8);
    }
    out
}

// ---------------------------------------------------------------------------
// Local segments.
// ---------------------------------------------------------------------------
/// The size of a segment of the log.
pub const WAL_SEGMENT_SIZE: u64 = 16_777_216;

/// Whether a file name is that of a complete segment: timeline, high half and segment number,
/// eight hexadecimal digits each.
pub open spec fn is_segment_name(s: Seq<char>) -> bool {
    s.len() == 24 && all_hex(s)
}

/// The number that hexadecimal digits write.
pub open spec fn hex_number(s: Seq<char>) -> u64 {
    match parse_uint(s, 16, 0xffff_ffff) {
        Ok(n) => n as u64,
        Err(_) => 0,
    }
}

/// Where a segment starts.
pub open spec fn segment_start(s: Seq<char>) -> u64 {
    ((hex_number(s.subrange(8, 16)) * 0x1_0000_0000) as u64) | ((hex_number(s.subrange(16, 24))
        * WAL_SEGMENT_SIZE) as u64)
}

/// Where streaming resumes behind a segment.
pub open spec fn resume_point(name: Seq<char>) -> int {
    segment_start(name) + WAL_SEGMENT_SIZE
}

/// Whether `m` is the last of the segment names.
pub open spec fn is_highest(names: Seq<String>, m: int) -> bool {
    &&& 0 <= m < names.len()
    &&& is_segment_name(names[m]@)
    &&& forall|j: int|
        0 <= j < names.len() && is_segment_name(#[trigger] names[j]@) ==> !precedes(
            names[m]@,
            names[j]@,
        )
}

/// Eight digits can be read.
proof fn lemma_eight_digits(s: Seq<char>)
    requires
        s.len() == 8,
        all_hex(s),
    ensures
        parse_uint(s, 16, 0xffff_ffff) is Ok,
        hex_number(s) <= 0xffff_ffff,
{
    assert(crate::number::digit_value(s[0]) < 16);
    reveal_with_fuel(pow16, 9);
    assert(pow16(8) == 0x1_0000_0000);
    lemma_short_digits(s, 0);
}

/// A run of digits that keeps below the limit can be read to its end.
proof fn lemma_short_digits(s: Seq<char>, acc: nat)
    requires
        all_hex(s),
        s.len() <= 8,
        (acc + 1) * pow16(s.len()) <= 0x1_0000_0000,
    ensures
        crate::number::read_digits(s, 16, 0xffff_ffff, acc) matches Ok(n) && n <= 0xffff_ffff,
    decreases s.len(),
{
    if s.len() > 0 {
        let d = crate::number::digit_value(s[0]);
        assert(d < 16);
        let p = pow16((s.len() - 1) as nat);
        let next = acc * 16 + d;
        assert((next + 1) * p <= (acc + 1) * (p * 16)) by (nonlinear_arith)
            requires
                next + 1 <= (acc + 1) * 16,
                p >= 0,
        ;
        lemma_pow16((s.len() - 1) as nat);
        assert((next + 1) * 1 <= (next + 1) * p) by (nonlinear_arith)
            requires
                p >= 1,
                next >= 0,
        ;
        assert forall|i: int| 0 <= i < s.skip(1).len() implies #[trigger]
            crate::number::digit_value(s.skip(1)[i]) < 16 by {
            assert(s.skip(1)[i] == s[i + 1]);
            assert(crate::number::digit_value(s[i + 1]) < 16);
        }
        lemma_short_digits(s.skip(1), next as nat);
    } else {
        let p = pow16(s.len());
        assert((acc + 1) * p == acc + 1) by (nonlinear_arith)
            requires
                p == 1,
        ;
    }
}

spec fn pow16(n: nat) -> nat
    decreases n,
{
    if n == 0 {
        1
    } else {
        pow16((n - 1) as nat) * 16
    }
}

proof fn lemma_pow16(n: nat)
    ensures
        pow16(n) >= 1,
    decreases n,
{
    if n > 0 {
        lemma_pow16((n - 1) as nat);
    }
}

/// Finds the last of the segment names.
pub fn highest_segment(names: &Vec<String>) -> (r: Option<usize>)
    ensures
        match r {
            Some(m) => is_highest(names@, m as int),
            None => forall|j: int| 0 <= j < names@.len() ==> !is_segment_name(#[trigger] names@[j]@),
        },
{
    let mut best: Option<usize> = None;
    for i in 0..names.len()
        invariant
            match best {
                Some(m) => m < i && is_segment_name(names@[m as int]@) && forall|j: int|
                    0 <= j < i && is_segment_name(#[trigger] names@[j]@) ==> !precedes(
                        names@[m as int]@,
                        names@[j]@,
                    ),
                None => forall|j: int| 0 <= j < i ==> !is_segment_name(#[trigger] names@[j]@),
            },
    {
        let cs: Vec<char> = chars_of(names[i].as_str());
        if cs.len() == 24 && is_all_hex(cs.as_slice()) {
            let better: bool = match best {
                None => true,
                Some(m) => comes_before(chars_of(names[m].as_str()).as_slice(), cs.as_slice()),
            };
            if better {
                proof {
                    lemma_precedes_irreflexive(names@[i as int]@);
                    if let Some(m) = best {
                        assert forall|j: int|
                            0 <= j < i && is_segment_name(#[trigger] names@[j]@) implies !precedes(
                            names@[i as int]@,
                            names@[j]@,
                        ) by {
                            if precedes(names@[i as int]@, names@[j]@) {
                                lemma_precedes_transitive(
                                    names@[m as int]@,
                                    names@[i as int]@,
                                    names@[j]@,
                                );
                            }
                        }
                    }
                }
                best = Some(i);
            }
        }
    }
    best
}

/// Where the segment of this name starts.
pub fn segment_start_of(name: &str) -> (r: u64)
    requires
        is_segment_name(name@),
    ensures
        r == segment_start(name@),
{
    let cs: Vec<char> = chars_of(name);
    let hi_digits: &[char] = slice_subrange(cs.as_slice(), 8, 16);
    let lo_digits: &[char] = slice_subrange(cs.as_slice(), 16, 24);
    proof {
        assert forall|i: int| 0 <= i < 8 implies #[trigger] crate::number::digit_value(
            hi_digits@[i],
        ) < 16 by {
            assert(crate::number::digit_value(cs@[i + 8]) < 16);
        }
        assert forall|i: int| 0 <= i < 8 implies #[trigger] crate::number::digit_value(
            lo_digits@[i],
        ) < 16 by {
            assert(crate::number::digit_value(cs@[i + 16]) < 16);
        }
        lemma_eight_digits(hi_digits@);
        lemma_eight_digits(lo_digits@);
    }
    let hi: u64 = match read_uint(hi_digits, 16, 0xffff_ffff) {
        Ok(n) => n,
        Err(_) => 0,
    };
    let lo: u64 = match read_uint(lo_digits, 16, 0xffff_ffff) {
        Ok(n) => n,
        Err(_) => 0,
    };
    (hi * 0x1_0000_0000) | (lo * WAL_SEGMENT_SIZE)
}

/// The position just past the last complete segment among the file names of a directory: where
/// streaming resumes.
pub fn highest_local_lsn(names: &Vec<String>) -> (r: Option<Lsn>)
    requires
        forall|m: int| #[trigger]
            is_highest(names@, m) ==> resume_point(names@[m]@) <= u64::MAX,
    ensures
        match r {
            Some(l) => exists|m: int| #[trigger]
                is_highest(names@, m) && l.0 == resume_point(names@[m]@),
            None => forall|j: int| 0 <= j < names@.len() ==> !is_segment_name(#[trigger] names@[j]@),
        },
{
    match highest_segment(names) {
        Some(m) => Some(Lsn(segment_start_of(names[m].as_str()) + WAL_SEGMENT_SIZE)),
        None => None,
    }
}

// ---------------------------------------------------------------------------
// Laws.
// ---------------------------------------------------------------------------
/// How an answer to a request for a slot ends: with the first message that ends it.
pub open spec fn slot_answer(s: SlotRequest, msgs: Seq<(u8, Seq<u8>)>) -> SlotOutcome
    decreases msgs.len(),
{
    if msgs.len() == 0 {
        SlotOutcome::Read
    } else {
        let (next, out) = slot_transition(s, msgs[0].0, msgs[0].1);
        if out is Read {
            slot_answer(next, msgs.skip(1))
        } else {
            out
        }
    }
}

/// Once the server has said that the slot exists, the answer ends with its ready message, without
/// a consistent point and without a fault, whatever comes in between.
pub proof fn law_existing_slot_is_no_fault(s: SlotRequest, msgs: Seq<(u8, Seq<u8>)>, k: int)
    requires
        s.draining,
        0 <= k < msgs.len(),
        msgs[k].0 == 'Z' as u8,
        forall|i: int| 0 <= i < k ==> (#[trigger] msgs[i]).0 != 'Z' as u8,
    ensures
        slot_answer(s, msgs) == SlotOutcome::Done(None),
    decreases k,
{
    if k > 0 {
        let rest = msgs.skip(1);
        assert(msgs[0].0 != 'Z' as u8);
        assert forall|i: int| 0 <= i < k - 1 implies (#[trigger] rest[i]).0 != 'Z' as u8 by {
            assert(rest[i] == msgs[i + 1]);
        }
        law_existing_slot_is_no_fault(s, rest, k - 1);
    }
}

/// A request for a slot is answered with a fault exactly if the server's report has another code
/// than the one for an existing slot; an existing slot is told by that code alone.
pub proof fn law_only_the_code_tells_of_a_slot(body: Seq<u8>, ready: Seq<u8>)
    ensures
        slot_answer(
            SlotRequest { point: None, draining: false },
            seq![('E' as u8, body), ('Z' as u8, ready)],
        ) == (if field_text(error_fields(body, 0), 'C' as u8) == "42710"@ {
            SlotOutcome::Done(None)
        } else {
            SlotOutcome::Fail(server_fault(body))
        }),
{
    let s = SlotRequest { point: None, draining: false };
    let t = SlotRequest { point: None, draining: true };
    let msgs = seq![('E' as u8, body), ('Z' as u8, ready)];
    assert(msgs.skip(1)[0] == ('Z' as u8, ready));
    assert(slot_answer(t, msgs.skip(1)) == SlotOutcome::Done(None));
    assert(msgs[0] == ('E' as u8, body));
}

/// A slot that was just created is answered with the consistent point of its row.
pub proof fn law_created_slot_reports_its_point(
    description: Seq<u8>,
    row: Seq<u8>,
    complete: Seq<u8>,
    ready: Seq<u8>,
    n: u64,
)
    requires
        row_text(row, 1) == Some(lsn_text(n)),
    ensures
        slot_answer(
            SlotRequest { point: None, draining: false },
            seq![
                ('T' as u8, description),
                ('D' as u8, row),
                ('C' as u8, complete),
                ('Z' as u8, ready),
            ],
        ) == SlotOutcome::Done(Some(Lsn(n))),
{
    crate::wal_proto::lsn::law_lsn_text_round_trip(n);
    let msgs = seq![
        ('T' as u8, description),
        ('D' as u8, row),
        ('C' as u8, complete),
        ('Z' as u8, ready),
    ];
    let s = SlotRequest { point: None, draining: false };
    let t = SlotRequest { point: Some(Lsn(n)), draining: false };
    assert(slot_transition(s, 'D' as u8, row) == (t, SlotOutcome::Read));
    assert(slot_answer(t, msgs.skip(3)) == SlotOutcome::Done(Some(Lsn(n))));
    assert(msgs.skip(2).skip(1) == msgs.skip(3));
    assert(slot_answer(t, msgs.skip(2)) == SlotOutcome::Done(Some(Lsn(n))));
    assert(msgs.skip(1).skip(1) == msgs.skip(2));
    assert(msgs.skip(1)[0] == ('D' as u8, row));
    assert(slot_answer(s, msgs.skip(1)) == SlotOutcome::Done(Some(Lsn(n))));
}

/// The body of a data message that carries log data.
pub open spec fn xlog_body(start: Lsn, end: Lsn, clock: nat, data: Seq<u8>) -> Seq<u8> {
    seq!['w' as u8] + be_bytes(start.0 as nat, 8) + be_bytes(end.0 as nat, 8) + be_bytes(clock, 8)
        + data
}

/// Log data comes out of its message as it was put in, without the prefix.
pub proof fn law_log_data_is_unwrapped(start: Lsn, end: Lsn, clock: nat, data: Seq<u8>)
    ensures
        copy_data(xlog_body(start, end, clock, data)) == Ok::<WalItem, Seq<char>>(
            WalItem::XLogData(start, end, data),
        ),
{
    let b = xlog_body(start, end, clock, data);
    crate::bytes::lemma_capacities();
    crate::bytes::law_be_reads_back(start.0 as nat, 8);
    crate::bytes::law_be_reads_back(end.0 as nat, 8);
    crate::bytes::lemma_be_bytes_len(clock, 8);
    assert(b.subrange(1, 9) == be_bytes(start.0 as nat, 8));
    assert(b.subrange(9, 17) == be_bytes(end.0 as nat, 8));
    assert(b.skip(25) == data);
}

/// A status update carries the written position first and the flushed one twice.
pub proof fn law_status_update_layout(write: Lsn, flush: Lsn, now_us: u64)
    ensures
        status_payload(write, flush, now_us).len() == 34,
        lsn_at(status_payload(write, flush, now_us), 1) == write,
        lsn_at(status_payload(write, flush, now_us), 9) == flush,
        lsn_at(status_payload(write, flush, now_us), 17) == flush,
        now_us <= i64::MAX ==> lsn_at(status_payload(write, flush, now_us), 25).0 == now_us,
{
    let clock = if now_us > i64::MAX {
        i64::MAX as nat
    } else {
        now_us as nat
    };
    let b = status_payload(write, flush, now_us);
    crate::bytes::lemma_capacities();
    crate::bytes::law_be_reads_back(write.0 as nat, 8);
    crate::bytes::law_be_reads_back(flush.0 as nat, 8);
    crate::bytes::law_be_reads_back(clock, 8);
    assert(b.subrange(1, 9) == be_bytes(write.0 as nat, 8));
    assert(b.subrange(9, 17) == be_bytes(flush.0 as nat, 8));
    assert(b.subrange(17, 25) == be_bytes(flush.0 as nat, 8));
    assert(b.subrange(25, 33) == be_bytes(clock, 8));
}

/// A segment whose number is within its half of the log starts where its name says, so that
/// streaming resumes at the start of the segment that follows it.
pub proof fn law_segment_names_place_segments(s: Seq<char>)
    requires
        is_segment_name(s),
        hex_number(s.subrange(16, 24)) < 256,
    ensures
        segment_start(s) == hex_number(s.subrange(8, 16)) * 0x1_0000_0000 + hex_number(
            s.subrange(16, 24),
        ) * WAL_SEGMENT_SIZE,
{
    let hi = hex_number(s.subrange(8, 16));
    let lo = hex_number(s.subrange(16, 24));
    assert forall|i: int| 0 <= i < 8 implies #[trigger] crate::number::digit_value(
        s.subrange(8, 16)[i],
    ) < 16 by {
        assert(crate::number::digit_value(s[i + 8]) < 16);
    }
    lemma_eight_digits(s.subrange(8, 16));
    let x = (hi * 0x1_0000_0000) as u64;
    let y = (lo * WAL_SEGMENT_SIZE) as u64;
    assert(x | y == x + y) by (bit_vector)
        requires
            x % 0x1_0000_0000 == 0,
            y < 0x1_0000_0000,
    ;
}

/// The slot that is asked for is a physical one of the given name, and streaming starts from that
/// slot at the given position: these are the words that the server reads.
#[verifier::rlimit(60)]
pub proof fn law_commands_name_slot_and_position(slot: Seq<char>, lsn: Lsn)
    requires
        slot.len() > 0,
        forall|j: int| 0 <= j < slot.len() ==> !is_white(#[trigger] slot[j]),
    ensures
        words(create_slot_command(slot)) == seq!["CREATE_REPLICATION_SLOT"@, slot, "PHYSICAL"@],
        words(start_command(slot, lsn)) == seq![
            "START_REPLICATION"@,
            "SLOT"@,
            slot,
            "PHYSICAL"@,
            lsn_text(lsn.0),
        ],
{
    reveal_strlit(" ");
    reveal_strlit("CREATE_REPLICATION_SLOT ");
    reveal_strlit("CREATE_REPLICATION_SLOT");
    reveal_strlit(" PHYSICAL");
    reveal_strlit("PHYSICAL");
    reveal_strlit("START_REPLICATION SLOT ");
    reveal_strlit("START_REPLICATION");
    reveal_strlit("SLOT");
    reveal_strlit(" PHYSICAL ");
    let none = Seq::<char>::empty();
    let at = lsn_text(lsn.0);
    lemma_lsn_text_visible(lsn.0);
    assert(is_white(' '));
    assert(words(none) == Seq::<Seq<char>>::empty());
    lemma_first_word("PHYSICAL"@, none);
    assert("PHYSICAL"@ + none =~= "PHYSICAL"@);
    lemma_words_behind_space("PHYSICAL"@);
    lemma_first_word(slot, " "@ + "PHYSICAL"@);
    lemma_words_behind_space(slot + (" "@ + "PHYSICAL"@));
    lemma_first_word("CREATE_REPLICATION_SLOT"@, " "@ + (slot + (" "@ + "PHYSICAL"@)));
    assert(create_slot_command(slot) =~= "CREATE_REPLICATION_SLOT"@ + (" "@ + (slot + (" "@
        + "PHYSICAL"@))));
    assert(words(create_slot_command(slot)) =~= seq![
        "CREATE_REPLICATION_SLOT"@,
        slot,
        "PHYSICAL"@,
    ]);
    let a = " "@ + at;
    lemma_first_word(at, none);
    assert(at + none =~= at);
    lemma_words_behind_space(at);
    let b = " "@ + ("PHYSICAL"@ + a);
    lemma_first_word("PHYSICAL"@, a);
    lemma_words_behind_space("PHYSICAL"@ + a);
    let c = " "@ + (slot + b);
    lemma_first_word(slot, b);
    lemma_words_behind_space(slot + b);
    let d = " "@ + ("SLOT"@ + c);
    lemma_first_word("SLOT"@, c);
    lemma_words_behind_space("SLOT"@ + c);
    lemma_first_word("START_REPLICATION"@, d);
    assert(start_command(slot, lsn) =~= "START_REPLICATION"@ + d);
    assert(words(start_command(slot, lsn)) =~= seq![
        "START_REPLICATION"@,
        "SLOT"@,
        slot,
        "PHYSICAL"@,
        at,
    ]);
}

proof fn lemma_lsn_text_visible(n: u64)
    ensures
        lsn_text(n).len() > 0,
        forall|j: int| 0 <= j < lsn_text(n).len() ==> !is_white(#[trigger] lsn_text(n)[j]),
{
    let hi = numeral((n / 0x1_0000_0000) as nat, 16, true);
    let digits = numeral((n % 0x1_0000_0000) as nat, 16, true);
    let lo = zero_padded(digits, 8);
    lemma_numeral_first((n / 0x1_0000_0000) as nat, 16, true);
    lemma_numeral_first((n % 0x1_0000_0000) as nat, 16, true);
    lemma_padded_hex(digits, 8);
    let t = lsn_text(n);
    assert forall|j: int| 0 <= j < t.len() implies !is_white(#[trigger] t[j]) by {
        if j < hi.len() {
            assert(digit_value(hi[j]) < 16);
        } else if j > hi.len() {
            assert(digit_value(lo[j - hi.len() - 1]) < 16);
        }
    }
}

proof fn lemma_padded_hex(s: Seq<char>, w: nat)
    requires
        all_hex(s),
    ensures
        all_hex(zero_padded(s, w)),
{
    let t = zero_padded(s, w);
    let n = t.len() - s.len();
    assert forall|i: int| 0 <= i < t.len() implies #[trigger] digit_value(t[i]) < 16 by {
        if i >= n {
            assert(digit_value(s[i - n]) < 16);
        }
    }
}

/// Streaming has started exactly when the server opens the stream in both directions; a report of an
/// error ends the attempt with that report.
pub proof fn law_streaming_starts(tag: u8, body: Seq<u8>)
    ensures
        start_outcome(tag, body) is Started <==> tag == 'W' as u8,
        start_outcome(tag, body) is Fail <==> tag == 'E' as u8,
        start_outcome('E' as u8, body) == StartOutcome::Fail(
            RecvFault::Protocol("postgres error: "@ + error_text(body)),
        ),
{
}

/// The bytes of columns, each behind its length; a missing value has a length of its own.
pub open spec fn column_bytes(cols: Seq<Option<Seq<u8>>>) -> Seq<u8>
    decreases cols.len(),
{
    if cols.len() == 0 {
        seq![]
    } else {
        (match cols[0] {
            Some(v) => be_bytes(v.len(), 4) + v,
            None => seq![0xffu8, 0xffu8, 0xffu8, 0xffu8],
        }) + column_bytes(cols.skip(1))
    }
}

/// A row of columns, as the server sends it.
pub open spec fn row_bytes(cols: Seq<Option<Seq<u8>>>) -> Seq<u8> {
    be_bytes(cols.len(), 2) + column_bytes(cols)
}

/// Every column of a row is read back, a missing value as none, and no column behind the last.
pub proof fn law_columns_read_back(cols: Seq<Option<Seq<u8>>>, want: nat)
    requires
        cols.len() < 0x1_0000,
        forall|i: int|
            0 <= i < cols.len() ==> ((#[trigger] cols[i]) matches Some(v) ==> v.len() < 0x8000_0000),
    ensures
        row_column(row_bytes(cols), want) == (if want < cols.len() {
            cols[want as int]
        } else {
            None
        }),
{
    let b = row_bytes(cols);
    crate::bytes::lemma_capacities();
    crate::bytes::law_be_reads_back(cols.len(), 2);
    assert(b.take(2) =~= be_bytes(cols.len(), 2));
    assert(b.skip(2) =~= column_bytes(cols));
    lemma_columns(b, 2, cols, want);
}

/// The length that stands for a missing value is no length.
proof fn lemma_missing_length()
    ensures
        be_value(seq![0xffu8, 0xffu8, 0xffu8, 0xffu8]) >= 0x8000_0000,
{
    let head = seq![0xffu8, 0xffu8, 0xffu8, 0xffu8];
    reveal_with_fuel(be_value, 5);
    assert(head.drop_last() =~= seq![0xffu8, 0xffu8, 0xffu8]);
    assert(head.drop_last().drop_last() =~= seq![0xffu8, 0xffu8]);
    assert(head.drop_last().drop_last().drop_last() =~= seq![0xffu8]);
    assert(head.drop_last().drop_last().drop_last().drop_last() =~= seq![]);
}

#[verifier::rlimit(60)]
proof fn lemma_columns(b: Seq<u8>, pos: int, cols: Seq<Option<Seq<u8>>>, want: nat)
    requires
        0 <= pos <= b.len(),
        b.skip(pos) == column_bytes(cols),
        forall|i: int|
            0 <= i < cols.len() ==> ((#[trigger] cols[i]) matches Some(v) ==> v.len() < 0x8000_0000),
    ensures
        column_from(b, pos, cols.len(), want) == (if want < cols.len() {
            cols[want as int]
        } else {
            None
        }),
    decreases cols.len(),
{
    if cols.len() > 0 {
        let rest = cols.skip(1);
        let tail = column_bytes(rest);
        assert forall|i: int| 0 <= i < rest.len() implies ((#[trigger] rest[i]) matches Some(v)
            ==> v.len() < 0x8000_0000) by {
            assert(rest[i] == cols[i + 1]);
        }
        crate::bytes::lemma_capacities();
        match cols[0] {
            Some(v) => {
                assert(v.len() < 0x8000_0000);
                crate::bytes::law_be_reads_back(v.len(), 4);
                let head = be_bytes(v.len(), 4);
                let all = head + v + tail;
                let n = v.len() as int;
                assert(b.skip(pos) =~= all);
                assert(b.len() == pos + all.len());
                assert(all.take(4) =~= head);
                assert(all.subrange(4, 4 + n) =~= v);
                assert forall|j: int| 0 <= j < all.len() implies b[pos + j] == #[trigger] all[j] by {
                    assert(b.skip(pos)[j] == all[j]);
                }
                assert(b.subrange(pos, pos + 4) =~= all.take(4));
                assert(b.subrange(pos + 4, pos + 4 + n) =~= all.subrange(4, 4 + n)) by {
                    assert forall|j: int| 0 <= j < n implies #[trigger] b.subrange(
                        pos + 4,
                        pos + 4 + n,
                    )[j] == all.subrange(4, 4 + n)[j] by {
                        assert(b[pos + (4 + j)] == all[4 + j]);
                    }
                }
                assert(b.skip(pos).skip(4 + n) =~= b.skip(pos + 4 + n));
                assert(all.skip(4 + n) =~= tail);
                if want > 0 {
                    lemma_columns(b, pos + 4 + v.len(), rest, (want - 1) as nat);
                }
            },
            None => {
                let head = seq![0xffu8, 0xffu8, 0xffu8, 0xffu8];
                let all = head + tail;
                lemma_missing_length();
                assert(b.skip(pos) =~= all);
                assert(b.len() == pos + all.len());
                assert(all.take(4) =~= head);
                assert(b.subrange(pos, pos + 4) =~= all.take(4)) by {
                    assert forall|j: int| 0 <= j < 4 implies b[pos + j] == #[trigger] all[j] by {
                        assert(b.skip(pos)[j] == all[j]);
                    }
                }
                assert(b.skip(pos + 4) =~= all.skip(4)) by {
                    assert(b.skip(pos).skip(4) =~= b.skip(pos + 4));
                }
                assert(all.skip(4) =~= tail);
                if want > 0 {
                    lemma_columns(b, pos + 4, rest, (want - 1) as nat);
                }
            },
        }
    }
}

/// How an answer to a request for identification ends: with the first message that ends it.
pub open spec fn identity_answer(s: Identity, msgs: Seq<(u8, Seq<u8>)>) -> IdentityOutcome
    decreases msgs.len(),
{
    if msgs.len() == 0 {
        IdentityOutcome::Read
    } else {
        let (next, out) = identity_transition(s, msgs[0].0, msgs[0].1);
        if out is Read {
            identity_answer(next, msgs.skip(1))
        } else {
            out
        }
    }
}

/// The server's timeline stands in the second column of its row, and the position of its log in the
/// third; both come out as they are written there. A report of an error ends the request with it.
pub proof fn law_server_is_identified(row: Seq<u8>, ready: Seq<u8>, timeline: u32, pos: u64)
    requires
        row_text(row, 1) == Some(decimal(timeline as nat)),
        row_text(row, 2) == Some(lsn_text(pos)),
    ensures
        identity_answer(
            Identity { timeline: 1, xlogpos: Lsn(0) },
            seq![('D' as u8, row), ('Z' as u8, ready)],
        ) == IdentityOutcome::Done(timeline, Lsn(pos)),
        identity_answer(
            Identity { timeline: 1, xlogpos: Lsn(0) },
            seq![('E' as u8, row), ('Z' as u8, ready)],
        ) == IdentityOutcome::Fail(server_fault(row)),
{
    crate::wal_proto::lsn::law_lsn_text_round_trip(pos);
    law_numeral_reads_back(timeline as nat, 10, false, u32::MAX as nat);
    let s = Identity { timeline: 1, xlogpos: Lsn(0) };
    let t = Identity { timeline, xlogpos: Lsn(pos) };
    let msgs = seq![('D' as u8, row), ('Z' as u8, ready)];
    let other = seq![('E' as u8, row), ('Z' as u8, ready)];
    assert(msgs[0] == ('D' as u8, row) && other[0] == ('E' as u8, row));
    assert(msgs.skip(1)[0] == ('Z' as u8, ready));
    assert(identity_answer(t, msgs.skip(1)) == IdentityOutcome::Done(timeline, Lsn(pos)));
}

/// A sign of life tells the server's position, and asks for a reply exactly if its last byte is not
/// zero.
pub proof fn law_keepalive_is_read(pos: Lsn, clock: nat, flag: u8)
    ensures
        copy_data(
            (seq!['k' as u8] + be_bytes(pos.0 as nat, 8) + be_bytes(clock, 8)).push(flag),
        ) == Ok::<WalItem, Seq<char>>(WalItem::Keepalive(pos, flag != 0)),
{
    let b = (seq!['k' as u8] + be_bytes(pos.0 as nat, 8) + be_bytes(clock, 8)).push(flag);
    crate::bytes::lemma_capacities();
    crate::bytes::law_be_reads_back(pos.0 as nat, 8);
    crate::bytes::lemma_be_bytes_len(clock, 8);
    assert(b.subrange(1, 9) =~= be_bytes(pos.0 as nat, 8));
    assert(b[17] == flag);
}

/// Of the messages of the stream only data carries anything; what announces the end, a setting or a
/// notice is passed over, a report of an error ends the stream with that report, and any other
/// message is a fault. Data that is empty, cut short or of an unknown kind is a fault too.
pub proof fn law_stream_messages(tag: u8, body: Seq<u8>)
    ensures
        wal_event(tag, body) is None <==> tag == 'c' as u8 || tag == 'C' as u8 || tag == 'S' as u8
            || tag == 'N' as u8,
        (wal_event(tag, body) matches Some(Ok(_))) ==> tag == 'd' as u8,
        tag == 'E' as u8 ==> wal_event(tag, body) == Some(
            Err::<WalItem, RecvFault>(
                RecvFault::Protocol("postgres error: "@ + error_text(body)),
            ),
        ),
        body.len() == 0 ==> copy_data(body) is Err,
        body.len() > 0 && body[0] != 'w' as u8 && body[0] != 'k' as u8 ==> copy_data(body) is Err,
        0 < body.len() < 25 && body[0] == 'w' as u8 ==> copy_data(body) is Err,
        0 < body.len() < 18 && body[0] == 'k' as u8 ==> copy_data(body) is Err,
        tag == 'd' as u8 ==> (copy_data(body) matches Ok(i) ==> wal_event(tag, body) == Some(
            Ok::<WalItem, RecvFault>(i),
        )),
{
}

/// The server's clock counts microseconds from the start of the year 2000, which is 946684800
/// seconds after that of 1970; times before it count as its start.
pub proof fn law_clock_starts_in_2000(secs: u64, micros: u32)
    ensures
        946_684_800 <= secs && (secs - 946_684_800) * 1_000_000 <= u64::MAX ==> pg_micros(
            secs,
            micros,
        ) == (secs - 946_684_800) * 1_000_000 + micros,
        secs < 946_684_800 ==> pg_micros(secs, micros) == micros,
{
}

/// A status update is told by its first byte, asks for no reply, and its clock never exceeds what a
/// signed number holds.
pub proof fn law_status_update_is_told(write: Lsn, flush: Lsn, now_us: u64)
    ensures
        status_payload(write, flush, now_us)[0] == 'r' as u8,
        status_payload(write, flush, now_us).last() == 0,
        now_us > i64::MAX ==> lsn_at(status_payload(write, flush, now_us), 25).0 == i64::MAX,
{
    let b = status_payload(write, flush, now_us);
    let clock = if now_us > i64::MAX {
        i64::MAX as nat
    } else {
        now_us as nat
    };
    crate::bytes::lemma_capacities();
    crate::bytes::law_be_reads_back(write.0 as nat, 8);
    crate::bytes::law_be_reads_back(flush.0 as nat, 8);
    crate::bytes::law_be_reads_back(clock, 8);
    assert(b.subrange(25, 33) =~= be_bytes(clock, 8));
}

/// The name of a segment is 24 hexadecimal digits, and nothing else is.
pub proof fn law_segment_names_are_hexadecimal(s: Seq<char>)
    ensures
        is_segment_name(s) <==> s.len() == 24 && forall|i: int|
            0 <= i < s.len() ==> {
                let c = #[trigger] s[i];
                '0' <= c <= '9' || 'a' <= c <= 'f' || 'A' <= c <= 'F'
            },
{
    if is_segment_name(s) {
        assert forall|i: int| 0 <= i < s.len() implies {
            let c = #[trigger] s[i];
            '0' <= c <= '9' || 'a' <= c <= 'f' || 'A' <= c <= 'F'
        } by {
            assert(digit_value(s[i]) < 16);
        }
    }
}

/// Streaming resumes where the segment behind the last one starts: segments are 16 MB long, 256 of
/// them make up a half of the log that the middle digits of a name count, and the last digits count
/// them within it.
pub proof fn law_streaming_resumes_behind_the_last_segment(s: Seq<char>)
    requires
        is_segment_name(s),
        hex_number(s.subrange(16, 24)) < 256,
    ensures
        resume_point(s) == hex_number(s.subrange(8, 16)) * 4_294_967_296 + (hex_number(
            s.subrange(16, 24),
        ) + 1) * 16_777_216,
{
    law_segment_names_place_segments(s);
}

/// Streaming resumes behind the segment whose name is the highest: no segment of the directory comes
/// after it, and files that are no segments do not count.
pub proof fn law_highest_segment_is_the_last(names: Seq<String>, m: int, j: int)
    requires
        is_highest(names, m),
        0 <= j < names.len(),
        names[j]@.len() == 24 && all_hex(names[j]@),
    ensures
        names[m]@.len() == 24 && all_hex(names[m]@),
        names[j]@ == names[m]@ || precedes(names[j]@, names[m]@),
{
    assert(is_segment_name(names[j]@));
    if names[j]@ != names[m]@ {
        crate::text::lemma_precedes_total(names[j]@, names[m]@);
    }
}

/// An answer is read from a state in which nothing is known: a server that is ready at once has created
/// no slot, and has told neither a timeline but the first nor a position. A query goes out as its text
/// and a zero byte.
pub proof fn law_requests_start_from_nothing(ready: Seq<u8>, sql: Seq<char>)
    ensures
        slot_answer(fresh_slot_request(), seq![('Z' as u8, ready)]) == SlotOutcome::Done(None),
        identity_answer(unidentified(), seq![('Z' as u8, ready)]) == IdentityOutcome::Done(
            1,
            Lsn(0),
        ),
        !fresh_slot_request().draining && fresh_slot_request().point is None,
        identify_command() == "IDENTIFY_SYSTEM"@,
        query_payload(sql) == encode_utf8(sql).push(0),
{
}

} // verus!
