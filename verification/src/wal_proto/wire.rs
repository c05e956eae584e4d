//! Message framing, the startup packet, and error reports.
use crate::bytes::{
    be_bytes, be_value, find_byte, lossy, lossy_text, next_of, push_be, push_bytes, push_text,
    read_be,
};
use crate::number::{decimal, push_decimal};
use vstd::prelude::*;
use vstd::slice::slice_subrange;
use vstd::utf8::encode_utf8;

verus! {

// ---------------------------------------------------------------------------
// Errors.
// ---------------------------------------------------------------------------
/// The kinds of transport failure that the replication loop tells apart.
#[derive(Clone, Copy, Debug, PartialEq, Eq, Structural)]
pub enum IoKind {
    /// A read ran into its deadline.
    TimedOut,
    /// A read would have had to wait.
    WouldBlock,
    /// The peer sent what the protocol does not allow.
    InvalidData,
    /// Anything else.
    Other,
}

/// A transport failure: its kind and its words.
#[derive(Debug)]
pub struct IoFailure {
    pub kind: IoKind,
    pub message: String,
}

/// What can go wrong on a replication connection.
///
/// `Config` is fatal and must not be retried; the other two may pass.
#[derive(Debug)]
pub enum RecvError {
    Io(IoFailure),
    Protocol(String),
    Config(String),
}

/// What a `RecvError` is about, without its representation.
pub enum RecvFault {
    Io(IoKind, Seq<char>),
    Protocol(Seq<char>),
    Config(Seq<char>),
}

impl View for RecvError {
    type V = RecvFault;

    open spec fn view(&self) -> RecvFault {
        match self {
            RecvError::Io(f) => RecvFault::Io(f.kind, f.message@),
            RecvError::Protocol(m) => RecvFault::Protocol(m@),
            RecvError::Config(m) => RecvFault::Config(m@),
        }
    }
}

/// The words of a fault.
pub open spec fn recv_fault_text(f: RecvFault) -> Seq<char> {
    match f {
        RecvFault::Io(_, m) => "io: "@ + m,
        RecvFault::Protocol(m) => "protocol: "@ + m,
        RecvFault::Config(m) => "config: "@ + m,
    }
}

impl RecvError {
    /// The words of this error.
    pub fn to_string(&self) -> (r: String)
        ensures
            r@ == recv_fault_text(self@),
    {
        let mut out = String::new();
        match self {
            RecvError::Io(f) => {
                out.append("io: ");
                out.append(f.message.as_str());
            },
            RecvError::Protocol(m) => {
                out.append("protocol: ");
                out.append(m.as_str());
            },
            RecvError::Config(m) => {
                out.append("config: ");
                out.append(m.as_str());
            },
        }
        out
    }
}

// ---------------------------------------------------------------------------
// Frames.
// ---------------------------------------------------------------------------
/// A message on the wire: its tag, its length counting the length field, its payload.
pub open spec fn frame(tag: u8, payload: Seq<u8>) -> Seq<u8> {
    seq![tag] + be_bytes(payload.len() + 4, 4) + payload
}

/// What the five bytes in front of a payload say: the tag and the length of the payload.
pub open spec fn header(h: Seq<u8>) -> Result<(u8, nat), Seq<char>> {
    let len = be_value(h.subrange(1, 5));
    if len < 4 {
        Err("invalid message length "@ + decimal(len) + " for tag "@ + decimal(h[0] as nat))
    } else {
        Ok((h[0], (len - 4) as nat))
    }
}

/// Builds a message.
pub fn write_msg(tag: u8, payload: &[u8]) -> (r: Vec<u8>)
    requires
        payload@.len() + 4 <= u32::MAX,
    ensures
        r@ == frame(tag, payload@),
{
    let mut buf: Vec<u8> = Vec::new();
    buf.push(tag);
    push_be(&mut buf, payload.len() as u64 + 4, 4);
    push_bytes(&mut buf, payload);
    assert(buf@ == frame(tag, payload@));
    buf
}

/// Reads the header of a message: the tag and how many payload bytes follow.
pub fn read_msg_header(hdr: &[u8; 5]) -> (r: Result<(u8, usize), String>)
    ensures
        match r {
            Ok((tag, n)) => header(hdr@) == Ok::<(u8, nat), Seq<char>>((tag, n as nat)),
            Err(e) => header(hdr@) == Err::<(u8, nat), Seq<char>>(e@),
        },
{
    let len: u64 = read_be(hdr.as_slice(), 1, 4);
    proof {
        crate::bytes::lemma_capacities();
    }
    if len < 4 {
        let mut out = String::new();
        out.append("invalid message length ");
        push_decimal(&mut out, len);
        out.append(" for tag ");
        push_decimal(&mut out, hdr[0] as u64);
        return Err(out);
    }
    Ok((hdr[0], (len - 4) as usize))
}

/// The header of a message that was built announces that message's tag and payload length, and
/// the payload follows the header.
pub proof fn law_frame_reads_back(tag: u8, payload: Seq<u8>)
    requires
        payload.len() + 4 <= u32::MAX,
    ensures
        header(frame(tag, payload).take(5)) == Ok::<(u8, nat), Seq<char>>((tag, payload.len())),
        frame(tag, payload).skip(5) == payload,
{
    let len = be_bytes(payload.len() + 4, 4);
    crate::bytes::lemma_capacities();
    crate::bytes::law_be_reads_back(payload.len() + 4, 4);
    assert(frame(tag, payload).take(5).subrange(1, 5) == len);
    assert(frame(tag, payload).skip(5) == payload);
}

// ---------------------------------------------------------------------------
// The startup packet.
// ---------------------------------------------------------------------------
/// Protocol version 3.0.
pub const PROTOCOL_VERSION: u32 = 196_608;

/// Names and values, each followed by a zero byte.
pub open spec fn startup_params(ps: Seq<(&str, &str)>) -> Seq<u8>
    decreases ps.len(),
{
    if ps.len() == 0 {
        seq![]
    } else {
        startup_params(ps.drop_last()) + encode_utf8(ps.last().0@).push(0) + encode_utf8(
            ps.last().1@,
        ).push(0)
    }
}

/// The body of the startup packet: version, parameters, a closing zero byte.
pub open spec fn startup_body(ps: Seq<(&str, &str)>) -> Seq<u8> {
    (be_bytes(PROTOCOL_VERSION as nat, 4) + startup_params(ps)).push(0)
}

/// The startup packet: its length counting the length field, then its body.
pub open spec fn startup_packet(ps: Seq<(&str, &str)>) -> Seq<u8> {
    be_bytes(startup_body(ps).len() + 4, 4) + startup_body(ps)
}

/// Builds the startup packet.
pub fn startup_message(params: &[(&str, &str)]) -> (r: Vec<u8>)
    requires
        startup_body(params@).len() + 4 <= u32::MAX,
    ensures
        r@ == startup_packet(params@),
{
    let mut body: Vec<u8> = Vec::new();
    push_be(&mut body, PROTOCOL_VERSION as u64, 4);
    assert(startup_params(params@.take(0)) == Seq::<u8>::empty());
    for i in 0..params.len()
        invariant
            body@ == be_bytes(PROTOCOL_VERSION as nat, 4) + startup_params(params@.take(i as int)),
    {
        let ghost so_far = params@.take(i + 1);
        assert(so_far.drop_last() == params@.take(i as int));
        push_text(&mut body, params[i].0);
        body.push(0);
        push_text(&mut body, params[i].1);
        body.push(0);
        assert(body@ == be_bytes(PROTOCOL_VERSION as nat, 4) + startup_params(so_far));
    }
    assert(params@.take(params@.len() as int) == params@);
    body.push(0);
    let mut msg: Vec<u8> = Vec::new();
    push_be(&mut msg, body.len() as u64 + 4, 4);
    push_bytes(&mut msg, body.as_slice());
    msg
}

// ---------------------------------------------------------------------------
// Error reports.
// ---------------------------------------------------------------------------
/// The fields of an error report from position `i` on: a type byte and a value that ends in a
/// zero byte or with the report.
pub open spec fn error_fields(p: Seq<u8>, i: int) -> Seq<(u8, Seq<u8>)>
    decreases p.len() + 1 - i,
{
    if i < 0 || i >= p.len() || p[i] == 0 {
        seq![]
    } else {
        proof {
            crate::bytes::lemma_next_of(p, 0, i + 1);
        }
        let e = next_of(p, 0, i + 1);
        seq![(p[i], p.subrange(i + 1, e))] + error_fields(p, e + 1)
    }
}

/// The text of the last field of type `t`; empty where there is none.
pub open spec fn field_text(fs: Seq<(u8, Seq<u8>)>, t: u8) -> Seq<char>
    decreases fs.len(),
{
    if fs.len() == 0 {
        seq![]
    } else if fs.last().0 == t {
        lossy(fs.last().1)
    } else {
        field_text(fs.drop_last(), t)
    }
}

/// `before`, the text and `after`, unless the text is empty.
pub open spec fn unless_empty(before: Seq<char>, s: Seq<char>, after: Seq<char>) -> Seq<char> {
    if s.len() == 0 {
        seq![]
    } else {
        before + s + after
    }
}

/// What an error report says, in one line.
pub open spec fn error_text(p: Seq<u8>) -> Seq<char> {
    let fs = error_fields(p, 0);
    let message = field_text(fs, 'M' as u8);
    if message.len() == 0 {
        "unknown postgres error"@
    } else {
        unless_empty(""@, field_text(fs, 'S' as u8), " "@) + unless_empty(
            ""@,
            field_text(fs, 'C' as u8),
            ": "@,
        ) + message + unless_empty(" (DETAIL: "@, field_text(fs, 'D' as u8), ")"@) + unless_empty(
            " (HINT: "@,
            field_text(fs, 'H' as u8),
            ")"@,
        )
    }
}

fn push_unless_empty(out: &mut String, before: &str, s: &str, after: &str)
    ensures
        final(out)@ == old(out)@ + unless_empty(before@, s@, after@),
{
    if !s.is_empty() {
        out.append(before);
        out.append(s);
        out.append(after);
    }
    assert(out@ == old(out)@ + unless_empty(before@, s@, after@));
}

/// The text of the last field of a type in an error report; empty where there is none.
pub fn error_field(payload: &[u8], field: u8) -> (r: String)
    ensures
        r@ == field_text(error_fields(payload@, 0), field),
{
    let mut out = String::new();
    let mut i: usize = 0;
    let ghost mut done: Seq<(u8, Seq<u8>)> = seq![];
    assert(done + error_fields(payload@, 0) == error_fields(payload@, 0));
    while i < payload.len() && payload[i] != 0
        invariant
            0 <= i <= payload@.len(),
            done + error_fields(payload@, i as int) == error_fields(payload@, 0),
            out@ == field_text(done, field),
        decreases payload@.len() - i,
    {
        let found: u8 = payload[i];
        let end: usize = find_byte(payload, 0, i + 1);
        let raw: &[u8] = slice_subrange(payload, i + 1, end);
        let ghost now = done.push((found, raw@));
        proof {
            assert(now.drop_last() == done);
            assert(error_fields(payload@, i as int) == seq![(found, raw@)] + error_fields(
                payload@,
                end + 1,
            ));
            assert(done + (seq![(found, raw@)] + error_fields(payload@, end + 1)) == now
                + error_fields(payload@, end + 1));
            assert(end == payload@.len() ==> error_fields(payload@, end + 1) == error_fields(
                payload@,
                end as int,
            ));
            done = now;
        }
        if found == field {
            out = lossy_text(raw);
        }
        i = if end < payload.len() {
            end + 1
        } else {
            end
        };
    }
    assert(done == error_fields(payload@, 0));
    out
}

/// Renders an error report in one line.
pub fn decode_error(payload: &[u8]) -> (r: String)
    ensures
        r@ == error_text(payload@),
{
    let severity: String = error_field(payload, 83);
    let code: String = error_field(payload, 67);
    let msg: String = error_field(payload, 77);
    let detail: String = error_field(payload, 68);
    let hint: String = error_field(payload, 72);
    if msg.as_str().is_empty() {
        return "unknown postgres error".to_owned();
    }
    let mut out = String::new();
    push_unless_empty(&mut out, "", severity.as_str(), " ");
    push_unless_empty(&mut out, "", code.as_str(), ": ");
    out.append(msg.as_str());
    push_unless_empty(&mut out, " (DETAIL: ", detail.as_str(), ")");
    push_unless_empty(&mut out, " (HINT: ", hint.as_str(), ")");
    assert(out@ == error_text(payload@));
    out
}

/// A message begins with its tag; the four bytes behind it count themselves and the payload.
pub proof fn law_frame_layout(tag: u8, payload: Seq<u8>)
    requires
        payload.len() + 4 <= u32::MAX,
    ensures
        frame(tag, payload)[0] == tag,
        be_value(frame(tag, payload).subrange(1, 5)) == payload.len() + 4,
        frame(tag, payload).len() == payload.len() + 5,
        frame(tag, payload).skip(5) == payload,
{
    let b = frame(tag, payload);
    crate::bytes::lemma_capacities();
    crate::bytes::law_be_reads_back(payload.len() + 4, 4);
    assert(b.subrange(1, 5) =~= be_bytes(payload.len() + 4, 4));
    assert(b.skip(5) =~= payload);
}

/// A header whose length does not even count itself is refused.
pub proof fn law_short_length_is_refused(h: Seq<u8>)
    requires
        h.len() == 5,
    ensures
        header(h) is Err <==> be_value(h.subrange(1, 5)) < 4,
{
}

/// The bytes of fields, each behind its type and in front of a zero byte.
pub open spec fn field_bytes(fs: Seq<(u8, Seq<u8>)>) -> Seq<u8>
    decreases fs.len(),
{
    if fs.len() == 0 {
        seq![]
    } else {
        seq![fs[0].0] + fs[0].1.push(0) + field_bytes(fs.skip(1))
    }
}

/// Every field of an error report is found, in the order in which the server sent them, up to the
/// zero byte that ends the report.
pub proof fn law_error_fields_read_back(fs: Seq<(u8, Seq<u8>)>, rest: Seq<u8>)
    requires
        forall|k: int|
            0 <= k < fs.len() ==> (#[trigger] fs[k]).0 != 0 && forall|j: int|
                0 <= j < fs[k].1.len() ==> #[trigger] fs[k].1[j] != 0,
    ensures
        error_fields(field_bytes(fs).push(0) + rest, 0) == fs,
{
    let p = field_bytes(fs).push(0) + rest;
    assert(p.skip(0) =~= field_bytes(fs).push(0) + rest);
    lemma_fields(p, 0, fs, rest);
}

proof fn lemma_fields(p: Seq<u8>, i: int, fs: Seq<(u8, Seq<u8>)>, rest: Seq<u8>)
    requires
        0 <= i <= p.len(),
        p.skip(i) == field_bytes(fs).push(0) + rest,
        forall|k: int|
            0 <= k < fs.len() ==> (#[trigger] fs[k]).0 != 0 && forall|j: int|
                0 <= j < fs[k].1.len() ==> #[trigger] fs[k].1[j] != 0,
    ensures
        error_fields(p, i) == fs,
    decreases fs.len(),
{
    assert(p.skip(i).len() > 0);
    assert(p[i] == p.skip(i)[0]);
    if fs.len() == 0 {
        assert(p[i] == 0);
        assert(error_fields(p, i) =~= fs);
    } else {
        let (t, v) = fs[0];
        let more = fs.skip(1);
        assert(fs[0].0 != 0);
        let all = seq![t] + v.push(0) + field_bytes(more);
        assert(p[i] == t);
        let e = i + 1 + v.len();
        assert forall|k: int| i + 1 <= k < e implies #[trigger] p[k] != 0 && p[k] == v[k - i
            - 1] by {
            let j = k - i - 1;
            assert(p[k] == p.skip(i)[1 + j]);
            assert(all[1 + j] == v[j]);
            assert(fs[0].1[j] != 0);
        }
        assert(p[e] == 0) by {
            assert(p[e] == p.skip(i)[1 + v.len() as int]);
            assert(all[1 + v.len() as int] == 0);
        }
        crate::bytes::lemma_next_of(p, 0, i + 1);
        let found = next_of(p, 0, i + 1);
        assert(found == e) by {
            if found < e {
                assert(p[found] != 0);
            }
        }
        assert(p.subrange(i + 1, e) =~= v);
        assert(p.skip(e + 1) =~= p.skip(i).skip(2 + v.len() as int));
        assert((all.push(0) + rest).skip(2 + v.len() as int) =~= field_bytes(more).push(0) + rest);
        assert forall|k: int| 0 <= k < more.len() implies (#[trigger] more[k]).0 != 0 && forall|
            j: int,
        | 0 <= j < more[k].1.len() ==> #[trigger] more[k].1[j] != 0 by {
            assert(more[k] == fs[k + 1]);
        }
        lemma_fields(p, e + 1, more, rest);
        assert(seq![(t, v)] + more =~= fs);
    }
}

/// A report is told in one line: severity and code in front of the message, details and hint behind
/// it in brackets, each only where it is there; a report without a message is told as unknown.
pub proof fn law_report_is_told(p: Seq<u8>)
    ensures
        ({
            let fs = error_fields(p, 0);
            let (severity, code) = (field_text(fs, 'S' as u8), field_text(fs, 'C' as u8));
            let message = field_text(fs, 'M' as u8);
            let (detail, hint) = (field_text(fs, 'D' as u8), field_text(fs, 'H' as u8));
            &&& message.len() == 0 ==> error_text(p) == "unknown postgres error"@
            &&& message.len() > 0 && severity.len() > 0 && code.len() > 0 && detail.len() == 0
                && hint.len() == 0 ==> error_text(p) == severity + " "@ + code + ": "@ + message
            &&& message.len() > 0 && severity.len() > 0 && code.len() > 0 && detail.len() > 0
                && hint.len() > 0 ==> error_text(p) == severity + " "@ + code + ": "@ + message
                + " (DETAIL: "@ + detail + ")"@ + " (HINT: "@ + hint + ")"@
            &&& message.len() > 0 && severity.len() == 0 && code.len() == 0 && detail.len() == 0
                && hint.len() == 0 ==> error_text(p) == message
        }),
{
    reveal_strlit("");
    let fs = error_fields(p, 0);
    let (severity, code) = (field_text(fs, 'S' as u8), field_text(fs, 'C' as u8));
    let message = field_text(fs, 'M' as u8);
    let (detail, hint) = (field_text(fs, 'D' as u8), field_text(fs, 'H' as u8));
    let none = Seq::<char>::empty();
    assert(""@ + severity + " "@ =~= severity + " "@);
    assert(""@ + code + ": "@ =~= code + ": "@);
    if message.len() > 0 && severity.len() > 0 && code.len() > 0 && detail.len() == 0 && hint.len()
        == 0 {
        assert(error_text(p) =~= severity + " "@ + code + ": "@ + message);
    }
    if message.len() > 0 && severity.len() > 0 && code.len() > 0 && detail.len() > 0 && hint.len()
        > 0 {
        assert(error_text(p) =~= severity + " "@ + code + ": "@ + message + " (DETAIL: "@ + detail
            + ")"@ + " (HINT: "@ + hint + ")"@);
    }
    if message.len() > 0 && severity.len() == 0 && code.len() == 0 && detail.len() == 0
        && hint.len() == 0 {
        assert(error_text(p) =~= message);
    }
}

/// Of several fields of one type the last one counts, and a type that is not there has no text.
pub proof fn law_last_field_counts(fs: Seq<(u8, Seq<u8>)>, t: u8, v: Seq<u8>, other: u8)
    requires
        other != t,
    ensures
        field_text(fs.push((t, v)), t) == lossy(v),
        field_text(fs.push((t, v)), other) == field_text(fs, other),
        field_text(seq![], t).len() == 0,
{
    assert(fs.push((t, v)).drop_last() =~= fs);
}

} // verus!
