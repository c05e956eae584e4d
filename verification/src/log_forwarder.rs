//! Output of supervised processes: cut into lines, limited in rate, and passed on.
//!
//! A process is never held up: what cannot be passed on is dropped and counted, and the count is
//! told before the next line that gets through.
use crate::bytes::{find_byte, lemma_next_of, lossy, lossy_text, next_of, read_text, tail, utf8_text};
use crate::number::{decimal, push_decimal};
use crate::text::copy_str;
use crate::vsock::{ExecStream, MAX_USER_PROCESS_LINE_BYTES};
use vstd::prelude::*;
use vstd::slice::slice_subrange;

verus! {

/// A line of output of a supervised process.
#[derive(Debug)]
pub struct LogFrame {
    pub stream: ExecStream,
    pub line: String,
    /// The line and its end took more bytes than are kept. Where only the end was too much, all of
    /// the line is there all the same.
    pub truncated: bool,
    pub execution_id: String,
}

/// The identifier of processes that run as long as the machine does.
pub const ZERO_EXECUTION_ID: &'static str = "00000000-0000-0000-0000-000000000000";

/// The identifier of processes that run as long as the machine does.
pub fn zero_execution_id() -> (r: String)
    ensures
        r@ == ZERO_EXECUTION_ID@,
{
    copy_str(ZERO_EXECUTION_ID)
}

// ---------------------------------------------------------------------------
// The rate.
// ---------------------------------------------------------------------------
/// Lines per second that a stream may have.
pub const LOG_RATE_LINES_PER_SEC: u64 = 500;

/// Lines that a stream may have at once.
pub const LOG_BURST_LINES: u64 = 1000;

/// The time in which one line is allowed, in nanoseconds.
pub const LINE_COST_NS: u64 = 2_000_000;

/// The time in which a whole burst is allowed, in nanoseconds.
pub const FULL_LEVEL_NS: u64 = 2_000_000_000;

/// Limits the rate of a stream. The level is kept as the time in which the lines that may still
/// pass would be allowed; it fills as time goes by.
#[derive(Clone, Copy, Debug, PartialEq, Eq, Structural)]
pub struct TokenBucket {
    pub level_ns: u64,
    pub last_refill_ns: u64,
}

/// The level after refilling.
pub open spec fn refilled(b: TokenBucket, now_ns: u64) -> int {
    let elapsed = if now_ns >= b.last_refill_ns {
        now_ns - b.last_refill_ns
    } else {
        0
    };
    if b.level_ns + elapsed < FULL_LEVEL_NS {
        b.level_ns + elapsed
    } else {
        FULL_LEVEL_NS as int
    }
}

/// Whether a line may pass, and the bucket after it.
pub open spec fn consumed(b: TokenBucket, now_ns: u64) -> (bool, TokenBucket) {
    let level = refilled(b, now_ns);
    if level >= LINE_COST_NS {
        (
            true,
            TokenBucket { level_ns: (level - LINE_COST_NS) as u64, last_refill_ns: now_ns },
        )
    } else {
        (false, TokenBucket { level_ns: level as u64, last_refill_ns: now_ns })
    }
}

/// A bucket that lets a whole burst pass.
pub open spec fn fresh_bucket(now_ns: u64) -> TokenBucket {
    TokenBucket { level_ns: FULL_LEVEL_NS, last_refill_ns: now_ns }
}

impl TokenBucket {
    /// A bucket that lets a whole burst pass.
    pub fn new(now_ns: u64) -> (r: TokenBucket)
        ensures
            r == fresh_bucket(now_ns),
    {
        TokenBucket { level_ns: FULL_LEVEL_NS, last_refill_ns: now_ns }
    }

    /// Whether a line may pass; if so, it is counted.
    pub fn consume(&mut self, now_ns: u64) -> (r: bool)
        ensures
            (r, *final(self)) == consumed(*old(self), now_ns),
    {
        let elapsed: u64 = now_ns.saturating_sub(self.last_refill_ns);
        let level: u64 = if self.level_ns < FULL_LEVEL_NS && elapsed < FULL_LEVEL_NS
            - self.level_ns {
            self.level_ns + elapsed
        } else {
            FULL_LEVEL_NS
        };
        self.last_refill_ns = now_ns;
        if level >= LINE_COST_NS {
            self.level_ns = level - LINE_COST_NS;
            true
        } else {
            self.level_ns = level;
            false
        }
    }
}

/// The bucket after lines at these times.
pub open spec fn after_lines(b: TokenBucket, times: Seq<u64>) -> TokenBucket
    decreases times.len(),
{
    if times.len() == 0 {
        b
    } else {
        consumed(after_lines(b, times.drop_last()), times.last()).1
    }
}

/// How many of the lines at these times pass.
pub open spec fn passed(b: TokenBucket, times: Seq<u64>) -> nat
    decreases times.len(),
{
    if times.len() == 0 {
        0
    } else {
        passed(b, times.drop_last()) + if consumed(
            after_lines(b, times.drop_last()),
            times.last(),
        ).0 {
            1nat
        } else {
            0
        }
    }
}

/// Times that never go back.
pub open spec fn ascending(start: u64, times: Seq<u64>) -> bool {
    &&& forall|i: int| 0 <= i < times.len() ==> start <= #[trigger] times[i]
    &&& forall|i: int, j: int| 0 <= i <= j < times.len() ==> times[i] <= times[j]
}

proof fn lemma_after_lines(b: TokenBucket, times: Seq<u64>)
    requires
        b.level_ns <= FULL_LEVEL_NS,
        ascending(b.last_refill_ns, times),
        times.len() > 0,
    ensures
        after_lines(b, times).last_refill_ns == times.last(),
        after_lines(b, times).level_ns + passed(b, times) * LINE_COST_NS <= b.level_ns + (
        times.last() - b.last_refill_ns),
    decreases times.len(),
{
    let init = times.drop_last();
    if init.len() > 0 {
        assert forall|i: int| 0 <= i < init.len() implies b.last_refill_ns
            <= #[trigger] init[i] by {
            assert(init[i] == times[i]);
        }
        lemma_after_lines(b, init);
        assert(init.last() == times[times.len() - 2]);
        assert(init.last() <= times.last());
    } else {
        assert(times.last() == times[0]);
        assert(after_lines(b, init) == b && passed(b, init) == 0);
    }
}

/// However many lines there are, no more pass in any span of time than a burst and those that the
/// rate allows within it.
pub proof fn law_rate_is_limited(b: TokenBucket, times: Seq<u64>)
    requires
        b.level_ns <= FULL_LEVEL_NS,
        ascending(b.last_refill_ns, times),
        times.len() > 0,
    ensures
        passed(b, times) * LINE_COST_NS <= LOG_BURST_LINES * LINE_COST_NS + (times.last()
            - b.last_refill_ns),
{
    lemma_after_lines(b, times);
}

/// A full bucket lets a whole burst pass at once.
pub proof fn law_burst_passes(now_ns: u64, times: Seq<u64>)
    requires
        times.len() <= LOG_BURST_LINES,
        forall|i: int| 0 <= i < times.len() ==> times[i] == now_ns,
    ensures
        ({
            let b = TokenBucket { level_ns: FULL_LEVEL_NS, last_refill_ns: now_ns };
            &&& passed(b, times) == times.len()
            &&& after_lines(b, times) == (TokenBucket {
                level_ns: (FULL_LEVEL_NS - times.len() * LINE_COST_NS) as u64,
                last_refill_ns: now_ns,
            })
        }),
    decreases times.len(),
{
    if times.len() > 0 {
        assert(times.last() == times[times.len() - 1]);
        assert forall|i: int| 0 <= i < times.drop_last().len() implies times.drop_last()[i]
            == now_ns by {
            assert(times.drop_last()[i] == times[i]);
        }
        law_burst_passes(now_ns, times.drop_last());
    }
}

// ---------------------------------------------------------------------------
// Lines.
// ---------------------------------------------------------------------------
/// A line, without its end, as far as it is kept.
#[derive(Debug)]
pub struct LogLine {
    pub bytes: Vec<u8>,
    pub truncated: bool,
}

/// A line, without its representation.
pub struct LineText {
    pub bytes: Seq<u8>,
    pub truncated: bool,
}

impl View for LogLine {
    type V = LineText;

    open spec fn view(&self) -> LineText {
        LineText { bytes: self.bytes@, truncated: self.truncated }
    }
}

/// What is kept of the bytes of a line.
pub open spec fn kept(raw: Seq<u8>) -> Seq<u8> {
    if raw.len() <= MAX_USER_PROCESS_LINE_BYTES {
        raw
    } else {
        raw.take(MAX_USER_PROCESS_LINE_BYTES as int)
    }
}

/// Bytes without this one at their end.
pub open spec fn without_end(s: Seq<u8>, b: u8) -> Seq<u8> {
    if s.len() > 0 && s.last() == b {
        s.drop_last()
    } else {
        s
    }
}

/// The line that bytes show, which hold its end if it has one.
pub open spec fn line_of(raw: Seq<u8>) -> LineText {
    LineText {
        bytes: without_end(without_end(kept(raw), 10), 13),
        truncated: raw.len() > MAX_USER_PROCESS_LINE_BYTES,
    }
}

/// The bytes of the lines that data completes, after bytes that are pending.
pub open spec fn complete_lines(pending: Seq<u8>, data: Seq<u8>) -> Seq<Seq<u8>>
    decreases data.len(),
{
    proof {
        lemma_next_of(data, 10, 0);
    }
    let i = next_of(data, 10, 0);
    if i < data.len() {
        seq![pending + data.take(i + 1)] + complete_lines(seq![], data.skip(i + 1))
    } else {
        seq![]
    }
}

/// The bytes that are pending after data.
pub open spec fn pending_after(pending: Seq<u8>, data: Seq<u8>) -> Seq<u8>
    decreases data.len(),
{
    proof {
        lemma_next_of(data, 10, 0);
    }
    let i = next_of(data, 10, 0);
    if i < data.len() {
        pending_after(seq![], data.skip(i + 1))
    } else {
        pending + data
    }
}

/// The line that the end of a stream leaves, if there is one.
pub open spec fn rest_line(pending: Seq<u8>) -> Option<LineText> {
    if pending.len() > 0 {
        Some(line_of(pending))
    } else {
        None
    }
}

/// Lines without their representation.
pub open spec fn line_texts(ls: Seq<LogLine>) -> Seq<LineText> {
    ls.map_values(|l: LogLine| l@)
}

/// The lines that bytes show.
pub open spec fn lines_shown(raws: Seq<Seq<u8>>) -> Seq<LineText> {
    raws.map_values(|raw: Seq<u8>| line_of(raw))
}

/// Cuts a stream into lines. Of a long line only the beginning is held.
pub struct LineReader {
    buf: Vec<u8>,
    total: u64,
    seen: Ghost<Seq<u8>>,
}

impl LineReader {
    /// The bytes of the line that is not complete yet.
    pub closed spec fn pending(&self) -> Seq<u8> {
        self.seen@
    }

    /// What is held is what will be kept of the line.
    pub closed spec fn wf(&self) -> bool {
        &&& self.buf@ == kept(self.seen@)
        &&& self.total == (if self.seen@.len() <= u64::MAX {
            self.seen@.len() as int
        } else {
            u64::MAX as int
        })
    }

    /// A reader at the beginning of a stream.
    pub fn new() -> (r: LineReader)
        ensures
            r.wf(),
            r.pending() == Seq::<u8>::empty(),
    {
        LineReader { buf: Vec::new(), total: 0, seen: Ghost(Seq::empty()) }
    }

    fn hold(&mut self, bytes: &[u8])
        requires
            old(self).wf(),
        ensures
            final(self).wf(),
            final(self).pending() == old(self).pending() + bytes@,
    {
        let ghost before = self.seen@;
        let room: usize = if self.buf.len() < MAX_USER_PROCESS_LINE_BYTES {
            MAX_USER_PROCESS_LINE_BYTES - self.buf.len()
        } else {
            0
        };
        let n: usize = if bytes.len() < room {
            bytes.len()
        } else {
            room
        };
        if n > 0 {
            crate::bytes::push_bytes(&mut self.buf, slice_subrange(bytes, 0, n));
        }
        self.total = self.total.saturating_add(bytes.len() as u64);
        self.seen = Ghost(before + bytes@);
        assert(self.buf@ =~= kept(before + bytes@));
    }

    fn take_line(&mut self) -> (r: LogLine)
        requires
            old(self).wf(),
        ensures
            final(self).wf(),
            final(self).pending() == Seq::<u8>::empty(),
            r@ == line_of(old(self).pending()),
    {
        let ghost raw = self.seen@;
        let truncated: bool = self.total > MAX_USER_PROCESS_LINE_BYTES as u64;
        let mut bytes: Vec<u8> = Vec::new();
        std::mem::swap(&mut bytes, &mut self.buf);
        self.total = 0;
        self.seen = Ghost(Seq::empty());
        if bytes.len() > 0 && bytes[bytes.len() - 1] == 10 {
            bytes.pop();
        }
        assert(bytes@ =~= without_end(kept(raw), 10));
        if bytes.len() > 0 && bytes[bytes.len() - 1] == 13 {
            bytes.pop();
        }
        assert(bytes@ =~= without_end(without_end(kept(raw), 10), 13));
        LogLine { bytes, truncated }
    }

    /// Reads up to the end of a line. Returns how many bytes were read, and the line if it is
    /// complete.
    pub fn read_line_bounded(&mut self, available: &[u8]) -> (r: (usize, Option<LogLine>))
        requires
            old(self).wf(),
        ensures
            final(self).wf(),
            ({
                let i = next_of(available@, 10, 0);
                if i < available@.len() {
                    &&& r.0 == i + 1
                    &&& r.1 matches Some(l)
                    &&& l@ == line_of(old(self).pending() + available@.take(i + 1))
                    &&& final(self).pending() == Seq::<u8>::empty()
                } else {
                    &&& r.0 == available@.len()
                    &&& r.1 is None
                    &&& final(self).pending() == old(self).pending() + available@
                }
            }),
    {
        let size: usize = available.len();
        let i: usize = find_byte(available, 10, 0);
        if i < size {
            let piece: &[u8] = slice_subrange(available, 0, i + 1);
            assert(piece@ =~= available@.take(i + 1));
            self.hold(piece);
            let line: LogLine = self.take_line();
            (i + 1, Some(line))
        } else {
            self.hold(available);
            (size, None)
        }
    }

    /// Reads all that is available, and returns the lines that it completes.
    pub fn feed(&mut self, available: &[u8]) -> (r: Vec<LogLine>)
        requires
            old(self).wf(),
        ensures
            final(self).wf(),
            line_texts(r@) == lines_shown(complete_lines(old(self).pending(), available@)),
            final(self).pending() == pending_after(old(self).pending(), available@),
    {
        let mut out: Vec<LogLine> = Vec::new();
        let mut rest: &[u8] = available;
        let ghost all = lines_shown(complete_lines(self.pending(), available@));
        let ghost end = pending_after(self.pending(), available@);
        assert(line_texts(out@) + all =~= all);
        assert(end == pending_after(self.pending(), rest@));
        while rest.len() > 0
            invariant
                self.wf(),
                line_texts(out@) + lines_shown(complete_lines(self.pending(), rest@)) == all,
                pending_after(self.pending(), rest@) == end,
            decreases rest@.len(),
        {
            let ghost before = line_texts(out@);
            let ghost was = self.pending();
            let ghost data = rest@;
            let ghost i = next_of(data, 10, 0);
            proof {
                lemma_next_of(data, 10, 0);
            }
            let (n, line) = self.read_line_bounded(rest);
            rest = tail(rest, n);
            match line {
                Some(l) => {
                    out.push(l);
                    assert(rest@ =~= data.skip(i + 1));
                    let ghost raw = was + data.take(i + 1);
                    let ghost later = complete_lines(self.pending(), rest@);
                    assert(complete_lines(was, data) =~= seq![raw] + later);
                    assert(line_texts(out@) =~= before.push(line_of(raw)));
                    assert(lines_shown(seq![raw] + later) =~= seq![line_of(raw)] + lines_shown(
                        later,
                    ));
                    assert(before.push(line_of(raw)) + lines_shown(later) =~= before + (seq![
                        line_of(raw),
                    ] + lines_shown(later)));
                },
                None => {
                    assert(rest@ =~= Seq::<u8>::empty());
                    assert(complete_lines(self.pending(), rest@) =~= complete_lines(was, data));
                    assert(self.pending() + rest@ =~= self.pending());
                },
            }
        }
        assert(rest@ =~= Seq::<u8>::empty());
        assert(complete_lines(self.pending(), rest@) =~= seq![]);
        assert(self.pending() + rest@ =~= self.pending());
        assert(line_texts(out@) =~= all);
        out
    }

    /// The line that the end of the stream leaves, if there is one.
    pub fn finish(&mut self) -> (r: Option<LogLine>)
        requires
            old(self).wf(),
        ensures
            final(self).wf(),
            final(self).pending() == Seq::<u8>::empty(),
            match r {
                Some(l) => rest_line(old(self).pending()) == Some(l@),
                None => rest_line(old(self).pending()) is None,
            },
    {
        if self.total == 0 {
            assert(self.seen@ =~= Seq::<u8>::empty());
            None
        } else {
            Some(self.take_line())
        }
    }
}

/// In which pieces a stream arrives makes no difference to its lines.
pub proof fn law_pieces_do_not_matter(pending: Seq<u8>, a: Seq<u8>, b: Seq<u8>)
    ensures
        complete_lines(pending, a + b) == complete_lines(pending, a) + complete_lines(
            pending_after(pending, a),
            b,
        ),
        pending_after(pending, a + b) == pending_after(pending_after(pending, a), b),
    decreases a.len(),
{
    let i = next_of(a, 10, 0);
    let j = next_of(a + b, 10, 0);
    lemma_next_of(a, 10, 0);
    lemma_next_of(a + b, 10, 0);
    if i < a.len() {
        lemma_first_newline(a + b, i, j);
        assert((a + b).take(i + 1) =~= a.take(i + 1));
        assert((a + b).skip(i + 1) =~= a.skip(i + 1) + b);
        law_pieces_do_not_matter(seq![], a.skip(i + 1), b);
        let line = seq![pending + a.take(i + 1)];
        let rest = complete_lines(seq![], a.skip(i + 1));
        let more = complete_lines(pending_after(pending, a), b);
        assert(line + (rest + more) =~= line + rest + more);
    } else {
        let k = next_of(b, 10, 0);
        lemma_next_of(b, 10, 0);
        assert forall|x: int| 0 <= x < a.len() + k && x < (a + b).len() implies (a + b)[x]
            != 10 by {
            if x < a.len() {
                assert(a[x] != 10);
            } else {
                assert(b[x - a.len()] != 10);
            }
        }
        if k < b.len() {
            assert((a + b)[a.len() + k] == 10);
            lemma_first_newline(a + b, a.len() + k, j);
            assert(pending + (a + b).take(j + 1) =~= (pending + a) + b.take(k + 1));
            assert((a + b).skip(j + 1) =~= b.skip(k + 1));
            assert(complete_lines(pending, a) + complete_lines(pending + a, b)
                =~= complete_lines(pending + a, b));
        } else {
            assert(j == (a + b).len()) by {
                if j < (a + b).len() {
                    assert((a + b)[j] == 10);
                }
            }
            assert(complete_lines(pending, a + b) =~= complete_lines(pending, a)
                + complete_lines(pending + a, b));
            assert(pending + (a + b) =~= (pending + a) + b);
        }
    }
}

proof fn lemma_first_newline(s: Seq<u8>, i: int, j: int)
    requires
        0 <= i < s.len(),
        s[i] == 10,
        forall|x: int| 0 <= x < i ==> s[x] != 10,
        j == next_of(s, 10, 0),
    ensures
        i == j,
{
    lemma_next_of(s, 10, 0);
}

// ---------------------------------------------------------------------------
// Dropped lines.
// ---------------------------------------------------------------------------
/// The text of a line: as it is, or with replacements where it is not text.
pub open spec fn log_text(raw: Seq<u8>) -> Seq<char> {
    match utf8_text(raw) {
        Some(t) => t,
        None => lossy(raw),
    }
}

/// Reads the text of a line.
pub fn line_text(raw: &[u8]) -> (r: String)
    ensures
        r@ == log_text(raw@),
{
    match read_text(raw) {
        Ok(t) => t,
        Err(_) => lossy_text(raw),
    }
}

/// What is told of dropped lines.
pub open spec fn notice_text(dropped: u64) -> Seq<char> {
    "[beyond: dropped "@ + decimal(dropped as nat) + " log lines]"@
}

/// What limits a stream, and how many of its lines were dropped and not told yet.
#[derive(Clone, Copy, Debug, PartialEq, Eq, Structural)]
pub struct LogLimiter {
    pub bucket: TokenBucket,
    pub dropped: u64,
}

/// What is done about a line.
#[derive(Debug)]
pub enum Admission {
    /// It is dropped.
    Drop,
    /// It is to be sent, after the notice if there is one.
    Send { notice: Option<String> },
}

/// What is done about a line, without its representation.
pub enum Passing {
    Drop,
    Send(Option<Seq<char>>),
}

impl View for Admission {
    type V = Passing;

    open spec fn view(&self) -> Passing {
        match *self {
            Admission::Drop => Passing::Drop,
            Admission::Send { notice } => Passing::Send(
                match notice {
                    Some(m) => Some(m@),
                    None => None,
                },
            ),
        }
    }
}

/// What is done about a line.
pub open spec fn admitted(g: LogLimiter, now_ns: u64) -> Passing {
    if !offered(g, now_ns).0 {
        Passing::Drop
    } else if g.dropped > 0 {
        Passing::Send(Some(notice_text(g.dropped)))
    } else {
        Passing::Send(None)
    }
}

/// Whether a line is to be sent, and the limiter after that.
pub open spec fn offered(g: LogLimiter, now_ns: u64) -> (bool, LogLimiter) {
    let (ok, bucket) = consumed(g.bucket, now_ns);
    (
        ok,
        LogLimiter {
            bucket,
            dropped: if ok {
                g.dropped
            } else {
                (g.dropped + 1) as u64
            },
        },
    )
}

/// The limiter after a notice that got through or not.
pub open spec fn noticed(g: LogLimiter, sent: bool) -> LogLimiter {
    LogLimiter {
        dropped: if sent {
            0
        } else {
            g.dropped
        },
        ..g
    }
}

/// The limiter after a line that got through or not.
pub open spec fn forwarded(g: LogLimiter, sent: bool) -> LogLimiter {
    LogLimiter {
        dropped: if sent {
            g.dropped
        } else {
            (g.dropped + 1) as u64
        },
        ..g
    }
}

/// A limiter for a new stream.
pub open spec fn fresh_limiter(now_ns: u64) -> LogLimiter {
    LogLimiter { bucket: fresh_bucket(now_ns), dropped: 0 }
}

impl LogLimiter {
    /// A limiter for a new stream.
    pub fn new(now_ns: u64) -> (r: LogLimiter)
        ensures
            r == fresh_limiter(now_ns),
    {
        LogLimiter { bucket: TokenBucket::new(now_ns), dropped: 0 }
    }

    /// Decides about a line. One that is to be sent comes after a notice if lines were dropped.
    pub fn on_offer(&mut self, now_ns: u64) -> (r: Admission)
        requires
            old(self).dropped < u64::MAX,
        ensures
            *final(self) == offered(*old(self), now_ns).1,
            r@ == admitted(*old(self), now_ns),
    {
        if !self.bucket.consume(now_ns) {
            self.dropped = self.dropped + 1;
            return Admission::Drop;
        }
        if self.dropped > 0 {
            let mut m: String = copy_str("[beyond: dropped ");
            push_decimal(&mut m, self.dropped);
            m.append(" log lines]");
            Admission::Send { notice: Some(m) }
        } else {
            Admission::Send { notice: None }
        }
    }

    /// Notes whether a notice got through: if so, the lines it told of are settled.
    pub fn on_notice(&mut self, sent: bool)
        ensures
            *final(self) == noticed(*old(self), sent),
    {
        if sent {
            self.dropped = 0;
        }
    }

    /// Notes whether a line got through: if not, it is dropped too.
    pub fn on_line(&mut self, sent: bool)
        requires
            old(self).dropped < u64::MAX,
        ensures
            *final(self) == forwarded(*old(self), sent),
    {
        if !sent {
            self.dropped = self.dropped + 1;
        }
    }
}

/// A line: when it was offered, and whether the receiver took the notice and the line, had they
/// been sent.
pub struct Passage {
    pub now_ns: u64,
    pub notice_taken: bool,
    pub line_taken: bool,
}

/// A stream so far: its limiter, the lines that got through, and those that a notice told of.
pub struct Tally {
    pub limiter: LogLimiter,
    pub sent: nat,
    pub told: nat,
}

/// The stream after one more line.
pub open spec fn tally_after(t: Tally, p: Passage) -> Tally {
    let (ok, limiter) = offered(t.limiter, p.now_ns);
    if !ok {
        Tally { limiter, ..t }
    } else {
        let told = if limiter.dropped > 0 && p.notice_taken {
            Tally { limiter: noticed(limiter, true), told: t.told + limiter.dropped as nat, ..t }
        } else {
            Tally { limiter, ..t }
        };
        Tally {
            limiter: forwarded(told.limiter, p.line_taken),
            sent: told.sent + if p.line_taken {
                1nat
            } else {
                0
            },
            ..told
        }
    }
}

/// The stream after several lines.
pub open spec fn tally(start: LogLimiter, ps: Seq<Passage>) -> Tally
    decreases ps.len(),
{
    if ps.len() == 0 {
        Tally { limiter: start, sent: 0, told: 0 }
    } else {
        tally_after(tally(start, ps.drop_last()), ps.last())
    }
}

/// Every line is accounted for: it got through, a notice told of it, or it is still counted.
pub proof fn law_no_line_is_lost_silently(start: LogLimiter, ps: Seq<Passage>)
    requires
        start.dropped == 0,
        ps.len() <= u64::MAX,
    ensures
        tally(start, ps).sent + tally(start, ps).told + tally(start, ps).limiter.dropped == ps.len(),
    decreases ps.len(),
{
    if ps.len() > 0 {
        law_no_line_is_lost_silently(start, ps.drop_last());
    }
}

/// In any span of time no more lines pass than a burst of 1000 and 500 per second beyond it.
pub proof fn law_at_most_500_lines_a_second(b: TokenBucket, times: Seq<u64>)
    requires
        b.level_ns <= 2_000_000_000,
        ascending(b.last_refill_ns, times),
        times.len() > 0,
    ensures
        passed(b, times) * 1_000_000_000 <= 1000 * 1_000_000_000 + 500 * (times.last()
            - b.last_refill_ns),
{
    law_rate_is_limited(b, times);
}

/// A new stream may have 1000 lines at once, and not one more; a 500th of a second after any line it
/// may have another.
pub proof fn law_lines_pass_again(b: TokenBucket, now_ns: u64, times: Seq<u64>)
    requires
        times.len() == 1000,
        forall|i: int| 0 <= i < times.len() ==> times[i] == now_ns,
        b.level_ns <= 2_000_000_000,
    ensures
        ({
            let full = fresh_limiter(now_ns).bucket;
            &&& fresh_limiter(now_ns).dropped == 0 && full == fresh_bucket(now_ns)
            &&& passed(full, times) == 1000
            &&& !consumed(after_lines(full, times), now_ns).0
        }),
        now_ns >= b.last_refill_ns + 2_000_000 ==> consumed(b, now_ns).0,
{
    law_burst_passes(now_ns, times);
}

/// A line of up to 16384 bytes with its end is shown as it is, without its line feed and a carriage
/// return before that; of a longer one the first 16384 bytes are kept, and it is marked.
pub proof fn law_line_is_shown(text: Seq<u8>, raw: Seq<u8>)
    requires
        text.len() > 0 ==> text.last() != 13 && text.last() != 10,
    ensures
        text.len() + 1 <= 16_384 ==> line_of(text.push(10)) == (LineText {
            bytes: text,
            truncated: false,
        }),
        text.len() + 2 <= 16_384 ==> line_of(text.push(13).push(10)) == (LineText {
            bytes: text,
            truncated: false,
        }),
        line_of(raw).truncated <==> raw.len() > 16_384,
        raw.len() > 16_384 && raw[16_383] != 10 && raw[16_383] != 13 ==> line_of(raw).bytes
            == raw.take(16_384),
{
    assert(text.push(10).drop_last() =~= text);
    assert(text.push(13).push(10).drop_last() =~= text.push(13));
    assert(text.push(13).drop_last() =~= text);
    assert(text.push(10).last() == 10);
}

/// Lines put together again.
pub open spec fn put_together(ls: Seq<Seq<u8>>) -> Seq<u8>
    decreases ls.len(),
{
    if ls.len() == 0 {
        seq![]
    } else {
        ls[0] + put_together(ls.skip(1))
    }
}

/// No byte is lost or moved: the lines that data completes, put together, and what is pending behind
/// them are what was pending before and the data. Each of these lines ends in a line feed, and none
/// holds another unless one was pending.
pub proof fn law_no_byte_is_lost(pending: Seq<u8>, data: Seq<u8>)
    ensures
        put_together(complete_lines(pending, data)) + pending_after(pending, data) == pending
            + data,
        forall|k: int|
            0 <= k < complete_lines(pending, data).len() ==> (#[trigger] complete_lines(
                pending,
                data,
            )[k]).len() > 0 && complete_lines(pending, data)[k].last() == 10,
        complete_lines(pending, data).len() == 0 <==> forall|i: int|
            0 <= i < data.len() ==> #[trigger] data[i] != 10,
    decreases data.len(),
{
    lemma_next_of(data, 10, 0);
    let i = next_of(data, 10, 0);
    let all = complete_lines(pending, data);
    if i < data.len() {
        let rest = data.skip(i + 1);
        let none = Seq::<u8>::empty();
        law_no_byte_is_lost(none, rest);
        let first = pending + data.take(i + 1);
        let later = complete_lines(none, rest);
        assert(all =~= seq![first] + later);
        assert(all.skip(1) =~= later);
        assert(none + rest =~= rest);
        assert(first + put_together(later) + pending_after(none, rest) =~= first + (put_together(
            later,
        ) + pending_after(none, rest)));
        assert(first + rest =~= pending + data);
        assert(data[i] == 10);
        assert forall|k: int| 0 <= k < all.len() implies (#[trigger] all[k]).len() > 0
            && all[k].last() == 10 by {
            if k > 0 {
                assert(all[k] == later[k - 1]);
            } else {
                assert(first.last() == data[i]);
            }
        }
    } else {
        assert(put_together(all) + (pending + data) =~= pending + data);
    }
}

/// Dropped lines are counted, told by number, and forgotten once the notice got through.
pub proof fn law_dropped_lines_are_told(g: LogLimiter, now_ns: u64)
    requires
        g.dropped < u64::MAX,
    ensures
        !consumed(g.bucket, now_ns).0 ==> offered(g, now_ns).1.dropped == g.dropped + 1
            && !offered(g, now_ns).0,
        consumed(g.bucket, now_ns).0 ==> offered(g, now_ns).1.dropped == g.dropped && offered(
            g,
            now_ns,
        ).0,
        noticed(g, true).dropped == 0,
        noticed(g, false).dropped == g.dropped,
        forwarded(g, false).dropped == g.dropped + 1,
        forwarded(g, true).dropped == g.dropped,
        notice_text(g.dropped) == "[beyond: dropped "@ + decimal(g.dropped as nat)
            + " log lines]"@,
{
}

/// A line is sent exactly if the rate allows it; it comes behind a notice exactly if lines were dropped
/// before it, which tells their number.
pub proof fn law_notice_comes_first(g: LogLimiter, now_ns: u64)
    ensures
        admitted(g, now_ns) == Passing::Drop <==> !consumed(g.bucket, now_ns).0,
        consumed(g.bucket, now_ns).0 && g.dropped == 0 ==> admitted(g, now_ns) == Passing::Send(None),
        consumed(g.bucket, now_ns).0 && g.dropped > 0 ==> admitted(g, now_ns) == Passing::Send(
            Some("[beyond: dropped "@ + decimal(g.dropped as nat) + " log lines]"@),
        ),
{
}

/// A line that is text is shown as that text.
pub proof fn law_text_is_shown_as_it_is(t: Seq<char>)
    ensures
        log_text(vstd::utf8::encode_utf8(t)) == t,
{
    crate::bytes::law_text_reads_back(t);
}

/// What a stream leaves without an end is shown as a line all the same; where nothing is left no line
/// is.
pub proof fn law_last_line_needs_no_end(pending: Seq<u8>)
    requires
        0 < pending.len() <= 16_384,
        pending.last() != 10,
        pending.last() != 13,
    ensures
        rest_line(pending) == Some(LineText { bytes: pending, truncated: false }),
        rest_line(seq![]) is None,
{
}

} // verus!
