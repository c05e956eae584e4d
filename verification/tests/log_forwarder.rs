//! Lines of output.
use beyond_pg::log_forwarder::{
    line_text, zero_execution_id, Admission, LineReader, LogFrame, LogLimiter, TokenBucket,
    LOG_BURST_LINES,
};
use beyond_pg::vsock::{ExecStream, MAX_USER_PROCESS_LINE_BYTES};

const SEC: u64 = 1_000_000_000;

fn collect_frames(pieces: &[&[u8]]) -> Vec<(String, bool)> {
    let mut reader = LineReader::new();
    let mut lines = Vec::new();
    for p in pieces {
        lines.extend(reader.feed(p));
    }
    lines.extend(reader.finish());
    lines.iter().map(|l| (line_text(&l.bytes), l.truncated)).collect()
}

#[test]
fn single_line_stdout() {
    let frames = collect_frames(&[b"hello world\n"]);
    assert_eq!(frames, vec![("hello world".to_string(), false)]);
}

#[test]
fn crlf_endings() {
    let frames = collect_frames(&[b"line one\r\nline two\r\n"]);
    assert_eq!(
        frames,
        vec![
            ("line one".to_string(), false),
            ("line two".to_string(), false),
        ]
    );
}

#[test]
fn unterminated_eof() {
    let frames = collect_frames(&[b"no newline at end"]);
    assert_eq!(frames, vec![("no newline at end".to_string(), false)]);
    assert!(collect_frames(&[b""]).is_empty());
}

#[test]
fn oversized_line_truncated() {
    let mut data = vec![b'x'; MAX_USER_PROCESS_LINE_BYTES + 100];
    data.push(b'\n');
    let frames = collect_frames(&[&data]);
    assert_eq!(frames.len(), 1);
    assert_eq!(frames[0].0.len(), MAX_USER_PROCESS_LINE_BYTES);
    assert!(frames[0].1, "truncated flag should be true");
}

#[test]
fn invalid_utf8_lossy() {
    let frames = collect_frames(&[b"valid \xFF invalid\n"]);
    assert_eq!(frames.len(), 1);
    assert!(frames[0].0.contains("valid"));
    assert_eq!(frames[0].0, "valid \u{fffd} invalid");
}

#[test]
fn pieces_make_no_difference() {
    let data = b"one\r\n\ntwo\nthree";
    let whole = collect_frames(&[data]);
    assert_eq!(whole.len(), 4);
    for i in 0..data.len() {
        for j in i..data.len() {
            assert_eq!(collect_frames(&[&data[..i], &data[i..j], &data[j..]]), whole);
        }
    }
    let mut reader = LineReader::new();
    let (n, line) = reader.read_line_bounded(b"ab\ncd");
    assert_eq!(n, 3);
    assert_eq!(line.unwrap().bytes, b"ab");
}

#[test]
fn token_bucket_rate_limits_after_burst() {
    let mut bucket = TokenBucket::new(SEC);
    for _ in 0..LOG_BURST_LINES {
        assert!(bucket.consume(SEC), "should succeed within burst");
    }
    let (mut accepted, mut rejected) = (0u64, 0u64);
    for _ in 0..LOG_BURST_LINES {
        if bucket.consume(SEC) {
            accepted += 1;
        } else {
            rejected += 1;
        }
    }
    assert!(rejected >= accepted);
    assert_eq!(accepted, 0);
    // Two milliseconds allow one line more, and no wait allows more than a burst.
    assert!(!bucket.consume(SEC + 1_999_999));
    assert!(bucket.consume(SEC + 2_000_000));
    assert!(!bucket.consume(SEC + 2_000_000));
    let later = 1000 * SEC;
    let passed = (0..2000).filter(|_| bucket.consume(later)).count();
    assert_eq!(passed, 1000);
}

/// A receiver that holds two frames.
fn send_frame(raw: &[u8], limiter: &mut LogLimiter, rx: &mut Vec<String>) {
    if let Admission::Send { notice } = limiter.on_offer(0) {
        if let Some(n) = notice {
            let taken = rx.len() < 2;
            if taken {
                rx.push(n);
            }
            limiter.on_notice(taken);
        }
        let taken = rx.len() < 2;
        if taken {
            rx.push(line_text(raw));
        }
        limiter.on_line(taken);
    }
}

#[test]
fn drop_notice_emitted_before_next_real_frame() {
    let mut rx: Vec<String> = Vec::new();
    let mut limiter = LogLimiter::new(0);
    send_frame(b"first", &mut limiter, &mut rx);
    send_frame(b"second", &mut limiter, &mut rx);
    assert_eq!(limiter.dropped, 0);

    send_frame(b"third", &mut limiter, &mut rx);
    assert_eq!(limiter.dropped, 1);

    assert_eq!(rx, vec!["first", "second"]);
    rx.clear();

    send_frame(b"fourth", &mut limiter, &mut rx);
    assert_eq!(limiter.dropped, 0, "counter should be reset after notice is sent");
    assert!(rx[0].contains("dropped 1 log lines"), "unexpected notice: {}", rx[0]);
    assert_eq!(rx, vec!["[beyond: dropped 1 log lines]", "fourth"]);
}

#[test]
fn lines_over_the_rate_are_counted() {
    let mut limiter = LogLimiter::new(0);
    let mut sent = 0u64;
    for _ in 0..1500 {
        if let Admission::Send { .. } = limiter.on_offer(0) {
            limiter.on_line(true);
            sent += 1;
        }
    }
    assert_eq!(sent, LOG_BURST_LINES);
    assert_eq!(sent + limiter.dropped, 1500);
}

#[test]
fn frames_carry_the_zero_id() {
    let f = LogFrame {
        stream: ExecStream::Stderr,
        line: "x".to_string(),
        truncated: false,
        execution_id: zero_execution_id(),
    };
    assert_eq!(f.execution_id, "00000000-0000-0000-0000-000000000000");
    assert_eq!(f.stream, ExecStream::Stderr);
}
