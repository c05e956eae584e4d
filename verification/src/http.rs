//! Just enough HTTP: plain requests, and answers read to the end of the connection.
use crate::bytes::{law_text_reads_back, read_text, tail, utf8_complaint, utf8_text};
use crate::number::{
    decimal, digit_value, law_numeral_reads_back, lemma_numeral_first, parse_decimal, read_decimal,
};
use crate::text::{
    after_prefix, chars_of, copy_str, find_first, first_of, is_white, lemma_first_of,
    lemma_trim_start, lemma_word_len, lines, lines_of, push_chars, strip_prefix, text_of, texts,
    trim_start, word_len, words, words_of,
};
use vstd::prelude::*;
use vstd::slice::slice_subrange;
use vstd::utf8::encode_utf8;

verus! {

// ---------------------------------------------------------------------------
// Requests.
// ---------------------------------------------------------------------------
/// Host with port, and path, of a URL.
pub open spec fn http_target(url: Seq<char>) -> Result<(Seq<char>, Seq<char>), Seq<char>> {
    match strip_prefix(url, "http://"@) {
        None => Err("only http:// URLs are supported: "@ + url),
        Some(rest) => {
            let i = first_of(rest, '/');
            Ok(
                (
                    rest.take(i),
                    if i < rest.len() {
                        rest.skip(i)
                    } else {
                        "/"@
                    },
                ),
            )
        },
    }
}

/// Reads host with port, and path, of a URL.
pub fn parse_http_url(url: &str) -> (r: Result<(String, String), String>)
    ensures
        match r {
            Ok((h, p)) => http_target(url@) == Ok::<(Seq<char>, Seq<char>), Seq<char>>((h@, p@)),
            Err(e) => http_target(url@) == Err::<(Seq<char>, Seq<char>), Seq<char>>(e@),
        },
{
    let cs: Vec<char> = chars_of(url);
    let rest: &[char] = match after_prefix(cs.as_slice(), "http://") {
        Some(r) => r,
        None => {
            let mut out = String::new();
            out.append("only http:// URLs are supported: ");
            out.append(url);
            return Err(out);
        },
    };
    let i: usize = find_first(rest, '/');
    let host: String = text_of(slice_subrange(rest, 0, i));
    let path: String = if i < rest.len() {
        text_of(slice_subrange(rest, i, rest.len()))
    } else {
        copy_str("/")
    };
    Ok((host, path))
}

/// A request that asks for the connection to be closed after the answer.
pub open spec fn get_request(path: Seq<char>, hostport: Seq<char>) -> Seq<char> {
    "GET "@ + path + " HTTP/1.1\r\nHost: "@ + hostport + "\r\nConnection: close\r\n\r\n"@
}

/// Builds a request that asks for the connection to be closed after the answer.
pub fn http_get_request(path: &str, hostport: &str) -> (r: String)
    ensures
        r@ == get_request(path@, hostport@),
{
    let mut out = String::new();
    out.append("GET ");
    out.append(path);
    out.append(" HTTP/1.1\r\nHost: ");
    out.append(hostport);
    out.append("\r\nConnection: close\r\n\r\n");
    out
}

// ---------------------------------------------------------------------------
// Answers.
// ---------------------------------------------------------------------------
/// Whether an empty line starts at `i`: the end of a line, then another.
pub open spec fn blank_at(b: Seq<u8>, i: int) -> bool {
    &&& 0 <= i
    &&& i + 4 <= b.len()
    &&& b[i] == 13 && b[i + 1] == 10 && b[i + 2] == 13 && b[i + 3] == 10
}

/// Where the headers end: at the first empty line from `i` on.
pub open spec fn header_end_from(b: Seq<u8>, i: int) -> Option<int>
    decreases b.len() - i,
{
    if i + 4 > b.len() {
        None
    } else if blank_at(b, i) {
        Some(i)
    } else {
        header_end_from(b, i + 1)
    }
}

/// Where the headers of an answer end.
pub open spec fn header_end(b: Seq<u8>) -> Option<int> {
    header_end_from(b, 0)
}

/// The first line of a text.
pub open spec fn first_line(s: Seq<char>) -> Seq<char> {
    if lines(s).len() > 0 {
        lines(s)[0]
    } else {
        seq![]
    }
}

/// The status in the first line of the headers: zero where there is none.
pub open spec fn status_of_line(line: Seq<char>) -> nat {
    if words(line).len() < 2 {
        0
    } else {
        match parse_decimal(words(line)[1], u32::MAX as nat) {
            Ok(n) => n,
            Err(_) => 0,
        }
    }
}

/// The body of an answer that reports success, or what is wrong with it.
pub open spec fn http_answer(b: Seq<u8>) -> Result<Seq<u8>, Seq<char>> {
    match header_end(b) {
        None => Err("response missing header terminator"@),
        Some(i) => match utf8_text(b.take(i)) {
            None => Err("non-UTF-8 headers: "@ + utf8_complaint(b.take(i))),
            Some(headers) => if status_of_line(first_line(headers)) / 100 == 2 {
                Ok(b.skip(i + 4))
            } else {
                Err("HTTP "@ + first_line(headers))
            },
        },
    }
}

/// A header end lies within the answer.
pub proof fn lemma_header_end(b: Seq<u8>, i: int)
    requires
        0 <= i,
    ensures
        header_end_from(b, i) matches Some(e) ==> i <= e && e + 4 <= b.len() && blank_at(b, e),
    decreases b.len() - i,
{
    if i + 4 <= b.len() && !blank_at(b, i) {
        lemma_header_end(b, i + 1);
    }
}

/// Finds where the headers of an answer end.
pub fn find_header_end(b: &[u8]) -> (r: Option<usize>)
    ensures
        match r {
            Some(i) => header_end(b@) == Some(i as int) && i + 4 <= b@.len(),
            None => header_end(b@) is None,
        },
{
    let n: usize = b.len();
    let mut i: usize = 0;
    while i < n && n - i >= 4
        invariant
            n == b@.len(),
            i <= n,
            header_end(b@) == header_end_from(b@, i as int),
        decreases n - i,
    {
        if b[i] == 13 && b[i + 1] == 10 && b[i + 2] == 13 && b[i + 3] == 10 {
            return Some(i);
        }
        i = i + 1;
    }
    None
}

/// Reads the status in the first line of the headers.
pub fn read_status(line: &[char]) -> (r: u64)
    ensures
        r == status_of_line(line@),
{
    let ws: Vec<&[char]> = words_of(line);
    assert(texts(ws@).len() == ws@.len());
    if ws.len() < 2 {
        return 0;
    }
    assert(texts(ws@)[1] == ws@[1]@);
    match read_decimal(ws[1], u32::MAX as u64) {
        Ok(n) => n,
        Err(_) => 0,
    }
}

/// Reads an answer: its body, or what is wrong with it.
pub fn parse_http_response(b: &[u8]) -> (r: Result<Vec<u8>, String>)
    ensures
        match r {
            Ok(body) => http_answer(b@) == Ok::<Seq<u8>, Seq<char>>(body@),
            Err(e) => http_answer(b@) == Err::<Seq<u8>, Seq<char>>(e@),
        },
{
    let size: usize = b.len();
    let end: usize = match find_header_end(b) {
        Some(i) => i,
        None => return Err(copy_str("response missing header terminator")),
    };
    let head: &[u8] = slice_subrange(b, 0, end);
    assert(head@ == b@.take(end as int));
    let headers: String = match read_text(head) {
        Ok(t) => t,
        Err(e) => {
            let mut out = String::new();
            out.append("non-UTF-8 headers: ");
            out.append(e.as_str());
            return Err(out);
        },
    };
    let cs: Vec<char> = chars_of(headers.as_str());
    let ls: Vec<&[char]> = lines_of(cs.as_slice());
    assert(texts(ls@).len() == ls@.len());
    let none: Vec<char> = Vec::new();
    let line: &[char] = if ls.len() > 0 {
        assert(texts(ls@)[0] == ls@[0]@);
        ls[0]
    } else {
        none.as_slice()
    };
    assert(line@ == first_line(headers@));
    assert(end + 4 <= size);
    if read_status(line) / 100 == 2 {
        Ok(crate::bytes::copy_bytes(tail(b, end + 4)))
    } else {
        let mut out = String::new();
        out.append("HTTP ");
        push_chars(&mut out, line);
        Err(out)
    }
}

// ---------------------------------------------------------------------------
// Laws.
// ---------------------------------------------------------------------------
/// A word in front of white space, or of nothing, is the first word.
pub(crate) proof fn lemma_first_word(w: Seq<char>, rest: Seq<char>)
    requires
        w.len() > 0,
        forall|j: int| 0 <= j < w.len() ==> !is_white(#[trigger] w[j]),
        rest.len() > 0 ==> is_white(rest[0]),
    ensures
        words(w + rest) == seq![w] + words(rest),
{
    let s = w + rest;
    lemma_trim_start(s);
    lemma_trim_start(rest);
    lemma_word_len(s);
    assert(s[0] == w[0]);
    assert(trim_start(s) == s);
    lemma_word_ends(w, rest);
    assert(s.take(w.len() as int) =~= w);
    assert(s.skip(w.len() as int) =~= rest);
}

proof fn lemma_word_ends(w: Seq<char>, rest: Seq<char>)
    requires
        forall|j: int| 0 <= j < w.len() ==> !is_white(#[trigger] w[j]),
        rest.len() > 0 ==> is_white(rest[0]),
    ensures
        word_len(w + rest) == w.len(),
    decreases w.len(),
{
    let s = w + rest;
    if w.len() == 0 {
        assert(s =~= rest);
    } else {
        let v = w.skip(1);
        assert(s[0] == w[0]);
        assert(s.skip(1) =~= v + rest);
        assert forall|j: int| 0 <= j < v.len() implies !is_white(#[trigger] v[j]) by {
            assert(v[j] == w[j + 1]);
        }
        lemma_word_ends(v, rest);
    }
}

/// White space in front does not make a word.
pub(crate) proof fn lemma_words_behind_space(rest: Seq<char>)
    ensures
        words(" "@ + rest) == words(rest),
{
    reveal_strlit(" ");
    let s = " "@ + rest;
    assert(is_white(' '));
    assert(s[0] == ' ');
    assert(s.skip(1) =~= rest);
    assert(trim_start(s) == trim_start(rest));
    lemma_trim_start(s);
    lemma_trim_start(rest);
    lemma_word_len(trim_start(rest));
}

/// The status line of an answer: the protocol, the status, and what else stands in the line.
pub open spec fn status_line(protocol: Seq<char>, status: nat, reason: Seq<char>) -> Seq<char> {
    protocol + " "@ + decimal(status) + reason
}

pub(crate) proof fn lemma_status_word(protocol: Seq<char>, status: nat, reason: Seq<char>)
    requires
        protocol.len() > 0,
        forall|j: int| 0 <= j < protocol.len() ==> !is_white(#[trigger] protocol[j]),
        reason.len() > 0 ==> is_white(reason[0]),
    ensures
        words(status_line(protocol, status, reason)).len() >= 2,
        words(status_line(protocol, status, reason))[1] == decimal(status),
{
    reveal_strlit(" ");
    let d = decimal(status);
    let behind = " "@ + (d + reason);
    lemma_numeral_first(status, 10, false);
    assert forall|j: int| 0 <= j < d.len() implies !is_white(#[trigger] d[j]) by {
        assert(digit_value(d[j]) < 16);
    }
    assert(status_line(protocol, status, reason) =~= protocol + behind);
    assert(behind[0] == ' ' && is_white(' '));
    lemma_first_word(protocol, behind);
    lemma_words_behind_space(d + reason);
    lemma_first_word(d, reason);
    assert(words(protocol + behind)[1] == d);
}

/// The bytes of an answer with this first line, further headers behind it, and a body.
pub open spec fn answer_bytes(line: Seq<char>, headers: Seq<char>, body: Seq<u8>) -> Seq<u8> {
    encode_utf8(line + headers) + seq![13u8, 10u8, 13u8, 10u8] + body
}

/// An answer is accepted exactly if the status behind the first space of its first line lies from
/// 200 to 299, and is its body; for every other status it is an error that tells the line. The
/// headers end at the first empty line.
pub proof fn law_only_success_is_accepted(
    protocol: Seq<char>,
    status: nat,
    reason: Seq<char>,
    headers: Seq<char>,
    body: Seq<u8>,
)
    requires
        protocol.len() > 0,
        forall|j: int| 0 <= j < protocol.len() ==> !is_white(#[trigger] protocol[j]),
        status <= u32::MAX,
        reason.len() > 0 ==> reason[0] == ' ' && reason.last() != '\r',
        forall|j: int| 0 <= j < reason.len() ==> #[trigger] reason[j] != '\n',
        headers.len() == 0 || (headers.len() >= 2 && headers[0] == '\r' && headers[1] == '\n'),
        forall|i: int|
            0 <= i < encode_utf8(status_line(protocol, status, reason) + headers).len()
                ==> !#[trigger] blank_at(
                answer_bytes(status_line(protocol, status, reason), headers, body),
                i,
            ),
    ensures
        ({
            let line = status_line(protocol, status, reason);
            let answer = http_answer(answer_bytes(line, headers, body));
            if 200 <= status <= 299 {
                answer == Ok::<Seq<u8>, Seq<char>>(body)
            } else {
                answer == Err::<Seq<u8>, Seq<char>>("HTTP "@ + line)
            }
        }),
{
    let line = status_line(protocol, status, reason);
    let head = line + headers;
    let e = encode_utf8(head);
    let b = answer_bytes(line, headers, body);
    lemma_status_word(protocol, status, reason);
    law_numeral_reads_back(status, 10, false, u32::MAX as nat);
    assert(blank_at(b, e.len() as int));
    lemma_end_is_first(b, 0, e.len() as int);
    assert(b.take(e.len() as int) =~= e);
    assert(b.skip(e.len() as int + 4) =~= body);
    law_text_reads_back(head);
    lemma_first_line(protocol, status, reason, headers);
}

proof fn lemma_end_is_first(b: Seq<u8>, i: int, e: int)
    requires
        0 <= i <= e,
        blank_at(b, e),
        forall|k: int| 0 <= k < e ==> !#[trigger] blank_at(b, k),
    ensures
        header_end_from(b, i) == Some(e),
    decreases e - i,
{
    if i < e {
        assert(!blank_at(b, i));
        lemma_end_is_first(b, i + 1, e);
    }
}

proof fn lemma_first_line(
    protocol: Seq<char>,
    status: nat,
    reason: Seq<char>,
    headers: Seq<char>,
)
    requires
        protocol.len() > 0,
        forall|j: int| 0 <= j < protocol.len() ==> !is_white(#[trigger] protocol[j]),
        reason.len() > 0 ==> reason.last() != '\r',
        forall|j: int| 0 <= j < reason.len() ==> #[trigger] reason[j] != '\n',
        headers.len() == 0 || (headers.len() >= 2 && headers[0] == '\r' && headers[1] == '\n'),
    ensures
        first_line(status_line(protocol, status, reason) + headers) == status_line(
            protocol,
            status,
            reason,
        ),
{
    reveal_strlit(" ");
    let line = status_line(protocol, status, reason);
    let d = decimal(status);
    lemma_numeral_first(status, 10, false);
    assert(is_white('\n') && is_white('\r'));
    assert forall|j: int| 0 <= j < d.len() implies #[trigger] d[j] != '\n' && d[j] != '\r' by {
        assert(digit_value(d[j]) < 16);
    }
    assert forall|j: int| 0 <= j < line.len() implies #[trigger] line[j] != '\n' by {
        let n = protocol.len() as int;
        if j < n {
            assert(line[j] == protocol[j]);
        } else if j == n {
            assert(line[j] == ' ');
        } else if j < n + 1 + d.len() {
            assert(line[j] == d[j - n - 1]);
        } else {
            assert(line[j] == reason[j - n - 1 - d.len()]);
        }
    }
    assert(line.last() != '\r') by {
        if reason.len() > 0 {
            assert(line.last() == reason.last());
        } else {
            assert(line.last() == d[d.len() - 1]);
        }
    }
    let s = line + headers;
    lemma_first_of(s, '\n');
    if headers.len() == 0 {
        assert(s =~= line);
        assert(first_of(s, '\n') == s.len());
    } else {
        let n = line.len() as int;
        assert(s[n] == '\r' && s[n + 1] == '\n');
        assert(first_of(s, '\n') == n + 1) by {
            assert forall|j: int| 0 <= j <= n implies s[j] != '\n' by {
                if j < n {
                    assert(s[j] == line[j]);
                }
            }
        }
        assert(s.take(n + 1).drop_last() =~= line);
    }
}

/// A host without a slash and a path from its first slash on make a URL that is read back; a URL
/// without a path asks for the root.
pub proof fn law_url_is_taken_apart(host: Seq<char>, path: Seq<char>)
    requires
        forall|j: int| 0 <= j < host.len() ==> #[trigger] host[j] != '/',
        path.len() > 0 ==> path[0] == '/',
    ensures
        http_target("http://"@ + host + path) == Ok::<(Seq<char>, Seq<char>), Seq<char>>(
            (
                host,
                if path.len() > 0 {
                    path
                } else {
                    "/"@
                },
            ),
        ),
{
    let url = "http://"@ + host + path;
    let rest = host + path;
    let n = "http://"@.len() as int;
    assert(url.take(n) =~= "http://"@);
    assert(url.skip(n) =~= rest);
    lemma_first_of(rest, '/');
    assert forall|j: int| 0 <= j < host.len() implies rest[j] != '/' by {
        assert(rest[j] == host[j]);
    }
    if path.len() > 0 {
        assert(rest[host.len() as int] == '/');
    }
    assert(first_of(rest, '/') == host.len());
    assert(rest.take(host.len() as int) =~= host);
    assert(rest.skip(host.len() as int) =~= path);
}

/// A URL of another kind is refused.
pub proof fn law_other_urls_are_refused(url: Seq<char>)
    requires
        !(url.len() >= 7 && url[0] == 'h' && url[1] == 't' && url[2] == 't' && url[3] == 'p'
            && url[4] == ':' && url[5] == '/' && url[6] == '/'),
    ensures
        http_target(url) is Err,
{
    reveal_strlit("http://");
    if url.len() >= 7 && url.take(7) == "http://"@ {
        let t = url.take(7);
        assert(t[0] == url[0] && t[1] == url[1] && t[2] == url[2] && t[3] == url[3] && t[4]
            == url[4] && t[5] == url[5] && t[6] == url[6]);
    }
}

/// The server reads in a request: that the path is to be got, in its first line; the host, in the
/// header of that name; and that the connection is to be closed; and then its end.
pub proof fn law_request_is_read(path: Seq<char>, hostport: Seq<char>)
    requires
        path.len() > 0,
        forall|j: int| 0 <= j < path.len() ==> !is_white(#[trigger] path[j]),
        hostport.len() > 0,
        forall|j: int| 0 <= j < hostport.len() ==> !is_white(#[trigger] hostport[j]),
    ensures
        words(get_request(path, hostport)) == seq![
            "GET"@,
            path,
            "HTTP/1.1"@,
            "Host:"@,
            hostport,
            "Connection:"@,
            "close"@,
        ],
{
    let none = Seq::<char>::empty();
    reveal_strlit("GET ");
    reveal_strlit("GET");
    reveal_strlit("HTTP/1.1");
    reveal_strlit("Host:");
    reveal_strlit(" HTTP/1.1\r\nHost: ");
    reveal_strlit("\r\nConnection: close\r\n\r\n");
    reveal_strlit("Connection:");
    reveal_strlit("close");
    let end = seq!['\r', '\n', '\r', '\n'];
    let gap = seq!['\r', '\n'];
    let space = seq![' '];
    lemma_words_behind_white(end, none);
    assert(end + none =~= end);
    assert(words(none) =~= seq![]);
    lemma_first_word("close"@, end);
    let a = space + ("close"@ + end);
    lemma_words_behind_white(space, "close"@ + end);
    lemma_first_word("Connection:"@, a);
    let b = gap + ("Connection:"@ + a);
    lemma_words_behind_white(gap, "Connection:"@ + a);
    lemma_first_word(hostport, b);
    let c = space + (hostport + b);
    lemma_words_behind_white(space, hostport + b);
    lemma_first_word("Host:"@, c);
    let d = gap + ("Host:"@ + c);
    lemma_words_behind_white(gap, "Host:"@ + c);
    lemma_first_word("HTTP/1.1"@, d);
    let e = space + ("HTTP/1.1"@ + d);
    lemma_words_behind_white(space, "HTTP/1.1"@ + d);
    lemma_first_word(path, e);
    let g = space + (path + e);
    lemma_words_behind_white(space, path + e);
    lemma_first_word("GET"@, g);
    assert(get_request(path, hostport) =~= "GET"@ + g);
    assert(words(get_request(path, hostport)) =~= seq![
        "GET"@,
        path,
        "HTTP/1.1"@,
        "Host:"@,
        hostport,
        "Connection:"@,
        "close"@,
    ]);
}

proof fn lemma_words_behind_white(white: Seq<char>, rest: Seq<char>)
    requires
        forall|j: int| 0 <= j < white.len() ==> is_white(#[trigger] white[j]),
    ensures
        words(white + rest) == words(rest),
        white.len() > 0 ==> is_white((white + rest)[0]),
    decreases white.len(),
{
    if white.len() == 0 {
        assert(white + rest =~= rest);
    } else {
        let s = white + rest;
        let less = white.skip(1);
        assert(s[0] == white[0]);
        assert(s.skip(1) =~= less + rest);
        assert forall|j: int| 0 <= j < less.len() implies is_white(#[trigger] less[j]) by {
            assert(less[j] == white[j + 1]);
        }
        lemma_words_behind_white(less, rest);
        assert(trim_start(s) == trim_start(less + rest));
        lemma_trim_start(s);
        lemma_word_len(trim_start(s));
    }
}

/// An answer without an empty line is no answer, and neither is one whose headers are not text.
pub proof fn law_answer_needs_its_headers(b: Seq<u8>, i: int)
    ensures
        (forall|k: int| !#[trigger] blank_at(b, k)) ==> http_answer(b) is Err,
        header_end(b) == Some(i) && utf8_text(b.take(i)) is None ==> http_answer(b) is Err,
        header_end(b) == Some(i) ==> 0 <= i && b[i] == 13 && b[i + 1] == 10 && b[i + 2] == 13 && b[i
            + 3] == 10,
{
    lemma_header_end(b, 0);
}

} // verus!
