//! What the first process of the machine works out: what to mount, the network from the kernel's
//! command line, the platform's metadata, and compressed swap.
use crate::bytes::{
    find_byte, law_text_reads_back, lemma_next_of, next_of, read_text, tail, utf8_text,
};
use crate::http::{find_header_end, header_end, lemma_status_word, status_line};
use crate::number::{
    decimal, digit_value, law_numeral_reads_back, lemma_numeral_first, parse_decimal, push_decimal,
    read_decimal,
};
use crate::pg::has_option;
use crate::text::{
    after_prefix, chars_of, contains, copy_str, cut_first, first_of, has_text, is_text, is_white,
    lemma_first_of, lemma_split_first, lines, lines_of, literals, owned, pieces, split, split_once, starts_with, strings, strip_prefix, text_of, texts,
    trim, trimmed, words, words_of,
};
use vstd::prelude::*;
use vstd::slice::slice_subrange;
use vstd::utf8::encode_utf8;

verus! {

/// Where the metadata is served.
pub const MMDS_ADDR: &'static str = "169.254.169.254:80";

/// How often the metadata is asked for.
pub const MMDS_MAX_ATTEMPTS: u32 = 30;

/// How long to wait between two tries, in milliseconds.
pub const MMDS_RETRY_MS: u64 = 10;

/// How long a request may take, in milliseconds.
pub const HTTP_TIMEOUT_MS: u64 = 200;

/// How much of an answer is read.
pub const MAX_RESPONSE_BYTES: u64 = 65_536;

/// The most that compressed swap holds.
pub const MAX_ZRAM_BYTES: u64 = 268_435_456;

// ---------------------------------------------------------------------------
// File systems.
// ---------------------------------------------------------------------------
/// A file system that is mounted when the machine starts.
#[derive(Clone, Copy, Debug)]
pub struct Mount {
    pub source: &'static str,
    pub target: &'static str,
    pub fstype: &'static str,
    /// No program is run from it.
    pub noexec: bool,
    /// No program gets another user's rights from it.
    pub nosuid: bool,
    /// It holds no devices.
    pub nodev: bool,
    /// The machine cannot go on without it.
    pub required: bool,
}

/// A file system that is mounted, without its representation.
pub struct MountPoint {
    pub source: Seq<char>,
    pub target: Seq<char>,
    pub fstype: Seq<char>,
    pub noexec: bool,
    pub nosuid: bool,
    pub nodev: bool,
    pub required: bool,
}

impl View for Mount {
    type V = MountPoint;

    open spec fn view(&self) -> MountPoint {
        MountPoint {
            source: self.source@,
            target: self.target@,
            fstype: self.fstype@,
            noexec: self.noexec,
            nosuid: self.nosuid,
            nodev: self.nodev,
            required: self.required,
        }
    }
}

/// A file system that gives nobody another user's rights.
pub open spec fn point(
    source: Seq<char>,
    target: Seq<char>,
    fstype: Seq<char>,
    noexec: bool,
    nodev: bool,
    required: bool,
) -> MountPoint {
    MountPoint { source, target, fstype, noexec, nosuid: true, nodev, required }
}

/// The file systems that are mounted when the machine starts. The server maps its shared memory
/// executable, so `/dev/shm` allows that.
pub open spec fn mount_points() -> Seq<MountPoint> {
    seq![
        point("proc"@, "/proc"@, "proc"@, true, true, true),
        point("sysfs"@, "/sys"@, "sysfs"@, true, true, false),
        point("cgroup2"@, "/sys/fs/cgroup"@, "cgroup2"@, true, true, false),
        point("devtmpfs"@, "/dev"@, "devtmpfs"@, false, false, false),
        point("devpts"@, "/dev/pts"@, "devpts"@, true, false, false),
        point("tmpfs"@, "/dev/shm"@, "tmpfs"@, false, true, false),
        point("tmpfs"@, "/run"@, "tmpfs"@, true, true, false),
    ]
}

/// Mounts without their representation.
pub open spec fn mounted(ms: Seq<Mount>) -> Seq<MountPoint> {
    ms.map_values(|m: Mount| m@)
}

fn push_mount(
    out: &mut Vec<Mount>,
    source: &'static str,
    target: &'static str,
    fstype: &'static str,
    noexec: bool,
    nodev: bool,
    required: bool,
)
    ensures
        mounted(final(out)@) == mounted(old(out)@).push(
            point(source@, target@, fstype@, noexec, nodev, required),
        ),
{
    out.push(Mount { source, target, fstype, noexec, nosuid: true, nodev, required });
    assert(mounted(out@) =~= mounted(old(out)@).push(
        point(source@, target@, fstype@, noexec, nodev, required),
    ));
}

/// Lists the file systems to mount, in the order in which they are mounted.
pub fn essential_mounts() -> (r: Vec<Mount>)
    ensures
        mounted(r@) == mount_points(),
{
    let mut out: Vec<Mount> = Vec::new();
    assert(mounted(out@) =~= seq![]);
    push_mount(&mut out, "proc", "/proc", "proc", true, true, true);
    push_mount(&mut out, "sysfs", "/sys", "sysfs", true, true, false);
    push_mount(&mut out, "cgroup2", "/sys/fs/cgroup", "cgroup2", true, true, false);
    push_mount(&mut out, "devtmpfs", "/dev", "devtmpfs", false, false, false);
    push_mount(&mut out, "devpts", "/dev/pts", "devpts", true, false, false);
    push_mount(&mut out, "tmpfs", "/dev/shm", "tmpfs", false, true, false);
    push_mount(&mut out, "tmpfs", "/run", "tmpfs", true, true, false);
    assert(mounted(out@) =~= mount_points());
    out
}

// ---------------------------------------------------------------------------
// The kernel's command line.
// ---------------------------------------------------------------------------
/// What stands behind `key` in the first word that starts with it.
pub open spec fn parameter(ws: Seq<Seq<char>>, key: Seq<char>) -> Option<Seq<char>>
    decreases ws.len(),
{
    if ws.len() == 0 {
        None
    } else if starts_with(ws[0], key) {
        strip_prefix(ws[0], key)
    } else {
        parameter(ws.skip(1), key)
    }
}

fn find_parameter<'a>(cmdline: &'a [char], key: &str) -> (r: Option<&'a [char]>)
    ensures
        match r {
            Some(v) => parameter(words(cmdline@), key@) == Some(v@),
            None => parameter(words(cmdline@), key@) is None,
        },
{
    let ws: Vec<&'a [char]> = words_of(cmdline);
    assert(texts(ws@).skip(0) =~= texts(ws@));
    for i in 0..ws.len()
        invariant
            texts(ws@) == words(cmdline@),
            parameter(words(cmdline@), key@) == parameter(texts(ws@).skip(i as int), key@),
    {
        assert(texts(ws@).skip(i as int)[0] == ws@[i as int]@);
        assert(texts(ws@).skip(i as int).skip(1) =~= texts(ws@).skip(i + 1));
        match after_prefix(ws[i], key) {
            Some(v) => {
                return Some(v);
            },
            None => {},
        }
    }
    None
}

/// An address with the length of its prefix, and the gateway.
#[derive(Debug)]
pub struct Ipv6Config {
    pub addr: String,
    pub prefix_len: u8,
    pub gateway: String,
}

/// The address, the length of its prefix and the gateway that a parameter `addr/len@gateway`
/// names.
pub open spec fn ipv6_of(param: Seq<char>) -> Option<(Seq<char>, nat, Seq<char>)> {
    match split_once(param, '@') {
        None => None,
        Some((addr_part, gateway)) => match split_once(addr_part, '/') {
            None => None,
            Some((addr, len)) => if gateway.len() == 0 {
                None
            } else {
                match parse_decimal(len, 255) {
                    Ok(n) => Some((addr, n, gateway)),
                    Err(_) => None,
                }
            },
        },
    }
}

/// The address that the command line names in `ipv6=`.
pub open spec fn cmdline_ipv6(cmdline: Seq<char>) -> Option<(Seq<char>, nat, Seq<char>)> {
    match parameter(words(cmdline), "ipv6="@) {
        Some(p) => ipv6_of(p),
        None => None,
    }
}

/// Reads the address that the command line names in `ipv6=`.
pub fn read_cmdline_ipv6(cmdline: &str) -> (r: Option<Ipv6Config>)
    ensures
        match r {
            Some(c) => cmdline_ipv6(cmdline@) == Some((c.addr@, c.prefix_len as nat, c.gateway@)),
            None => cmdline_ipv6(cmdline@) is None,
        },
{
    let cs: Vec<char> = chars_of(cmdline);
    let param: &[char] = match find_parameter(cs.as_slice(), "ipv6=") {
        Some(p) => p,
        None => return None,
    };
    let (addr_part, gateway) = match cut_first(param, '@') {
        Some(x) => x,
        None => return None,
    };
    let (addr, len) = match cut_first(addr_part, '/') {
        Some(x) => x,
        None => return None,
    };
    if gateway.len() == 0 {
        return None;
    }
    match read_decimal(len, 255) {
        Ok(n) => Some(
            Ipv6Config { addr: text_of(addr), prefix_len: n as u8, gateway: text_of(gateway) },
        ),
        Err(_) => None,
    }
}

/// The address that the command line names in `ipv6_ext=`, without the length of its prefix.
pub open spec fn cmdline_ipv6_ext(cmdline: Seq<char>) -> Option<Seq<char>> {
    match parameter(words(cmdline), "ipv6_ext="@) {
        Some(p) => match split_once(p, '/') {
            Some((addr, _)) => if addr.len() == 0 {
                None
            } else {
                Some(addr)
            },
            None => None,
        },
        None => None,
    }
}

/// Reads the address that the command line names in `ipv6_ext=`.
pub fn read_cmdline_ipv6_ext(cmdline: &str) -> (r: Option<String>)
    ensures
        match r {
            Some(a) => cmdline_ipv6_ext(cmdline@) == Some(a@),
            None => cmdline_ipv6_ext(cmdline@) is None,
        },
{
    let cs: Vec<char> = chars_of(cmdline);
    let param: &[char] = match find_parameter(cs.as_slice(), "ipv6_ext=") {
        Some(p) => p,
        None => return None,
    };
    match cut_first(param, '/') {
        Some((addr, _)) => {
            if addr.len() == 0 {
                None
            } else {
                Some(text_of(addr))
            }
        },
        None => None,
    }
}

/// The gateway that the command line names: the third field of `ip=`.
pub open spec fn cmdline_gateway(cmdline: Seq<char>) -> Option<Seq<char>> {
    match parameter(words(cmdline), "ip="@) {
        Some(p) => if split(p, ':').len() > 2 && split(p, ':')[2].len() > 0 {
            Some(split(p, ':')[2])
        } else {
            None
        },
        None => None,
    }
}

/// Reads the gateway that the command line names.
pub fn read_cmdline_gateway(cmdline: &str) -> (r: Option<String>)
    ensures
        match r {
            Some(g) => cmdline_gateway(cmdline@) == Some(g@),
            None => cmdline_gateway(cmdline@) is None,
        },
{
    let cs: Vec<char> = chars_of(cmdline);
    let param: &[char] = match find_parameter(cs.as_slice(), "ip=") {
        Some(p) => p,
        None => return None,
    };
    let ps: Vec<&[char]> = pieces(param, ':');
    assert(texts(ps@).len() == ps@.len());
    if ps.len() <= 2 {
        return None;
    }
    assert(texts(ps@)[2] == ps@[2]@);
    if ps[2].len() == 0 {
        None
    } else {
        Some(text_of(ps[2]))
    }
}

/// The nameservers: the gateway of the newer protocol, else that of the older, and a public one.
pub open spec fn nameservers(gw6: Option<Seq<char>>, gw4: Option<Seq<char>>) -> Seq<char> {
    let own = match gw6 {
        Some(g) => "nameserver "@ + g + "\n"@,
        None => match gw4 {
            Some(g) => "nameserver "@ + g + "\n"@,
            None => seq![],
        },
    };
    own + "nameserver 8.8.8.8\n"@
}

/// The file that names the nameservers, for a command line.
pub open spec fn resolv_text(cmdline: Seq<char>) -> Seq<char> {
    nameservers(
        match cmdline_ipv6(cmdline) {
            Some((_, _, g)) => Some(g),
            None => None,
        },
        cmdline_gateway(cmdline),
    )
}

/// Generates the file that names the nameservers, from the kernel's command line.
pub fn resolv_conf(cmdline: &str) -> (r: String)
    ensures
        r@ == resolv_text(cmdline@),
{
    let mut out = String::new();
    assert(out@ =~= seq![]);
    match read_cmdline_ipv6(cmdline) {
        Some(c) => {
            out.append("nameserver ");
            out.append(c.gateway.as_str());
            out.append("\n");
            assert(out@ =~= "nameserver "@ + c.gateway@ + "\n"@);
        },
        None => match read_cmdline_gateway(cmdline) {
            Some(g) => {
                out.append("nameserver ");
                out.append(g.as_str());
                out.append("\n");
                assert(out@ =~= "nameserver "@ + g@ + "\n"@);
            },
            None => {},
        },
    }
    out.append("nameserver 8.8.8.8\n");
    out
}

/// The arguments of `ip` for the way to the metadata.
pub open spec fn metadata_route() -> Seq<Seq<char>> {
    seq!["route"@, "add"@, "169.254.169.254"@, "dev"@, "eth0"@]
}

/// The arguments of `ip` for an address of the machine.
pub open spec fn address_command(addr: Seq<char>, prefix_len: u8) -> Seq<Seq<char>> {
    seq!["-6"@, "addr"@, "add"@, addr + "/"@ + decimal(prefix_len as nat), "dev"@, "eth0"@]
}

/// The arguments of `ip` for the way to everything else.
pub open spec fn default_route(gateway: Seq<char>) -> Seq<Seq<char>> {
    seq!["-6"@, "route"@, "add"@, "default"@, "via"@, gateway, "dev"@, "eth0"@]
}

/// Arguments of `ip` for the way to the metadata.
pub fn mmds_route_args() -> (r: Vec<String>)
    ensures
        strings(r@) == metadata_route(),
{
    let items = ["route", "add", "169.254.169.254", "dev", "eth0"];
    let r = owned(items.as_slice());
    assert(literals(items@) =~= seq!["route"@, "add"@, "169.254.169.254"@, "dev"@, "eth0"@]);
    r
}

/// Arguments of `ip` for an address of the machine.
pub fn ipv6_addr_args(addr: &str, prefix_len: u8) -> (r: Vec<String>)
    ensures
        strings(r@) == address_command(addr@, prefix_len),
{
    let mut full: String = copy_str(addr);
    full.append("/");
    push_decimal(&mut full, prefix_len as u64);
    let items = ["-6", "addr", "add", full.as_str(), "dev", "eth0"];
    let r = owned(items.as_slice());
    assert(literals(items@) =~= seq!["-6"@, "addr"@, "add"@, full@, "dev"@, "eth0"@]);
    r
}

/// Arguments of `ip` for the way to everything else.
pub fn ipv6_route_args(gateway: &str) -> (r: Vec<String>)
    ensures
        strings(r@) == default_route(gateway@),
{
    let items = ["-6", "route", "add", "default", "via", gateway, "dev", "eth0"];
    let r = owned(items.as_slice());
    assert(literals(items@) =~= seq![
        "-6"@,
        "route"@,
        "add"@,
        "default"@,
        "via"@,
        gateway@,
        "dev"@,
        "eth0"@,
    ]);
    r
}

// ---------------------------------------------------------------------------
// Metadata.
// ---------------------------------------------------------------------------
/// The request for a token.
pub const TOKEN_REQUEST: &'static str = "PUT /latest/api/token HTTP/1.1\r\nHost: 169.254.169.254\r\nX-metadata-token-ttl-seconds: 300\r\nContent-Length: 0\r\nConnection: close\r\n\r\n";

/// The status that an answer reports.
pub open spec fn status_of(response: Seq<u8>) -> Option<nat> {
    match utf8_text(response.take(next_of(response, 10, 0))) {
        Some(line) => if words(line).len() < 2 {
            None
        } else {
            match parse_decimal(words(line)[1], u16::MAX as nat) {
                Ok(n) => Some(n),
                Err(_) => None,
            }
        },
        None => None,
    }
}

/// Reads the status that an answer reports.
pub fn http_status(response: &[u8]) -> (r: Option<u16>)
    ensures
        match r {
            Some(n) => status_of(response@) == Some(n as nat),
            None => status_of(response@) is None,
        },
{
    let i: usize = find_byte(response, 10, 0);
    let head: &[u8] = slice_subrange(response, 0, i);
    assert(head@ =~= response@.take(i as int));
    let line: String = match read_text(head) {
        Ok(t) => t,
        Err(_) => return None,
    };
    let cs: Vec<char> = chars_of(line.as_str());
    let ws: Vec<&[char]> = words_of(cs.as_slice());
    assert(texts(ws@).len() == ws@.len());
    if ws.len() < 2 {
        return None;
    }
    assert(texts(ws@)[1] == ws@[1]@);
    match read_decimal(ws[1], u16::MAX as u64) {
        Ok(n) => Some(n as u16),
        Err(_) => None,
    }
}

/// The body of an answer, if it is text.
pub open spec fn body_of(response: Seq<u8>) -> Option<Seq<char>> {
    match header_end(response) {
        Some(i) => utf8_text(response.skip(i + 4)),
        None => None,
    }
}

/// Reads the body of an answer.
pub fn http_body(response: &[u8]) -> (r: Option<String>)
    ensures
        match r {
            Some(t) => body_of(response@) == Some(t@),
            None => body_of(response@) is None,
        },
{
    let size: usize = response.len();
    let end: usize = match find_header_end(response) {
        Some(i) => i,
        None => return None,
    };
    assert(end + 4 <= size);
    let body: &[u8] = tail(response, end + 4);
    assert(body@ =~= response@.skip(end + 4));
    match read_text(body) {
        Ok(t) => Some(t),
        Err(_) => None,
    }
}

/// A text without the characters that end a header.
pub open spec fn without_line_ends(s: Seq<char>) -> Seq<char>
    decreases s.len(),
{
    if s.len() == 0 {
        seq![]
    } else if s.last() == '\r' || s.last() == '\n' {
        without_line_ends(s.drop_last())
    } else {
        without_line_ends(s.drop_last()).push(s.last())
    }
}

/// The token that an answer holds.
pub open spec fn token_of(response: Seq<u8>) -> Option<Seq<char>> {
    if status_of(response) == Some(200nat) {
        match body_of(response) {
            Some(body) => if without_line_ends(trim(body)).len() == 0 {
                None
            } else {
                Some(without_line_ends(trim(body)))
            },
            None => None,
        }
    } else {
        None
    }
}

/// Reads the token from an answer. It becomes part of a header, so nothing in it may end one.
pub fn read_token(response: &[u8]) -> (r: Option<String>)
    ensures
        match r {
            Some(t) => token_of(response@) == Some(t@),
            None => token_of(response@) is None,
        },
{
    match http_status(response) {
        Some(n) => {
            if n != 200 {
                return None;
            }
        },
        None => return None,
    }
    let body: String = match http_body(response) {
        Some(b) => b,
        None => return None,
    };
    let cs: Vec<char> = chars_of(body.as_str());
    let t: &[char] = trimmed(cs.as_slice());
    let mut out: Vec<char> = Vec::new();
    for i in 0..t.len()
        invariant
            out@ == without_line_ends(t@.take(i as int)),
    {
        assert(t@.take(i + 1).drop_last() =~= t@.take(i as int));
        if t[i] != '\r' && t[i] != '\n' {
            out.push(t[i]);
        }
    }
    assert(t@.take(t@.len() as int) =~= t@);
    if out.len() == 0 {
        None
    } else {
        Some(text_of(out.as_slice()))
    }
}

/// A token holds nothing that would end a header.
pub proof fn law_token_stays_in_its_header(response: Seq<u8>, i: int)
    requires
        token_of(response) is Some,
        0 <= i < token_of(response)->0.len(),
    ensures
        token_of(response)->0[i] != '\r' && token_of(response)->0[i] != '\n',
{
    lemma_without_line_ends(trim(body_of(response)->0), i);
}

proof fn lemma_without_line_ends(s: Seq<char>, i: int)
    requires
        0 <= i < without_line_ends(s).len(),
    ensures
        without_line_ends(s)[i] != '\r' && without_line_ends(s)[i] != '\n',
    decreases s.len(),
{
    if s.len() > 0 {
        let before = without_line_ends(s.drop_last());
        if i < before.len() {
            lemma_without_line_ends(s.drop_last(), i);
        }
    }
}

/// The request for the metadata.
pub open spec fn metadata_request_text(token: Option<Seq<char>>) -> Seq<char> {
    let start = "GET / HTTP/1.1\r\nHost: 169.254.169.254\r\nAccept: application/json\r\n"@;
    let named = match token {
        Some(t) => start + "X-metadata-token: "@ + t + "\r\n"@,
        None => start,
    };
    named + "Connection: close\r\n\r\n"@
}

/// Builds the request for the metadata.
pub fn metadata_request(token: Option<&str>) -> (r: String)
    ensures
        r@ == metadata_request_text(crate::tls::opt_text(token)),
{
    let mut out: String = copy_str(
        "GET / HTTP/1.1\r\nHost: 169.254.169.254\r\nAccept: application/json\r\n",
    );
    match token {
        Some(t) => {
            out.append("X-metadata-token: ");
            out.append(t);
            out.append("\r\n");
        },
        None => {},
    }
    out.append("Connection: close\r\n\r\n");
    out
}

/// A JSON document written anew with indentation, or the complaint about a text that is none.
pub uninterp spec fn indented_json(text: Seq<char>) -> Result<Seq<char>, Seq<char>>;

/// `serde_json::from_str` into a `Value`, then `serde_json::to_string_pretty`: the document written
/// anew, or the error's own words. Both depend on the text alone.
#[verifier::external_body]
pub(crate) fn indent_json(text: &str) -> (r: Result<String, String>)
    ensures
        match r {
            Ok(t) => indented_json(text@) == Ok::<Seq<char>, Seq<char>>(t@),
            Err(e) => indented_json(text@) == Err::<Seq<char>, Seq<char>>(e@),
        },
{
    match serde_json::from_str::<serde_json::Value>(text) {
        Ok(v) => Ok(serde_json::to_string_pretty(&v).unwrap_or_default()),
        Err(e) => Err(e.to_string()),
    }
}

/// The body of an answer that holds metadata; nothing where there are none yet; or what is wrong.
pub open spec fn metadata_body(response: Seq<u8>) -> Result<Option<Seq<char>>, Seq<char>> {
    match status_of(response) {
        None => Err("MMDS returned malformed HTTP response"@),
        Some(n) => if n != 200 {
            Err("MMDS returned HTTP "@ + decimal(n))
        } else {
            match body_of(response) {
                None => Ok(None),
                Some(body) => if body.len() == 0 || trim(body) == "latest/"@ {
                    Ok(None)
                } else {
                    Ok(Some(body))
                },
            }
        },
    }
}

/// Finds the metadata in an answer.
pub fn find_metadata(response: &[u8]) -> (r: Result<Option<String>, String>)
    ensures
        match (r, metadata_body(response@)) {
            (Ok(None), Ok(None)) => true,
            (Ok(Some(a)), Ok(Some(b))) => a@ == b,
            (Err(a), Err(b)) => a@ == b,
            _ => false,
        },
{
    match http_status(response) {
        None => return Err(copy_str("MMDS returned malformed HTTP response")),
        Some(n) => {
            if n != 200 {
                let mut m: String = copy_str("MMDS returned HTTP ");
                push_decimal(&mut m, n as u64);
                return Err(m);
            }
        },
    }
    let body: String = match http_body(response) {
        Some(b) => b,
        None => return Ok(None),
    };
    let cs: Vec<char> = chars_of(body.as_str());
    if cs.len() == 0 || is_text(trimmed(cs.as_slice()), "latest/") {
        Ok(None)
    } else {
        Ok(Some(body))
    }
}

/// Reads an answer to the request for the metadata: the document as it is kept, nothing where
/// there is none yet, or what is wrong.
pub fn read_metadata(response: &[u8]) -> (r: Result<Option<String>, String>)
    ensures
        match (r, metadata_body(response@)) {
            (Ok(None), Ok(None)) => true,
            (Ok(Some(a)), Ok(Some(b))) => indented_json(b) == Ok::<Seq<char>, Seq<char>>(a@),
            (Err(a), Ok(Some(b))) => indented_json(b) == Err::<Seq<char>, Seq<char>>(a@),
            (Err(a), Err(b)) => a@ == b,
            _ => false,
        },
{
    match find_metadata(response) {
        Ok(Some(body)) => match indent_json(body.as_str()) {
            Ok(t) => Ok(Some(t)),
            Err(e) => Err(e),
        },
        Ok(None) => Ok(None),
        Err(e) => Err(e),
    }
}

/// A text as a JSON string, with its quotes.
pub uninterp spec fn json_quoted(s: Seq<char>) -> Seq<char>;

/// `serde_json::to_string` on a text: the JSON string, which depends on the text alone.
#[verifier::external_body]
pub(crate) fn quote_json(s: &str) -> (r: String)
    ensures
        r@ == json_quoted(s@),
{
    serde_json::to_string(s).unwrap_or_default()
}

/// The metadata that hold nothing but a password, given as a JSON string.
pub open spec fn password_metadata_text(quoted: Seq<char>) -> Seq<char> {
    "{\n  \"latest\": {\n    \"meta-data\": {\n      \"POSTGRES_PASSWORD\": "@ + quoted
        + "\n    }\n  }\n}"@
}

/// Generates metadata that hold nothing but a password, for a machine without a platform.
pub fn password_metadata(password: &str) -> (r: String)
    ensures
        r@ == password_metadata_text(json_quoted(password@)),
{
    let mut out: String = copy_str(
        "{\n  \"latest\": {\n    \"meta-data\": {\n      \"POSTGRES_PASSWORD\": ",
    );
    out.append(quote_json(password).as_str());
    out.append("\n    }\n  }\n}");
    out
}

// ---------------------------------------------------------------------------
// Compressed swap.
// ---------------------------------------------------------------------------
/// The number on the first line that starts with a field's name.
pub open spec fn meminfo_field(ls: Seq<Seq<char>>, field: Seq<char>) -> Option<nat>
    decreases ls.len(),
{
    if ls.len() == 0 {
        None
    } else if starts_with(ls[0], field) {
        crate::supervisor::memtotal_in_line(ls[0])
    } else {
        meminfo_field(ls.skip(1), field)
    }
}

/// Reads a field of `/proc/meminfo`, in units of 1024 bytes.
pub fn read_proc_meminfo_kib(content: &str, field: &str) -> (r: Option<u64>)
    ensures
        match r {
            Some(n) => meminfo_field(lines(content@), field@) == Some(n as nat),
            None => meminfo_field(lines(content@), field@) is None,
        },
{
    let cs: Vec<char> = chars_of(content);
    let ls: Vec<&[char]> = lines_of(cs.as_slice());
    assert(texts(ls@).skip(0) =~= texts(ls@));
    for i in 0..ls.len()
        invariant
            texts(ls@) == lines(content@),
            meminfo_field(lines(content@), field@) == meminfo_field(
                texts(ls@).skip(i as int),
                field@,
            ),
    {
        assert(texts(ls@).skip(i as int)[0] == ls@[i as int]@);
        assert(texts(ls@).skip(i as int).skip(1) =~= texts(ls@).skip(i + 1));
        if after_prefix(ls[i], field).is_some() {
            let ws: Vec<&[char]> = words_of(ls[i]);
            assert(texts(ws@).len() == ws@.len());
            if ws.len() < 2 {
                return None;
            }
            assert(texts(ws@)[1] == ws@[1]@);
            return match read_decimal(ws[1], u64::MAX) {
                Ok(n) => Some(n),
                Err(_) => None,
            };
        }
    }
    None
}

/// Whether the list of swaps names the compressed one.
pub open spec fn uses_zram(swaps: Seq<char>) -> bool {
    contains(swaps, "zram0"@)
}

/// The algorithm to compress with, out of those that are offered, if one is to be set.
pub open spec fn zram_choice(offered: Seq<char>) -> Option<Seq<char>> {
    if contains(offered, "lz4"@) {
        Some("lz4"@)
    } else {
        None
    }
}

/// Whether compressed swap is in use already, as `/proc/swaps` tells.
pub fn zram_in_use(swaps: &str) -> (r: bool)
    ensures
        r == uses_zram(swaps@),
{
    let cs: Vec<char> = chars_of(swaps);
    has_text(cs.as_slice(), "zram0")
}

/// Picks the algorithm to compress with, out of those that the kernel lists: `lz4` where it is
/// offered, else whatever is set.
pub fn zram_algorithm(offered: &str) -> (r: Option<&'static str>)
    ensures
        match r {
            Some(a) => zram_choice(offered@) == Some(a@),
            None => zram_choice(offered@) is None,
        },
{
    let cs: Vec<char> = chars_of(offered);
    if has_text(cs.as_slice(), "lz4") {
        Some("lz4")
    } else {
        None
    }
}

/// The memory of a machine that does not tell: four gigabytes.
pub const DEFAULT_MEM_KIB: u64 = 4_194_304;

/// The size of compressed swap, in bytes.
pub open spec fn zram_bytes(mem_kib: Option<u64>) -> int {
    let kib = match mem_kib {
        Some(n) => n,
        None => DEFAULT_MEM_KIB,
    };
    let tenth = kib * 1024 / 10;
    if tenth < MAX_ZRAM_BYTES {
        tenth
    } else {
        MAX_ZRAM_BYTES as int
    }
}

/// The size of compressed swap: a tenth of memory, within bounds.
pub fn zram_size(mem_kib: Option<u64>) -> (r: u64)
    requires
        mem_kib matches Some(n) ==> n * 1024 <= u64::MAX,
    ensures
        r == zram_bytes(mem_kib),
{
    let kib: u64 = match mem_kib {
        Some(n) => n,
        None => DEFAULT_MEM_KIB,
    };
    let tenth: u64 = kib * 1024 / 10;
    if tenth < MAX_ZRAM_BYTES {
        tenth
    } else {
        MAX_ZRAM_BYTES
    }
}

// ---------------------------------------------------------------------------
// Laws.
// ---------------------------------------------------------------------------
/// The machine cannot go on without `/proc`, and only without that. No file system gives another
/// user's rights; programs run only from `/dev` and from shared memory; devices stand only in `/dev`
/// and `/dev/pts`. What lies inside another is mounted after it.
pub proof fn law_file_systems_are_safe(i: int)
    requires
        0 <= i < mount_points().len(),
    ensures
        ({
            let all = mount_points();
            let m = all[i];
            &&& all.len() == 7
            &&& m.nosuid
            &&& m.required <==> i == 0
            &&& all[0].target == "/proc"@ && all[0].fstype == "proc"@
            &&& all[1].target == "/sys"@ && all[1].fstype == "sysfs"@
            &&& all[2].target == "/sys/fs/cgroup"@ && all[2].fstype == "cgroup2"@
            &&& all[3].target == "/dev"@ && all[3].fstype == "devtmpfs"@
            &&& all[4].target == "/dev/pts"@ && all[4].fstype == "devpts"@
            &&& all[5].target == "/dev/shm"@ && all[5].fstype == "tmpfs"@
            &&& all[6].target == "/run"@ && all[6].fstype == "tmpfs"@
            &&& !m.noexec <==> i == 3 || i == 5
            &&& !m.nodev <==> i == 3 || i == 4
        }),
{
}

proof fn lemma_parameter(before: Seq<Seq<char>>, key: Seq<char>, v: Seq<char>, rest: Seq<Seq<char>>)
    requires
        forall|i: int| 0 <= i < before.len() ==> !starts_with(#[trigger] before[i], key),
    ensures
        parameter(before + (seq![key + v] + rest), key) == Some(v),
    decreases before.len(),
{
    let all = before + (seq![key + v] + rest);
    if before.len() == 0 {
        assert(all[0] == key + v);
        assert((key + v).take(key.len() as int) =~= key);
        assert((key + v).skip(key.len() as int) =~= v);
    } else {
        assert(all[0] == before[0]);
        assert(!starts_with(before[0], key));
        let tail = before.skip(1);
        assert forall|i: int| 0 <= i < tail.len() implies !starts_with(#[trigger] tail[i], key) by {
            assert(tail[i] == before[i + 1]);
        }
        lemma_parameter(tail, key, v, rest);
        assert(all.skip(1) =~= tail + (seq![key + v] + rest));
    }
}

/// The machine's address, the length of its prefix and its gateway are those of the first word of
/// the command line that starts with `ipv6=`: `address/length@gateway`.
pub proof fn law_address_is_read(
    cmdline: Seq<char>,
    before: Seq<Seq<char>>,
    rest: Seq<Seq<char>>,
    addr: Seq<char>,
    len: nat,
    gateway: Seq<char>,
)
    requires
        forall|i: int| 0 <= i < before.len() ==> !starts_with(#[trigger] before[i], "ipv6="@),
        words(cmdline) == before + (seq![
            "ipv6="@ + (addr.push('/') + (decimal(len).push('@') + gateway)),
        ] + rest),
        forall|j: int| 0 <= j < addr.len() ==> #[trigger] addr[j] != '/' && addr[j] != '@',
        len <= 255,
        gateway.len() > 0,
    ensures
        cmdline_ipv6(cmdline) == Some((addr, len, gateway)),
{
    let d = decimal(len);
    let param = addr.push('/') + (d.push('@') + gateway);
    let front = addr.push('/') + d;
    lemma_parameter(before, "ipv6="@, param, rest);
    lemma_numeral_first(len, 10, false);
    law_numeral_reads_back(len, 10, false, 255);
    lemma_first_of(param, '@');
    lemma_first_of(front, '/');
    let n = front.len() as int;
    assert(param[n] == '@');
    assert forall|j: int| 0 <= j < n implies param[j] != '@' by {
        if j < addr.len() {
            assert(param[j] == addr[j]);
        } else if j > addr.len() {
            assert(param[j] == d[j - addr.len() - 1]);
            assert(digit_value(d[j - addr.len() - 1]) < 16);
        }
    }
    assert(first_of(param, '@') == n);
    assert(param.take(n) =~= front);
    assert(param.skip(n + 1) =~= gateway);
    assert(front[addr.len() as int] == '/');
    assert forall|j: int| 0 <= j < addr.len() implies front[j] != '/' by {
        assert(front[j] == addr[j]);
    }
    assert(first_of(front, '/') == addr.len());
    assert(front.take(addr.len() as int) =~= addr);
    assert(front.skip(addr.len() as int + 1) =~= d);
}

/// The gateway of the older protocol is the third field of the first word that starts with `ip=`.
pub proof fn law_gateway_is_the_third_field(
    cmdline: Seq<char>,
    before: Seq<Seq<char>>,
    rest: Seq<Seq<char>>,
    client: Seq<char>,
    server: Seq<char>,
    gateway: Seq<char>,
    more: Seq<char>,
)
    requires
        forall|i: int| 0 <= i < before.len() ==> !starts_with(#[trigger] before[i], "ip="@),
        words(cmdline) == before + (seq![
            "ip="@ + (client.push(':') + (server.push(':') + (gateway.push(':') + more))),
        ] + rest),
        forall|j: int| 0 <= j < client.len() ==> client[j] != ':',
        forall|j: int| 0 <= j < server.len() ==> server[j] != ':',
        forall|j: int| 0 <= j < gateway.len() ==> gateway[j] != ':',
        gateway.len() > 0,
    ensures
        cmdline_gateway(cmdline) == Some(gateway),
{
    let param = client.push(':') + (server.push(':') + (gateway.push(':') + more));
    lemma_parameter(before, "ip="@, param, rest);
    lemma_split_first(client, ':', server.push(':') + (gateway.push(':') + more));
    lemma_split_first(server, ':', gateway.push(':') + more);
    lemma_split_first(gateway, ':', more);
    assert(split(param, ':')[2] == gateway);
}

/// The second address is what stands before the slash of the first word that starts with
/// `ipv6_ext=`.
pub proof fn law_second_address_is_read(
    cmdline: Seq<char>,
    before: Seq<Seq<char>>,
    rest: Seq<Seq<char>>,
    addr: Seq<char>,
    len: Seq<char>,
)
    requires
        forall|i: int| 0 <= i < before.len() ==> !starts_with(#[trigger] before[i], "ipv6_ext="@),
        words(cmdline) == before + (seq!["ipv6_ext="@ + (addr.push('/') + len)] + rest),
        forall|j: int| 0 <= j < addr.len() ==> #[trigger] addr[j] != '/',
        addr.len() > 0,
    ensures
        cmdline_ipv6_ext(cmdline) == Some(addr),
{
    let param = addr.push('/') + len;
    lemma_parameter(before, "ipv6_ext="@, param, rest);
    lemma_first_of(param, '/');
    assert(param[addr.len() as int] == '/');
    assert forall|j: int| 0 <= j < addr.len() implies param[j] != '/' by {
        assert(param[j] == addr[j]);
    }
    assert(first_of(param, '/') == addr.len());
    assert(param.take(addr.len() as int) =~= addr);
}

/// Names are looked up at the gateway of the newer protocol, or else of the older one, and last of
/// all at a public server; without a gateway at that alone.
pub proof fn law_names_are_looked_up(g6: Seq<char>, g4: Option<Seq<char>>, g: Seq<char>)
    ensures
        nameservers(Some(g6), g4) == "nameserver "@ + g6 + "\n"@ + "nameserver 8.8.8.8\n"@,
        nameservers(None, Some(g)) == "nameserver "@ + g + "\n"@ + "nameserver 8.8.8.8\n"@,
        nameservers(None, None) == "nameserver 8.8.8.8\n"@,
{
    assert(nameservers(None, None) =~= "nameserver 8.8.8.8\n"@);
}

/// The machine's first interface gets the address with its prefix, the way to everything over the
/// gateway, and the way to the metadata.
pub proof fn law_network_is_set_up(addr: Seq<char>, prefix_len: u8, gateway: Seq<char>)
    ensures
        has_option(
            address_command(addr, prefix_len),
            "add"@,
            addr + "/"@ + decimal(prefix_len as nat),
        ),
        has_option(address_command(addr, prefix_len), "dev"@, "eth0"@),
        has_option(default_route(gateway), "default"@, "via"@),
        has_option(default_route(gateway), "via"@, gateway),
        has_option(default_route(gateway), "dev"@, "eth0"@),
        has_option(metadata_route(), "add"@, "169.254.169.254"@),
        has_option(metadata_route(), "dev"@, "eth0"@),
        address_command(addr, prefix_len)[0] == "-6"@ && address_command(addr, prefix_len)[1]
            == "addr"@,
        default_route(gateway)[0] == "-6"@ && default_route(gateway)[1] == "route"@,
        metadata_route()[0] == "route"@,
{
    let a = address_command(addr, prefix_len);
    assert(a[2] == "add"@ && a[4] == "dev"@);
    let d = default_route(gateway);
    assert(d[3] == "default"@ && d[4] == "via"@ && d[6] == "dev"@);
    let m = metadata_route();
    assert(m[1] == "add"@ && m[3] == "dev"@);
}

/// The status of an answer is the number behind the first space of its first line.
pub proof fn law_answer_status_is_read(
    protocol: Seq<char>,
    status: nat,
    reason: Seq<char>,
    rest: Seq<u8>,
)
    requires
        protocol.len() > 0,
        forall|j: int| 0 <= j < protocol.len() ==> !is_white(#[trigger] protocol[j]),
        reason.len() > 0 ==> is_white(reason[0]),
        status <= u16::MAX,
        forall|i: int|
            0 <= i < encode_utf8(status_line(protocol, status, reason)).len() ==> #[trigger]
                encode_utf8(status_line(protocol, status, reason))[i] != 10,
    ensures
        status_of(encode_utf8(status_line(protocol, status, reason)).push(10) + rest) == Some(
            status,
        ),
{
    let line = status_line(protocol, status, reason);
    let e = encode_utf8(line);
    let response = e.push(10) + rest;
    lemma_next_of(response, 10, 0);
    assert(response[e.len() as int] == 10);
    assert forall|j: int| 0 <= j < e.len() implies response[j] != 10 by {
        assert(response[j] == e[j]);
    }
    assert(next_of(response, 10, 0) == e.len());
    assert(response.take(e.len() as int) =~= e);
    law_text_reads_back(line);
    lemma_status_word(protocol, status, reason);
    law_numeral_reads_back(status, 10, false, u16::MAX as nat);
}

/// A token and metadata are taken only from an answer with status 200. An answer that holds nothing
/// yet, or only the name of the version, is no failure; any other status is one.
pub proof fn law_only_status_200_counts(response: Seq<u8>)
    ensures
        status_of(response) != Some(200nat) ==> token_of(response) is None,
        status_of(response) != Some(200nat) ==> metadata_body(response) is Err,
        status_of(response) == Some(200nat) ==> metadata_body(response) is Ok,
        status_of(response) == Some(200nat) && (body_of(response) matches Some(b) && (b.len() == 0
            || trim(b) == "latest/"@)) ==> metadata_body(response) == Ok::<
            Option<Seq<char>>,
            Seq<char>,
        >(None),
        status_of(response) == Some(200nat) && (body_of(response) matches Some(b) && b.len() > 0
            && trim(b) != "latest/"@) ==> metadata_body(response) == Ok::<
            Option<Seq<char>>,
            Seq<char>,
        >(Some(body_of(response)->0)),
{
}

/// The request for the metadata asks for JSON, carries the token in a header of its own exactly if
/// there is one, and ends with an empty line.
pub proof fn law_request_carries_the_token(token: Seq<char>)
    ensures
        metadata_request_text(Some(token))
            == "GET / HTTP/1.1\r\nHost: 169.254.169.254\r\nAccept: application/json\r\n"@
            + "X-metadata-token: "@ + token + "\r\n"@ + "Connection: close\r\n\r\n"@,
        metadata_request_text(None)
            == "GET / HTTP/1.1\r\nHost: 169.254.169.254\r\nAccept: application/json\r\n"@
            + "Connection: close\r\n\r\n"@,
        TOKEN_REQUEST@
            == "PUT /latest/api/token HTTP/1.1\r\nHost: 169.254.169.254\r\nX-metadata-token-ttl-seconds: 300\r\nContent-Length: 0\r\nConnection: close\r\n\r\n"@,
{
}

/// Compressed swap takes a tenth of the memory, but no more than 256 MB; a machine that does not tell
/// its memory counts as one with four gigabytes.
pub proof fn law_swap_is_a_tenth(kib: u64)
    requires
        kib * 1024 <= u64::MAX,
    ensures
        ({
            let size = zram_bytes(Some(kib));
            &&& size <= 268_435_456 && 10 * size <= kib * 1024
            &&& size == 268_435_456 || kib * 1024 < 10 * (size + 1)
        }),
        zram_bytes(None) == zram_bytes(Some(4_194_304u64)),
{
}

/// The first nameserver is the gateway of the machine's address, where the command line names one;
/// else that of the older protocol.
pub proof fn law_gateway_is_asked_for_names(cmdline: Seq<char>, addr: Seq<char>, len: nat, g: Seq<char>)
    ensures
        cmdline_ipv6(cmdline) == Some((addr, len, g)) ==> resolv_text(cmdline) == "nameserver "@ + g
            + "\n"@ + "nameserver 8.8.8.8\n"@,
        cmdline_ipv6(cmdline) is None && cmdline_gateway(cmdline) == Some(g) ==> resolv_text(cmdline)
            == "nameserver "@ + g + "\n"@ + "nameserver 8.8.8.8\n"@,
        cmdline_ipv6(cmdline) is None && cmdline_gateway(cmdline) is None ==> resolv_text(cmdline)
            == "nameserver 8.8.8.8\n"@,
{
    law_names_are_looked_up(g, cmdline_gateway(cmdline), g);
}

/// Metadata for a machine without a platform hold the password under its key, at the place where it
/// is looked for.
pub proof fn law_password_stands_in_the_metadata(quoted: Seq<char>)
    ensures
        password_metadata_text(quoted)
            == "{\n  \"latest\": {\n    \"meta-data\": {\n      \"POSTGRES_PASSWORD\": "@ + quoted
            + "\n    }\n  }\n}"@,
{
}

/// Compressed swap is in use exactly if its device is listed, wherever in the list; it compresses with
/// `lz4` exactly where that is offered.
pub proof fn law_compressed_swap_is_found(before: Seq<char>, rest: Seq<char>)
    ensures
        uses_zram(before + "zram0"@ + rest),
        zram_choice(before + "lz4"@ + rest) == Some("lz4"@),
        !contains(before, "lz4"@) ==> zram_choice(before) is None,
        !contains(before, "zram0"@) ==> !uses_zram(before),
{
    let s = before + "zram0"@ + rest;
    let n = before.len() as int;
    assert(s.subrange(n, n + "zram0"@.len()) =~= "zram0"@);
    let t = before + "lz4"@ + rest;
    assert(t.subrange(n, n + "lz4"@.len()) =~= "lz4"@);
}

} // verus!
