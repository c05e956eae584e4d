//! Messages to the host.
//!
//! A message is a length of four bytes, a type byte, and an envelope: a MessagePack map with one
//! entry, `bytes`, whose value is a byte that tells the kind and the payload.
//!
//! The port for control requests and the length of the lines that are kept belong to the host's side
//! of the protocol, which is not part of this library: their values here are stand-ins.
use crate::bytes::{
    be_bytes, be_value, law_be_reads_back, lemma_be_bytes_len, lemma_capacities, push_be,
    push_bytes,
};
use vstd::prelude::*;
use vstd::utf8::{encode_utf8, is_ascii_chars_encode_utf8};

verus! {

/// The type byte of a message that the host passes on unread.
pub const APP_MESSAGE: u8 = 0x20;

/// The kind of a line of output of a supervised process.
pub const APP_KIND_USER_PROCESS_STREAM_DATA: u8 = 46;

/// The kind of the message that the service is ready.
pub const SERVICE_KIND_READY: u8 = 12;

/// The host's address.
pub const HOST_CID: u32 = 2;

/// The host's port for messages.
pub const VSOCK_PORT: u32 = 52;

/// The port for control requests. A stand-in for what the host listens to.
pub const RPC_PORT: u32 = 53;

/// How much of a line of output is kept. A stand-in for what the host accepts.
pub const MAX_USER_PROCESS_LINE_BYTES: usize = 16_384;

/// A stream of output of a process.
#[derive(Clone, Copy, Debug, PartialEq, Eq, Structural)]
pub enum ExecStream {
    Stdout,
    Stderr,
}

/// The marker and the length of a MessagePack byte string.
pub open spec fn bin_head(len: nat) -> Seq<u8> {
    if len < 256 {
        seq![0xc4u8] + be_bytes(len, 1)
    } else if len < 65536 {
        seq![0xc5u8] + be_bytes(len, 2)
    } else {
        seq![0xc6u8] + be_bytes(len, 4)
    }
}

/// A MessagePack map with one entry: a key of less than 32 bytes, and a byte string.
pub open spec fn one_entry(key: Seq<u8>, v: Seq<u8>) -> Seq<u8> {
    seq![0x81u8, (0xa0 + key.len()) as u8] + key + bin_head(v.len()) + v
}

/// A MessagePack map with one entry: the key `bytes`, and a byte string.
pub open spec fn bytes_map(v: Seq<u8>) -> Seq<u8> {
    seq![0x81u8, 0xa5u8, 0x62u8, 0x79u8, 0x74u8, 0x65u8, 0x73u8] + bin_head(v.len()) + v
}

/// An empty MessagePack map.
pub open spec fn empty_map() -> Seq<u8> {
    seq![0x80u8]
}

/// `rmp_serde::to_vec_named`, on a map that holds nothing or one entry whose value `serde_bytes`
/// writes: the map's marker, the key behind a marker that holds its length, the shortest marker
/// and length for the byte string, and its bytes. A key of 32 bytes or more would have another
/// marker, and a byte string of more than 2^32 - 1 bytes would have its length cut off.
#[verifier::external_body]
pub(crate) fn encode_map(entry: Option<(&str, &[u8])>) -> (r: Vec<u8>)
    requires
        entry matches Some((k, v)) ==> encode_utf8(k@).len() < 32 && v@.len() <= u32::MAX,
    ensures
        r@ == (match entry {
            Some((k, v)) => one_entry(encode_utf8(k@), v@),
            None => empty_map(),
        }),
{
    let map: std::collections::BTreeMap<&str, &serde_bytes::Bytes> =
        entry.into_iter().map(|(k, v)| (k, serde_bytes::Bytes::new(v))).collect();
    rmp_serde::to_vec_named(&map).expect("writing to memory succeeds")
}

fn encode_bytes_map(v: &[u8]) -> (r: Vec<u8>)
    requires
        v@.len() <= u32::MAX,
    ensures
        r@ == bytes_map(v@),
{
    let key: &str = "bytes";
    let ghost k = encode_utf8(key@);
    proof {
        reveal_strlit("bytes");
        is_ascii_chars_encode_utf8(key@);
        assert(k =~= seq![0x62u8, 0x79u8, 0x74u8, 0x65u8, 0x73u8]);
        assert(one_entry(k, v@) =~= bytes_map(v@));
    }
    encode_map(Some((key, v)))
}

/// A message of a kind with its payload.
pub open spec fn app_message(kind: u8, payload: Seq<u8>) -> Seq<u8> {
    let envelope = bytes_map(seq![kind] + payload);
    be_bytes(1 + envelope.len(), 4) + seq![APP_MESSAGE] + envelope
}

/// The longest payload whose message has a length of four bytes.
pub const MAX_PAYLOAD: u64 = 4_294_967_281;

fn wrap_app_message(kind: u8, payload: &[u8]) -> (r: Vec<u8>)
    requires
        payload@.len() <= MAX_PAYLOAD,
    ensures
        r@ == app_message(kind, payload@),
{
    let mut inner: Vec<u8> = Vec::new();
    inner.push(kind);
    push_bytes(&mut inner, payload);
    assert(inner@ =~= seq![kind] + payload@);
    let envelope: Vec<u8> = encode_bytes_map(inner.as_slice());
    proof {
        lemma_bin_head(inner@.len());
    }
    let size: u64 = envelope.len() as u64 + 1;
    let mut out: Vec<u8> = Vec::new();
    push_be(&mut out, size, 4);
    out.push(APP_MESSAGE);
    push_bytes(&mut out, envelope.as_slice());
    assert(out@ =~= app_message(kind, payload@));
    out
}

/// The message with a line of output.
pub open spec fn log_message(payload: Seq<u8>) -> Seq<u8> {
    app_message(APP_KIND_USER_PROCESS_STREAM_DATA, payload)
}

/// The message that the service is ready.
pub open spec fn ready_message() -> Seq<u8> {
    app_message(SERVICE_KIND_READY, empty_map())
}

/// Frames a line of output; `payload` is the line's MessagePack form.
pub fn encode_log_frame(payload: &[u8]) -> (r: Vec<u8>)
    requires
        payload@.len() <= MAX_PAYLOAD,
    ensures
        r@ == log_message(payload@),
{
    wrap_app_message(APP_KIND_USER_PROCESS_STREAM_DATA, payload)
}

/// The message that the service is ready. It names no port, so its payload is an empty map.
pub fn encode_ready_frame() -> (r: Vec<u8>)
    ensures
        r@ == ready_message(),
{
    let payload: Vec<u8> = encode_map(None);
    wrap_app_message(SERVICE_KIND_READY, payload.as_slice())
}

proof fn lemma_bin_head(len: nat)
    ensures
        bin_head(len).len() == (if len < 256 {
            2int
        } else if len < 65536 {
            3
        } else {
            5
        }),
{
    lemma_be_bytes_len(len, 1);
    lemma_be_bytes_len(len, 2);
    lemma_be_bytes_len(len, 4);
}

/// The byte string that a MessagePack value holds, if it is one and nothing follows.
pub open spec fn read_bin(b: Seq<u8>) -> Option<Seq<u8>> {
    if b.len() >= 2 && b[0] == 0xc4u8 && be_value(b.subrange(1, 2)) == b.len() - 2 {
        Some(b.skip(2))
    } else if b.len() >= 3 && b[0] == 0xc5u8 && be_value(b.subrange(1, 3)) == b.len() - 3 {
        Some(b.skip(3))
    } else if b.len() >= 5 && b[0] == 0xc6u8 && be_value(b.subrange(1, 5)) == b.len() - 5 {
        Some(b.skip(5))
    } else {
        None
    }
}

/// The kind and the payload that the receiver of a message finds, if it is one.
pub open spec fn read_message(m: Seq<u8>) -> Option<(u8, Seq<u8>)> {
    let key = seq![0x81u8, 0xa5u8, 0x62u8, 0x79u8, 0x74u8, 0x65u8, 0x73u8];
    if m.len() >= 12 && be_value(m.take(4)) == m.len() - 4 && m[4] == APP_MESSAGE && m.subrange(5, 12)
        == key {
        match read_bin(m.skip(12)) {
            Some(inner) => if inner.len() > 0 {
                Some((inner[0], inner.skip(1)))
            } else {
                None
            },
            None => None,
        }
    } else {
        None
    }
}

/// The receiver finds the kind and the payload that were sent, whatever their length.
pub proof fn law_message_arrives(kind: u8, payload: Seq<u8>)
    requires
        payload.len() <= MAX_PAYLOAD,
    ensures
        read_message(app_message(kind, payload)) == Some((kind, payload)),
{
    let m = app_message(kind, payload);
    let inner = seq![kind] + payload;
    let envelope = bytes_map(inner);
    let head = bin_head(inner.len());
    let n = 1 + envelope.len();
    lemma_capacities();
    lemma_be_bytes_len(n, 4);
    lemma_bin_head(inner.len());
    law_be_reads_back(n, 4);
    assert(m.take(4) =~= be_bytes(n, 4));
    assert(m.subrange(5, 12) =~= seq![0x81u8, 0xa5u8, 0x62u8, 0x79u8, 0x74u8, 0x65u8, 0x73u8]);
    assert(m[4] == APP_MESSAGE);
    assert(m.skip(12) =~= head + inner);
    let b = m.skip(12);
    if inner.len() < 256 {
        law_be_reads_back(inner.len(), 1);
        lemma_be_bytes_len(inner.len(), 1);
        assert(b.subrange(1, 2) =~= be_bytes(inner.len(), 1));
        assert(b.skip(2) =~= inner);
    } else if inner.len() < 65536 {
        law_be_reads_back(inner.len(), 2);
        lemma_be_bytes_len(inner.len(), 2);
        assert(b.subrange(1, 3) =~= be_bytes(inner.len(), 2));
        assert(b.skip(3) =~= inner);
    } else {
        law_be_reads_back(inner.len(), 4);
        lemma_be_bytes_len(inner.len(), 4);
        assert(b.subrange(1, 5) =~= be_bytes(inner.len(), 4));
        assert(b.skip(5) =~= inner);
    }
    assert(inner.skip(1) =~= payload);
}

/// The host tells a line of output by kind 46 and readiness by kind 12, whose payload is an empty
/// map; both come in a message of type 32, whose length counts the type and what follows.
pub proof fn law_kinds_are_told_apart(payload: Seq<u8>)
    requires
        payload.len() <= MAX_PAYLOAD,
    ensures
        read_message(log_message(payload)) == Some((46u8, payload)),
        read_message(ready_message()) == Some((12u8, seq![0x80u8])),
        log_message(payload)[4] == 32,
        ready_message()[4] == 32,
{
    law_message_arrives(46, payload);
    law_message_arrives(12, seq![0x80u8]);
    lemma_be_bytes_len(1 + bytes_map(seq![46u8] + payload).len(), 4);
    lemma_be_bytes_len(1 + bytes_map(seq![12u8] + seq![0x80u8]).len(), 4);
}

} // verus!
