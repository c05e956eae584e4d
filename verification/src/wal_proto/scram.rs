//! SCRAM-SHA-256, the client's side.
//!
//! The exchange has two round trips. The client announces itself with a nonce; the server answers
//! with a longer nonce, a salt and an iteration count; the client proves that it knows the
//! password; the server proves that it does too.
use crate::bytes::{
    be_bytes, be_value, law_text_reads_back, lossy, lossy_text, push_be, push_text, read_text,
    utf8_complaint, utf8_text,
};
use crate::number::{
    decimal, digit_value, law_numeral_reads_back, lemma_numeral_first, parse_decimal, read_decimal,
};
use crate::text::{
    after_prefix, begins_with, chars_of, copy_str, is_text, lemma_split_first, lemma_split_whole,
    pieces, push_chars, split, starts_with, strip_prefix, text_of, texts,
};
use crate::wal_proto::crypto::{
    base64_complaint, base64_decode, base64_encode, base64_text, fill_random, hmac_of,
    hmac_sha256, law_base64_is_injective, law_xor_undoes_itself, lemma_base64_no_comma, pbkdf2,
    pbkdf2_hmac_sha256, sha256, sha256_of, xor, xor_blocks,
};
use vstd::prelude::*;
use vstd::slice::slice_subrange;
use vstd::utf8::encode_utf8;

verus! {

/// What `{:?}` prints for a string.
pub uninterp spec fn debug_text(s: Seq<char>) -> Seq<char>;

/// `format!("{:?}")` on a string: its quoted, escaped form, which depends on the string alone.
#[verifier::external_body]
fn debug_of(s: &str) -> (r: String)
    ensures
        r@ == debug_text(s@),
{
    format!("{:?}", s)
}

// ---------------------------------------------------------------------------
// What the messages say.
// ---------------------------------------------------------------------------
/// The byte strings between zero bytes.
pub open spec fn zero_split(s: Seq<u8>) -> Seq<Seq<u8>>
    decreases s.len(),
{
    proof {
        crate::bytes::lemma_next_of(s, 0, 0);
    }
    let i = crate::bytes::next_of(s, 0, 0);
    if i < s.len() {
        seq![s.take(i)] + zero_split(s.skip(i + 1))
    } else {
        seq![s]
    }
}

/// Whether the mechanism is one that this client can serve.
pub open spec fn is_scram(m: Seq<u8>) -> bool {
    m == encode_utf8("SCRAM-SHA-256"@) || m == encode_utf8("SCRAM-SHA-256-PLUS"@)
}

/// Whether the server's list of mechanisms holds one that this client can serve.
pub open spec fn offers_scram(mechanisms: Seq<u8>) -> bool {
    exists|i: int|
        0 <= i < zero_split(mechanisms).len() && is_scram(#[trigger] zero_split(mechanisms)[i])
}

/// A user name with the two characters that separate attributes written as codes.
pub open spec fn escaped_user(s: Seq<char>) -> Seq<char>
    decreases s.len(),
{
    if s.len() == 0 {
        s
    } else if s.last() == '=' {
        escaped_user(s.drop_last()) + "=3D"@
    } else if s.last() == ',' {
        escaped_user(s.drop_last()) + "=2C"@
    } else {
        escaped_user(s.drop_last()).push(s.last())
    }
}

/// The client's first message without its header.
pub open spec fn client_first_bare(user: Seq<char>, cnonce: Seq<char>) -> Seq<char> {
    "n="@ + escaped_user(user) + ",r="@ + cnonce
}

/// The payload that starts the exchange: the mechanism's name, a zero byte, and the client's
/// first message behind its length.
pub open spec fn initial_payload(bare: Seq<char>) -> Seq<u8> {
    let first = encode_utf8("n,,"@ + bare);
    encode_utf8("SCRAM-SHA-256"@).push(0) + be_bytes(first.len(), 4) + first
}

/// The value of the last part that begins with `prefix`; empty where there is none.
pub open spec fn attribute(parts: Seq<Seq<char>>, prefix: Seq<char>) -> Seq<char>
    decreases parts.len(),
{
    if parts.len() == 0 {
        seq![]
    } else {
        match strip_prefix(parts.last(), prefix) {
            Some(v) => v,
            None => attribute(parts.drop_last(), prefix),
        }
    }
}

/// The iteration count: zero where it is missing or is not a number of 32 bits.
pub open spec fn iteration_count(parts: Seq<Seq<char>>) -> nat {
    match parse_decimal(attribute(parts, "i="@), u32::MAX as nat) {
        Ok(n) => n,
        Err(_) => 0,
    }
}

/// What the client answers to the server's first message, and what it then expects.
pub struct Answer {
    pub response: Seq<u8>,
    pub signature: Seq<char>,
}

/// The text that both sides sign.
pub open spec fn auth_message(bare: Seq<char>, server_first: Seq<char>, nonce: Seq<char>) -> Seq<
    char,
> {
    bare + ","@ + server_first + ","@ + ("c=biws,r="@ + nonce)
}

/// The client's key for a stretched password.
pub open spec fn client_key(salted: Seq<u8>) -> Seq<u8> {
    hmac_of(salted, encode_utf8("Client Key"@))
}

/// The client's proof: its key, hidden under a signature that the stored digest of the key gives.
pub open spec fn client_proof(salted: Seq<u8>, message: Seq<char>) -> Seq<u8> {
    xor(client_key(salted), hmac_of(sha256_of(client_key(salted)), encode_utf8(message)))
}

/// The server's signature.
pub open spec fn server_signature(salted: Seq<u8>, message: Seq<char>) -> Seq<u8> {
    hmac_of(hmac_of(salted, encode_utf8("Server Key"@)), encode_utf8(message))
}

/// The answer, once the salt is known.
pub open spec fn answer_with_salt(
    password: Seq<char>,
    bare: Seq<char>,
    server_first: Seq<char>,
    salt: Seq<u8>,
) -> Answer {
    let parts = split(server_first, ',');
    let nonce = attribute(parts, "r="@);
    let salted = pbkdf2(encode_utf8(password), salt, iteration_count(parts));
    let message = auth_message(bare, server_first, nonce);
    Answer {
        response: encode_utf8(
            "c=biws,r="@ + nonce + ",p="@ + base64_text(client_proof(salted, message)),
        ),
        signature: base64_text(server_signature(salted, message)),
    }
}

/// Whether `out` is what the client makes of the server's first message: a complaint, by the
/// first check that fails, or the answer for the salt that the message carries.
pub open spec fn answers(
    password: Seq<char>,
    bare: Seq<char>,
    cnonce: Seq<char>,
    body: Seq<u8>,
    out: Result<Answer, Seq<char>>,
) -> bool {
    match utf8_text(body) {
        None => out == Err::<Answer, Seq<char>>(
            "SASL server-first not UTF-8: "@ + utf8_complaint(body),
        ),
        Some(server_first) => {
            let parts = split(server_first, ',');
            let salt_text = attribute(parts, "s="@);
            if !starts_with(attribute(parts, "r="@), cnonce) {
                out == Err::<Answer, Seq<char>>("server nonce does not extend client nonce"@)
            } else if iteration_count(parts) == 0 {
                out == Err::<Answer, Seq<char>>("invalid SCRAM iteration count"@)
            } else {
                match out {
                    Err(e) => e == "SCRAM salt: "@ + base64_complaint(salt_text) && forall|
                        b: Seq<u8>,
                    | #[trigger] base64_text(b) != salt_text,
                    Ok(a) => exists|salt: Seq<u8>| #[trigger]
                        base64_text(salt) == salt_text && a == answer_with_salt(
                            password,
                            bare,
                            server_first,
                            salt,
                        ),
                }
            }
        },
    }
}

/// What the parts of the server's last message decide: the first one that holds a signature or
/// an error does.
pub open spec fn verdict(parts: Seq<Seq<char>>, signature: Seq<char>) -> Result<(), Seq<char>>
    decreases parts.len(),
{
    if parts.len() == 0 {
        Err("SASL final message missing 'v=' field"@)
    } else {
        match strip_prefix(parts[0], "v="@) {
            Some(v) => if v == signature {
                Ok(())
            } else {
                Err("SCRAM server signature mismatch"@)
            },
            None => match strip_prefix(parts[0], "e="@) {
                Some(e) => Err("SCRAM server error: "@ + e),
                None => verdict(parts.skip(1), signature),
            },
        }
    }
}

/// What the client makes of the server's last message.
pub open spec fn final_verdict(body: Seq<u8>, signature: Seq<char>) -> Result<(), Seq<char>> {
    match utf8_text(body) {
        None => Err("SASL server-final not UTF-8: "@ + utf8_complaint(body)),
        Some(t) => verdict(split(t, ','), signature),
    }
}

// ---------------------------------------------------------------------------
// The client.
// ---------------------------------------------------------------------------
/// Whether the server offers a mechanism that this client can serve.
pub fn has_scram(mechanisms: &[u8]) -> (r: bool)
    ensures
        r == offers_scram(mechanisms@),
{
    let mut rest: &[u8] = mechanisms;
    let ghost all = zero_split(mechanisms@);
    let ghost mut k: int = 0;
    assert(all.skip(0) == all);
    loop
        invariant
            all == zero_split(mechanisms@),
            0 <= k <= all.len(),
            all.skip(k) == zero_split(rest@),
            forall|i: int| 0 <= i < k ==> !is_scram(#[trigger] all[i]),
        decreases rest@.len(),
    {
        let i: usize = crate::bytes::find_byte(rest, 0, 0);
        let m: &[u8] = slice_subrange(rest, 0, i);
        let ghost parts = zero_split(rest@);
        assert(parts.len() > 0 && parts[0] == m@);
        assert(all.skip(k).len() == all.len() - k);
        assert(all[k] == all.skip(k)[0]);
        if crate::bytes::same_bytes(m, "SCRAM-SHA-256".as_bytes()) || crate::bytes::same_bytes(
            m,
            "SCRAM-SHA-256-PLUS".as_bytes(),
        ) {
            assert(is_scram(all[k]));
            return true;
        }
        if i == rest.len() {
            assert(parts.len() == 1);
            assert(all.len() == k + 1);
            return false;
        }
        let next: &[u8] = slice_subrange(rest, i + 1, rest.len());
        assert(next@ == rest@.skip(i + 1));
        assert(parts == seq![m@] + zero_split(next@));
        assert(all.skip(k + 1) == parts.skip(1));
        assert(parts.skip(1) == zero_split(next@));
        proof {
            k = k + 1;
        }
        rest = next;
    }
}

/// The complaint that the server offers nothing that this client can serve.
pub open spec fn no_mechanism_text(mechanisms: Seq<u8>) -> Seq<char> {
    "server does not offer SCRAM-SHA-256; available: "@ + debug_text(lossy(mechanisms))
}

/// Words the complaint that the server offers nothing that this client can serve.
pub fn no_mechanism(mechanisms: &[u8]) -> (r: String)
    ensures
        r@ == no_mechanism_text(mechanisms@),
{
    let mut out = String::new();
    out.append("server does not offer SCRAM-SHA-256; available: ");
    out.append(debug_of(lossy_text(mechanisms).as_str()).as_str());
    out
}

/// How many random bytes a nonce is made of.
pub const NONCE_BYTES: usize = 18;

/// The complaint that no random bytes could be drawn, with the words of the failure.
pub open spec fn no_nonce_text(m: Seq<char>) -> Seq<char> {
    "getrandom: "@ + m
}

/// The client nonce for what was drawn: the base64 text of the bytes, or the complaint that there
/// are none.
pub fn nonce_of(drawn: Result<Vec<u8>, String>) -> (r: Result<String, String>)
    requires
        drawn matches Ok(raw) ==> raw@.len() == NONCE_BYTES,
    ensures
        match drawn {
            Ok(raw) => r matches Ok(n) && n@ == base64_text(raw@),
            Err(e) => r matches Err(m) && m@ == no_nonce_text(e@),
        },
{
    match drawn {
        Ok(raw) => Ok(base64_encode(raw.as_slice())),
        Err(e) => {
            let mut out = String::new();
            out.append("getrandom: ");
            out.append(e.as_str());
            Err(out)
        },
    }
}

/// A fresh client nonce: the base64 text of random bytes. Whether there are any is up to the
/// machine; where there are none, its words are in the complaint.
pub fn fresh_nonce() -> (r: Result<String, String>)
    ensures
        match r {
            Ok(n) => exists|raw: Seq<u8>|
                raw.len() == NONCE_BYTES && n@ == #[trigger] base64_text(raw),
            Err(e) => exists|m: Seq<char>| e@ == #[trigger] no_nonce_text(m),
        },
{
    let mut raw: Vec<u8> = Vec::new();
    while raw.len() < NONCE_BYTES
        invariant
            raw@.len() <= NONCE_BYTES,
        decreases NONCE_BYTES - raw@.len(),
    {
        raw.push(0);
    }
    match fill_random(&mut raw) {
        Ok(()) => nonce_of(Ok(raw)),
        Err(e) => nonce_of(Err(e)),
    }
}

/// Builds the client's first message without its header.
pub fn build_client_first_bare(user: &str, cnonce: &str) -> (r: String)
    ensures
        r@ == client_first_bare(user@, cnonce@),
{
    let mut out = String::new();
    out.append("n=");
    let cs: Vec<char> = chars_of(user);
    let ghost base = out@;
    assert(escaped_user(cs@.take(0)) == Seq::<char>::empty());
    for i in 0..cs.len()
        invariant
            cs@ == user@,
            out@ == base + escaped_user(cs@.take(i as int)),
    {
        assert(cs@.take(i + 1).drop_last() == cs@.take(i as int));
        if cs[i] == '=' {
            out.append("=3D");
        } else if cs[i] == ',' {
            out.append("=2C");
        } else {
            out.push(cs[i]);
        }
        assert(out@ == base + escaped_user(cs@.take(i + 1)));
    }
    assert(cs@.take(cs@.len() as int) == cs@);
    out.append(",r=");
    out.append(cnonce);
    out
}

/// Builds the payload that starts the exchange.
pub fn build_initial_payload(bare: &str) -> (r: Vec<u8>)
    ensures
        r@ == initial_payload(bare@),
{
    let mut first = String::new();
    first.append("n,,");
    first.append(bare);
    let mut out: Vec<u8> = Vec::new();
    push_text(&mut out, "SCRAM-SHA-256");
    out.push(0);
    push_be(&mut out, first.as_str().as_bytes().len() as u64, 4);
    push_text(&mut out, first.as_str());
    assert(first@ == "n,,"@ + bare@);
    assert(out@ == initial_payload(bare@));
    out
}

/// The client's answer in the form that is sent and remembered.
pub struct ScramAnswer {
    /// The payload of the response.
    pub response: Vec<u8>,
    /// The signature that the server has to come up with.
    pub signature: String,
}

impl View for ScramAnswer {
    type V = Answer;

    open spec fn view(&self) -> Answer {
        Answer { response: self.response@, signature: self.signature@ }
    }
}

fn last_attribute<'a>(parts: &Vec<&'a [char]>, prefix: &str) -> (r: Option<&'a [char]>)
    ensures
        match r {
            Some(v) => v@ == attribute(texts(parts@), prefix@),
            None => attribute(texts(parts@), prefix@).len() == 0,
        },
{
    let mut n: usize = parts.len();
    assert(parts@.take(n as int) == parts@);
    while n > 0
        invariant
            n <= parts@.len(),
            attribute(texts(parts@.take(n as int)), prefix@) == attribute(texts(parts@), prefix@),
        decreases n,
    {
        let ghost t = texts(parts@.take(n as int));
        assert(t.last() == parts@[n - 1]@);
        assert(t.drop_last() == texts(parts@.take(n - 1)));
        match after_prefix(parts[n - 1], prefix) {
            Some(v) => {
                return Some(v);
            },
            None => {},
        }
        n = n - 1;
    }
    None
}

fn attribute_text(parts: &Vec<&[char]>, prefix: &str) -> (r: String)
    ensures
        r@ == attribute(texts(parts@), prefix@),
{
    match last_attribute(parts, prefix) {
        Some(v) => text_of(v),
        None => {
            let out = String::new();
            assert(out@ == attribute(texts(parts@), prefix@));
            out
        },
    }
}

/// Answers the server's first message.
pub fn answer_server_first(password: &str, bare: &str, cnonce: &str, body: &[u8]) -> (r: Result<
    ScramAnswer,
    String,
>)
    ensures
        match r {
            Ok(a) => answers(password@, bare@, cnonce@, body@, Ok(a@)),
            Err(e) => answers(password@, bare@, cnonce@, body@, Err(e@)),
        },
{
    let server_first: String = match read_text(body) {
        Ok(t) => t,
        Err(e) => {
            let mut out = String::new();
            out.append("SASL server-first not UTF-8: ");
            out.append(e.as_str());
            return Err(out);
        },
    };
    let chars: Vec<char> = chars_of(server_first.as_str());
    let parts: Vec<&[char]> = pieces(chars.as_slice(), ',');
    let nonce: String = attribute_text(&parts, "r=");
    let salt_text: String = attribute_text(&parts, "s=");
    let count_text: String = attribute_text(&parts, "i=");
    let count_chars: Vec<char> = chars_of(count_text.as_str());
    let iterations: u32 = match read_decimal(count_chars.as_slice(), u32::MAX as u64) {
        Ok(n) => n as u32,
        Err(_) => 0,
    };
    let nonce_chars: Vec<char> = chars_of(nonce.as_str());
    if !begins_with(nonce_chars.as_slice(), chars_of(cnonce).as_slice()) {
        return Err(copy_str("server nonce does not extend client nonce"));
    }
    if iterations == 0 {
        return Err(copy_str("invalid SCRAM iteration count"));
    }
    let salt: Vec<u8> = match base64_decode(salt_text.as_str()) {
        Ok(b) => b,
        Err(e) => {
            let mut out = String::new();
            out.append("SCRAM salt: ");
            out.append(e.as_str());
            return Err(out);
        },
    };
    Ok(build_answer(password, bare, server_first.as_str(), nonce.as_str(), salt.as_slice(), iterations))
}

fn build_answer(
    password: &str,
    bare: &str,
    server_first: &str,
    nonce: &str,
    salt: &[u8],
    iterations: u32,
) -> (r: ScramAnswer)
    requires
        nonce@ == attribute(split(server_first@, ','), "r="@),
        iterations == iteration_count(split(server_first@, ',')),
    ensures
        r@ == answer_with_salt(password@, bare@, server_first@, salt@),
{
    let salted: [u8; 32] = pbkdf2_hmac_sha256(password.as_bytes(), salt, iterations);
    let key: [u8; 32] = hmac_sha256(salted.as_slice(), "Client Key".as_bytes());
    let stored: [u8; 32] = sha256(key.as_slice());
    let server_key: [u8; 32] = hmac_sha256(salted.as_slice(), "Server Key".as_bytes());

    let mut unproved = String::new();
    unproved.append("c=biws,r=");
    unproved.append(nonce);
    let mut message = String::new();
    message.append(bare);
    message.append(",");
    message.append(server_first);
    message.append(",");
    message.append(unproved.as_str());
    assert(message@ == auth_message(bare@, server_first@, nonce@));

    let client_sig: [u8; 32] = hmac_sha256(stored.as_slice(), message.as_str().as_bytes());
    let proof_bytes: [u8; 32] = xor_blocks(&key, &client_sig);
    let server_sig: [u8; 32] = hmac_sha256(server_key.as_slice(), message.as_str().as_bytes());

    let mut last = unproved;
    last.append(",p=");
    last.append(base64_encode(proof_bytes.as_slice()).as_str());
    let mut response: Vec<u8> = Vec::new();
    push_text(&mut response, last.as_str());
    ScramAnswer { response, signature: base64_encode(server_sig.as_slice()) }
}

/// Judges the server's last message.
pub fn check_server_final(body: &[u8], signature: &str) -> (r: Result<(), String>)
    ensures
        match r {
            Ok(_) => final_verdict(body@, signature@) == Ok::<(), Seq<char>>(()),
            Err(e) => final_verdict(body@, signature@) == Err::<(), Seq<char>>(e@),
        },
{
    let text: String = match read_text(body) {
        Ok(t) => t,
        Err(e) => {
            let mut out = String::new();
            out.append("SASL server-final not UTF-8: ");
            out.append(e.as_str());
            return Err(out);
        },
    };
    let chars: Vec<char> = chars_of(text.as_str());
    let parts: Vec<&[char]> = pieces(chars.as_slice(), ',');
    let ghost all = texts(parts@);
    assert(all.skip(0) == all);
    for i in 0..parts.len()
        invariant
            all == texts(parts@),
            utf8_text(body@) == Some(text@),
            all == split(text@, ','),
            verdict(all, signature@) == verdict(all.skip(i as int), signature@),
    {
        let ghost rest = all.skip(i as int);
        assert(rest[0] == parts@[i as int]@);
        assert(rest.skip(1) == all.skip(i + 1));
        match after_prefix(parts[i], "v=") {
            Some(v) => {
                if is_text(v, signature) {
                    return Ok(());
                }
                return Err(copy_str("SCRAM server signature mismatch"));
            },
            None => {},
        }
        match after_prefix(parts[i], "e=") {
            Some(e) => {
                let mut out = String::new();
                out.append("SCRAM server error: ");
                push_chars(&mut out, e);
                return Err(out);
            },
            None => {},
        }
    }
    Err(copy_str("SASL final message missing 'v=' field"))
}

// ---------------------------------------------------------------------------
// Laws.
// ---------------------------------------------------------------------------
/// The first message of a server that keeps to the protocol.
pub open spec fn conforming_server_first(nonce: Seq<char>, salt: Seq<u8>, n: nat) -> Seq<char> {
    ("r="@ + nonce).push(',') + (("s="@ + base64_text(salt)).push(',') + ("i="@ + decimal(n)))
}

/// The client answers every server that keeps to the protocol, with the server's own nonce, salt
/// and iteration count: it finds them in the message as the server put them there.
#[verifier::rlimit(60)]
pub proof fn law_conforming_server_is_answered(
    password: Seq<char>,
    bare: Seq<char>,
    cnonce: Seq<char>,
    snonce: Seq<char>,
    salt: Seq<u8>,
    n: nat,
    out: Result<Answer, Seq<char>>,
)
    requires
        forall|i: int| 0 <= i < cnonce.len() ==> cnonce[i] != ',',
        forall|i: int| 0 <= i < snonce.len() ==> snonce[i] != ',',
        1 <= n <= u32::MAX,
        answers(
            password,
            bare,
            cnonce,
            encode_utf8(conforming_server_first(cnonce + snonce, salt, n)),
            out,
        ),
    ensures
        out == Ok::<Answer, Seq<char>>(
            answer_with_salt(
                password,
                bare,
                conforming_server_first(cnonce + snonce, salt, n),
                salt,
            ),
        ),
        attribute(
            split(conforming_server_first(cnonce + snonce, salt, n), ','),
            "r="@,
        ) == cnonce + snonce,
        iteration_count(split(conforming_server_first(cnonce + snonce, salt, n), ',')) == n,
{
    let nonce = cnonce + snonce;
    let first = conforming_server_first(nonce, salt, n);
    law_text_reads_back(first);
    let r = "r="@ + nonce;
    let s = "s="@ + base64_text(salt);
    let i = "i="@ + decimal(n);
    reveal_strlit("r=");
    reveal_strlit("s=");
    reveal_strlit("i=");
    lemma_base64_no_comma(salt);
    lemma_numeral_first(n, 10, false);
    assert forall|j: int| 0 <= j < i.len() implies i[j] != ',' by {
        if j >= 2 {
            assert(i[j] == decimal(n)[j - 2]);
            assert(digit_value(decimal(n)[j - 2]) < 16);
        }
    }
    lemma_split_first(r, ',', s.push(',') + i);
    lemma_split_first(s, ',', i);
    lemma_split_whole(i, ',');
    let parts = split(first, ',');
    assert(parts == seq![r, s, i]);
    assert(r.take(2) == "r="@ && r.skip(2) == nonce);
    assert(s.take(2) == "s="@ && s.skip(2) == base64_text(salt));
    assert(i.take(2) == "i="@ && i.skip(2) == decimal(n));
    assert(parts.last() == i);
    assert(parts.drop_last() == seq![r, s]);
    assert(seq![r, s].drop_last() == seq![r]);
    assert(i.take(2)[0] == 'i' && s.take(2)[0] == 's' && r.take(2)[0] == 'r');
    assert("r="@[0] == 'r' && "s="@[0] == 's');
    assert(strip_prefix(i, "i="@) == Some(decimal(n)));
    assert(strip_prefix(i, "s="@) is None && strip_prefix(i, "r="@) is None);
    assert(strip_prefix(s, "s="@) == Some(base64_text(salt)));
    assert(strip_prefix(s, "r="@) is None);
    assert(strip_prefix(r, "r="@) == Some(nonce));
    assert(attribute(parts, "i="@) == decimal(n));
    assert(attribute(seq![r, s], "s="@) == base64_text(salt));
    assert(attribute(parts, "s="@) == base64_text(salt));
    assert(attribute(seq![r], "r="@) == nonce);
    assert(attribute(seq![r, s], "r="@) == nonce);
    assert(attribute(parts, "r="@) == nonce);
    law_numeral_reads_back(n, 10, false, u32::MAX as nat);
    assert(nonce.take(cnonce.len() as int) == cnonce);
    match out {
        Err(_) => {
            assert(base64_text(salt) == attribute(parts, "s="@));
        },
        Ok(a) => {
            let found = choose|b: Seq<u8>| #[trigger]
                base64_text(b) == attribute(parts, "s="@) && a == answer_with_salt(
                    password,
                    bare,
                    first,
                    b,
                );
            law_base64_is_injective(found, salt);
        },
    }
}

/// A server that stores only the digest of the client's key recovers from the proof a key with
/// that digest.
pub proof fn law_server_accepts_the_proof(salted: Seq<u8>, message: Seq<char>)
    requires
        client_key(salted).len() == hmac_of(
            sha256_of(client_key(salted)),
            encode_utf8(message),
        ).len(),
    ensures
        sha256_of(
            xor(
                client_proof(salted, message),
                hmac_of(sha256_of(client_key(salted)), encode_utf8(message)),
            ),
        ) == sha256_of(client_key(salted)),
{
    law_xor_undoes_itself(
        client_key(salted),
        hmac_of(sha256_of(client_key(salted)), encode_utf8(message)),
    );
}

/// The client accepts the server exactly where the first part that decides carries the expected
/// signature: a last message of that one part is accepted with it and refused with any other.
pub proof fn law_only_the_expected_signature_passes(v: Seq<char>, signature: Seq<char>)
    requires
        forall|i: int| 0 <= i < v.len() ==> v[i] != ',',
    ensures
        final_verdict(encode_utf8("v="@ + v), signature) is Ok <==> v == signature,
{
    let t = "v="@ + v;
    law_text_reads_back(t);
    reveal_strlit("v=");
    lemma_split_whole(t, ',');
    assert(split(t, ',')[0] == t);
    assert(t.take(2) == "v="@ && t.skip(2) == v);
}

/// What a user name with codes stands for.
pub open spec fn unescaped_user(s: Seq<char>) -> Seq<char>
    decreases s.len(),
{
    if s.len() >= 3 && s.skip(s.len() - 3) == "=3D"@ {
        unescaped_user(s.take(s.len() - 3)).push('=')
    } else if s.len() >= 3 && s.skip(s.len() - 3) == "=2C"@ {
        unescaped_user(s.take(s.len() - 3)).push(',')
    } else if s.len() > 0 {
        unescaped_user(s.drop_last()).push(s.last())
    } else {
        s
    }
}

/// Whatever characters a user name has, it holds no comma in the message and is read back by the
/// server as it is: an equals sign and a comma are written as codes, and nothing else is.
pub proof fn law_user_reads_back(user: Seq<char>)
    ensures
        unescaped_user(escaped_user(user)) == user,
        forall|i: int| 0 <= i < escaped_user(user).len() ==> #[trigger] escaped_user(user)[i] != ',',
    decreases user.len(),
{
    reveal_strlit("=3D");
    reveal_strlit("=2C");
    if user.len() == 0 {
        assert(unescaped_user(escaped_user(user)) =~= user);
    } else {
        let init = user.drop_last();
        let c = user.last();
        let before = escaped_user(init);
        let all = escaped_user(user);
        law_user_reads_back(init);
        assert(user =~= init.push(c));
        if c == '=' || c == ',' {
            assert(all.take(all.len() - 3) =~= before);
            assert(all.skip(all.len() - 3) =~= if c == '=' {
                "=3D"@
            } else {
                "=2C"@
            });
            assert("=3D"@[1] == '3' && "=2C"@[1] == '2');
        } else {
            assert(all.drop_last() =~= before);
            lemma_no_code(init);
            if all.len() >= 3 {
                let end = all.skip(all.len() - 3);
                assert(end[0] == all[all.len() - 3] && end[1] == all[all.len() - 2] && end[2]
                    == all[all.len() - 1]);
                assert(before.len() >= 2);
                assert(all[all.len() - 3] == before[before.len() - 2] && all[all.len() - 2]
                    == before[before.len() - 1]);
                assert("=3D"@[0] == '=' && "=3D"@[1] == '3' && "=2C"@[0] == '=' && "=2C"@[1]
                    == '2');
            }
        }
    }
}

/// No user name ends in a code that is cut short.
proof fn lemma_no_code(user: Seq<char>)
    ensures
        ({
            let e = escaped_user(user);
            &&& e.len() > 0 ==> e.last() != '='
            &&& e.len() >= 2 ==> e[e.len() - 2] != '='
        }),
    decreases user.len(),
{
    reveal_strlit("=3D");
    reveal_strlit("=2C");
    if user.len() > 0 {
        lemma_no_code(user.drop_last());
    }
}

/// The first message names the mechanism, tells the length of what follows, asks for no channel
/// binding, and gives the user name and the nonce; split at commas it has just these parts.
#[verifier::rlimit(60)]
pub proof fn law_first_message_layout(user: Seq<char>, cnonce: Seq<char>)
    requires
        forall|i: int| 0 <= i < cnonce.len() ==> cnonce[i] != ',',
        encode_utf8("n,,"@ + client_first_bare(user, cnonce)).len() <= u32::MAX,
    ensures
        ({
            let first = "n,,"@ + client_first_bare(user, cnonce);
            let payload = initial_payload(client_first_bare(user, cnonce));
            let name = encode_utf8("SCRAM-SHA-256"@);
            let n = name.len() as int;
            &&& split(first, ',') == seq![
                "n"@,
                Seq::<char>::empty(),
                "n="@ + escaped_user(user),
                "r="@ + cnonce,
            ]
            &&& payload.take(n + 1) == name.push(0)
            &&& be_value(payload.subrange(n + 1, n + 5)) == encode_utf8(first).len()
            &&& payload.skip(n + 5) == encode_utf8(first)
        }),
{
    let bare = client_first_bare(user, cnonce);
    let first = "n,,"@ + bare;
    let payload = initial_payload(bare);
    let name = encode_utf8("SCRAM-SHA-256"@);
    let n = name.len() as int;
    let e = encode_utf8(first);
    crate::bytes::lemma_capacities();
    crate::bytes::law_be_reads_back(e.len(), 4);
    assert(payload.take(n + 1) =~= name.push(0));
    assert(payload.subrange(n + 1, n + 5) =~= be_bytes(e.len(), 4));
    assert(payload.skip(n + 5) =~= e);
    law_user_reads_back(user);
    reveal_strlit("n,,");
    reveal_strlit("n");
    reveal_strlit("n=");
    reveal_strlit(",r=");
    reveal_strlit("r=");
    let none = Seq::<char>::empty();
    let u = "n="@ + escaped_user(user);
    let r = "r="@ + cnonce;
    assert forall|j: int| 0 <= j < u.len() implies u[j] != ',' by {
        if j >= 2 {
            assert(u[j] == escaped_user(user)[j - 2]);
        }
    }
    assert forall|j: int| 0 <= j < r.len() implies r[j] != ',' by {
        if j >= 2 {
            assert(r[j] == cnonce[j - 2]);
        }
    }
    lemma_split_whole(r, ',');
    lemma_split_first(u, ',', r);
    lemma_split_first(none, ',', u.push(',') + r);
    lemma_split_first("n"@, ',', none.push(',') + (u.push(',') + r));
    assert(first =~= "n"@.push(',') + (none.push(',') + (u.push(',') + r)));
    assert(split(first, ',') =~= seq!["n"@, none, u, r]);
}

/// The answer is the one that the protocol prescribes. Both sides sign the first message without
/// its header, the server's first message and the unproved part of the answer, with commas between.
/// The proof is the client's key combined with the signature that the digest of that key gives; the
/// server's signature is due from its own key. Both keys come from the stretched password.
pub proof fn law_answer_is_the_protocols(
    password: Seq<char>,
    bare: Seq<char>,
    server_first: Seq<char>,
    salt: Seq<u8>,
)
    ensures
        ({
            let parts = split(server_first, ',');
            let nonce = attribute(parts, "r="@);
            let salted = pbkdf2(encode_utf8(password), salt, iteration_count(parts));
            let unproved = "c=biws,r="@ + nonce;
            let message = encode_utf8(bare + ","@ + server_first + ","@ + unproved);
            let key = hmac_of(salted, encode_utf8("Client Key"@));
            let found = answer_with_salt(password, bare, server_first, salt);
            &&& found.response == encode_utf8(
                unproved + ",p="@ + base64_text(xor(key, hmac_of(sha256_of(key), message))),
            )
            &&& found.signature == base64_text(
                hmac_of(hmac_of(salted, encode_utf8("Server Key"@)), message),
            )
        }),
{
}

/// A server whose nonce does not go on from the client's is refused, and so is one without a count
/// of iterations; nothing is proved to it.
pub proof fn law_foreign_nonce_is_refused(
    password: Seq<char>,
    bare: Seq<char>,
    cnonce: Seq<char>,
    server_first: Seq<char>,
    out: Result<Answer, Seq<char>>,
)
    requires
        answers(password, bare, cnonce, encode_utf8(server_first), out),
    ensures
        !starts_with(attribute(split(server_first, ','), "r="@), cnonce) ==> out is Err,
        iteration_count(split(server_first, ',')) == 0 ==> out is Err,
{
    law_text_reads_back(server_first);
}

/// A server that reports an error, or says nothing of a signature, is refused.
pub proof fn law_server_without_signature_is_refused(e: Seq<char>, signature: Seq<char>)
    requires
        forall|i: int| 0 <= i < e.len() ==> e[i] != ',',
    ensures
        final_verdict(encode_utf8("e="@ + e), signature) == Err::<(), Seq<char>>(
            "SCRAM server error: "@ + e,
        ),
        !starts_with(e, "v="@) && !starts_with(e, "e="@) ==> final_verdict(
            encode_utf8(e),
            signature,
        ) is Err,
{
    let t = "e="@ + e;
    law_text_reads_back(t);
    law_text_reads_back(e);
    reveal_strlit("v=");
    reveal_strlit("e=");
    lemma_split_whole(t, ',');
    lemma_split_whole(e, ',');
    assert(t.take(2) =~= "e="@ && t.skip(2) =~= e);
    assert(t.take(2)[0] == 'e' && "v="@[0] == 'v');
    assert(split(e, ',').skip(1) =~= seq![]);
    reveal_with_fuel(verdict, 2);
    assert(split(t, ',')[0] == t && split(e, ',')[0] == e);
}

/// The mechanism is found anywhere in the server's list, with or without channel binding; a list
/// of other mechanisms does not offer it.
pub proof fn law_mechanism_is_found(rest: Seq<u8>, other: Seq<u8>)
    requires
        forall|i: int| 0 <= i < other.len() ==> #[trigger] other[i] != 0,
        other != encode_utf8("SCRAM-SHA-256"@),
        other != encode_utf8("SCRAM-SHA-256-PLUS"@),
    ensures
        offers_scram(encode_utf8("SCRAM-SHA-256"@).push(0) + rest),
        offers_scram(rest) ==> offers_scram(other.push(0) + rest),
        !offers_scram(rest) ==> !offers_scram(other.push(0) + rest),
{
    let name = encode_utf8("SCRAM-SHA-256"@);
    reveal_strlit("SCRAM-SHA-256");
    vstd::utf8::is_ascii_chars_encode_utf8("SCRAM-SHA-256"@);
    assert forall|i: int| 0 <= i < name.len() implies #[trigger] name[i] != 0 by {
        assert("SCRAM-SHA-256"@[i] != '\0');
    }
    lemma_zero_split(name, rest);
    lemma_zero_split(other, rest);
    let with = zero_split(name.push(0) + rest);
    assert(with[0] == name);
    let all = zero_split(other.push(0) + rest);
    let tail = zero_split(rest);
    if offers_scram(rest) {
        let i = choose|i: int| 0 <= i < tail.len() && is_scram(#[trigger] tail[i]);
        assert(all[i + 1] == tail[i]);
    }
    if offers_scram(other.push(0) + rest) {
        let i = choose|i: int| 0 <= i < all.len() && is_scram(#[trigger] all[i]);
        if i > 0 {
            assert(all[i] == tail[i - 1]);
        }
    }
}

proof fn lemma_zero_split(a: Seq<u8>, rest: Seq<u8>)
    requires
        forall|i: int| 0 <= i < a.len() ==> #[trigger] a[i] != 0,
    ensures
        zero_split(a.push(0) + rest) == seq![a] + zero_split(rest),
{
    let s = a.push(0) + rest;
    crate::bytes::lemma_next_of(s, 0, 0);
    assert(s[a.len() as int] == 0);
    assert forall|j: int| 0 <= j < a.len() implies s[j] != 0 by {
        assert(s[j] == a[j]);
    }
    assert(crate::bytes::next_of(s, 0, 0) == a.len());
    assert(s.take(a.len() as int) =~= a);
    assert(s.skip(a.len() as int + 1) =~= rest);
}

/// A nonce is made of 18 random bytes, which are 24 characters without padding.
pub proof fn law_nonce_length(raw: Seq<u8>)
    requires
        raw.len() == NONCE_BYTES,
    ensures
        raw.len() == 18,
        base64_text(raw).len() == 24,
{
    reveal_with_fuel(base64_text, 7);
}

} // verus!
