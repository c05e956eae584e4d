//! The primitives under SCRAM-SHA-256: keyed and plain digests, password stretching, base64 and
//! random bytes.
use crate::bytes::{be_bytes, push_be, push_bytes};
use base64::Engine;
use hmac::Mac;
use sha2::Digest;
use vstd::prelude::*;

verus! {

/// HMAC-SHA-256 of `data` under `key`.
pub uninterp spec fn hmac_of(key: Seq<u8>, data: Seq<u8>) -> Seq<u8>;

/// SHA-256 of `data`.
pub uninterp spec fn sha256_of(data: Seq<u8>) -> Seq<u8>;

/// `hmac::Hmac::<sha2::Sha256>`, keyed with `key` and fed `data` once. A key of any length is
/// accepted, and the code depends on key and data alone.
#[verifier::external_body]
fn hmac_call(key: &[u8], data: &[u8]) -> (r: [u8; 32])
    ensures
        r@ == hmac_of(key@, data@),
{
    let mut mac = <hmac::Hmac<sha2::Sha256>>::new_from_slice(key).expect("any key length");
    mac.update(data);
    mac.finalize().into_bytes().into()
}

/// `sha2::Sha256::digest`: the digest depends on the data alone.
#[verifier::external_body]
fn sha256_call(data: &[u8]) -> (r: [u8; 32])
    ensures
        r@ == sha256_of(data@),
{
    sha2::Sha256::digest(data).into()
}

/// HMAC-SHA-256.
pub fn hmac_sha256(key: &[u8], data: &[u8]) -> (r: [u8; 32])
    ensures
        r@ == hmac_of(key@, data@),
{
    hmac_call(key, data)
}

/// SHA-256.
pub fn sha256(data: &[u8]) -> (r: [u8; 32])
    ensures
        r@ == sha256_of(data@),
{
    sha256_call(data)
}

/// `getrandom::getrandom`: on success every byte of the buffer has been overwritten. What it is
/// overwritten with, whether the call succeeds, and the words of the error are up to the machine.
#[verifier::external_body]
pub(crate) fn fill_random(buf: &mut Vec<u8>) -> (r: Result<(), String>)
    ensures
        final(buf)@.len() == old(buf)@.len(),
{
    getrandom::getrandom(buf.as_mut_slice()).map_err(|e| e.to_string())
}

// ---------------------------------------------------------------------------
// Base64.
// ---------------------------------------------------------------------------
/// The symbol for six bits.
pub open spec fn base64_symbol(v: int) -> char {
    if v < 26 {
        ('A' as int + v) as char
    } else if v < 52 {
        ('a' as int + v - 26) as char
    } else if v < 62 {
        ('0' as int + v - 52) as char
    } else if v == 62 {
        '+'
    } else {
        '/'
    }
}

/// The base64 text of bytes: four symbols for three bytes, the last group padded.
pub open spec fn base64_text(b: Seq<u8>) -> Seq<char>
    decreases b.len(),
{
    if b.len() == 0 {
        seq![]
    } else if b.len() == 1 {
        seq![base64_symbol(b[0] as int / 4), base64_symbol(b[0] as int % 4 * 16), '=', '=']
    } else if b.len() == 2 {
        seq![
            base64_symbol(b[0] as int / 4),
            base64_symbol(b[0] as int % 4 * 16 + b[1] as int / 16),
            base64_symbol(b[1] as int % 16 * 4),
            '=',
        ]
    } else {
        seq![
            base64_symbol(b[0] as int / 4),
            base64_symbol(b[0] as int % 4 * 16 + b[1] as int / 16),
            base64_symbol(b[1] as int % 16 * 4 + b[2] as int / 64),
            base64_symbol(b[2] as int % 64),
        ] + base64_text(b.skip(3))
    }
}

/// What `base64::DecodeError` says of a text that is not base64.
pub uninterp spec fn base64_complaint(s: Seq<char>) -> Seq<char>;

/// `base64::engine::general_purpose::STANDARD.encode`: the standard alphabet, with padding. The
/// call panics where the length of the text does not fit in a `usize`.
#[verifier::external_body]
pub(crate) fn base64_encode(data: &[u8]) -> (r: String)
    requires
        (data@.len() + 2) / 3 * 4 <= usize::MAX,
    ensures
        r@ == base64_text(data@),
{
    base64::engine::general_purpose::STANDARD.encode(data)
}

/// `base64::engine::general_purpose::STANDARD.decode`: accepts canonical base64 with padding and
/// no stray trailing bits, that is, exactly the texts that encoding gives. The words of the error
/// depend on the text alone.
#[verifier::external_body]
pub(crate) fn base64_decode(s: &str) -> (r: Result<Vec<u8>, String>)
    ensures
        match r {
            Ok(b) => base64_text(b@) == s@,
            Err(e) => e@ == base64_complaint(s@) && forall|b: Seq<u8>| #[trigger]
                base64_text(b) != s@,
        },
{
    base64::engine::general_purpose::STANDARD.decode(s).map_err(|e| e.to_string())
}

/// The symbols differ from each other, from the padding, and from the comma that separates
/// attributes.
proof fn lemma_symbols(v: int, w: int)
    requires
        0 <= v < 64,
        0 <= w < 64,
    ensures
        base64_symbol(v) != ',',
        base64_symbol(v) != '=',
        base64_symbol(v) == base64_symbol(w) ==> v == w,
{
}

/// The symbols of the first group of a base64 text.
proof fn lemma_first_group(b: Seq<u8>)
    requires
        b.len() > 0,
    ensures
        ({
            let t = base64_text(b);
            &&& t.len() >= 4
            &&& t[0] == base64_symbol(b[0] as int / 4)
            &&& t[1] == base64_symbol(
                b[0] as int % 4 * 16 + (if b.len() > 1 { b[1] as int / 16 } else { 0 }),
            )
            &&& t[2] == if b.len() > 1 {
                base64_symbol(b[1] as int % 16 * 4 + (if b.len() > 2 { b[2] as int / 64 } else { 0 }))
            } else {
                '='
            }
            &&& t[3] == if b.len() > 2 {
                base64_symbol(b[2] as int % 64)
            } else {
                '='
            }
            &&& t.skip(4) == if b.len() > 2 {
                base64_text(b.skip(3))
            } else {
                seq![]
            }
        }),
{
    let t = base64_text(b);
    if b.len() > 2 {
        assert(t.skip(4) == base64_text(b.skip(3)));
    } else {
        assert(t.skip(4) == Seq::<char>::empty());
    }
}

/// A base64 text holds no comma.
pub proof fn lemma_base64_no_comma(b: Seq<u8>)
    ensures
        forall|i: int| 0 <= i < base64_text(b).len() ==> base64_text(b)[i] != ',',
    decreases b.len(),
{
    if b.len() > 0 {
        lemma_first_group(b);
        lemma_symbols(b[0] as int / 4, 0);
        lemma_symbols(
            b[0] as int % 4 * 16 + (if b.len() > 1 { b[1] as int / 16 } else { 0 }),
            0,
        );
        if b.len() > 1 {
            lemma_symbols(
                b[1] as int % 16 * 4 + (if b.len() > 2 { b[2] as int / 64 } else { 0 }),
                0,
            );
        }
        if b.len() > 2 {
            lemma_symbols(b[2] as int % 64, 0);
            lemma_base64_no_comma(b.skip(3));
        }
        let t = base64_text(b);
        assert forall|i: int| 0 <= i < t.len() implies t[i] != ',' by {
            if i >= 4 {
                assert(t[i] == t.skip(4)[i - 4]);
            }
        }
    }
}

/// Two byte strings with one base64 text are the same.
pub proof fn law_base64_is_injective(a: Seq<u8>, b: Seq<u8>)
    requires
        base64_text(a) == base64_text(b),
    ensures
        a == b,
    decreases a.len(),
{
    if a.len() == 0 {
        if b.len() > 0 {
            lemma_first_group(b);
        }
        assert(a =~= b);
    } else if b.len() == 0 {
        lemma_first_group(a);
    } else {
        lemma_first_group(a);
        lemma_first_group(b);
        let (a1, b1) = (
            (if a.len() > 1 { a[1] as int / 16 } else { 0 }),
            (if b.len() > 1 { b[1] as int / 16 } else { 0 }),
        );
        lemma_symbols(a[0] as int / 4, b[0] as int / 4);
        lemma_symbols(a[0] as int % 4 * 16 + a1, b[0] as int % 4 * 16 + b1);
        assert(a[0] == b[0] && a1 == b1);
        if a.len() > 1 {
            lemma_symbols(
                a[1] as int % 16 * 4 + (if a.len() > 2 { a[2] as int / 64 } else { 0 }),
                0,
            );
        }
        if b.len() > 1 {
            lemma_symbols(
                b[1] as int % 16 * 4 + (if b.len() > 2 { b[2] as int / 64 } else { 0 }),
                0,
            );
        }
        if a.len() > 2 {
            lemma_symbols(a[2] as int % 64, 0);
        }
        if b.len() > 2 {
            lemma_symbols(b[2] as int % 64, 0);
        }
        assert(a.len() > 1 <==> b.len() > 1);
        assert(a.len() > 2 <==> b.len() > 2);
        if a.len() > 1 {
            let (a2, b2) = (
                (if a.len() > 2 { a[2] as int / 64 } else { 0 }),
                (if b.len() > 2 { b[2] as int / 64 } else { 0 }),
            );
            lemma_symbols(a[1] as int % 16 * 4 + a2, b[1] as int % 16 * 4 + b2);
            assert(a[1] == b[1] && a2 == b2);
        }
        if a.len() > 2 {
            lemma_symbols(a[2] as int % 64, b[2] as int % 64);
            assert(a[2] == b[2]);
            law_base64_is_injective(a.skip(3), b.skip(3));
            assert(a == a.take(3) + a.skip(3));
            assert(b == b.take(3) + b.skip(3));
            assert(a.take(3) == b.take(3));
        } else {
            assert(a =~= b);
        }
    }
}

// ---------------------------------------------------------------------------
// Password stretching.
// ---------------------------------------------------------------------------
/// Two byte strings of one length, combined bit by bit.
pub open spec fn xor(a: Seq<u8>, b: Seq<u8>) -> Seq<u8> {
    Seq::new(a.len(), |i: int| a[i] ^ b[i])
}

/// The `n`-th block of the chain, counted from one: a keyed digest of the salt and the block
/// number, then of the block before.
pub open spec fn chain_block(password: Seq<u8>, salt: Seq<u8>, n: nat) -> Seq<u8>
    decreases n,
{
    if n <= 1 {
        hmac_of(password, salt + be_bytes(1, 4))
    } else {
        hmac_of(password, chain_block(password, salt, (n - 1) as nat))
    }
}

/// PBKDF2 with one output block: the first `n` blocks of the chain combined. No iterations
/// count as one.
pub open spec fn pbkdf2(password: Seq<u8>, salt: Seq<u8>, n: nat) -> Seq<u8>
    decreases n,
{
    if n <= 1 {
        chain_block(password, salt, 1)
    } else {
        xor(pbkdf2(password, salt, (n - 1) as nat), chain_block(password, salt, n))
    }
}

/// Combines two blocks bit by bit.
pub fn xor_blocks(a: &[u8; 32], b: &[u8; 32]) -> (r: [u8; 32])
    ensures
        r@ == xor(a@, b@),
{
    let mut r: [u8; 32] = *a;
    for i in 0..32
        invariant
            r@.len() == 32,
            a@.len() == 32,
            b@.len() == 32,
            forall|j: int| 0 <= j < i ==> r@[j] == a@[j] ^ b@[j],
            forall|j: int| i <= j < 32 ==> r@[j] == a@[j],
    {
        r[i] = r[i] ^ b[i];
    }
    assert(r@ == xor(a@, b@));
    r
}

/// PBKDF2-HMAC-SHA-256 with a single output block.
pub fn pbkdf2_hmac_sha256(password: &[u8], salt: &[u8], iterations: u32) -> (r: [u8; 32])
    ensures
        r@ == pbkdf2(password@, salt@, iterations as nat),
{
    let mut data: Vec<u8> = Vec::new();
    push_bytes(&mut data, salt);
    push_be(&mut data, 1, 4);
    let mut u: [u8; 32] = hmac_sha256(password, data.as_slice());
    let mut result: [u8; 32] = u;
    let mut done: u32 = 1;
    while done < iterations
        invariant
            1 <= done,
            done <= iterations || done == 1,
            u@ == chain_block(password@, salt@, done as nat),
            result@ == pbkdf2(password@, salt@, done as nat),
        decreases iterations - done,
    {
        u = hmac_sha256(password, u.as_slice());
        result = xor_blocks(&result, &u);
        done = done + 1;
    }
    result
}

// ---------------------------------------------------------------------------
// Laws.
// ---------------------------------------------------------------------------
/// One iteration is a single keyed digest; two are the first block combined with its digest.
pub proof fn law_pbkdf2_small(password: Seq<u8>, salt: Seq<u8>)
    ensures
        pbkdf2(password, salt, 1) == hmac_of(password, salt + be_bytes(1, 4)),
        pbkdf2(password, salt, 2) == xor(
            hmac_of(password, salt + be_bytes(1, 4)),
            hmac_of(password, hmac_of(password, salt + be_bytes(1, 4))),
        ),
{
    reveal_with_fuel(pbkdf2, 3);
    reveal_with_fuel(chain_block, 3);
}

/// Combining twice with the same block gives the other one back: this is how the server takes
/// the client's key out of the proof that it was sent.
pub proof fn law_xor_undoes_itself(a: Seq<u8>, b: Seq<u8>)
    requires
        a.len() == b.len(),
    ensures
        xor(xor(a, b), b) == a,
{
    assert forall|i: int| 0 <= i < a.len() implies xor(xor(a, b), b)[i] == a[i] by {
        let (x, y) = (a[i], b[i]);
        assert((x ^ y) ^ y == x) by (bit_vector);
    }
    assert(xor(xor(a, b), b) =~= a);
}

/// Each further iteration combines one more block of the chain with what there is, the first block
/// being the keyed digest of the salt and the number one in four bytes, and each further one that of
/// the block before.
pub proof fn law_pbkdf2_iterates(password: Seq<u8>, salt: Seq<u8>, n: nat)
    requires
        n >= 1,
    ensures
        chain_block(password, salt, 1) == hmac_of(password, salt + seq![0u8, 0u8, 0u8, 1u8]),
        chain_block(password, salt, n + 1) == hmac_of(password, chain_block(password, salt, n)),
        pbkdf2(password, salt, 1) == chain_block(password, salt, 1),
        pbkdf2(password, salt, n + 1).len() == pbkdf2(password, salt, n).len(),
        forall|i: int|
            0 <= i < pbkdf2(password, salt, n).len() ==> #[trigger] pbkdf2(password, salt, n + 1)[i]
                == pbkdf2(password, salt, n)[i] ^ chain_block(password, salt, n + 1)[i],
{
    let one = seq![0u8, 0u8, 0u8, 1u8];
    assert(be_bytes(1, 4) =~= one) by {
        reveal_with_fuel(be_bytes, 5);
    }
}

} // verus!
