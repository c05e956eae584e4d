//! Byte strings: big-endian integers, slices, and the passage between bytes and text.
use vstd::prelude::*;
use vstd::slice::slice_subrange;
use vstd::utf8::{decode_utf8, encode_utf8, encode_utf8_decode_utf8, valid_utf8};

verus! {

// ---------------------------------------------------------------------------
// Big-endian integers.
// ---------------------------------------------------------------------------
/// How many values `w` bytes can hold.
pub open spec fn capacity(w: nat) -> nat
    decreases w,
{
    if w == 0 {
        1
    } else {
        capacity((w - 1) as nat) * 256
    }
}

/// The `w` low-order bytes of `n`, the most significant one first.
pub open spec fn be_bytes(n: nat, w: nat) -> Seq<u8>
    decreases w,
{
    if w == 0 {
        seq![]
    } else {
        be_bytes(n / 256, (w - 1) as nat).push((n % 256) as u8)
    }
}

/// The number that bytes write, the most significant one first.
pub open spec fn be_value(s: Seq<u8>) -> nat
    decreases s.len(),
{
    if s.len() == 0 {
        0
    } else {
        be_value(s.drop_last()) * 256 + s.last() as nat
    }
}

/// A value of `w` bytes fits in `w` bytes.
pub proof fn lemma_be_value_bound(s: Seq<u8>)
    ensures
        be_value(s) < capacity(s.len()),
    decreases s.len(),
{
    if s.len() > 0 {
        lemma_be_value_bound(s.drop_last());
    }
}

/// The capacities of the widths in use.
pub proof fn lemma_capacities()
    ensures
        capacity(1) == 0x100,
        capacity(2) == 0x1_0000,
        capacity(4) == 0x1_0000_0000,
        capacity(8) == 0x1_0000_0000_0000_0000,
{
    reveal_with_fuel(capacity, 9);
}

/// Writing takes as many bytes as asked for.
pub proof fn lemma_be_bytes_len(n: nat, w: nat)
    ensures
        be_bytes(n, w).len() == w,
    decreases w,
{
    if w > 0 {
        lemma_be_bytes_len(n / 256, (w - 1) as nat);
    }
}

/// Reading the bytes of a number that fits gives the number.
pub proof fn law_be_reads_back(n: nat, w: nat)
    requires
        n < capacity(w),
    ensures
        be_value(be_bytes(n, w)) == n,
        be_bytes(n, w).len() == w,
    decreases w,
{
    if w > 0 {
        law_be_reads_back(n / 256, (w - 1) as nat);
        assert(be_bytes(n, w).drop_last() == be_bytes(n / 256, (w - 1) as nat));
    }
}

/// Writing the number that bytes write gives the bytes.
pub proof fn law_be_writes_back(s: Seq<u8>)
    ensures
        be_bytes(be_value(s), s.len()) == s,
    decreases s.len(),
{
    if s.len() > 0 {
        law_be_writes_back(s.drop_last());
        let n = be_value(s);
        assert(n / 256 == be_value(s.drop_last()) && n % 256 == s.last());
        assert(s == s.drop_last().push(s.last()));
    }
}

/// Appends the `w` low-order bytes of `n`.
pub fn push_be(out: &mut Vec<u8>, n: u64, w: usize)
    requires
        w <= 8,
    ensures
        final(out)@ == old(out)@ + be_bytes(n as nat, w as nat),
    decreases w,
{
    if w > 0 {
        push_be(out, n / 256, w - 1);
        out.push((n % 256) as u8);
    }
}

/// The number that the `w` bytes at `at` write.
pub fn read_be(s: &[u8], at: usize, w: usize) -> (r: u64)
    requires
        w <= 8,
        at + w <= s@.len(),
    ensures
        r == be_value(s@.subrange(at as int, at + w)),
        r < capacity(w as nat),
{
    let n: usize = s.len();
    let mut acc: u64 = 0;
    let mut i: usize = 0;
    while i < w
        invariant
            w <= 8,
            0 <= i <= w,
            n == s@.len(),
            at + w <= n,
            acc == be_value(s@.subrange(at as int, at + i)),
        decreases w - i,
    {
        proof {
            let t = s@.subrange(at as int, at + i + 1);
            assert(t.drop_last() == s@.subrange(at as int, at + i));
            lemma_be_value_bound(t);
            assert(capacity(t.len()) <= 0x1_0000_0000_0000_0000) by {
                reveal_with_fuel(capacity, 9);
            }
        }
        acc = acc * 256 + s[at + i] as u64;
        i = i + 1;
    }
    proof {
        lemma_be_value_bound(s@.subrange(at as int, at + w));
    }
    acc
}

// ---------------------------------------------------------------------------
// Slices.
// ---------------------------------------------------------------------------
/// Appends the bytes `s`.
pub fn push_bytes(out: &mut Vec<u8>, s: &[u8])
    ensures
        final(out)@ == old(out)@ + s@,
{
    out.extend_from_slice(s);
    assert(out@ == old(out)@ + s@);
}

/// A copy of the bytes `s`.
pub fn copy_bytes(s: &[u8]) -> (r: Vec<u8>)
    ensures
        r@ == s@,
{
    let mut out: Vec<u8> = Vec::new();
    push_bytes(&mut out, s);
    out
}

/// Appends the UTF-8 bytes of `s`.
pub fn push_text(out: &mut Vec<u8>, s: &str)
    ensures
        final(out)@ == old(out)@ + encode_utf8(s@),
{
    push_bytes(out, s.as_bytes());
}

/// Whether two byte slices are equal.
pub fn same_bytes(a: &[u8], b: &[u8]) -> (r: bool)
    ensures
        r == (a@ == b@),
{
    if a.len() != b.len() {
        return false;
    }
    for i in 0..a.len()
        invariant
            a@.len() == b@.len(),
            forall|j: int| 0 <= j < i ==> a@[j] == b@[j],
    {
        if a[i] != b[i] {
            return false;
        }
    }
    assert(a@ == b@);
    true
}

/// The bytes from `at` on.
pub fn tail<'a>(s: &'a [u8], at: usize) -> (r: &'a [u8])
    requires
        at <= s@.len(),
    ensures
        r@ == s@.skip(at as int),
{
    slice_subrange(s, at, s.len())
}

/// Where `b` occurs first in `s` at or after `from`; the length of `s` where it does not.
pub open spec fn next_of(s: Seq<u8>, b: u8, from: int) -> int
    decreases s.len() - from,
{
    if from >= s.len() || s[from] == b {
        from
    } else {
        next_of(s, b, from + 1)
    }
}

/// `next_of` stays within the bytes.
pub proof fn lemma_next_of(s: Seq<u8>, b: u8, from: int)
    requires
        0 <= from <= s.len(),
    ensures
        from <= next_of(s, b, from) <= s.len(),
        next_of(s, b, from) < s.len() ==> s[next_of(s, b, from)] == b,
        forall|j: int| from <= j < next_of(s, b, from) ==> s[j] != b,
    decreases s.len() - from,
{
    if from < s.len() && s[from] != b {
        lemma_next_of(s, b, from + 1);
    }
}

/// Finds `b` at or after `from`.
pub fn find_byte(s: &[u8], b: u8, from: usize) -> (r: usize)
    requires
        from <= s@.len(),
    ensures
        r == next_of(s@, b, from as int),
        from <= r <= s@.len(),
        r < s@.len() ==> s@[r as int] == b,
{
    let mut i: usize = from;
    while i < s.len() && s[i] != b
        invariant
            from <= i <= s@.len(),
            next_of(s@, b, from as int) == next_of(s@, b, i as int),
        decreases s@.len() - i,
    {
        i = i + 1;
    }
    i
}

// ---------------------------------------------------------------------------
// Bytes as text.
// ---------------------------------------------------------------------------
/// What `Utf8Error` says of bytes that are not UTF-8.
pub uninterp spec fn utf8_complaint(s: Seq<u8>) -> Seq<char>;

/// `std::str::from_utf8`: succeeds on valid UTF-8, and only there, with the text whose encoding
/// the bytes are. On other bytes the error's own words are returned; they depend on the bytes
/// alone.
#[verifier::external_body]
pub(crate) fn text_of_bytes(s: &[u8]) -> (r: Result<String, String>)
    ensures
        r is Ok <==> valid_utf8(s@),
        match r {
            Ok(t) => encode_utf8(t@) == s@,
            Err(e) => e@ == utf8_complaint(s@),
        },
{
    match std::str::from_utf8(s) {
        Ok(t) => Ok(t.to_owned()),
        Err(e) => Err(e.to_string()),
    }
}

/// What `String::from_utf8_lossy` makes of bytes.
pub uninterp spec fn lossy(s: Seq<u8>) -> Seq<char>;

/// `String::from_utf8_lossy`: valid UTF-8 is read as it stands; elsewhere each invalid part is
/// replaced by the replacement character, by a rule that depends on the bytes alone.
#[verifier::external_body]
pub(crate) fn lossy_text(s: &[u8]) -> (r: String)
    ensures
        r@ == lossy(s@),
        valid_utf8(s@) ==> encode_utf8(r@) == s@,
{
    String::from_utf8_lossy(s).into_owned()
}

/// The text that valid UTF-8 holds, if it is that.
pub open spec fn utf8_text(s: Seq<u8>) -> Option<Seq<char>> {
    if valid_utf8(s) {
        Some(decode_utf8(s))
    } else {
        None
    }
}

/// Reads bytes as text.
pub fn read_text(s: &[u8]) -> (r: Result<String, String>)
    ensures
        match r {
            Ok(t) => utf8_text(s@) == Some(t@) && encode_utf8(t@) == s@,
            Err(e) => utf8_text(s@) is None && e@ == utf8_complaint(s@),
        },
{
    let r = text_of_bytes(s);
    proof {
        if let Ok(t) = &r {
            encode_utf8_decode_utf8(t@);
        }
    }
    r
}

/// A text is what its encoding decodes to.
pub proof fn law_text_reads_back(t: Seq<char>)
    ensures
        utf8_text(encode_utf8(t)) == Some(t),
{
    vstd::utf8::encode_utf8_valid_utf8(t);
    encode_utf8_decode_utf8(t);
}

/// The most significant byte comes first: a byte more multiplies what there is by 256 and is added.
pub proof fn law_most_significant_byte_first(s: Seq<u8>, b: u8)
    ensures
        be_value(s.push(b)) == be_value(s) * 256 + b,
        be_value(seq![]) == 0,
        be_bytes(1, 2) == seq![0u8, 1u8],
        be_bytes(256, 2) == seq![1u8, 0u8],
{
    assert(s.push(b).drop_last() =~= s);
    reveal_with_fuel(be_bytes, 3);
    assert(be_bytes(1, 2) =~= seq![0u8, 1u8]);
    assert(be_bytes(256, 2) =~= seq![1u8, 0u8]);
}

} // verus!
