//! Log sequence numbers.
use crate::bytes::{be_bytes, be_value, push_be, read_be};
use crate::number::{
    digit_value, lemma_numeral_first, law_numeral_reads_back, numeral, numeral_of,
    parse_int_message, parse_uint, read_digits, read_uint, ParseIntError,
};
use crate::text::{chars_of, cut_first, first_of, lemma_first_of, push_chars, split_once};
use vstd::prelude::*;

verus! {

/// A Postgres log sequence number: a byte position in the write-ahead log.
///
/// On the wire it is a big-endian 64-bit integer. As text it is the two halves in upper-case
/// hexadecimal with a slash between them, the low half padded to eight digits.
#[derive(Debug, Clone, Copy, PartialEq, Eq, PartialOrd, Ord, Hash, Default, Structural)]
pub struct Lsn(pub u64);

/// `s` with zeros in front up to a length of `w`.
pub open spec fn zero_padded(s: Seq<char>, w: nat) -> Seq<char> {
    Seq::new((if s.len() < w { w - s.len() } else { 0 }) as nat, |i: int| '0') + s
}

/// The text of a log sequence number.
pub open spec fn lsn_text(n: u64) -> Seq<char> {
    numeral((n / 0x1_0000_0000) as nat, 16, true).push('/') + zero_padded(
        numeral((n % 0x1_0000_0000) as nat, 16, true),
        8,
    )
}

/// The number that a text writes, or the words of the complaint.
pub open spec fn lsn_parse(s: Seq<char>) -> Result<nat, Seq<char>> {
    match split_once(s, '/') {
        None => Err("invalid LSN '"@ + s + "': missing '/'"@),
        Some((hi, lo)) => match parse_uint(hi, 16, 0xffff_ffff) {
            Err(e) => Err("invalid LSN hi '"@ + hi + "': "@ + parse_int_message(e)),
            Ok(h) => match parse_uint(lo, 16, 0xffff_ffff) {
                Err(e) => Err("invalid LSN lo '"@ + lo + "': "@ + parse_int_message(e)),
                Ok(l) => Ok(h * 0x1_0000_0000 + l),
            },
        },
    }
}

fn bad_half(which: &str, part: &[char], e: ParseIntError) -> (r: String)
    ensures
        r@ == which@ + part@ + "': "@ + parse_int_message(e),
{
    let mut out = String::new();
    out.append(which);
    push_chars(&mut out, part);
    out.append("': ");
    out.append(e.message());
    out
}

impl Lsn {
    /// The start of the log.
    pub fn zero() -> (r: Lsn)
        ensures
            r.0 == 0,
    {
        Lsn(0)
    }

    /// The wire form.
    pub fn to_be_bytes(self) -> (r: [u8; 8])
        ensures
            r@ == be_bytes(self.0 as nat, 8),
    {
        let mut v: Vec<u8> = Vec::new();
        push_be(&mut v, self.0, 8);
        proof {
            crate::bytes::lemma_be_bytes_len(self.0 as nat, 8);
        }
        let r = [v[0], v[1], v[2], v[3], v[4], v[5], v[6], v[7]];
        assert(r@ == v@);
        r
    }

    /// Reads the wire form.
    pub fn from_be_bytes(bytes: [u8; 8]) -> (r: Lsn)
        ensures
            r.0 == be_value(bytes@),
    {
        let v: u64 = read_be(bytes.as_slice(), 0, 8);
        assert(bytes@.subrange(0, 8) == bytes@);
        Lsn(v)
    }

    /// The text form.
    pub fn to_string(&self) -> (r: String)
        ensures
            r@ == lsn_text(self.0),
    {
        let mut out = String::new();
        self.push_to(&mut out);
        out
    }

    /// Appends the text form.
    pub fn push_to(&self, out: &mut String)
        ensures
            final(out)@ == old(out)@ + lsn_text(self.0),
    {
        let hi: Vec<char> = numeral_of(self.0 / 0x1_0000_0000, 16, true);
        let lo: Vec<char> = numeral_of(self.0 % 0x1_0000_0000, 16, true);
        push_chars(out, hi.as_slice());
        out.push('/');
        let mut n: usize = lo.len();
        let ghost base = out@;
        while n < 8
            invariant
                lo@.len() <= n,
                n <= 8 || n == lo@.len(),
                out@ == base + Seq::new((n - lo@.len()) as nat, |i: int| '0'),
            decreases 8 - n,
        {
            out.push('0');
            n = n + 1;
            assert(out@ == base + Seq::new((n - lo@.len()) as nat, |i: int| '0'));
        }
        push_chars(out, lo.as_slice());
        assert(out@ == old(out)@ + lsn_text(self.0));
    }

    /// Reads the text form.
    pub fn parse(s: &str) -> (r: Result<Lsn, String>)
        ensures
            match r {
                Ok(l) => lsn_parse(s@) == Ok::<nat, Seq<char>>(l.0 as nat),
                Err(e) => lsn_parse(s@) == Err::<nat, Seq<char>>(e@),
            },
    {
        let cs: Vec<char> = chars_of(s);
        let (hi, lo) = match cut_first(cs.as_slice(), '/') {
            Some(p) => p,
            None => {
                let mut out = String::new();
                out.append("invalid LSN '");
                out.append(s);
                out.append("': missing '/'");
                return Err(out);
            },
        };
        let h: u64 = match read_uint(hi, 16, 0xffff_ffff) {
            Ok(h) => h,
            Err(e) => return Err(bad_half("invalid LSN hi '", hi, e)),
        };
        let l: u64 = match read_uint(lo, 16, 0xffff_ffff) {
            Ok(l) => l,
            Err(e) => return Err(bad_half("invalid LSN lo '", lo, e)),
        };
        Ok(Lsn(h * 0x1_0000_0000 + l))
    }
}

impl std::str::FromStr for Lsn {
    type Err = String;

    fn from_str(s: &str) -> (r: Result<Lsn, String>)
        ensures
            match r {
                Ok(l) => lsn_parse(s@) == Ok::<nat, Seq<char>>(l.0 as nat),
                Err(e) => lsn_parse(s@) == Err::<nat, Seq<char>>(e@),
            },
    {
        Lsn::parse(s)
    }
}

// ---------------------------------------------------------------------------
// Laws.
// ---------------------------------------------------------------------------
/// The wire form reads back, in both directions.
pub proof fn law_lsn_wire_round_trip(n: u64, b: Seq<u8>)
    requires
        b.len() == 8,
    ensures
        be_value(be_bytes(n as nat, 8)) == n,
        be_bytes(be_value(b), 8) == b,
{
    crate::bytes::lemma_capacities();
    crate::bytes::law_be_reads_back(n as nat, 8);
    crate::bytes::law_be_writes_back(b);
}

proof fn lemma_padding(k: nat, s: Seq<char>)
    ensures
        read_digits(Seq::new(k, |i: int| '0') + s, 16, 0xffff_ffff, 0) == read_digits(
            s,
            16,
            0xffff_ffff,
            0,
        ),
    decreases k,
{
    let z = Seq::new(k, |i: int| '0');
    if k == 0 {
        assert(z + s == s);
    } else {
        lemma_padding((k - 1) as nat, s);
        assert((z + s).skip(1) == Seq::new((k - 1) as nat, |i: int| '0') + s);
        assert((z + s)[0] == '0');
    }
}

/// The text form reads back.
pub proof fn law_lsn_text_round_trip(n: u64)
    ensures
        lsn_parse(lsn_text(n)) == Ok::<nat, Seq<char>>(n as nat),
{
    let h = (n / 0x1_0000_0000) as nat;
    let l = (n % 0x1_0000_0000) as nat;
    let hi = numeral(h, 16, true);
    let lo = numeral(l, 16, true);
    let padded = zero_padded(lo, 8);
    let s = lsn_text(n);
    lemma_numeral_first(h, 16, true);
    lemma_numeral_first(l, 16, true);
    assert(s == hi.push('/') + padded);
    lemma_first_of(s, '/');
    assert forall|j: int| 0 <= j < hi.len() implies s[j] != '/' by {
        assert(s[j] == hi[j]);
        assert(digit_value(hi[j]) < 16);
    }
    assert(s[hi.len() as int] == '/');
    assert(first_of(s, '/') == hi.len());
    assert(s.take(hi.len() as int) == hi);
    assert(s.skip(hi.len() as int + 1) == padded);
    law_numeral_reads_back(h, 16, true, 0xffff_ffff);
    law_numeral_reads_back(l, 16, true, 0xffff_ffff);
    let k = (if lo.len() < 8 { 8 - lo.len() } else { 0 }) as nat;
    lemma_padding(k, lo);
    assert(padded == Seq::new(k, |i: int| '0') + lo);
    assert(padded[0] != '+');
}

/// The text form counts: the digits before the slash are the high half, those behind it the low
/// one, both hexadecimal and below 2^32.
pub proof fn law_lsn_text_counts(hi: nat, lo: nat)
    requires
        hi < 0x1_0000_0000,
        lo < 0x1_0000_0000,
    ensures
        lsn_parse(numeral(hi, 16, true).push('/') + numeral(lo, 16, true)) == Ok::<nat, Seq<char>>(
            hi * 4_294_967_296 + lo,
        ),
        lsn_text((hi * 4_294_967_296 + lo) as u64).take(numeral(hi, 16, true).len() as int + 1)
            == numeral(hi, 16, true).push('/'),
{
    let h = numeral(hi, 16, true);
    let l = numeral(lo, 16, true);
    let s = h.push('/') + l;
    lemma_numeral_first(hi, 16, true);
    lemma_numeral_first(lo, 16, true);
    lemma_first_of(s, '/');
    assert forall|j: int| 0 <= j < h.len() implies s[j] != '/' by {
        assert(s[j] == h[j]);
        assert(digit_value(h[j]) < 16);
    }
    assert(s[h.len() as int] == '/');
    assert(first_of(s, '/') == h.len());
    assert(s.take(h.len() as int) =~= h);
    assert(s.skip(h.len() as int + 1) =~= l);
    law_numeral_reads_back(hi, 16, true, 0xffff_ffff);
    law_numeral_reads_back(lo, 16, true, 0xffff_ffff);
    let n = (hi * 4_294_967_296 + lo) as u64;
    assert(n / 0x1_0000_0000 == hi && n % 0x1_0000_0000 == lo);
    assert(lsn_text(n).take(h.len() as int + 1) =~= h.push('/'));
}

/// A text without a slash is no position.
pub proof fn law_lsn_needs_a_slash(s: Seq<char>)
    requires
        forall|j: int| 0 <= j < s.len() ==> #[trigger] s[j] != '/',
    ensures
        lsn_parse(s) is Err,
{
    lemma_first_of(s, '/');
}

} // verus!
