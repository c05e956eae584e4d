//! Numbers as text: numerals in base ten and sixteen, and their reading.
use crate::text::text_of;
use vstd::prelude::*;

verus! {

/// Why a text is not a number of the wanted size.
#[derive(Clone, Copy, Debug, PartialEq, Eq, Structural)]
pub enum ParseIntError {
    /// There is no character.
    Empty,
    /// Some character is not a digit of the base.
    InvalidDigit,
    /// The value exceeds the largest one allowed.
    Overflow,
}

/// The words for a failed reading.
pub open spec fn parse_int_message(e: ParseIntError) -> Seq<char> {
    match e {
        ParseIntError::Empty => "cannot parse integer from empty string"@,
        ParseIntError::InvalidDigit => "invalid digit found in string"@,
        ParseIntError::Overflow => "number too large to fit in target type"@,
    }
}

impl ParseIntError {
    /// The words for this failure.
    pub fn message(&self) -> (r: &'static str)
        ensures
            r@ == parse_int_message(*self),
    {
        match self {
            ParseIntError::Empty => "cannot parse integer from empty string",
            ParseIntError::InvalidDigit => "invalid digit found in string",
            ParseIntError::Overflow => "number too large to fit in target type",
        }
    }
}

/// The value of a digit, whichever the base.
pub open spec fn digit_value(c: char) -> int {
    let u = c as int;
    if '0' as int <= u <= '9' as int {
        u - '0' as int
    } else if 'a' as int <= u <= 'f' as int {
        u - 'a' as int + 10
    } else if 'A' as int <= u <= 'F' as int {
        u - 'A' as int + 10
    } else {
        16
    }
}

/// The digit of value `d`; `upper` chooses the case of the letters.
pub open spec fn digit_char(d: int, upper: bool) -> char {
    if d < 10 {
        ('0' as int + d) as char
    } else if upper {
        ('A' as int + d - 10) as char
    } else {
        ('a' as int + d - 10) as char
    }
}

/// The numeral of `n` in base `base`, without leading zeros.
pub open spec fn numeral(n: nat, base: nat, upper: bool) -> Seq<char>
    decreases n,
{
    if base < 2 || n < base {
        seq![digit_char(n as int, upper)]
    } else {
        proof {
            assert(n / base < n) by (nonlinear_arith)
                requires
                    n >= base,
                    base >= 2,
            ;
        }
        numeral(n / base, base, upper).push(digit_char((n % base) as int, upper))
    }
}

/// The decimal numeral of `n`.
pub open spec fn decimal(n: nat) -> Seq<char> {
    numeral(n, 10, false)
}

/// Reads digits one after the other onto `acc`; the first misfit decides the outcome.
pub open spec fn read_digits(s: Seq<char>, base: nat, max: nat, acc: nat) -> Result<
    nat,
    ParseIntError,
>
    decreases s.len(),
{
    if s.len() == 0 {
        Ok(acc)
    } else if digit_value(s[0]) >= base {
        Err(ParseIntError::InvalidDigit)
    } else if acc * base + digit_value(s[0]) > max {
        Err(ParseIntError::Overflow)
    } else {
        read_digits(s.skip(1), base, max, (acc * base + digit_value(s[0])) as nat)
    }
}

/// The number that `s` writes: digits, possibly after one plus sign, of value at most `max`.
pub open spec fn parse_uint(s: Seq<char>, base: nat, max: nat) -> Result<nat, ParseIntError> {
    if s.len() == 0 {
        Err(ParseIntError::Empty)
    } else if s[0] == '+' {
        if s.len() == 1 {
            Err(ParseIntError::InvalidDigit)
        } else {
            read_digits(s.skip(1), base, max, 0)
        }
    } else {
        read_digits(s, base, max, 0)
    }
}

/// The decimal number that `s` writes.
pub open spec fn parse_decimal(s: Seq<char>, max: nat) -> Result<nat, ParseIntError> {
    parse_uint(s, 10, max)
}

/// Whether every character is a hexadecimal digit.
pub open spec fn all_hex(s: Seq<char>) -> bool {
    forall|i: int| 0 <= i < s.len() ==> #[trigger] digit_value(s[i]) < 16
}

/// The value of a digit, or sixteen.
pub fn value_of_digit(c: char) -> (r: u64)
    ensures
        r == digit_value(c),
        r <= 16,
{
    let u: u32 = c as u32;
    if 48 <= u && u <= 57 {
        (u - 48) as u64
    } else if 97 <= u && u <= 102 {
        (u - 97 + 10) as u64
    } else if 65 <= u && u <= 70 {
        (u - 65 + 10) as u64
    } else {
        16
    }
}

/// Reads a number of base `base` that is at most `max`.
pub fn read_uint(s: &[char], base: u64, max: u64) -> (r: Result<u64, ParseIntError>)
    requires
        2 <= base <= 16,
    ensures
        match r {
            Ok(n) => parse_uint(s@, base as nat, max as nat) == Ok::<nat, ParseIntError>(n as nat)
                && n <= max,
            Err(e) => parse_uint(s@, base as nat, max as nat) == Err::<nat, ParseIntError>(e),
        },
{
    if s.len() == 0 {
        return Err(ParseIntError::Empty);
    }
    let mut i: usize = 0;
    if s[0] == '+' {
        if s.len() == 1 {
            return Err(ParseIntError::InvalidDigit);
        }
        i = 1;
    }
    let mut acc: u64 = 0;
    let ghost want = parse_uint(s@, base as nat, max as nat);
    assert(s@.skip(0) == s@);
    while i < s.len()
        invariant
            2 <= base <= 16,
            0 <= i <= s@.len(),
            acc <= max,
            want == parse_uint(s@, base as nat, max as nat),
            want == read_digits(s@.skip(i as int), base as nat, max as nat, acc as nat),
        decreases s@.len() - i,
    {
        let d: u64 = value_of_digit(s[i]);
        assert(s@.skip(i as int).skip(1) == s@.skip(i + 1));
        assert(s@.skip(i as int)[0] == s@[i as int]);
        if d >= base {
            return Err(ParseIntError::InvalidDigit);
        }
        assert(acc * base <= u64::MAX * 16) by (nonlinear_arith)
            requires
                acc <= u64::MAX,
                base <= 16,
        ;
        let wide: u128 = acc as u128 * base as u128 + d as u128;
        if wide > max as u128 {
            return Err(ParseIntError::Overflow);
        }
        acc = wide as u64;
        i = i + 1;
    }
    Ok(acc)
}

/// Reads a decimal number that is at most `max`.
pub fn read_decimal(s: &[char], max: u64) -> (r: Result<u64, ParseIntError>)
    ensures
        match r {
            Ok(n) => parse_decimal(s@, max as nat) == Ok::<nat, ParseIntError>(n as nat) && n
                <= max,
            Err(e) => parse_decimal(s@, max as nat) == Err::<nat, ParseIntError>(e),
        },
{
    read_uint(s, 10, max)
}

/// Whether every character is a hexadecimal digit.
pub fn is_all_hex(s: &[char]) -> (r: bool)
    ensures
        r == all_hex(s@),
{
    for i in 0..s.len()
        invariant
            forall|j: int| 0 <= j < i ==> #[trigger] digit_value(s@[j]) < 16,
    {
        if value_of_digit(s[i]) >= 16 {
            return false;
        }
    }
    true
}

/// The digit of value `d`.
pub fn char_of_digit(d: u64, upper: bool) -> (r: char)
    requires
        d < 16,
    ensures
        r == digit_char(d as int, upper),
{
    if d < 10 {
        (48 + d as u8) as char
    } else if upper {
        (65 + (d as u8 - 10)) as char
    } else {
        (97 + (d as u8 - 10)) as char
    }
}

/// The numeral of `n`.
pub fn numeral_of(n: u64, base: u64, upper: bool) -> (r: Vec<char>)
    requires
        2 <= base <= 16,
    ensures
        r@ == numeral(n as nat, base as nat, upper),
    decreases n,
{
    if n < base {
        let mut out: Vec<char> = Vec::new();
        out.push(char_of_digit(n, upper));
        assert(out@ == seq![digit_char(n as int, upper)]);
        out
    } else {
        assert(n / base < n) by (nonlinear_arith)
            requires
                n >= base,
                base >= 2,
        ;
        assert(n % base < base) by (nonlinear_arith)
            requires
                base >= 2,
        ;
        let mut out: Vec<char> = numeral_of(n / base, base, upper);
        out.push(char_of_digit(n % base, upper));
        out
    }
}

/// Appends the decimal numeral of `n`.
pub fn push_decimal(out: &mut String, n: u64)
    ensures
        final(out)@ == old(out)@ + decimal(n as nat),
{
    let cs: Vec<char> = numeral_of(n, 10, false);
    crate::text::push_chars(out, cs.as_slice());
}

/// The decimal numeral of `n`, as a string.
pub fn decimal_text(n: u64) -> (r: String)
    ensures
        r@ == decimal(n as nat),
{
    let cs: Vec<char> = numeral_of(n, 10, false);
    text_of(cs.as_slice())
}

/// The decimal numeral of a number that may be negative.
pub open spec fn signed_decimal(n: int) -> Seq<char> {
    if n < 0 {
        "-"@ + decimal((-n) as nat)
    } else {
        decimal(n as nat)
    }
}

/// Appends the decimal numeral of a number that may be negative.
pub fn push_signed(out: &mut String, n: i32)
    ensures
        final(out)@ == old(out)@ + signed_decimal(n as int),
{
    if n < 0 {
        out.append("-");
        push_decimal(out, (-(n as i64)) as u64);
    } else {
        push_decimal(out, n as u64);
    }
    assert(out@ == old(out)@ + signed_decimal(n as int));
}

// ---------------------------------------------------------------------------
// Reading gives back what was written.
// ---------------------------------------------------------------------------
/// The digit of value `d` has value `d`.
pub proof fn lemma_digit(d: int, upper: bool)
    requires
        0 <= d < 16,
    ensures
        digit_value(digit_char(d, upper)) == d,
        digit_char(d, upper) != '+',
{
}

/// Reading one more digit continues where the reading of the digits before it ended.
proof fn lemma_read_digits_push(s: Seq<char>, c: char, base: nat, max: nat, acc: nat, n: nat)
    requires
        read_digits(s, base, max, acc) == Ok::<nat, ParseIntError>(n),
        digit_value(c) < base,
        n * base + digit_value(c) <= max,
    ensures
        read_digits(s.push(c), base, max, acc) == Ok::<nat, ParseIntError>(
            (n * base + digit_value(c)) as nat,
        ),
    decreases s.len(),
{
    let t = s.push(c);
    if s.len() == 0 {
        assert(t.skip(1) == Seq::<char>::empty());
        assert(read_digits(t.skip(1), base, max, (acc * base + digit_value(c)) as nat) == Ok::<
            nat,
            ParseIntError,
        >((acc * base + digit_value(c)) as nat));
    } else {
        assert(t[0] == s[0]);
        assert(t.skip(1) == s.skip(1).push(c));
        lemma_read_digits_push(
            s.skip(1),
            c,
            base,
            max,
            (acc * base + digit_value(s[0])) as nat,
            n,
        );
    }
}

/// A numeral is not empty and does not begin with a sign.
pub proof fn lemma_numeral_first(n: nat, base: nat, upper: bool)
    requires
        2 <= base <= 16,
    ensures
        numeral(n, base, upper).len() > 0,
        numeral(n, base, upper)[0] != '+',
        all_hex(numeral(n, base, upper)),
    decreases n,
{
    if n < base {
        lemma_digit(n as int, upper);
    } else {
        assert(n / base < n) by (nonlinear_arith)
            requires
                n >= base,
                base >= 2,
        ;
        lemma_numeral_first(n / base, base, upper);
        assert(n % base < base) by (nonlinear_arith)
            requires
                base >= 2,
        ;
        lemma_digit((n % base) as int, upper);
        let t = numeral(n / base, base, upper);
        assert forall|i: int| 0 <= i < numeral(n, base, upper).len() implies #[trigger] digit_value(
            numeral(n, base, upper)[i],
        ) < 16 by {
            if i < t.len() {
                assert(numeral(n, base, upper)[i] == t[i]);
            }
        }
    }
}

proof fn lemma_read_numeral(n: nat, base: nat, upper: bool, max: nat)
    requires
        2 <= base <= 16,
        n <= max,
    ensures
        read_digits(numeral(n, base, upper), base, max, 0) == Ok::<nat, ParseIntError>(n),
    decreases n,
{
    if n < base {
        lemma_digit(n as int, upper);
        let s = numeral(n, base, upper);
        assert(s.skip(1) == Seq::<char>::empty());
        assert(0 * base == 0) by (nonlinear_arith);
        assert(read_digits(s.skip(1), base, max, n) == Ok::<nat, ParseIntError>(n));
    } else {
        assert(n / base < n && (n / base) * base + n % base == n && n % base < base)
            by (nonlinear_arith)
            requires
                n >= base,
                base >= 2,
        ;
        lemma_read_numeral(n / base, base, upper, max);
        lemma_digit((n % base) as int, upper);
        lemma_read_digits_push(
            numeral(n / base, base, upper),
            digit_char((n % base) as int, upper),
            base,
            max,
            0,
            n / base,
        );
    }
}

/// Reading the numeral of a number gives the number, for every base, case and limit that the
/// number meets.
pub proof fn law_numeral_reads_back(n: nat, base: nat, upper: bool, max: nat)
    requires
        2 <= base <= 16,
        n <= max,
    ensures
        parse_uint(numeral(n, base, upper), base, max) == Ok::<nat, ParseIntError>(n),
{
    lemma_numeral_first(n, base, upper);
    lemma_read_numeral(n, base, upper, max);
}

/// A text is read as a number only if it is one: at least one digit, nothing but digits behind a
/// single plus sign that may stand in front, and a value within bounds.
pub proof fn law_only_numbers_are_read(s: Seq<char>, base: nat, max: nat)
    ensures
        parse_uint(s, base, max) is Ok ==> s.len() > 0,
        parse_uint(s, base, max) is Ok && s[0] != '+' ==> forall|i: int|
            0 <= i < s.len() ==> #[trigger] digit_value(s[i]) < base,
        parse_uint(s, base, max) is Ok && s[0] == '+' ==> s.len() > 1 && forall|i: int|
            0 < i < s.len() ==> #[trigger] digit_value(s[i]) < base,
        parse_uint(s, base, max) matches Ok(n) ==> n <= max || s.len() == 1 && s[0] == '+',
{
    if s.len() > 0 {
        if s[0] == '+' {
            if s.len() > 1 {
                let t = s.skip(1);
                lemma_only_digits(t, base, max, 0);
                if parse_uint(s, base, max) is Ok {
                    assert forall|i: int| 0 < i < s.len() implies #[trigger] digit_value(s[i])
                        < base by {
                        assert(digit_value(t[i - 1]) < base);
                    }
                }
            }
        } else {
            lemma_only_digits(s, base, max, 0);
        }
    }
}

proof fn lemma_only_digits(s: Seq<char>, base: nat, max: nat, acc: nat)
    ensures
        read_digits(s, base, max, acc) is Ok ==> forall|i: int|
            0 <= i < s.len() ==> #[trigger] digit_value(s[i]) < base,
        s.len() > 0 ==> (read_digits(s, base, max, acc) matches Ok(n) ==> n <= max),
    decreases s.len(),
{
    if s.len() > 0 && digit_value(s[0]) < base && acc * base + digit_value(s[0]) <= max {
        let t = s.skip(1);
        lemma_only_digits(t, base, max, (acc * base + digit_value(s[0])) as nat);
        if read_digits(s, base, max, acc) is Ok {
            assert forall|i: int| 0 <= i < s.len() implies #[trigger] digit_value(s[i]) < base by {
                if i > 0 {
                    assert(digit_value(t[i - 1]) < base);
                }
            }
        }
    }
}

/// A digit more multiplies by the base and adds the digit's value; the digits are `0` to `9`, then
/// letters from `a` or `A` on.
pub proof fn law_numerals_count(n: nat, d: nat, upper: bool)
    requires
        n > 0,
        d < 10,
    ensures
        decimal(n * 10 + d) == decimal(n).push(('0' as int + d) as char),
        d > 0 ==> decimal(d) == seq![('0' as int + d) as char],
        numeral(10, 16, true) == seq!['A'],
        numeral(10, 16, false) == seq!['a'],
        numeral(15, 16, true) == seq!['F'],
{
    let m = n * 10 + d;
    assert(m / 10 == n && m % 10 == d);
    reveal_with_fuel(numeral, 2);
}

} // verus!
