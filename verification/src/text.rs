//! Text primitives: conversions between strings and character slices, trimming, splitting,
//! searching, and number formatting and parsing.
//!
//! The specification side works on `Seq<char>`; the executable side works on character slices
//! that borrow from one vector, so that taking a piece of a text copies nothing.
use vstd::prelude::*;
use vstd::slice::slice_subrange;

verus! {

/// `String::push` appends one character at the end.
pub assume_specification[ String::push ](s: &mut String, c: char)
    ensures
        final(s)@ == old(s)@.push(c),
;

// ---------------------------------------------------------------------------
// What the operations mean.
// ---------------------------------------------------------------------------
/// The code points with the Unicode property `White_Space`.
pub open spec fn is_white(c: char) -> bool {
    let u = c as u32;
    ||| 0x9 <= u <= 0xd
    ||| u == 0x20
    ||| u == 0x85
    ||| u == 0xa0
    ||| u == 0x1680
    ||| 0x2000 <= u <= 0x200a
    ||| u == 0x2028
    ||| u == 0x2029
    ||| u == 0x202f
    ||| u == 0x205f
    ||| u == 0x3000
}

/// `s` without its leading white space.
pub open spec fn trim_start(s: Seq<char>) -> Seq<char>
    decreases s.len(),
{
    if s.len() > 0 && is_white(s[0]) {
        trim_start(s.skip(1))
    } else {
        s
    }
}

/// `s` without its trailing white space.
pub open spec fn trim_end(s: Seq<char>) -> Seq<char>
    decreases s.len(),
{
    if s.len() > 0 && is_white(s.last()) {
        trim_end(s.drop_last())
    } else {
        s
    }
}

/// `s` without the white space around it.
pub open spec fn trim(s: Seq<char>) -> Seq<char> {
    trim_end(trim_start(s))
}

/// `s` without trailing occurrences of `c`.
pub open spec fn trim_end_char(s: Seq<char>, c: char) -> Seq<char>
    decreases s.len(),
{
    if s.len() > 0 && s.last() == c {
        trim_end_char(s.drop_last(), c)
    } else {
        s
    }
}

/// Where `c` occurs first in `s`; the length of `s` where it does not occur.
pub open spec fn first_of(s: Seq<char>, c: char) -> int
    decreases s.len(),
{
    if s.len() == 0 || s[0] == c {
        0
    } else {
        1 + first_of(s.skip(1), c)
    }
}

/// Where `c` occurs last in `s`; minus one where it does not occur.
pub open spec fn last_of(s: Seq<char>, c: char) -> int
    decreases s.len(),
{
    if s.len() == 0 {
        -1
    } else if s.last() == c {
        s.len() - 1
    } else {
        last_of(s.drop_last(), c)
    }
}

/// What lies before the first `c` and what lies after it.
pub open spec fn split_once(s: Seq<char>, c: char) -> Option<(Seq<char>, Seq<char>)> {
    let i = first_of(s, c);
    if i < s.len() {
        Some((s.take(i), s.skip(i + 1)))
    } else {
        None
    }
}

/// What lies before the last `c` and what lies after it.
pub open spec fn rsplit_once(s: Seq<char>, c: char) -> Option<(Seq<char>, Seq<char>)> {
    let i = last_of(s, c);
    if i >= 0 {
        Some((s.take(i), s.skip(i + 1)))
    } else {
        None
    }
}

/// The pieces of `s` between occurrences of `c`: one more than there are occurrences.
pub open spec fn split(s: Seq<char>, c: char) -> Seq<Seq<char>>
    decreases s.len(),
{
    proof {
        lemma_first_of(s, c);
    }
    let i = first_of(s, c);
    if i < s.len() {
        seq![s.take(i)] + split(s.skip(i + 1), c)
    } else {
        seq![s]
    }
}

/// `s` without one carriage return at its end.
pub open spec fn strip_cr(s: Seq<char>) -> Seq<char> {
    if s.len() > 0 && s.last() == '\r' {
        s.drop_last()
    } else {
        s
    }
}

/// The lines of `s`. A line ends in a line feed, with or without a carriage return before it;
/// the last one may lack the line feed, and then keeps what it ends in.
pub open spec fn lines(s: Seq<char>) -> Seq<Seq<char>>
    decreases s.len(),
{
    proof {
        lemma_first_of(s, '\n');
    }
    let i = first_of(s, '\n');
    if i < s.len() {
        seq![strip_cr(s.take(i))] + lines(s.skip(i + 1))
    } else if s.len() > 0 {
        seq![s]
    } else {
        seq![]
    }
}

/// How many characters at the start of `s` are not white space.
pub open spec fn word_len(s: Seq<char>) -> nat
    decreases s.len(),
{
    if s.len() == 0 || is_white(s[0]) {
        0
    } else {
        1 + word_len(s.skip(1))
    }
}

/// The maximal runs of characters of `s` that are not white space.
pub open spec fn words(s: Seq<char>) -> Seq<Seq<char>>
    decreases s.len(),
{
    proof {
        lemma_trim_start(s);
        lemma_word_len(trim_start(s));
    }
    let t = trim_start(s);
    if t.len() == 0 {
        seq![]
    } else {
        let n = word_len(t);
        seq![t.take(n as int)] + words(t.skip(n as int))
    }
}

/// Whether `p` occurs in `s`.
pub open spec fn contains(s: Seq<char>, p: Seq<char>) -> bool {
    exists|i: int|
        0 <= i <= s.len() - p.len() && #[trigger] s.subrange(i, i + p.len()) == p
}

/// Whether `s` begins with `p`.
pub open spec fn starts_with(s: Seq<char>, p: Seq<char>) -> bool {
    p.len() <= s.len() && s.take(p.len() as int) == p
}

/// What follows the prefix `p` of `s`, if `s` begins with `p`.
pub open spec fn strip_prefix(s: Seq<char>, p: Seq<char>) -> Option<Seq<char>> {
    if starts_with(s, p) {
        Some(s.skip(p.len() as int))
    } else {
        None
    }
}

/// `s` with `p` taken off its front as often as it stands there.
pub open spec fn trim_prefixes(s: Seq<char>, p: Seq<char>) -> Seq<char>
    decreases s.len(),
{
    if p.len() > 0 && starts_with(s, p) {
        trim_prefixes(s.skip(p.len() as int), p)
    } else {
        s
    }
}

/// `s` with every single quote written twice.
pub open spec fn double_quotes(s: Seq<char>) -> Seq<char>
    decreases s.len(),
{
    if s.len() == 0 {
        s
    } else if s.last() == '\'' {
        double_quotes(s.drop_last()) + seq!['\'', '\'']
    } else {
        double_quotes(s.drop_last()).push(s.last())
    }
}

/// The pieces `ps` with `sep` between neighbours.
pub open spec fn join(ps: Seq<Seq<char>>, sep: Seq<char>) -> Seq<char>
    decreases ps.len(),
{
    if ps.len() == 0 {
        seq![]
    } else if ps.len() == 1 {
        ps[0]
    } else {
        join(ps.drop_last(), sep) + sep + ps.last()
    }
}

/// The texts that slices of characters hold.
pub open spec fn texts(ps: Seq<&[char]>) -> Seq<Seq<char>> {
    ps.map_values(|p: &[char]| p@)
}

/// The texts that strings hold.
pub open spec fn strings(ps: Seq<String>) -> Seq<Seq<char>> {
    ps.map_values(|p: String| p@)
}

// ---------------------------------------------------------------------------
// Conversions and comparisons.
// ---------------------------------------------------------------------------
/// The characters of `s`, in order.
pub fn chars_of(s: &str) -> (out: Vec<char>)
    ensures
        out@ == s@,
{
    let mut out: Vec<char> = Vec::new();
    for c in it: s.chars()
        invariant
            out@ == it.seq().take(it.index()),
            it.seq() == s@,
    {
        out.push(c);
    }
    out
}

/// The string made of the characters `cs`.
pub fn text_of(cs: &[char]) -> (out: String)
    ensures
        out@ == cs@,
{
    let mut out = String::new();
    push_chars(&mut out, cs);
    out
}

/// Appends the characters `cs` to `out`.
pub fn push_chars(out: &mut String, cs: &[char])
    ensures
        final(out)@ == old(out)@ + cs@,
{
    for i in 0..cs.len()
        invariant
            out@ == old(out)@ + cs@.take(i as int),
    {
        out.push(cs[i]);
        assert(cs@.take(i + 1) == cs@.take(i as int).push(cs@[i as int]));
    }
    assert(cs@.take(cs@.len() as int) == cs@);
}

/// A copy of `s`.
pub fn copy_str(s: &str) -> (out: String)
    ensures
        out@ == s@,
{
    let mut out = String::new();
    out.append(s);
    out
}

/// Whether two character slices hold the same text.
pub fn same_chars(a: &[char], b: &[char]) -> (r: bool)
    ensures
        r == (a@ == b@),
{
    if a.len() != b.len() {
        return false;
    }
    for i in 0..a.len()
        invariant
            a@.len() == b@.len(),
            forall|j: int| 0 <= j < i ==> a@[j] == b@[j],
    {
        if a[i] != b[i] {
            return false;
        }
    }
    assert(a@ == b@);
    true
}

/// Whether a character slice holds the text `b`.
pub fn is_text(a: &[char], b: &str) -> (r: bool)
    ensures
        r == (a@ == b@),
{
    same_chars(a, chars_of(b).as_slice())
}

/// Whether two strings hold the same text.
pub fn same_str(a: &str, b: &str) -> (r: bool)
    ensures
        r == (a@ == b@),
{
    is_text(chars_of(a).as_slice(), b)
}

// ---------------------------------------------------------------------------
// Trimming.
// ---------------------------------------------------------------------------
/// Whether `c` is white space.
pub fn white(c: char) -> (r: bool)
    ensures
        r == is_white(c),
{
    let u: u32 = c as u32;
    (0x9 <= u && u <= 0xd) || u == 0x20 || u == 0x85 || u == 0xa0 || u == 0x1680 || (0x2000 <= u
        && u <= 0x200a) || u == 0x2028 || u == 0x2029 || u == 0x202f || u == 0x205f || u == 0x3000
}

/// The slice without the white space in front.
pub fn trimmed_start<'a>(s: &'a [char]) -> (r: &'a [char])
    ensures
        r@ == trim_start(s@),
{
    let mut i: usize = 0;
    assert(s@.skip(0) == s@);
    while i < s.len() && white(s[i])
        invariant
            0 <= i <= s@.len(),
            trim_start(s@) == trim_start(s@.skip(i as int)),
        decreases s@.len() - i,
    {
        assert(s@.skip(i as int).skip(1) == s@.skip(i + 1));
        i = i + 1;
    }
    slice_subrange(s, i, s.len())
}

/// The slice without the white space behind.
pub fn trimmed_end<'a>(s: &'a [char]) -> (r: &'a [char])
    ensures
        r@ == trim_end(s@),
{
    let mut n: usize = s.len();
    assert(s@.take(n as int) == s@);
    while n > 0 && white(s[n - 1])
        invariant
            0 <= n <= s@.len(),
            trim_end(s@) == trim_end(s@.take(n as int)),
        decreases n,
    {
        assert(s@.take(n as int).drop_last() == s@.take(n - 1));
        n = n - 1;
    }
    slice_subrange(s, 0, n)
}

/// The slice without the white space around it.
pub fn trimmed<'a>(s: &'a [char]) -> (r: &'a [char])
    ensures
        r@ == trim(s@),
{
    trimmed_end(trimmed_start(s))
}

/// The slice without the occurrences of `c` behind.
pub fn trimmed_end_char<'a>(s: &'a [char], c: char) -> (r: &'a [char])
    ensures
        r@ == trim_end_char(s@, c),
{
    let mut n: usize = s.len();
    assert(s@.take(n as int) == s@);
    while n > 0 && s[n - 1] == c
        invariant
            0 <= n <= s@.len(),
            trim_end_char(s@, c) == trim_end_char(s@.take(n as int), c),
        decreases n,
    {
        assert(s@.take(n as int).drop_last() == s@.take(n - 1));
        n = n - 1;
    }
    slice_subrange(s, 0, n)
}

// ---------------------------------------------------------------------------
// Searching and splitting.
// ---------------------------------------------------------------------------
/// `first_of` gives a place of `c`, and the first one.
pub proof fn lemma_first_of(s: Seq<char>, c: char)
    ensures
        0 <= first_of(s, c) <= s.len(),
        first_of(s, c) < s.len() ==> s[first_of(s, c)] == c,
        forall|j: int| 0 <= j < first_of(s, c) ==> s[j] != c,
    decreases s.len(),
{
    if s.len() > 0 && s[0] != c {
        let t = s.skip(1);
        lemma_first_of(t, c);
        assert forall|j: int| 0 <= j < first_of(s, c) implies s[j] != c by {
            if j > 0 {
                assert(t[j - 1] == s[j]);
            }
        }
    }
}

/// `last_of` gives a place of `c`, and the last one.
pub proof fn lemma_last_of(s: Seq<char>, c: char)
    ensures
        -1 <= last_of(s, c) < s.len(),
        last_of(s, c) >= 0 ==> s[last_of(s, c)] == c,
        forall|j: int| last_of(s, c) < j < s.len() ==> s[j] != c,
    decreases s.len(),
{
    if s.len() > 0 && s.last() != c {
        let t = s.drop_last();
        lemma_last_of(t, c);
        assert forall|j: int| last_of(s, c) < j < s.len() implies s[j] != c by {
            if j < s.len() - 1 {
                assert(t[j] == s[j]);
            }
        }
    }
}

/// A text without `c` is its own only piece.
pub proof fn lemma_split_whole(a: Seq<char>, c: char)
    requires
        forall|j: int| 0 <= j < a.len() ==> a[j] != c,
    ensures
        split(a, c) == seq![a],
{
    lemma_first_of(a, c);
}

/// What stands before the first `c` is the first piece; the rest is split by itself.
pub proof fn lemma_split_first(a: Seq<char>, c: char, rest: Seq<char>)
    requires
        forall|j: int| 0 <= j < a.len() ==> a[j] != c,
    ensures
        split(a.push(c) + rest, c) == seq![a] + split(rest, c),
{
    let s = a.push(c) + rest;
    lemma_first_of(s, c);
    assert(s[a.len() as int] == c);
    assert forall|j: int| 0 <= j < a.len() implies s[j] != c by {
        assert(s[j] == a[j]);
    }
    assert(first_of(s, c) == a.len());
    assert(s.take(a.len() as int) == a);
    assert(s.skip(a.len() as int + 1) == rest);
}

/// The first place of `c`, or the length of the slice.
pub fn find_first(s: &[char], c: char) -> (r: usize)
    ensures
        r == first_of(s@, c),
        r <= s@.len(),
        r < s@.len() ==> s@[r as int] == c,
{
    let mut i: usize = 0;
    assert(s@.skip(0) == s@);
    while i < s.len() && s[i] != c
        invariant
            0 <= i <= s@.len(),
            first_of(s@, c) == i + first_of(s@.skip(i as int), c),
        decreases s@.len() - i,
    {
        assert(s@.skip(i as int).skip(1) == s@.skip(i + 1));
        i = i + 1;
    }
    proof {
        lemma_first_of(s@, c);
    }
    i
}

/// The last place of `c`.
pub fn find_last(s: &[char], c: char) -> (r: Option<usize>)
    ensures
        match r {
            Some(i) => i == last_of(s@, c) && i < s.len(),
            None => last_of(s@, c) == -1,
        },
{
    let mut n: usize = s.len();
    assert(s@.take(n as int) == s@);
    while n > 0 && s[n - 1] != c
        invariant
            0 <= n <= s@.len(),
            last_of(s@, c) == last_of(s@.take(n as int), c),
        decreases n,
    {
        assert(s@.take(n as int).drop_last() == s@.take(n - 1));
        n = n - 1;
    }
    if n == 0 {
        None
    } else {
        Some(n - 1)
    }
}

/// The parts before and after the first `c`.
pub fn cut_first<'a>(s: &'a [char], c: char) -> (r: Option<(&'a [char], &'a [char])>)
    ensures
        match r {
            Some((a, b)) => split_once(s@, c) == Some((a@, b@)),
            None => split_once(s@, c) is None,
        },
{
    let i: usize = find_first(s, c);
    if i < s.len() {
        Some((slice_subrange(s, 0, i), slice_subrange(s, i + 1, s.len())))
    } else {
        None
    }
}

/// The parts before and after the last `c`.
pub fn cut_last<'a>(s: &'a [char], c: char) -> (r: Option<(&'a [char], &'a [char])>)
    ensures
        match r {
            Some((a, b)) => rsplit_once(s@, c) == Some((a@, b@)),
            None => rsplit_once(s@, c) is None,
        },
{
    proof {
        lemma_last_of(s@, c);
    }
    match find_last(s, c) {
        Some(i) => Some((slice_subrange(s, 0, i), slice_subrange(s, i + 1, s.len()))),
        None => None,
    }
}

/// The pieces between occurrences of `c`.
pub fn pieces<'a>(s: &'a [char], c: char) -> (r: Vec<&'a [char]>)
    ensures
        texts(r@) == split(s@, c),
{
    let mut out: Vec<&'a [char]> = Vec::new();
    let mut rest: &'a [char] = s;
    let mut more: bool = true;
    proof {
        lemma_first_of(s@, c);
    }
    assert(texts(out@) + split(rest@, c) == split(s@, c));
    while more
        invariant
            more ==> texts(out@) + split(rest@, c) == split(s@, c),
            !more ==> texts(out@) == split(s@, c),
        decreases rest@.len() + (if more { 1int } else { 0int }),
    {
        let ghost before = out@;
        let ghost whole = rest@;
        proof {
            lemma_first_of(rest@, c);
        }
        match cut_first(rest, c) {
            Some((a, b)) => {
                out.push(a);
                rest = b;
                assert(rest@ == whole.skip(first_of(whole, c) + 1));
                assert(texts(out@) == texts(before).push(a@));
                assert(split(whole, c) == seq![a@] + split(rest@, c));
                assert(texts(before) + (seq![a@] + split(rest@, c)) == texts(before).push(a@)
                    + split(rest@, c));
            },
            None => {
                out.push(rest);
                more = false;
                assert(texts(out@) == texts(before).push(rest@));
                assert(split(whole, c) == seq![rest@]);
                assert(texts(before) + seq![rest@] == texts(before).push(rest@));
            },
        }
    }
    out
}

/// The lines of a text.
pub fn lines_of<'a>(s: &'a [char]) -> (r: Vec<&'a [char]>)
    ensures
        texts(r@) == lines(s@),
{
    let mut out: Vec<&'a [char]> = Vec::new();
    let mut rest: &'a [char] = s;
    assert(texts(out@) + lines(rest@) == lines(s@));
    while rest.len() > 0
        invariant
            texts(out@) + lines(rest@) == lines(s@),
        decreases rest@.len(),
    {
        let ghost before = out@;
        let ghost whole = rest@;
        proof {
            lemma_first_of(rest@, '\n');
        }
        let i: usize = find_first(rest, '\n');
        if i < rest.len() {
            let mut line: &'a [char] = slice_subrange(rest, 0, i);
            let ghost raw = line@;
            if line.len() > 0 && line[line.len() - 1] == '\r' {
                line = slice_subrange(line, 0, line.len() - 1);
                assert(line@ == raw.drop_last());
            }
            assert(line@ == strip_cr(whole.take(i as int)));
            out.push(line);
            rest = slice_subrange(rest, i + 1, rest.len());
            assert(texts(out@) == texts(before).push(line@));
            assert(rest@ == whole.skip(i + 1));
            assert(texts(before) + (seq![line@] + lines(rest@)) == texts(before).push(line@)
                + lines(rest@));
        } else {
            out.push(rest);
            rest = slice_subrange(rest, 0, 0);
            assert(texts(out@) == texts(before).push(whole));
            proof {
                lemma_first_of(rest@, '\n');
            }
            assert(lines(whole) == seq![whole]);
            assert(lines(rest@) == Seq::<Seq<char>>::empty());
            assert(texts(before) + seq![whole] == texts(before).push(whole) + lines(rest@));
        }
    }
    proof {
        lemma_first_of(rest@, '\n');
    }
    assert(texts(out@) + lines(rest@) == texts(out@));
    out
}

/// Trimming leaves a suffix that is empty or begins with a visible character.
pub proof fn lemma_trim_start(s: Seq<char>)
    ensures
        trim_start(s).len() <= s.len(),
        trim_start(s).len() > 0 ==> !is_white(trim_start(s)[0]),
    decreases s.len(),
{
    if s.len() > 0 && is_white(s[0]) {
        lemma_trim_start(s.skip(1));
    }
}

/// A word is no longer than the text, and not empty where the text begins with a visible
/// character.
pub proof fn lemma_word_len(s: Seq<char>)
    ensures
        word_len(s) <= s.len(),
        s.len() > 0 && !is_white(s[0]) ==> word_len(s) > 0,
    decreases s.len(),
{
    if s.len() > 0 && !is_white(s[0]) {
        lemma_word_len(s.skip(1));
    }
}

/// The words of a text.
pub fn words_of<'a>(s: &'a [char]) -> (r: Vec<&'a [char]>)
    ensures
        texts(r@) == words(s@),
{
    let mut out: Vec<&'a [char]> = Vec::new();
    proof {
        lemma_trim_start(s@);
        lemma_word_len(trim_start(s@));
    }
    let mut rest: &'a [char] = trimmed_start(s);
    let ghost mut from: Seq<char> = s@;
    assert(texts(out@) + words(from) == words(s@));
    while rest.len() > 0
        invariant
            rest@ == trim_start(from),
            texts(out@) + words(from) == words(s@),
        decreases rest@.len(),
    {
        let ghost before = out@;
        let ghost whole = rest@;
        let ghost earlier = from;
        proof {
            lemma_trim_start(earlier);
            lemma_word_len(whole);
        }
        let mut n: usize = 0;
        assert(rest@.skip(0) == rest@);
        while n < rest.len() && !white(rest[n])
            invariant
                0 <= n <= rest@.len(),
                word_len(rest@) == n + word_len(rest@.skip(n as int)),
            decreases rest@.len() - n,
        {
            assert(rest@.skip(n as int).skip(1) == rest@.skip(n + 1));
            n = n + 1;
        }
        assert(n == word_len(whole));
        let word: &'a [char] = slice_subrange(rest, 0, n);
        out.push(word);
        let tail: &'a [char] = slice_subrange(rest, n, rest.len());
        rest = trimmed_start(tail);
        proof {
            from = tail@;
            lemma_trim_start(from);
            lemma_word_len(trim_start(from));
            assert(texts(out@) == texts(before).push(word@));
            assert(word@ == whole.take(n as int));
            assert(tail@ == whole.skip(n as int));
            assert(words(earlier) == seq![word@] + words(from));
            assert(texts(before) + (seq![word@] + words(from)) == texts(before).push(word@)
                + words(from));
        }
    }
    proof {
        lemma_trim_start(from);
        lemma_word_len(trim_start(from));
    }
    assert(texts(out@) + words(from) == texts(out@));
    out
}

/// Whether the slice begins with `p`.
pub fn begins_with(s: &[char], p: &[char]) -> (r: bool)
    ensures
        r == starts_with(s@, p@),
{
    if p.len() > s.len() {
        return false;
    }
    same_chars(slice_subrange(s, 0, p.len()), p)
}

/// What follows the prefix `p`, if it is there.
pub fn after_prefix<'a>(s: &'a [char], p: &str) -> (r: Option<&'a [char]>)
    ensures
        match r {
            Some(t) => strip_prefix(s@, p@) == Some(t@),
            None => strip_prefix(s@, p@) is None,
        },
{
    let pv: Vec<char> = chars_of(p);
    if begins_with(s, pv.as_slice()) {
        Some(slice_subrange(s, pv.len(), s.len()))
    } else {
        None
    }
}

/// The slice with `p` taken off its front as often as it stands there.
pub fn without_prefixes<'a>(s: &'a [char], p: &str) -> (r: &'a [char])
    ensures
        r@ == trim_prefixes(s@, p@),
{
    let pv: Vec<char> = chars_of(p);
    let mut rest: &'a [char] = s;
    while pv.len() > 0 && begins_with(rest, pv.as_slice())
        invariant
            pv@ == p@,
            trim_prefixes(rest@, p@) == trim_prefixes(s@, p@),
        decreases rest@.len(),
    {
        let ghost whole = rest@;
        rest = slice_subrange(rest, pv.len(), rest.len());
        assert(rest@ == whole.skip(p@.len() as int));
    }
    rest
}

/// Whether `p` occurs in the slice.
pub fn has_text(s: &[char], p: &str) -> (r: bool)
    ensures
        r == contains(s@, p@),
{
    let pv: Vec<char> = chars_of(p);
    let mut i: usize = 0;
    while i <= s.len() && pv.len() <= s.len() - i
        invariant
            pv@ == p@,
            0 <= i <= s@.len() + 1,
            forall|j: int|
                0 <= j < i && j <= s@.len() - p@.len() ==> #[trigger] s@.subrange(j, j + p@.len())
                    != p@,
        decreases s@.len() + 1 - i,
    {
        if same_chars(slice_subrange(s, i, i + pv.len()), pv.as_slice()) {
            assert(s@.subrange(i as int, i + p@.len()) == p@);
            return true;
        }
        if i == s.len() {
            return false;
        }
        i = i + 1;
    }
    false
}

/// Appends `s` with every single quote written twice.
pub fn push_doubled(out: &mut String, s: &str)
    ensures
        final(out)@ == old(out)@ + double_quotes(s@),
{
    let cs: Vec<char> = chars_of(s);
    assert(double_quotes(cs@.take(0)) == Seq::<char>::empty());
    for i in 0..cs.len()
        invariant
            cs@ == s@,
            out@ == old(out)@ + double_quotes(cs@.take(i as int)),
    {
        assert(cs@.take(i + 1).drop_last() == cs@.take(i as int));
        out.push(cs[i]);
        if cs[i] == '\'' {
            out.push('\'');
        }
    }
    assert(cs@.take(cs@.len() as int) == cs@);
}

/// Appends the pieces with `sep` between neighbours.
pub fn push_joined(out: &mut String, ps: &Vec<&[char]>, sep: &str)
    ensures
        final(out)@ == old(out)@ + join(texts(ps@), sep@),
{
    assert(texts(ps@.take(0)) == Seq::<Seq<char>>::empty());
    for i in 0..ps.len()
        invariant
            out@ == old(out)@ + join(texts(ps@.take(i as int)), sep@),
    {
        let ghost t = texts(ps@.take(i + 1));
        assert(t.drop_last() == texts(ps@.take(i as int)));
        assert(t.last() == ps@[i as int]@);
        if i > 0 {
            out.append(sep);
        }
        push_chars(out, ps[i]);
        assert(out@ == old(out)@ + join(t, sep@));
    }
    assert(ps@.take(ps@.len() as int) == ps@);
}

// ---------------------------------------------------------------------------
// Lists of strings, and paths.
// ---------------------------------------------------------------------------
/// The texts that string slices hold.
pub open spec fn literals(ps: Seq<&str>) -> Seq<Seq<char>> {
    ps.map_values(|p: &str| p@)
}

/// Owned copies of string slices.
pub fn owned(ps: &[&str]) -> (r: Vec<String>)
    ensures
        strings(r@) == literals(ps@),
{
    let mut out: Vec<String> = Vec::new();
    for i in 0..ps.len()
        invariant
            out@.len() == i,
            forall|j: int| 0 <= j < i ==> (#[trigger] out@[j])@ == ps@[j]@,
    {
        out.push(copy_str(ps[i]));
    }
    assert(strings(out@) == literals(ps@));
    out
}

/// Whether a text is among the strings.
pub open spec fn listed(ps: Seq<String>, s: Seq<char>) -> bool {
    exists|i: int| 0 <= i < ps.len() && (#[trigger] ps[i])@ == s
}

/// Whether a text is among the strings.
pub fn is_listed(ps: &Vec<String>, s: &[char]) -> (r: bool)
    ensures
        r == listed(ps@, s@),
{
    for i in 0..ps.len()
        invariant
            forall|j: int| 0 <= j < i ==> (#[trigger] ps@[j])@ != s@,
    {
        if is_text(s, ps[i].as_str()) {
            return true;
        }
    }
    false
}

/// The path `b` as seen from the directory `a`: an absolute path stands for itself.
pub open spec fn path_join(a: Seq<char>, b: Seq<char>) -> Seq<char> {
    if b.len() > 0 && b[0] == '/' {
        b
    } else if a.len() == 0 || a.last() == '/' {
        a + b
    } else {
        a.push('/') + b
    }
}

/// Joins a directory and a path seen from it.
pub fn join_path(a: &str, b: &str) -> (r: String)
    ensures
        r@ == path_join(a@, b@),
{
    let ac: Vec<char> = chars_of(a);
    let bc: Vec<char> = chars_of(b);
    if bc.len() > 0 && bc[0] == '/' {
        return copy_str(b);
    }
    let mut out: String = copy_str(a);
    if ac.len() > 0 && ac[ac.len() - 1] != '/' {
        out.push('/');
    }
    out.append(b);
    assert(out@ == path_join(a@, b@));
    out
}

// ---------------------------------------------------------------------------
// Order.
// ---------------------------------------------------------------------------
/// Whether `a` comes before `b` in the order of code points, which is the order of the UTF-8
/// bytes too.
pub open spec fn precedes(a: Seq<char>, b: Seq<char>) -> bool
    decreases a.len(),
{
    if b.len() == 0 {
        false
    } else if a.len() == 0 {
        true
    } else if a[0] == b[0] {
        precedes(a.skip(1), b.skip(1))
    } else {
        (a[0] as int) < (b[0] as int)
    }
}

/// No text comes before itself.
pub proof fn lemma_precedes_irreflexive(a: Seq<char>)
    ensures
        !precedes(a, a),
    decreases a.len(),
{
    if a.len() > 0 {
        lemma_precedes_irreflexive(a.skip(1));
    }
}

/// What comes before a text comes before all that the text comes before.
pub proof fn lemma_precedes_transitive(a: Seq<char>, b: Seq<char>, c: Seq<char>)
    requires
        precedes(a, b),
        precedes(b, c),
    ensures
        precedes(a, c),
    decreases a.len(),
{
    if a.len() > 0 && a[0] == b[0] && b[0] == c[0] {
        lemma_precedes_transitive(a.skip(1), b.skip(1), c.skip(1));
    }
}

/// Of two different texts one comes before the other.
pub proof fn lemma_precedes_total(a: Seq<char>, b: Seq<char>)
    requires
        a != b,
    ensures
        precedes(a, b) || precedes(b, a),
    decreases a.len(),
{
    if a.len() > 0 && b.len() > 0 && a[0] == b[0] {
        if a.skip(1) == b.skip(1) {
            assert(a == seq![a[0]] + a.skip(1));
            assert(b == seq![b[0]] + b.skip(1));
        }
        lemma_precedes_total(a.skip(1), b.skip(1));
    } else if a.len() == 0 && b.len() == 0 {
        assert(a == b);
    }
}

/// The code point of a character.
fn code_point(c: char) -> (r: u32)
    ensures
        r == c as int,
{
    c as u32
}

/// Whether one text comes before the other.
pub fn comes_before(a: &[char], b: &[char]) -> (r: bool)
    ensures
        r == precedes(a@, b@),
{
    let mut i: usize = 0;
    assert(a@.skip(0) == a@ && b@.skip(0) == b@);
    while i < a.len() && i < b.len() && a[i] == b[i]
        invariant
            i <= a@.len(),
            i <= b@.len(),
            precedes(a@, b@) == precedes(a@.skip(i as int), b@.skip(i as int)),
        decreases a@.len() - i,
    {
        assert(a@.skip(i as int).skip(1) == a@.skip(i + 1));
        assert(b@.skip(i as int).skip(1) == b@.skip(i + 1));
        i = i + 1;
    }
    if i == b.len() {
        return false;
    }
    if i == a.len() {
        return true;
    }
    code_point(a[i]) < code_point(b[i])
}

// ---------------------------------------------------------------------------
// Laws.
// ---------------------------------------------------------------------------
/// A relative path is put behind its directory with one slash; an absolute one stands for itself.
pub proof fn law_paths_are_joined(a: Seq<char>, b: Seq<char>)
    requires
        a.len() > 0,
        a.last() != '/',
        b.len() > 0,
        b[0] != '/',
    ensures
        path_join(a, b) == a + "/"@ + b,
        path_join(a.push('/'), b) == a + "/"@ + b,
        path_join(b, a.insert(0, '/')) == a.insert(0, '/'),
{
    reveal_strlit("/");
    assert(path_join(a, b) =~= a + "/"@ + b);
    assert(path_join(a.push('/'), b) =~= a + "/"@ + b);
}

/// What trimming leaves neither begins nor ends in white space, and is found in the text.
pub proof fn law_trimmed_text_is_visible(s: Seq<char>)
    ensures
        trim(s).len() > 0 ==> !is_white(trim(s)[0]) && !is_white(trim(s).last()),
        exists|i: int|
            0 <= i <= s.len() - trim(s).len() && #[trigger] s.subrange(i, i + trim(s).len()) == trim(
                s,
            ),
{
    lemma_trim_start_is_suffix(s);
    lemma_trim_start(s);
    let t = trim_start(s);
    lemma_trim_end_is_prefix(t);
    let i = s.len() - t.len();
    let r = trim(s);
    assert(s.subrange(i, i + r.len()) =~= r);
    if r.len() > 0 {
        assert(r[0] == t[0]);
    }
}

proof fn lemma_trim_start_is_suffix(s: Seq<char>)
    ensures
        trim_start(s).len() <= s.len(),
        trim_start(s) == s.skip(s.len() - trim_start(s).len()),
    decreases s.len(),
{
    if s.len() > 0 && is_white(s[0]) {
        lemma_trim_start_is_suffix(s.skip(1));
        let t = trim_start(s);
        assert(s.skip(1).skip(s.len() - 1 - t.len()) =~= s.skip(s.len() - t.len()));
    } else {
        assert(s.skip(0) =~= s);
    }
}

proof fn lemma_trim_end_is_prefix(s: Seq<char>)
    ensures
        trim_end(s).len() <= s.len(),
        trim_end(s) == s.take(trim_end(s).len() as int),
        trim_end(s).len() > 0 ==> !is_white(trim_end(s).last()),
    decreases s.len(),
{
    if s.len() > 0 && is_white(s.last()) {
        lemma_trim_end_is_prefix(s.drop_last());
        let t = trim_end(s);
        assert(s.drop_last().take(t.len() as int) =~= s.take(t.len() as int));
    } else {
        assert(s.take(s.len() as int) =~= s);
    }
}

/// Pieces and what they were split at make up the text again.
pub proof fn law_pieces_make_up_the_text(s: Seq<char>, c: char)
    ensures
        split(s, c).len() > 0,
        rejoined(split(s, c), c) == s,
    decreases s.len(),
{
    lemma_first_of(s, c);
    let i = first_of(s, c);
    if i < s.len() {
        let rest = s.skip(i + 1);
        law_pieces_make_up_the_text(rest, c);
        let all = split(s, c);
        assert(all.skip(1) =~= split(rest, c));
        assert(s =~= s.take(i).push(c) + rest);
    } else {
        assert(split(s, c).skip(1) =~= seq![]);
    }
}

/// Pieces with a character between neighbours.
pub open spec fn rejoined(ps: Seq<Seq<char>>, c: char) -> Seq<char>
    decreases ps.len(),
{
    if ps.len() == 0 {
        seq![]
    } else if ps.len() == 1 {
        ps[0]
    } else {
        ps[0].push(c) + rejoined(ps.skip(1), c)
    }
}

/// The order of texts is that of the first character in which they differ; a text comes after its own
/// beginnings.
pub proof fn law_first_difference_decides(p: Seq<char>, a: char, b: char, x: Seq<char>, y: Seq<char>)
    ensures
        precedes(p + seq![a] + x, p + seq![b] + y) || a == b <==> (a as int) < (b as int) || a == b,
        precedes(p, p + seq![a]),
        !precedes(p + seq![a], p),
    decreases p.len(),
{
    let s = p + seq![a] + x;
    let t = p + seq![b] + y;
    let u = p + seq![a];
    if p.len() == 0 {
        assert(s[0] == a && t[0] == b && u[0] == a);
        if a == b {
        }
    } else {
        let q = p.skip(1);
        law_first_difference_decides(q, a, b, x, y);
        assert(s[0] == p[0] && t[0] == p[0] && u[0] == p[0]);
        assert(s.skip(1) =~= q + seq![a] + x);
        assert(t.skip(1) =~= q + seq![b] + y);
        assert(u.skip(1) =~= q + seq![a]);
    }
}

} // verus!
