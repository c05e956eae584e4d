//! What the configuration files set: their lines, the keys that they assign, and what holds of
//! every file that is generated.
use crate::config::{
    assigned_value, clamped, kept_items, larger, library_file, named_libraries, law_kept_if_named_and_installed,
    law_nothing_is_dropped_where_all_is_installed, line_out, lines_out, list_items,
    max_client_conn, max_connections, megabytes, pgbouncer_ini_text, pool_size, pooler_ca,
    shared_buffers, smaller, tuning_adaptive_text, tuning_boot_text, with_newline, work_mem,
    PGBOUNCER_INI_BASE, PKGLIBDIR, PRELOAD_KEY,
};
use crate::number::{decimal, digit_value, lemma_numeral_first};
use crate::text::{
    first_of, is_white, join, lemma_first_of, lemma_split_first, lemma_split_whole,
    lemma_trim_start, lines, listed, split, split_once, starts_with, strip_cr, trim, trim_end,
    trim_start,
};
use crate::tls::TlsFiles;
use vstd::prelude::*;

verus! {

// ---------------------------------------------------------------------------
// Lines.
// ---------------------------------------------------------------------------
/// Whether a text is free of a character.
pub open spec fn free(s: Seq<char>, c: char) -> bool {
    forall|j: int| 0 <= j < s.len() ==> #[trigger] s[j] != c
}

/// Lines, each with a line feed.
pub open spec fn ended(ls: Seq<Seq<char>>) -> Seq<char>
    decreases ls.len(),
{
    if ls.len() == 0 {
        seq![]
    } else {
        ended(ls.drop_last()) + ls.last().push('\n')
    }
}

/// What stands before the first line feed is the first line; the rest has lines by itself.
pub(crate) proof fn lemma_lines_first(a: Seq<char>, rest: Seq<char>)
    requires
        free(a, '\n'),
    ensures
        lines(a.push('\n') + rest) == seq![strip_cr(a)] + lines(rest),
{
    let s = a.push('\n') + rest;
    lemma_first_of(s, '\n');
    assert(s[a.len() as int] == '\n');
    assert forall|j: int| 0 <= j < a.len() implies s[j] != '\n' by {
        assert(s[j] == a[j]);
    }
    assert(first_of(s, '\n') == a.len());
    assert(s.take(a.len() as int) == a);
    assert(s.skip(a.len() as int + 1) == rest);
}

/// No line holds a line feed.
pub(crate) proof fn lemma_lines_free(s: Seq<char>, i: int)
    requires
        0 <= i < lines(s).len(),
    ensures
        free(lines(s)[i], '\n'),
    decreases s.len(),
{
    lemma_first_of(s, '\n');
    let k = first_of(s, '\n');
    if k < s.len() && i > 0 {
        assert(lines(s)[i] == lines(s.skip(k + 1))[i - 1]);
        lemma_lines_free(s.skip(k + 1), i - 1);
    }
}

/// Lines that were written out with line feeds are read back, but for carriage returns at their
/// ends.
proof fn lemma_lines_of_ended(ls: Seq<Seq<char>>, rest: Seq<char>)
    requires
        forall|i: int| 0 <= i < ls.len() ==> free(#[trigger] ls[i], '\n'),
    ensures
        lines(ended(ls) + rest) == ls.map_values(|l: Seq<char>| strip_cr(l)) + lines(rest),
    decreases ls.len(),
{
    let stripped = ls.map_values(|l: Seq<char>| strip_cr(l));
    if ls.len() == 0 {
        assert(ended(ls) + rest == rest);
        assert(stripped + lines(rest) == lines(rest));
    } else {
        let before = ls.drop_last();
        let last = ls.last();
        assert forall|i: int| 0 <= i < before.len() implies free(#[trigger] before[i], '\n') by {
            assert(before[i] == ls[i]);
        }
        lemma_lines_of_ended(before, last.push('\n') + rest);
        assert(ended(ls) + rest == ended(before) + (last.push('\n') + rest));
        assert(free(ls[ls.len() - 1], '\n'));
        lemma_lines_first(last, rest);
        assert(before.map_values(|l: Seq<char>| strip_cr(l)) + (seq![strip_cr(last)] + lines(rest))
            == stripped + lines(rest));
    }
}

// ---------------------------------------------------------------------------
// Preloaded libraries.
// ---------------------------------------------------------------------------
/// What trimming leaves ends in a visible character; one in front stays.
pub(crate) proof fn lemma_trim_end(s: Seq<char>)
    ensures
        trim_end(s).len() <= s.len(),
        trim_end(s) == s.take(trim_end(s).len() as int),
        trim_end(s).len() > 0 ==> !is_white(trim_end(s).last()),
        s.len() > 0 && !is_white(s[0]) ==> trim_end(s).len() > 0,
    decreases s.len(),
{
    if s.len() > 0 && is_white(s.last()) {
        lemma_trim_end(s.drop_last());
        let t = trim_end(s);
        assert(s.drop_last().take(t.len() as int) == s.take(t.len() as int));
    } else {
        assert(s.take(s.len() as int) == s);
    }
}

pub(crate) proof fn lemma_trim_start_free(s: Seq<char>, c: char)
    requires
        free(s, c),
    ensures
        free(trim_start(s), c),
    decreases s.len(),
{
    if s.len() > 0 && is_white(s[0]) {
        assert forall|j: int| 0 <= j < s.skip(1).len() implies #[trigger] s.skip(1)[j] != c by {
            assert(s.skip(1)[j] == s[j + 1]);
        }
        lemma_trim_start_free(s.skip(1), c);
    }
}

/// Trimming brings in no character, and trimming again changes nothing.
pub(crate) proof fn lemma_trim(s: Seq<char>, c: char)
    ensures
        free(s, c) ==> free(trim(s), c),
        trim(trim(s)) == trim(s),
{
    lemma_trim_start(s);
    lemma_trim_end(trim_start(s));
    let t = trim(s);
    if free(s, c) {
        lemma_trim_start_free(s, c);
        assert forall|j: int| 0 <= j < t.len() implies #[trigger] t[j] != c by {
            assert(t[j] == trim_start(s)[j]);
        }
    }
    if t.len() > 0 {
        assert(t[0] == trim_start(s)[0]);
    }
    assert(trim_start(t) == t);
}

/// A piece holds only what the text holds, and not what it was split at.
proof fn lemma_pieces_free(s: Seq<char>, c: char, d: char, i: int)
    requires
        0 <= i < split(s, c).len(),
    ensures
        free(split(s, c)[i], c),
        free(s, d) ==> free(split(s, c)[i], d),
    decreases s.len(),
{
    lemma_first_of(s, c);
    let k = first_of(s, c);
    if k < s.len() {
        if i > 0 {
            let rest = s.skip(k + 1);
            assert(split(s, c)[i] == split(rest, c)[i - 1]);
            if free(s, d) {
                assert forall|j: int| 0 <= j < rest.len() implies #[trigger] rest[j] != d by {
                    assert(rest[j] == s[j + k + 1]);
                }
            }
            lemma_pieces_free(rest, c, d, i - 1);
        }
    }
}

/// Whether a text can stand in a list: it is trimmed, not empty, and holds no comma.
spec fn is_item(s: Seq<char>) -> bool {
    s.len() > 0 && trim(s) == s && free(s, ',')
}

proof fn lemma_list_items(parts: Seq<Seq<char>>, d: char)
    requires
        forall|i: int| 0 <= i < parts.len() ==> free(#[trigger] parts[i], ','),
    ensures
        forall|i: int|
            0 <= i < list_items(parts).len() ==> is_item(#[trigger] list_items(parts)[i]),
        (forall|i: int| 0 <= i < parts.len() ==> free(#[trigger] parts[i], d)) ==> (forall|i: int|
            0 <= i < list_items(parts).len() ==> free(#[trigger] list_items(parts)[i], d)),
        (forall|i: int| 0 <= i < parts.len() ==> is_item(#[trigger] parts[i])) ==> list_items(parts)
            == parts,
    decreases parts.len(),
{
    if parts.len() > 0 {
        let before = parts.drop_last();
        let last = parts.last();
        assert(last == parts[parts.len() - 1]);
        assert forall|i: int| 0 <= i < before.len() implies free(#[trigger] before[i], ',') by {
            assert(before[i] == parts[i]);
        }
        lemma_list_items(before, d);
        lemma_trim(last, ',');
        lemma_trim(last, d);
        if forall|i: int| 0 <= i < parts.len() ==> free(#[trigger] parts[i], d) {
            assert forall|i: int| 0 <= i < before.len() implies free(#[trigger] before[i], d) by {
                assert(before[i] == parts[i]);
            }
        }
        if forall|i: int| 0 <= i < parts.len() ==> is_item(#[trigger] parts[i]) {
            assert forall|i: int| 0 <= i < before.len() implies is_item(#[trigger] before[i]) by {
                assert(before[i] == parts[i]);
            }
            assert(is_item(last));
            assert(parts == before.push(last));
        }
        let items = list_items(parts);
        let earlier = list_items(before);
        assert forall|i: int| 0 <= i < items.len() implies is_item(#[trigger] items[i]) && ((forall|
            j: int,
        | 0 <= j < parts.len() ==> free(#[trigger] parts[j], d)) ==> free(items[i], d)) by {
            if i < earlier.len() {
                assert(items[i] == earlier[i]);
            } else {
                assert(items[i] == trim(last));
            }
        }
    } else {
        assert(list_items(parts) =~= parts);
    }
}

/// What is kept of a list was in it and is installed.
proof fn lemma_kept(items: Seq<Seq<char>>, installed: Seq<String>, i: int)
    requires
        0 <= i < kept_items(items, installed).len(),
    ensures
        items.contains(kept_items(items, installed)[i]),
        listed(installed, kept_items(items, installed)[i]),
{
    let k = kept_items(items, installed)[i];
    assert(kept_items(items, installed).contains(k));
    law_kept_if_named_and_installed(items, installed, k);
}

proof fn lemma_join_free(ps: Seq<Seq<char>>, sep: Seq<char>, c: char)
    requires
        forall|i: int| 0 <= i < ps.len() ==> free(#[trigger] ps[i], c),
        free(sep, c),
    ensures
        free(join(ps, sep), c),
    decreases ps.len(),
{
    if ps.len() == 1 {
        assert(free(ps[0], c));
    } else if ps.len() > 1 {
        let before = ps.drop_last();
        assert forall|i: int| 0 <= i < before.len() implies free(#[trigger] before[i], c) by {
            assert(before[i] == ps[i]);
        }
        lemma_join_free(before, sep, c);
        assert(free(ps[ps.len() - 1], c));
    }
}

/// A joined list splits into its items.
proof fn lemma_split_join(items: Seq<Seq<char>>, rest: Seq<char>)
    requires
        items.len() > 0,
        forall|i: int| 0 <= i < items.len() ==> free(#[trigger] items[i], ','),
    ensures
        split(join(items, ","@).push(',') + rest, ',') == items + split(rest, ','),
        split(join(items, ","@), ',') == items,
    decreases items.len(),
{
    reveal_strlit(",");
    let before = items.drop_last();
    let last = items.last();
    assert(last == items[items.len() - 1]);
    lemma_split_first(last, ',', rest);
    lemma_split_whole(last, ',');
    if items.len() == 1 {
        assert(items == seq![last]);
    } else {
        assert forall|i: int| 0 <= i < before.len() implies free(#[trigger] before[i], ',') by {
            assert(before[i] == items[i]);
        }
        let j = join(before, ","@);
        lemma_split_join(before, last.push(',') + rest);
        lemma_split_join(before, last);
        assert(join(items, ","@).push(',') + rest == j.push(',') + (last.push(',') + rest));
        assert(before + (seq![last] + split(rest, ',')) == items + split(rest, ','));
        assert(join(items, ","@) == j.push(',') + last);
        assert(before + seq![last] == items);
    }
}

/// The items that a line keeps can stand in a list and are installed.
proof fn lemma_line_items(inner: Seq<char>, installed: Seq<String>)
    ensures
        ({
            let kept = kept_items(list_items(split(inner, ',')), installed);
            &&& forall|i: int|
                0 <= i < kept.len() ==> is_item(#[trigger] kept[i]) && listed(installed, kept[i])
            &&& free(inner, '\n') ==> forall|i: int|
                0 <= i < kept.len() ==> free(#[trigger] kept[i], '\n')
        }),
{
    let parts = split(inner, ',');
    let items = list_items(parts);
    let kept = kept_items(items, installed);
    assert forall|i: int| 0 <= i < parts.len() implies free(#[trigger] parts[i], ',') && (free(
        inner,
        '\n',
    ) ==> free(parts[i], '\n')) by {
        lemma_pieces_free(inner, ',', '\n', i);
    }
    lemma_list_items(parts, '\n');
    assert forall|i: int| 0 <= i < kept.len() implies is_item(#[trigger] kept[i]) && listed(
        installed,
        kept[i],
    ) && (free(inner, '\n') ==> free(kept[i], '\n')) by {
        lemma_kept(items, installed, i);
        let m = choose|m: int| 0 <= m < items.len() && items[m] == kept[i];
        assert(is_item(items[m]));
    }
}

/// A line that assigns a quoted value is read back.
proof fn lemma_assigned_reads_back(inner: Seq<char>)
    ensures
        assigned_value(PRELOAD_KEY@ + " = '"@ + inner + "'"@, PRELOAD_KEY@) == Some(inner),
{
    reveal_strlit("shared_preload_libraries");
    reveal_strlit(" = '");
    reveal_strlit("'");
    reveal_strlit("#");
    reveal_strlit("=");
    let key = PRELOAD_KEY@;
    let line = key + " = '"@ + inner + "'"@;
    assert(line[0] == 's');
    assert(trim_start(line) == line);
    assert(!starts_with(line, "#"@)) by {
        assert(line.take(1)[0] == 's');
    }
    assert(line.take(key.len() as int) == key);
    let rest = line.skip(key.len() as int);
    let sign = rest.skip(1);
    assert(rest[0] == ' ' && sign[0] == '=');
    assert(trim_start(rest) == trim_start(sign));
    assert(trim_start(sign) == sign);
    assert(sign.take(1) == "="@);
    let value = sign.skip(1);
    let quoted = value.skip(1);
    assert(value[0] == ' ' && quoted[0] == '\'');
    assert(trim_start(value) == trim_start(quoted));
    assert(trim_start(quoted) == quoted);
    assert(quoted.last() == '\'');
    assert(trim_end(quoted) == quoted);
    assert(quoted.subrange(1, quoted.len() - 1) == inner);
}

/// A line that was written out is written out again as it is.
proof fn lemma_line_out(line: Seq<char>, installed: Seq<String>)
    ensures
        line_out(line_out(line, installed), installed) == line_out(line, installed),
{
    if let Some(inner) = assigned_value(line, PRELOAD_KEY@) {
        let kept = kept_items(list_items(split(inner, ',')), installed);
        let value = join(kept, ","@);
        lemma_line_items(inner, installed);
        lemma_assigned_reads_back(value);
        if kept.len() > 0 {
            lemma_split_join(kept, seq![]);
            lemma_list_items(kept, '\n');
            law_nothing_is_dropped_where_all_is_installed(kept, installed);
        } else {
            lemma_split_whole(value, ',');
            assert(trim(value) == value);
            let parts = seq![value];
            assert(parts.drop_last() == Seq::<Seq<char>>::empty());
            reveal_with_fuel(list_items, 2);
            assert(list_items(parts) == Seq::<Seq<char>>::empty());
            assert(kept =~= Seq::<Seq<char>>::empty());
        }
    }
}

/// A line that is written out holds no line feed.
proof fn lemma_line_out_free(line: Seq<char>, installed: Seq<String>)
    requires
        free(line, '\n'),
    ensures
        free(line_out(line, installed), '\n'),
{
    if let Some(inner) = assigned_value(line, PRELOAD_KEY@) {
        reveal_strlit("shared_preload_libraries");
        reveal_strlit(" = '");
        reveal_strlit("'");
        reveal_strlit(",");
        lemma_trim_start_free(line, '\n');
        let a = trim_start(line);
        let rest = a.skip(PRELOAD_KEY@.len() as int);
        assert(free(rest, '\n'));
        lemma_trim_start_free(rest, '\n');
        let b = trim_start(rest);
        let value = b.skip("="@.len() as int);
        reveal_strlit("=");
        assert(free(value, '\n'));
        lemma_trim(value, '\n');
        assert(free(inner, '\n'));
        let kept = kept_items(list_items(split(inner, ',')), installed);
        lemma_line_items(inner, installed);
        lemma_join_free(kept, ","@, '\n');
    }
}

proof fn lemma_lines_out(ls: Seq<Seq<char>>, installed: Seq<String>)
    ensures
        lines_out(ls, installed) == ended(ls.map_values(|l: Seq<char>| line_out(l, installed))),
    decreases ls.len(),
{
    let written = ls.map_values(|l: Seq<char>| line_out(l, installed));
    if ls.len() > 0 {
        lemma_lines_out(ls.drop_last(), installed);
        assert(written.drop_last() == ls.drop_last().map_values(
            |l: Seq<char>| line_out(l, installed),
        ));
    }
}

/// The configuration keeps its lines: each line of what is written out is what became of the line
/// in the same place.
pub proof fn law_filtering_keeps_the_lines(conf: Seq<char>, installed: Seq<String>)
    ensures
        ({
            let before = lines(conf);
            let after = lines(lines_out(before, installed));
            &&& after.len() == before.len()
            &&& forall|i: int|
                0 <= i < before.len() ==> #[trigger] after[i] == strip_cr(
                    line_out(before[i], installed),
                )
        }),
{
    let before = lines(conf);
    let written = before.map_values(|l: Seq<char>| line_out(l, installed));
    lemma_lines_out(before, installed);
    assert forall|i: int| 0 <= i < written.len() implies free(#[trigger] written[i], '\n') by {
        lemma_lines_free(conf, i);
        lemma_line_out_free(before[i], installed);
    }
    lemma_lines_of_ended(written, seq![]);
    lemma_first_of(seq![], '\n');
    assert(ended(written) + Seq::<char>::empty() == ended(written));
}

/// Filtering a configuration again changes nothing, unless a line that passes unchanged ends in a
/// carriage return of its own, which the reading of lines takes off.
pub proof fn law_filtering_again_changes_nothing(conf: Seq<char>, installed: Seq<String>)
    requires
        forall|i: int|
            0 <= i < lines(conf).len() ==> strip_cr(
                line_out(#[trigger] lines(conf)[i], installed),
            ) == line_out(lines(conf)[i], installed),
    ensures
        lines_out(lines(lines_out(lines(conf), installed)), installed) == lines_out(
            lines(conf),
            installed,
        ),
{
    let before = lines(conf);
    let after = lines(lines_out(before, installed));
    law_filtering_keeps_the_lines(conf, installed);
    lemma_lines_out(before, installed);
    lemma_lines_out(after, installed);
    let f = |l: Seq<char>| line_out(l, installed);
    assert(after.map_values(f) =~= before.map_values(f)) by {
        assert forall|i: int| 0 <= i < before.len() implies f(#[trigger] after[i]) == f(
            before[i],
        ) by {
            lemma_line_out(before[i], installed);
        }
    }
}

// ---------------------------------------------------------------------------
// Keys.
// ---------------------------------------------------------------------------
/// The key that a line assigns a value to, if it does: a blank line and a remark do not.
pub open spec fn key_of(line: Seq<char>) -> Option<Seq<char>> {
    if trim_start(line).len() == 0 || trim_start(line)[0] == '#' {
        None
    } else {
        match split_once(line, '=') {
            Some((k, _)) => Some(trim(k)),
            None => None,
        }
    }
}

/// The keys that lines assign values to, in their order.
pub open spec fn line_keys(ls: Seq<Seq<char>>) -> Seq<Seq<char>>
    decreases ls.len(),
{
    if ls.len() == 0 {
        seq![]
    } else {
        match key_of(ls.last()) {
            Some(k) => line_keys(ls.drop_last()).push(k),
            None => line_keys(ls.drop_last()),
        }
    }
}

/// The keys that a text assigns values to, in their order.
pub open spec fn keys(s: Seq<char>) -> Seq<Seq<char>> {
    line_keys(lines(s))
}

/// How often a key is among others.
pub open spec fn times(ks: Seq<Seq<char>>, k: Seq<char>) -> nat
    decreases ks.len(),
{
    if ks.len() == 0 {
        0
    } else {
        times(ks.drop_last(), k) + if ks.last() == k {
            1nat
        } else {
            0nat
        }
    }
}

/// Whether a text is made of whole lines.
pub open spec fn closed(s: Seq<char>) -> bool {
    s.len() == 0 || s.last() == '\n'
}

/// What follows whole lines has lines by itself.
pub(crate) proof fn lemma_lines_concat(a: Seq<char>, b: Seq<char>)
    requires
        closed(a),
    ensures
        lines(a + b) == lines(a) + lines(b),
    decreases a.len(),
{
    lemma_first_of(a, '\n');
    if a.len() == 0 {
        assert(a + b == b);
        assert(lines(a) + lines(b) == lines(b));
    } else {
        let k = first_of(a, '\n');
        let line = a.take(k);
        let rest = a.skip(k + 1);
        assert(k < a.len()) by {
            if k == a.len() {
                assert(a[a.len() - 1] == '\n');
            }
        }
        assert(rest.len() > 0 ==> rest.last() == a.last());
        lemma_lines_concat(rest, b);
        lemma_lines_first(line, rest);
        lemma_lines_first(line, rest + b);
        assert(a == line.push('\n') + rest);
        assert(a + b == line.push('\n') + (rest + b));
        assert(seq![strip_cr(line)] + (lines(rest) + lines(b)) == seq![strip_cr(line)] + lines(rest)
            + lines(b));
    }
}

/// A further line adds its key.
pub(crate) proof fn lemma_add_line(t: Seq<char>, line: Seq<char>)
    requires
        closed(t),
        free(line, '\n'),
    ensures
        closed(t + line.push('\n')),
        lines(t + line.push('\n')) == lines(t).push(strip_cr(line)),
        keys(t + line.push('\n')) == (match key_of(strip_cr(line)) {
            Some(k) => keys(t).push(k),
            None => keys(t),
        }),
{
    let none = Seq::<char>::empty();
    let a = line.push('\n');
    lemma_first_of(none, '\n');
    lemma_lines_concat(t, a);
    lemma_lines_first(line, none);
    assert(a + none == a);
    assert(lines(t) + (seq![strip_cr(line)] + lines(none)) == lines(t).push(strip_cr(line)));
    assert(lines(t).push(strip_cr(line)).drop_last() == lines(t));
}

/// An empty text assigns nothing.
proof fn lemma_no_keys()
    ensures
        keys(seq![]) == Seq::<Seq<char>>::empty(),
{
    lemma_first_of(seq![], '\n');
}

/// Whether a text is the end of one line.
pub open spec fn is_end(s: Seq<char>) -> bool {
    s.len() > 0 && s.last() == '\n' && free(s.drop_last(), '\n')
}

/// Whether a text is a blank line or a remark.
pub open spec fn is_remark(c: Seq<char>) -> bool {
    is_end(c) && (c.len() == 1 || c[0] == '#')
}

/// A blank line or a remark assigns nothing.
proof fn lemma_remark(t: Seq<char>, c: Seq<char>)
    requires
        closed(t),
        is_remark(c),
    ensures
        closed(t + c),
        keys(t + c) == keys(t),
{
    let line = c.drop_last();
    lemma_add_line(t, line);
    assert(line.push('\n') == c);
    if c.len() > 1 {
        assert(line[0] == '#');
        assert(strip_cr(line)[0] == '#');
        assert(!is_white('#'));
        assert(trim_start(strip_cr(line)) == strip_cr(line));
    } else {
        assert(trim_start(strip_cr(line)).len() == 0);
    }
}

/// Whether a text can be a key.
pub open spec fn is_key(k: Seq<char>) -> bool {
    &&& k.len() > 0
    &&& free(k, '=')
    &&& !is_white(k[0]) && k[0] != '#'
    &&& !is_white(k.last())
}

/// Whether a text is a line that sets a key.
pub open spec fn is_setting(c: Seq<char>, k: Seq<char>) -> bool {
    is_key(k) && starts_with(c, k + " = "@) && is_end(c)
}

/// Whether a text is what stands before the value of a key.
pub open spec fn is_head(p: Seq<char>, k: Seq<char>) -> bool {
    is_key(k) && p == k + " = "@ && free(p, '\n')
}

/// The line of a setting adds its key.
proof fn lemma_setting(t: Seq<char>, k: Seq<char>, c: Seq<char>)
    requires
        closed(t),
        is_setting(c, k),
    ensures
        closed(t + c),
        lines(t + c) == lines(t).push(strip_cr(c.drop_last())),
        keys(t + c) == keys(t).push(k),
{
    reveal_strlit(" = ");
    let n = k.len() as int;
    let p = k + " = "@;
    let line = c.drop_last();
    assert forall|j: int| 0 <= j < p.len() implies c[j] == p[j] by {
        assert(c.take(p.len() as int)[j] == c[j]);
    }
    assert(c[n] == ' ' && c[n + 1] == '=' && c[n + 2] == ' ');
    lemma_add_line(t, line);
    assert(line.push('\n') == c);
    let s = strip_cr(line);
    assert(s.len() >= n + 3);
    assert forall|j: int| 0 <= j < n implies s[j] == k[j] by {
        assert(s[j] == c[j] && p[j] == k[j]);
    }
    assert(trim_start(s) == s);
    lemma_first_of(s, '=');
    assert(s[n + 1] == '=');
    assert forall|j: int| 0 <= j <= n implies s[j] != '=' by {
        if j < n {
            assert(s[j] == k[j]);
        }
    }
    assert(first_of(s, '=') == n + 1);
    let before = s.take(n + 1);
    assert(before[0] == k[0]);
    assert(trim_start(before) == before);
    assert(before.drop_last() == k);
    assert(is_white(' '));
    assert(trim_end(before) == trim_end(k));
    assert(trim_end(k) == k);
}

/// The line of a setting whose value is a number adds its key.
proof fn lemma_number(t: Seq<char>, k: Seq<char>, p: Seq<char>, n: nat, end: Seq<char>)
    requires
        closed(t),
        is_head(p, k),
        is_end(end),
    ensures
        closed(t + p + decimal(n) + end),
        keys(t + p + decimal(n) + end) == keys(t).push(k),
{
    let d = decimal(n);
    lemma_numeral_first(n, 10, false);
    assert forall|j: int| 0 <= j < d.len() implies #[trigger] d[j] != '\n' by {
        assert(digit_value(d[j]) < 16);
    }
    lemma_value(t, k, p, d, end);
}

/// The line of a setting with a given value adds its key.
proof fn lemma_value(t: Seq<char>, k: Seq<char>, p: Seq<char>, v: Seq<char>, end: Seq<char>)
    requires
        closed(t),
        is_head(p, k),
        free(v, '\n'),
        is_end(end),
    ensures
        closed(t + p + v + end),
        lines(t + p + v + end) == lines(t).push(strip_cr(p + v + end.drop_last())),
        keys(t + p + v + end) == keys(t).push(k),
{
    let c = p + v + end;
    assert(c.take(p.len() as int) == p);
    assert(c.drop_last() == p + v + end.drop_last());
    lemma_setting(t, k, c);
    assert(t + c == t + p + v + end);
}

// ---------------------------------------------------------------------------
// Tuning.
// ---------------------------------------------------------------------------
/// The keys of the tuning that needs a restart.
pub open spec fn boot_keys() -> Seq<Seq<char>> {
    seq![
        "shared_buffers"@,
        "max_connections"@,
        "wal_buffers"@,
        "huge_pages"@,
        "max_slot_wal_keep_size"@,
        "max_worker_processes"@,
        "max_parallel_workers"@,
    ]
}

/// The keys of the tuning that a reload picks up.
pub open spec fn adaptive_keys() -> Seq<Seq<char>> {
    seq![
        "effective_cache_size"@,
        "maintenance_work_mem"@,
        "work_mem"@,
        "max_parallel_workers_per_gather"@,
        "max_parallel_maintenance_workers"@,
    ]
}

/// The lines of the tuning that needs a restart, and what each is.
pub(crate) proof fn lemma_boot_lines()
    ensures
        is_remark("# Generated by beyond-pg at boot from VM resources. Do not edit.\n"@),
        is_remark("# Regenerated on every boot so resized VMs pick up correct values.\n"@),
        is_remark("\n"@),
        is_remark("# RAM-derived\n"@),
        is_head("shared_buffers = "@, "shared_buffers"@),
        is_end("MB\n"@),
        is_head("max_connections = "@, "max_connections"@),
        is_end("\n"@),
        is_head("wal_buffers = "@, "wal_buffers"@),
        is_remark("# huge_pages=on requires nr_hugepages to be reserved before postgres starts;\n"@),
        is_remark("# apply_kernel_settings() does this earlier in do_boot().\n"@),
        is_remark("# Ref: Percona \"Benchmark PostgreSQL with Linux HugePages\";\n"@),
        is_remark("#      PostgreSQL docs §19.4\n"@),
        is_setting("huge_pages = on\n"@, "huge_pages"@),
        is_remark("# Replication slot safety cap.\n"@),
        is_remark("# A stalled or dead slot (WAL sink, CDC, or otherwise) holds back WAL\n"@),
        is_remark("# cleanup, growing pg_wal/ until the primary's disk fills and Postgres\n"@),
        is_remark("# crashes.  This hard cap invalidates any slot that falls >4 GB behind\n"@),
        is_remark("# so the primary can reclaim WAL instead.  4 GB ≈ 256 segments: enough\n"@),
        is_remark("# headroom for a multi-hour sink outage on a moderately busy primary.\n"@),
        is_setting("max_slot_wal_keep_size = 4096\n"@, "max_slot_wal_keep_size"@),
        is_remark("# vCPU-derived\n"@),
        is_head("max_worker_processes = "@, "max_worker_processes"@),
        is_head("max_parallel_workers = "@, "max_parallel_workers"@),
{
    assert(is_remark("# Generated by beyond-pg at boot from VM resources. Do not edit.\n"@)) by {
        reveal_strlit("# Generated by beyond-pg at boot from VM resources. Do not edit.\n");
    }
    assert(is_remark("# Regenerated on every boot so resized VMs pick up correct values.\n"@)) by {
        reveal_strlit("# Regenerated on every boot so resized VMs pick up correct values.\n");
    }
    assert(is_remark("\n"@)) by {
        reveal_strlit("\n");
    }
    assert(is_remark("# RAM-derived\n"@)) by {
        reveal_strlit("# RAM-derived\n");
    }
    assert(is_head("shared_buffers = "@, "shared_buffers"@)) by {
        reveal_strlit("shared_buffers");
        reveal_strlit("shared_buffers = ");
        reveal_strlit(" = ");
        assert("shared_buffers = "@ == "shared_buffers"@ + " = "@);
    }
    assert(is_end("MB\n"@)) by {
        reveal_strlit("MB\n");
    }
    assert(is_head("max_connections = "@, "max_connections"@)) by {
        reveal_strlit("max_connections");
        reveal_strlit("max_connections = ");
        reveal_strlit(" = ");
        assert("max_connections = "@ == "max_connections"@ + " = "@);
    }
    assert(is_end("\n"@)) by {
        reveal_strlit("\n");
    }
    assert(is_head("wal_buffers = "@, "wal_buffers"@)) by {
        reveal_strlit("wal_buffers");
        reveal_strlit("wal_buffers = ");
        reveal_strlit(" = ");
        assert("wal_buffers = "@ == "wal_buffers"@ + " = "@);
    }
    assert(is_remark("# huge_pages=on requires nr_hugepages to be reserved before postgres starts;\n"@)) by {
        reveal_strlit(
            "# huge_pages=on requires nr_hugepages to be reserved before postgres starts;\n",
        );
    }
    assert(is_remark("# apply_kernel_settings() does this earlier in do_boot().\n"@)) by {
        reveal_strlit("# apply_kernel_settings() does this earlier in do_boot().\n");
    }
    assert(is_remark("# Ref: Percona \"Benchmark PostgreSQL with Linux HugePages\";\n"@)) by {
        reveal_strlit("# Ref: Percona \"Benchmark PostgreSQL with Linux HugePages\";\n");
    }
    assert(is_remark("#      PostgreSQL docs §19.4\n"@)) by {
        reveal_strlit("#      PostgreSQL docs §19.4\n");
    }
    assert(is_setting("huge_pages = on\n"@, "huge_pages"@)) by {
        reveal_strlit("huge_pages");
        reveal_strlit("huge_pages = on\n");
        reveal_strlit(" = ");
        assert("huge_pages = on\n"@.take(13) == "huge_pages"@ + " = "@);
    }
    assert(is_remark("# Replication slot safety cap.\n"@)) by {
        reveal_strlit("# Replication slot safety cap.\n");
    }
    assert(is_remark("# A stalled or dead slot (WAL sink, CDC, or otherwise) holds back WAL\n"@)) by {
        reveal_strlit("# A stalled or dead slot (WAL sink, CDC, or otherwise) holds back WAL\n");
    }
    assert(is_remark("# cleanup, growing pg_wal/ until the primary's disk fills and Postgres\n"@)) by {
        reveal_strlit("# cleanup, growing pg_wal/ until the primary's disk fills and Postgres\n");
    }
    assert(is_remark("# crashes.  This hard cap invalidates any slot that falls >4 GB behind\n"@)) by {
        reveal_strlit("# crashes.  This hard cap invalidates any slot that falls >4 GB behind\n");
    }
    assert(is_remark("# so the primary can reclaim WAL instead.  4 GB ≈ 256 segments: enough\n"@)) by {
        reveal_strlit("# so the primary can reclaim WAL instead.  4 GB ≈ 256 segments: enough\n");
    }
    assert(is_remark("# headroom for a multi-hour sink outage on a moderately busy primary.\n"@)) by {
        reveal_strlit("# headroom for a multi-hour sink outage on a moderately busy primary.\n");
    }
    assert(is_setting("max_slot_wal_keep_size = 4096\n"@, "max_slot_wal_keep_size"@)) by {
        reveal_strlit("max_slot_wal_keep_size");
        reveal_strlit("max_slot_wal_keep_size = 4096\n");
        reveal_strlit(" = ");
        assert("max_slot_wal_keep_size = 4096\n"@.take(25) == "max_slot_wal_keep_size"@ + " = "@);
    }
    assert(is_remark("# vCPU-derived\n"@)) by {
        reveal_strlit("# vCPU-derived\n");
    }
    assert(is_head("max_worker_processes = "@, "max_worker_processes"@)) by {
        reveal_strlit("max_worker_processes");
        reveal_strlit("max_worker_processes = ");
        reveal_strlit(" = ");
        assert("max_worker_processes = "@ == "max_worker_processes"@ + " = "@);
    }
    assert(is_head("max_parallel_workers = "@, "max_parallel_workers"@)) by {
        reveal_strlit("max_parallel_workers");
        reveal_strlit("max_parallel_workers = ");
        reveal_strlit(" = ");
        assert("max_parallel_workers = "@ == "max_parallel_workers"@ + " = "@);
    }
}

#[verifier::rlimit(60)]
proof fn lemma_boot_keys(ram_bytes: u64, vcpus: u32)
    ensures
        keys(tuning_boot_text(ram_bytes, vcpus)) == boot_keys(),
{
    let t0 = Seq::<char>::empty();
    lemma_no_keys();
    lemma_boot_lines();
    let t1 = t0 + "# Generated by beyond-pg at boot from VM resources. Do not edit.\n"@;
    lemma_remark(t0, "# Generated by beyond-pg at boot from VM resources. Do not edit.\n"@);
    let t2 = t1 + "# Regenerated on every boot so resized VMs pick up correct values.\n"@;
    lemma_remark(t1, "# Regenerated on every boot so resized VMs pick up correct values.\n"@);
    let t3 = t2 + "\n"@;
    lemma_remark(t2, "\n"@);
    let t4 = t3 + "# RAM-derived\n"@;
    lemma_remark(t3, "# RAM-derived\n"@);
    let t5 = t4 + "shared_buffers = "@ + decimal(shared_buffers(ram_bytes) as nat) + "MB\n"@;
    lemma_number(
        t4,
        "shared_buffers"@,
        "shared_buffers = "@,
        shared_buffers(ram_bytes) as nat,
        "MB\n"@,
    );
    let t6 = t5 + "max_connections = "@ + decimal(max_connections(ram_bytes, vcpus) as nat) + "\n"@;
    lemma_number(
        t5,
        "max_connections"@,
        "max_connections = "@,
        max_connections(ram_bytes, vcpus) as nat,
        "\n"@,
    );
    let t7 = t6 + "wal_buffers = "@
        + decimal(clamped(shared_buffers(ram_bytes) / 32, 1, 16) as nat) + "MB\n"@;
    lemma_number(
        t6,
        "wal_buffers"@,
        "wal_buffers = "@,
        clamped(shared_buffers(ram_bytes) / 32, 1, 16) as nat,
        "MB\n"@,
    );
    let t8 = t7 + "# huge_pages=on requires nr_hugepages to be reserved before postgres starts;\n"@;
    lemma_remark(
        t7,
        "# huge_pages=on requires nr_hugepages to be reserved before postgres starts;\n"@,
    );
    let t9 = t8 + "# apply_kernel_settings() does this earlier in do_boot().\n"@;
    lemma_remark(t8, "# apply_kernel_settings() does this earlier in do_boot().\n"@);
    let t10 = t9 + "# Ref: Percona \"Benchmark PostgreSQL with Linux HugePages\";\n"@;
    lemma_remark(t9, "# Ref: Percona \"Benchmark PostgreSQL with Linux HugePages\";\n"@);
    let t11 = t10 + "#      PostgreSQL docs §19.4\n"@;
    lemma_remark(t10, "#      PostgreSQL docs §19.4\n"@);
    let t12 = t11 + "huge_pages = on\n"@;
    lemma_setting(t11, "huge_pages"@, "huge_pages = on\n"@);
    let t13 = t12 + "\n"@;
    lemma_remark(t12, "\n"@);
    let t14 = t13 + "# Replication slot safety cap.\n"@;
    lemma_remark(t13, "# Replication slot safety cap.\n"@);
    let t15 = t14 + "# A stalled or dead slot (WAL sink, CDC, or otherwise) holds back WAL\n"@;
    lemma_remark(t14, "# A stalled or dead slot (WAL sink, CDC, or otherwise) holds back WAL\n"@);
    let t16 = t15 + "# cleanup, growing pg_wal/ until the primary's disk fills and Postgres\n"@;
    lemma_remark(t15, "# cleanup, growing pg_wal/ until the primary's disk fills and Postgres\n"@);
    let t17 = t16 + "# crashes.  This hard cap invalidates any slot that falls >4 GB behind\n"@;
    lemma_remark(t16, "# crashes.  This hard cap invalidates any slot that falls >4 GB behind\n"@);
    let t18 = t17 + "# so the primary can reclaim WAL instead.  4 GB ≈ 256 segments: enough\n"@;
    lemma_remark(t17, "# so the primary can reclaim WAL instead.  4 GB ≈ 256 segments: enough\n"@);
    let t19 = t18 + "# headroom for a multi-hour sink outage on a moderately busy primary.\n"@;
    lemma_remark(t18, "# headroom for a multi-hour sink outage on a moderately busy primary.\n"@);
    let t20 = t19 + "max_slot_wal_keep_size = 4096\n"@;
    lemma_setting(t19, "max_slot_wal_keep_size"@, "max_slot_wal_keep_size = 4096\n"@);
    let t21 = t20 + "\n"@;
    lemma_remark(t20, "\n"@);
    let t22 = t21 + "# vCPU-derived\n"@;
    lemma_remark(t21, "# vCPU-derived\n"@);
    let t23 = t22 + "max_worker_processes = "@ + decimal(larger(vcpus + 4, 8) as nat) + "\n"@;
    lemma_number(
        t22,
        "max_worker_processes"@,
        "max_worker_processes = "@,
        larger(vcpus + 4, 8) as nat,
        "\n"@,
    );
    let t24 = t23 + "max_parallel_workers = "@ + decimal(larger(vcpus as int, 1) as nat) + "\n"@;
    lemma_number(
        t23,
        "max_parallel_workers"@,
        "max_parallel_workers = "@,
        larger(vcpus as int, 1) as nat,
        "\n"@,
    );
    assert(t1 == "# Generated by beyond-pg at boot from VM resources. Do not edit.\n"@);
    assert(keys(t24) =~= boot_keys());
}

/// The lines of the tuning that a reload picks up, and what each is.
pub(crate) proof fn lemma_adaptive_lines()
    ensures
        is_remark("# Generated by beyond-pg. Updated at boot and on virtio-mem hotplug.\n"@),
        is_remark("# Safe to reload without restarting postgres (pg_reload_conf()).\n"@),
        is_remark("\n"@),
        is_remark("# RAM-derived (reload-safe)\n"@),
        is_head("effective_cache_size = "@, "effective_cache_size"@),
        is_end("MB\n"@),
        is_head("maintenance_work_mem = "@, "maintenance_work_mem"@),
        is_head("work_mem = "@, "work_mem"@),
        is_remark("# vCPU-derived (reload-safe)\n"@),
        is_head("max_parallel_workers_per_gather = "@, "max_parallel_workers_per_gather"@),
        is_end("\n"@),
        is_head("max_parallel_maintenance_workers = "@, "max_parallel_maintenance_workers"@),
{
    assert(is_remark("# Generated by beyond-pg. Updated at boot and on virtio-mem hotplug.\n"@)) by {
        reveal_strlit("# Generated by beyond-pg. Updated at boot and on virtio-mem hotplug.\n");
    }
    assert(is_remark("# Safe to reload without restarting postgres (pg_reload_conf()).\n"@)) by {
        reveal_strlit("# Safe to reload without restarting postgres (pg_reload_conf()).\n");
    }
    assert(is_remark("\n"@)) by {
        reveal_strlit("\n");
    }
    assert(is_remark("# RAM-derived (reload-safe)\n"@)) by {
        reveal_strlit("# RAM-derived (reload-safe)\n");
    }
    assert(is_head("effective_cache_size = "@, "effective_cache_size"@)) by {
        reveal_strlit("effective_cache_size");
        reveal_strlit("effective_cache_size = ");
        reveal_strlit(" = ");
        assert("effective_cache_size = "@ == "effective_cache_size"@ + " = "@);
    }
    assert(is_end("MB\n"@)) by {
        reveal_strlit("MB\n");
    }
    assert(is_head("maintenance_work_mem = "@, "maintenance_work_mem"@)) by {
        reveal_strlit("maintenance_work_mem");
        reveal_strlit("maintenance_work_mem = ");
        reveal_strlit(" = ");
        assert("maintenance_work_mem = "@ == "maintenance_work_mem"@ + " = "@);
    }
    assert(is_head("work_mem = "@, "work_mem"@)) by {
        reveal_strlit("work_mem");
        reveal_strlit("work_mem = ");
        reveal_strlit(" = ");
        assert("work_mem = "@ == "work_mem"@ + " = "@);
    }
    assert(is_remark("# vCPU-derived (reload-safe)\n"@)) by {
        reveal_strlit("# vCPU-derived (reload-safe)\n");
    }
    assert(is_head("max_parallel_workers_per_gather = "@, "max_parallel_workers_per_gather"@)) by {
        reveal_strlit("max_parallel_workers_per_gather");
        reveal_strlit("max_parallel_workers_per_gather = ");
        reveal_strlit(" = ");
        assert("max_parallel_workers_per_gather = "@ == "max_parallel_workers_per_gather"@ + " = "@);
    }
    assert(is_end("\n"@)) by {
        reveal_strlit("\n");
    }
    assert(is_head("max_parallel_maintenance_workers = "@, "max_parallel_maintenance_workers"@)) by {
        reveal_strlit("max_parallel_maintenance_workers");
        reveal_strlit("max_parallel_maintenance_workers = ");
        reveal_strlit(" = ");
        assert("max_parallel_maintenance_workers = "@ == "max_parallel_maintenance_workers"@ + " = "@);
    }
}

#[verifier::rlimit(60)]
proof fn lemma_adaptive_keys(ram_bytes: u64, vcpus: u32)
    ensures
        keys(tuning_adaptive_text(ram_bytes, vcpus)) == adaptive_keys(),
{
    let t0 = Seq::<char>::empty();
    lemma_no_keys();
    lemma_adaptive_lines();
    let t1 = t0 + "# Generated by beyond-pg. Updated at boot and on virtio-mem hotplug.\n"@;
    lemma_remark(t0, "# Generated by beyond-pg. Updated at boot and on virtio-mem hotplug.\n"@);
    let t2 = t1 + "# Safe to reload without restarting postgres (pg_reload_conf()).\n"@;
    lemma_remark(t1, "# Safe to reload without restarting postgres (pg_reload_conf()).\n"@);
    let t3 = t2 + "\n"@;
    lemma_remark(t2, "\n"@);
    let t4 = t3 + "# RAM-derived (reload-safe)\n"@;
    lemma_remark(t3, "# RAM-derived (reload-safe)\n"@);
    let t5 = t4 + "effective_cache_size = "@
        + decimal((megabytes(ram_bytes) * 3 / 4) as nat) + "MB\n"@;
    lemma_number(
        t4,
        "effective_cache_size"@,
        "effective_cache_size = "@,
        (megabytes(ram_bytes) * 3 / 4) as nat,
        "MB\n"@,
    );
    let t6 = t5 + "maintenance_work_mem = "@
        + decimal(smaller(megabytes(ram_bytes) / 20, 2048) as nat) + "MB\n"@;
    lemma_number(
        t5,
        "maintenance_work_mem"@,
        "maintenance_work_mem = "@,
        smaller(megabytes(ram_bytes) / 20, 2048) as nat,
        "MB\n"@,
    );
    let t7 = t6 + "work_mem = "@ + decimal(work_mem(ram_bytes, vcpus) as nat) + "MB\n"@;
    lemma_number(t6, "work_mem"@, "work_mem = "@, work_mem(ram_bytes, vcpus) as nat, "MB\n"@);
    let t8 = t7 + "\n"@;
    lemma_remark(t7, "\n"@);
    let t9 = t8 + "# vCPU-derived (reload-safe)\n"@;
    lemma_remark(t8, "# vCPU-derived (reload-safe)\n"@);
    let t10 = t9 + "max_parallel_workers_per_gather = "@
        + decimal(clamped(vcpus as int / 2, 1, 4) as nat) + "\n"@;
    lemma_number(
        t9,
        "max_parallel_workers_per_gather"@,
        "max_parallel_workers_per_gather = "@,
        clamped(vcpus as int / 2, 1, 4) as nat,
        "\n"@,
    );
    let t11 = t10 + "max_parallel_maintenance_workers = "@
        + decimal(clamped(vcpus as int / 2, 1, 4) as nat) + "\n"@;
    lemma_number(
        t10,
        "max_parallel_maintenance_workers"@,
        "max_parallel_maintenance_workers = "@,
        clamped(vcpus as int / 2, 1, 4) as nat,
        "\n"@,
    );
    assert(t1 == "# Generated by beyond-pg. Updated at boot and on virtio-mem hotplug.\n"@);
    assert(keys(t11) =~= adaptive_keys());
}

/// By what the keys differ: their lengths, and the fifth letter where these are the same.
proof fn lemma_key_shapes()
    ensures
        boot_keys()[0].len() == 14,
        boot_keys()[1].len() == 15,
        boot_keys()[2].len() == 11,
        boot_keys()[3].len() == 10,
        boot_keys()[4].len() == 22,
        boot_keys()[5].len() == 20,
        boot_keys()[5][4] == 'w',
        boot_keys()[6].len() == 20,
        boot_keys()[6][4] == 'p',
        adaptive_keys()[0].len() == 20,
        adaptive_keys()[0][4] == 'c',
        adaptive_keys()[1].len() == 20,
        adaptive_keys()[1][4] == 't',
        adaptive_keys()[2].len() == 8,
        adaptive_keys()[3].len() == 31,
        adaptive_keys()[4].len() == 32,
{
    reveal_strlit("shared_buffers");
    reveal_strlit("max_connections");
    reveal_strlit("wal_buffers");
    reveal_strlit("huge_pages");
    reveal_strlit("max_slot_wal_keep_size");
    reveal_strlit("max_worker_processes");
    reveal_strlit("max_parallel_workers");
    reveal_strlit("effective_cache_size");
    reveal_strlit("maintenance_work_mem");
    reveal_strlit("work_mem");
    reveal_strlit("max_parallel_workers_per_gather");
    reveal_strlit("max_parallel_maintenance_workers");
}

/// The two tuning files set the same keys on every machine, each key once, and no key is in both.
pub proof fn law_tuning_keys_are_fixed(ram_bytes: u64, vcpus: u32)
    ensures
        keys(tuning_boot_text(ram_bytes, vcpus)) == boot_keys(),
        keys(tuning_adaptive_text(ram_bytes, vcpus)) == adaptive_keys(),
        boot_keys().no_duplicates(),
        adaptive_keys().no_duplicates(),
        forall|k: Seq<char>| boot_keys().contains(k) ==> !adaptive_keys().contains(k),
{
    lemma_boot_keys(ram_bytes, vcpus);
    lemma_adaptive_keys(ram_bytes, vcpus);
    lemma_key_shapes();
}

// ---------------------------------------------------------------------------
// The pooler.
// ---------------------------------------------------------------------------
/// Whether a character never follows another one in a text.
spec fn apart(s: Seq<char>, a: char, b: char) -> bool {
    forall|j: int| 0 <= j < s.len() - 1 && #[trigger] s[j] == a ==> s[j + 1] != b
}

proof fn lemma_part_apart(s: Seq<char>, from: int, to: int, a: char, b: char)
    requires
        0 <= from <= to <= s.len(),
        apart(s, a, b),
    ensures
        apart(s.subrange(from, to), a, b),
{
    let t = s.subrange(from, to);
    assert forall|j: int| 0 <= j < t.len() - 1 && #[trigger] t[j] == a implies t[j + 1] != b by {
        assert(t[j] == s[j + from] && t[j + 1] == s[j + from + 1]);
    }
}

proof fn lemma_trim_start_apart(s: Seq<char>, a: char, b: char)
    requires
        apart(s, a, b),
    ensures
        apart(trim_start(s), a, b),
    decreases s.len(),
{
    if s.len() > 0 && is_white(s[0]) {
        lemma_part_apart(s, 1, s.len() as int, a, b);
        assert(s.subrange(1, s.len() as int) == s.skip(1));
        lemma_trim_start_apart(s.skip(1), a, b);
    }
}

/// The key of a line holds only what the line holds.
proof fn lemma_key_apart(line: Seq<char>, a: char, b: char)
    requires
        apart(line, a, b),
    ensures
        key_of(line) matches Some(k) ==> apart(k, a, b),
{
    lemma_first_of(line, '=');
    let i = first_of(line, '=');
    if i < line.len() {
        let before = line.take(i);
        lemma_part_apart(line, 0, i, a, b);
        assert(line.subrange(0, i) == before);
        lemma_trim_start_apart(before, a, b);
        let t = trim_start(before);
        lemma_trim_end(t);
        lemma_part_apart(t, 0, trim_end(t).len() as int, a, b);
        assert(t.subrange(0, trim_end(t).len() as int) == trim_end(t));
    }
}

proof fn lemma_lines_apart(s: Seq<char>, a: char, b: char)
    requires
        apart(s, a, b),
    ensures
        forall|i: int| 0 <= i < lines(s).len() ==> apart(#[trigger] lines(s)[i], a, b),
    decreases s.len(),
{
    lemma_first_of(s, '\n');
    let k = first_of(s, '\n');
    if k < s.len() {
        let line = s.take(k);
        let rest = s.skip(k + 1);
        lemma_part_apart(s, 0, k, a, b);
        assert(s.subrange(0, k) == line);
        lemma_part_apart(line, 0, strip_cr(line).len() as int, a, b);
        assert(line.subrange(0, strip_cr(line).len() as int) == strip_cr(line));
        lemma_part_apart(s, k + 1, s.len() as int, a, b);
        assert(s.subrange(k + 1, s.len() as int) == rest);
        lemma_lines_apart(rest, a, b);
        assert forall|i: int| 0 <= i < lines(s).len() implies apart(
            #[trigger] lines(s)[i],
            a,
            b,
        ) by {
            if i > 0 {
                assert(lines(s)[i] == lines(rest)[i - 1]);
            }
        }
    }
}

/// A key with two neighbouring characters that are apart in all lines is in none of them.
proof fn lemma_key_is_absent(ls: Seq<Seq<char>>, k: Seq<char>)
    requires
        k.len() >= 2,
        forall|i: int| 0 <= i < ls.len() ==> apart(#[trigger] ls[i], k[0], k[1]),
    ensures
        times(line_keys(ls), k) == 0,
    decreases ls.len(),
{
    if ls.len() > 0 {
        let before = ls.drop_last();
        assert forall|i: int| 0 <= i < before.len() implies apart(
            #[trigger] before[i],
            k[0],
            k[1],
        ) by {
            assert(before[i] == ls[i]);
        }
        lemma_key_is_absent(before, k);
        assert(apart(ls[ls.len() - 1], k[0], k[1]));
        lemma_key_apart(ls.last(), k[0], k[1]);
        match key_of(ls.last()) {
            Some(found) => {
                assert(found != k);
                assert(line_keys(before).push(found).drop_last() == line_keys(before));
            },
            None => {},
        }
    }
}

/// The fixed part is made of whole lines and does not set the CA.
pub(crate) proof fn lemma_base_sets_no_ca()
    ensures
        closed(PGBOUNCER_INI_BASE@),
        with_newline(PGBOUNCER_INI_BASE@) == PGBOUNCER_INI_BASE@,
        times(keys(PGBOUNCER_INI_BASE@), "client_tls_ca_file"@) == 0,
{
    let base = PGBOUNCER_INI_BASE@;
    assert(base.len() > 0 && base.last() == '\n' && apart(base, 'c', 'l')) by {
        reveal_strlit("# Managed by beyond-pg. Do not edit — overwritten on every boot.
[databases]
* = host=127.0.0.1 port=5433

[pgbouncer]
listen_addr = *
listen_port = 5432
unix_socket_dir =
auth_type = scram-sha-256
auth_user = pgbouncer
auth_query = SELECT username, password FROM pgbouncer.get_auth($1)
pool_mode = transaction
server_tls_sslmode = disable
ignore_startup_parameters = extra_float_digits,options
");
    }
    lemma_lines_apart(base, 'c', 'l');
    reveal_strlit("client_tls_ca_file");
    lemma_key_is_absent(lines(base), "client_tls_ca_file"@);
}

/// The lines of the generated part, and what each is.
pub(crate) proof fn lemma_pooler_lines()
    ensures
        is_remark("\n"@),
        is_remark("# Pool sizing — generated by beyond-pg from VM resources.\n"@),
        is_remark("# TLS — termination for the public 5432 port (generated by beyond-pg).\n"@),
        is_end("\n"@),
        is_head("default_pool_size = "@, "default_pool_size"@),
        is_head("max_client_conn = "@, "max_client_conn"@),
        is_head("client_tls_cert_file = "@, "client_tls_cert_file"@),
        is_head("client_tls_key_file = "@, "client_tls_key_file"@),
        is_head("client_tls_ca_file = "@, "client_tls_ca_file"@),
        is_setting("so_reuseport = 1\n"@, "so_reuseport"@),
        is_setting("client_tls_sslmode = allow\n"@, "client_tls_sslmode"@),
{
    assert(is_remark("\n"@)) by {
        reveal_strlit("\n");
    }
    assert(is_remark("# Pool sizing — generated by beyond-pg from VM resources.\n"@)) by {
        reveal_strlit("# Pool sizing — generated by beyond-pg from VM resources.\n");
    }
    assert(is_remark("# TLS — termination for the public 5432 port (generated by beyond-pg).\n"@)) by {
        reveal_strlit("# TLS — termination for the public 5432 port (generated by beyond-pg).\n");
    }
    assert(is_end("\n"@)) by {
        reveal_strlit("\n");
    }
    assert(is_head("default_pool_size = "@, "default_pool_size"@)) by {
        reveal_strlit("default_pool_size");
        reveal_strlit("default_pool_size = ");
        reveal_strlit(" = ");
        assert("default_pool_size = "@ == "default_pool_size"@ + " = "@);
    }
    assert(is_head("max_client_conn = "@, "max_client_conn"@)) by {
        reveal_strlit("max_client_conn");
        reveal_strlit("max_client_conn = ");
        reveal_strlit(" = ");
        assert("max_client_conn = "@ == "max_client_conn"@ + " = "@);
    }
    assert(is_head("client_tls_cert_file = "@, "client_tls_cert_file"@)) by {
        reveal_strlit("client_tls_cert_file");
        reveal_strlit("client_tls_cert_file = ");
        reveal_strlit(" = ");
        assert("client_tls_cert_file = "@ == "client_tls_cert_file"@ + " = "@);
    }
    assert(is_head("client_tls_key_file = "@, "client_tls_key_file"@)) by {
        reveal_strlit("client_tls_key_file");
        reveal_strlit("client_tls_key_file = ");
        reveal_strlit(" = ");
        assert("client_tls_key_file = "@ == "client_tls_key_file"@ + " = "@);
    }
    assert(is_head("client_tls_ca_file = "@, "client_tls_ca_file"@)) by {
        reveal_strlit("client_tls_ca_file");
        reveal_strlit("client_tls_ca_file = ");
        reveal_strlit(" = ");
        assert("client_tls_ca_file = "@ == "client_tls_ca_file"@ + " = "@);
    }
    assert(is_setting("so_reuseport = 1\n"@, "so_reuseport"@)) by {
        reveal_strlit("so_reuseport");
        reveal_strlit("so_reuseport = 1\n");
        reveal_strlit(" = ");
        assert("so_reuseport = 1\n"@.take(15) == "so_reuseport"@ + " = "@);
    }
    assert(is_setting("client_tls_sslmode = allow\n"@, "client_tls_sslmode"@)) by {
        reveal_strlit("client_tls_sslmode");
        reveal_strlit("client_tls_sslmode = allow\n");
        reveal_strlit(" = ");
        assert("client_tls_sslmode = allow\n"@.take(21) == "client_tls_sslmode"@ + " = "@);
    }
}

/// The other generated keys are not that of the CA.
proof fn lemma_other_keys()
    ensures
        "default_pool_size"@ != "client_tls_ca_file"@,
        "max_client_conn"@ != "client_tls_ca_file"@,
        "so_reuseport"@ != "client_tls_ca_file"@,
        "client_tls_sslmode"@ != "client_tls_ca_file"@,
        "client_tls_cert_file"@ != "client_tls_ca_file"@,
        "client_tls_key_file"@ != "client_tls_ca_file"@,
{
    reveal_strlit("client_tls_ca_file");
    reveal_strlit("default_pool_size");
    reveal_strlit("max_client_conn");
    reveal_strlit("so_reuseport");
    reveal_strlit("client_tls_sslmode");
    reveal_strlit("client_tls_cert_file");
    reveal_strlit("client_tls_key_file");
    assert("client_tls_ca_file"@.len() == 18);
    assert("default_pool_size"@.len() == 17);
    assert("max_client_conn"@.len() == 15);
    assert("so_reuseport"@.len() == 12);
    assert("client_tls_cert_file"@.len() == 20);
    assert("client_tls_key_file"@.len() == 19);
    assert("client_tls_ca_file"@[11] == 'c' && "client_tls_sslmode"@[11] == 's');
}

proof fn lemma_times(ks: Seq<Seq<char>>, found: Seq<char>, k: Seq<char>)
    ensures
        times(ks.push(found), k) == times(ks, k) + if found == k {
            1nat
        } else {
            0nat
        },
{
    assert(ks.push(found).drop_last() == ks);
}

/// The pooler's configuration begins with the fixed part and sets the CA once, in its last line,
/// to that of the certificate or else to the certificate itself. The paths must not hold line
/// feeds, which would start lines of their own.
#[verifier::rlimit(60)]
pub proof fn law_pooler_sets_the_ca_once(tls: TlsFiles, ram_bytes: u64, vcpus: u32)
    requires
        free(tls.cert, '\n'),
        free(tls.key, '\n'),
        free(pooler_ca(tls), '\n'),
    ensures
        ({
            let text = pgbouncer_ini_text(tls, ram_bytes, vcpus);
            &&& starts_with(text, PGBOUNCER_INI_BASE@)
            &&& times(keys(text), "client_tls_ca_file"@) == 1
            &&& lines(text).last() == strip_cr("client_tls_ca_file = "@ + pooler_ca(tls))
        }),
{
    let ca = "client_tls_ca_file"@;
    lemma_base_sets_no_ca();
    lemma_pooler_lines();
    lemma_other_keys();
    let t0 = PGBOUNCER_INI_BASE@;
    let t1 = t0 + "\n"@;
    lemma_remark(t0, "\n"@);
    let t2 = t1 + "# Pool sizing — generated by beyond-pg from VM resources.\n"@;
    lemma_remark(t1, "# Pool sizing — generated by beyond-pg from VM resources.\n"@);
    let pool = pool_size(vcpus) as nat;
    let t3 = t2 + "default_pool_size = "@ + decimal(pool) + "\n"@;
    lemma_number(t2, "default_pool_size"@, "default_pool_size = "@, pool, "\n"@);
    lemma_times(keys(t2), "default_pool_size"@, ca);
    let clients = max_client_conn(ram_bytes, vcpus) as nat;
    let t4 = t3 + "max_client_conn = "@ + decimal(clients) + "\n"@;
    lemma_number(t3, "max_client_conn"@, "max_client_conn = "@, clients, "\n"@);
    lemma_times(keys(t3), "max_client_conn"@, ca);
    let t5 = t4 + "so_reuseport = 1\n"@;
    lemma_setting(t4, "so_reuseport"@, "so_reuseport = 1\n"@);
    lemma_times(keys(t4), "so_reuseport"@, ca);
    let t6 = t5 + "\n"@;
    lemma_remark(t5, "\n"@);
    let t7 = t6 + "# TLS — termination for the public 5432 port (generated by beyond-pg).\n"@;
    lemma_remark(t6, "# TLS — termination for the public 5432 port (generated by beyond-pg).\n"@);
    let t8 = t7 + "client_tls_sslmode = allow\n"@;
    lemma_setting(t7, "client_tls_sslmode"@, "client_tls_sslmode = allow\n"@);
    lemma_times(keys(t7), "client_tls_sslmode"@, ca);
    let t9 = t8 + "client_tls_cert_file = "@ + tls.cert + "\n"@;
    lemma_value(t8, "client_tls_cert_file"@, "client_tls_cert_file = "@, tls.cert, "\n"@);
    lemma_times(keys(t8), "client_tls_cert_file"@, ca);
    let t10 = t9 + "client_tls_key_file = "@ + tls.key + "\n"@;
    lemma_value(t9, "client_tls_key_file"@, "client_tls_key_file = "@, tls.key, "\n"@);
    lemma_times(keys(t9), "client_tls_key_file"@, ca);
    let t11 = t10 + "client_tls_ca_file = "@ + pooler_ca(tls) + "\n"@;
    lemma_value(t10, ca, "client_tls_ca_file = "@, pooler_ca(tls), "\n"@);
    lemma_times(keys(t10), ca, ca);
    assert(t11 == pgbouncer_ini_text(tls, ram_bytes, vcpus));
    assert(t11.take(t0.len() as int) == t0);
    assert("\n"@.drop_last() == Seq::<char>::empty()) by {
        reveal_strlit("\n");
    }
    assert("client_tls_ca_file = "@ + pooler_ca(tls) + Seq::<char>::empty()
        == "client_tls_ca_file = "@ + pooler_ca(tls));
}

/// A line that names libraries, in single quotes and with commas between, is rewritten to name those
/// of them that are installed, in their order, in the same form; the libraries that it names are
/// those that are looked for.
pub proof fn law_named_libraries_are_filtered(items: Seq<Seq<char>>, installed: Seq<String>)
    requires
        items.len() > 0,
        forall|i: int|
            0 <= i < items.len() ==> (#[trigger] items[i]).len() > 0 && trim(items[i]) == items[i]
                && free(items[i], ','),
    ensures
        ({
            let line = "shared_preload_libraries"@ + " = '"@ + join(items, ","@) + "'"@;
            &&& line_out(line, installed) == "shared_preload_libraries"@ + " = '"@ + join(
                kept_items(items, installed),
                ","@,
            ) + "'"@
            &&& named_libraries(seq![line]) == items
        }),
{
    let inner = join(items, ","@);
    let line = "shared_preload_libraries"@ + " = '"@ + inner + "'"@;
    lemma_assigned_reads_back(inner);
    assert forall|i: int| 0 <= i < items.len() implies is_item(#[trigger] items[i]) by {}
    lemma_split_join(items, seq![]);
    lemma_list_items(items, '\n');
    assert(seq![line].drop_last() =~= seq![]);
    reveal_with_fuel(named_libraries, 2);
    assert(named_libraries(seq![line]) =~= items);
}

/// Any other line passes unchanged: a remark, and one that does not begin with the key.
pub proof fn law_other_lines_pass(line: Seq<char>, installed: Seq<String>)
    requires
        ({
            let t = trim_start(line);
            t.len() == 0 || t[0] == '#' || !starts_with(t, "shared_preload_libraries"@)
        }),
    ensures
        line_out(line, installed) == line,
        named_libraries(seq![line]).len() == 0,
{
    reveal_strlit("#");
    reveal_strlit("shared_preload_libraries");
    let t = trim_start(line);
    if t.len() > 0 && t[0] == '#' {
        assert(t.take(1) =~= "#"@);
    }
    assert(seq![line].drop_last() =~= seq![]);
    reveal_with_fuel(named_libraries, 2);
}

/// The code of a library stands under its name in the directory for libraries.
pub proof fn law_library_stands_under_its_name(lib: Seq<char>)
    requires
        lib.len() > 0,
        lib[0] != '/',
    ensures
        library_file(PKGLIBDIR@, lib) == "/usr/lib/postgresql/18/lib/"@ + lib + ".so"@,
{
    reveal_strlit("/usr/lib/postgresql/18/lib");
    reveal_strlit("/usr/lib/postgresql/18/lib/");
    assert(library_file(PKGLIBDIR@, lib) =~= "/usr/lib/postgresql/18/lib/"@ + lib + ".so"@);
}

} // verus!
