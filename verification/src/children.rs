//! The processes that a supervisor leaves to its successor.
//!
//! Each child is remembered with its process number and the time it was started. A number may be
//! given to another process once the child is gone; the start time tells the two apart.
use crate::http::{lemma_first_word, lemma_words_behind_space};
use crate::number::{
    decimal, law_numeral_reads_back, parse_decimal, parse_int_message, read_decimal, ParseIntError,
};
use crate::text::{
    chars_of, comes_before, copy_str, find_last, is_white, last_of, lemma_last_of,
    lemma_precedes_irreflexive, lemma_precedes_total, lemma_precedes_transitive, precedes,
    same_str, words, words_of, texts,
};
use vstd::prelude::*;
use vstd::slice::slice_subrange;

verus! {

/// Where the record is kept.
pub const STATE_DIR: &'static str = "/var/lib/beyond-pg/state";

/// The record's file name.
pub const STATE_FILE: &'static str = "children.json";

/// The directory of the record.
pub fn state_dir() -> (r: String)
    ensures
        r@ == STATE_DIR@,
{
    copy_str(STATE_DIR)
}

// ---------------------------------------------------------------------------
// The record.
// ---------------------------------------------------------------------------
/// A child: its process number and when it was started, in clock ticks since boot.
#[derive(Clone, Copy, Debug, PartialEq, Eq, Structural)]
pub struct ChildRecord {
    pub pid: u32,
    pub starttime: u64,
}

/// Children by name, in the order of their names.
#[derive(Debug)]
pub struct ChildTable {
    pub entries: Vec<(String, ChildRecord)>,
}

impl ChildTable {
    /// The names are in order, so none occurs twice.
    pub open spec fn wf(&self) -> bool {
        forall|i: int, j: int|
            #![trigger self.entries@[i], self.entries@[j]]
            0 <= i < j < self.entries@.len() ==> precedes(
                self.entries@[i].0@,
                self.entries@[j].0@,
            )
    }

    /// Whether there is a child of this name.
    pub open spec fn has(&self, name: Seq<char>) -> bool {
        exists|i: int| 0 <= i < self.entries@.len() && (#[trigger] self.entries@[i]).0@ == name
    }

    /// Where the child of this name stands.
    pub open spec fn place(&self, name: Seq<char>) -> int {
        choose|i: int| 0 <= i < self.entries@.len() && (#[trigger] self.entries@[i]).0@ == name
    }
}

impl View for ChildTable {
    type V = Map<Seq<char>, ChildRecord>;

    open spec fn view(&self) -> Map<Seq<char>, ChildRecord> {
        Map::new(|n: Seq<char>| self.has(n), |n: Seq<char>| self.entries@[self.place(n)].1)
    }
}

/// In an ordered table a name stands in one place.
proof fn lemma_place(t: ChildTable, i: int)
    requires
        t.wf(),
        0 <= i < t.entries@.len(),
    ensures
        t.has(t.entries@[i].0@),
        t.place(t.entries@[i].0@) == i,
        t@.contains_key(t.entries@[i].0@),
        t@[t.entries@[i].0@] == t.entries@[i].1,
{
    let name = t.entries@[i].0@;
    let p = t.place(name);
    assert(t.entries@[p].0@ == name);
    if p < i {
        assert(precedes(t.entries@[p].0@, t.entries@[i].0@));
        lemma_precedes_irreflexive(name);
    } else if i < p {
        assert(precedes(t.entries@[i].0@, t.entries@[p].0@));
        lemma_precedes_irreflexive(name);
    }
}

impl ChildTable {
    /// A table without children.
    pub fn new() -> (r: ChildTable)
        ensures
            r.wf(),
            r@ == Map::<Seq<char>, ChildRecord>::empty(),
    {
        let r = ChildTable { entries: Vec::new() };
        assert(r@ =~= Map::<Seq<char>, ChildRecord>::empty());
        r
    }

    /// How many children there are.
    pub fn len(&self) -> (r: usize)
        ensures
            r == self.entries@.len(),
    {
        self.entries.len()
    }

    /// Where `name` stands or belongs: all before come before it, and what stands there does not.
    fn seek(&self, name: &str) -> (r: usize)
        requires
            self.wf(),
        ensures
            r <= self.entries@.len(),
            forall|i: int| 0 <= i < r ==> precedes((#[trigger] self.entries@[i]).0@, name@),
            r < self.entries@.len() ==> !precedes(self.entries@[r as int].0@, name@),
    {
        let cs: Vec<char> = chars_of(name);
        let mut i: usize = 0;
        while i < self.entries.len() && comes_before(
            chars_of(self.entries[i].0.as_str()).as_slice(),
            cs.as_slice(),
        )
            invariant
                cs@ == name@,
                i <= self.entries@.len(),
                forall|j: int| 0 <= j < i ==> precedes((#[trigger] self.entries@[j]).0@, name@),
            decreases self.entries@.len() - i,
        {
            i = i + 1;
        }
        i
    }

    /// Finds a child.
    pub fn get(&self, name: &str) -> (r: Option<&ChildRecord>)
        requires
            self.wf(),
        ensures
            match r {
                Some(c) => self@.contains_key(name@) && *c == self@[name@],
                None => !self@.contains_key(name@),
            },
    {
        let i: usize = self.seek(name);
        if i < self.entries.len() && same_str(self.entries[i].0.as_str(), name) {
            proof {
                lemma_place(*self, i as int);
            }
            return Some(&self.entries[i].1);
        }
        proof {
            lemma_not_at(*self, name@, i as int);
        }
        None
    }

    /// Enters a child; one of the same name is replaced.
    pub fn insert(&mut self, name: String, record: ChildRecord)
        requires
            old(self).wf(),
        ensures
            final(self).wf(),
            final(self)@ == old(self)@.insert(name@, record),
    {
        let i: usize = self.seek(name.as_str());
        let ghost before = *self;
        if i < self.entries.len() && same_str(self.entries[i].0.as_str(), name.as_str()) {
            let ghost n = self.entries@[i as int].0;
            self.entries[i].1 = record;
            proof {
                lemma_replaced(before, *self, name@, record, i as int);
            }
        } else {
            proof {
                lemma_not_at(before, name@, i as int);
            }
            let ghost text = name@;
            self.entries.insert(i, (name, record));
            proof {
                lemma_inserted(before, *self, text, record, i as int);
            }
        }
    }

    /// Takes a child out, if it is there.
    pub fn remove(&mut self, name: &str)
        requires
            old(self).wf(),
        ensures
            final(self).wf(),
            final(self)@ == old(self)@.remove(name@),
    {
        let i: usize = self.seek(name);
        let ghost before = *self;
        if i < self.entries.len() && same_str(self.entries[i].0.as_str(), name) {
            self.entries.remove(i);
            proof {
                lemma_removed(before, *self, name@, i as int);
            }
        } else {
            proof {
                lemma_not_at(before, name@, i as int);
                assert(before@.remove(name@) =~= before@);
            }
        }
    }
}

/// A name that does not stand where it belongs stands nowhere.
proof fn lemma_not_at(t: ChildTable, name: Seq<char>, i: int)
    requires
        t.wf(),
        0 <= i <= t.entries@.len(),
        forall|j: int| 0 <= j < i ==> precedes((#[trigger] t.entries@[j]).0@, name),
        i < t.entries@.len() ==> !precedes(t.entries@[i].0@, name) && t.entries@[i].0@ != name,
    ensures
        !t.has(name),
        i < t.entries@.len() ==> precedes(name, t.entries@[i].0@),
{
    lemma_precedes_irreflexive(name);
    if i < t.entries@.len() {
        lemma_precedes_total(t.entries@[i].0@, name);
    }
    if t.has(name) {
        let p = t.place(name);
        if p < i {
            assert(precedes(t.entries@[p].0@, name));
        } else if p > i {
            assert(precedes(t.entries@[i].0@, t.entries@[p].0@));
        }
    }
}

proof fn lemma_replaced(
    before: ChildTable,
    after: ChildTable,
    name: Seq<char>,
    record: ChildRecord,
    i: int,
)
    requires
        before.wf(),
        0 <= i < before.entries@.len(),
        before.entries@[i].0@ == name,
        after.entries@ == before.entries@.update(i, (before.entries@[i].0, record)),
    ensures
        after.wf(),
        after@ == before@.insert(name, record),
{
    assert forall|a: int, b: int|
        #![trigger after.entries@[a], after.entries@[b]]
        0 <= a < b < after.entries@.len() implies precedes(
        after.entries@[a].0@,
        after.entries@[b].0@,
    ) by {
        assert(precedes(before.entries@[a].0@, before.entries@[b].0@));
    }
    assert forall|n: Seq<char>| #[trigger] after@.contains_key(n) <==> before@.insert(
        name,
        record,
    ).contains_key(n) by {
        lemma_place(after, i);
        if after.has(n) {
            let p = after.place(n);
            assert(before.entries@[p].0@ == n);
        }
        if before.has(n) {
            let p = before.place(n);
            assert(after.entries@[p].0@ == n);
        }
    }
    assert forall|n: Seq<char>| after@.contains_key(n) implies #[trigger] after@[n]
        == before@.insert(name, record)[n] by {
        let p = after.place(n);
        assert(after.entries@[p].0@ == n);
        lemma_place(after, p);
        lemma_place(before, p);
        lemma_place(after, i);
    }
    assert(after@ =~= before@.insert(name, record));
}

proof fn lemma_inserted(
    before: ChildTable,
    after: ChildTable,
    name: Seq<char>,
    record: ChildRecord,
    i: int,
)
    requires
        before.wf(),
        !before.has(name),
        0 <= i <= before.entries@.len(),
        forall|j: int| 0 <= j < i ==> precedes((#[trigger] before.entries@[j]).0@, name),
        i < before.entries@.len() ==> precedes(name, before.entries@[i].0@),
        after.entries@.len() == before.entries@.len() + 1,
        forall|j: int| 0 <= j < i ==> #[trigger] after.entries@[j] == before.entries@[j],
        after.entries@[i].0@ == name,
        after.entries@[i].1 == record,
        forall|j: int| i < j < after.entries@.len() ==> #[trigger] after.entries@[j]
            == before.entries@[j - 1],
    ensures
        after.wf(),
        after@ == before@.insert(name, record),
{
    assert forall|j: int| i <= j < before.entries@.len() implies precedes(
        name,
        (#[trigger] before.entries@[j]).0@,
    ) by {
        if j > i {
            assert(precedes(before.entries@[i].0@, before.entries@[j].0@));
            lemma_precedes_transitive(name, before.entries@[i].0@, before.entries@[j].0@);
        }
    }
    assert forall|a: int, b: int|
        #![trigger after.entries@[a], after.entries@[b]]
        0 <= a < b < after.entries@.len() implies precedes(
        after.entries@[a].0@,
        after.entries@[b].0@,
    ) by {
        if a < i && b < i {
            assert(precedes(before.entries@[a].0@, before.entries@[b].0@));
        } else if a < i && b > i {
            assert(precedes(before.entries@[a].0@, before.entries@[b - 1].0@));
        } else if a > i {
            assert(precedes(before.entries@[a - 1].0@, before.entries@[b - 1].0@));
        } else if a == i {
            assert(precedes(name, before.entries@[b - 1].0@));
        } else {
            assert(precedes(before.entries@[a].0@, name));
        }
    }
    assert forall|n: Seq<char>| #[trigger] after@.contains_key(n) <==> before@.insert(
        name,
        record,
    ).contains_key(n) by {
        lemma_place(after, i);
        if after.has(n) && n != name {
            let p = after.place(n);
            assert(after.entries@[p].0@ == n);
            let q = if p < i {
                p
            } else {
                p - 1
            };
            assert(before.entries@[q].0@ == n);
        }
        if before.has(n) {
            let p = before.place(n);
            assert(before.entries@[p].0@ == n);
            let q = if p < i {
                p
            } else {
                p + 1
            };
            assert(after.entries@[q].0@ == n);
        }
    }
    assert forall|n: Seq<char>| after@.contains_key(n) implies #[trigger] after@[n]
        == before@.insert(name, record)[n] by {
        let p = after.place(n);
        assert(after.entries@[p].0@ == n);
        lemma_place(after, p);
        lemma_place(after, i);
        if p < i {
            lemma_place(before, p);
        } else if p > i {
            lemma_place(before, p - 1);
        }
    }
    assert(after@ =~= before@.insert(name, record));
}

proof fn lemma_removed(before: ChildTable, after: ChildTable, name: Seq<char>, i: int)
    requires
        before.wf(),
        0 <= i < before.entries@.len(),
        before.entries@[i].0@ == name,
        after.entries@ == before.entries@.remove(i),
    ensures
        after.wf(),
        after@ == before@.remove(name),
{
    assert forall|a: int, b: int|
        #![trigger after.entries@[a], after.entries@[b]]
        0 <= a < b < after.entries@.len() implies precedes(
        after.entries@[a].0@,
        after.entries@[b].0@,
    ) by {
        let x = if a < i {
            a
        } else {
            a + 1
        };
        let y = if b < i {
            b
        } else {
            b + 1
        };
        assert(precedes(before.entries@[x].0@, before.entries@[y].0@));
    }
    lemma_place(before, i);
    assert forall|n: Seq<char>| #[trigger] after@.contains_key(n) <==> before@.remove(
        name,
    ).contains_key(n) by {
        if after.has(n) {
            let p = after.place(n);
            assert(after.entries@[p].0@ == n);
            let q = if p < i {
                p
            } else {
                p + 1
            };
            assert(before.entries@[q].0@ == n);
            lemma_place(before, q);
        }
        if before.has(n) && n != name {
            let p = before.place(n);
            assert(before.entries@[p].0@ == n);
            assert(p != i);
            let q = if p < i {
                p
            } else {
                p - 1
            };
            assert(after.entries@[q].0@ == n);
        }
    }
    assert forall|n: Seq<char>| after@.contains_key(n) implies #[trigger] after@[n]
        == before@.remove(name)[n] by {
        let p = after.place(n);
        assert(after.entries@[p].0@ == n);
        lemma_place(after, p);
        if p < i {
            lemma_place(before, p);
        } else {
            lemma_place(before, p + 1);
        }
    }
    assert(after@ =~= before@.remove(name));
}

/// The record that is kept on disk.
#[derive(Debug)]
pub struct PersistedChildren {
    pub version: u32,
    pub children: ChildTable,
}

impl PersistedChildren {
    /// The children are in order.
    pub open spec fn wf(&self) -> bool {
        self.children.wf()
    }

    /// A record without children.
    pub fn empty() -> (r: PersistedChildren)
        ensures
            r.wf(),
            r.version == 1,
            r.children@ == Map::<Seq<char>, ChildRecord>::empty(),
    {
        PersistedChildren { version: 1, children: ChildTable::new() }
    }

    /// Enters a child; `stat` is the content of its `/proc/<pid>/stat`. Where that cannot be read
    /// nothing is entered.
    pub fn record(&mut self, name: &str, pid: u32, stat: &str) -> (r: Result<(), StatError>)
        requires
            old(self).wf(),
        ensures
            final(self).wf(),
            final(self).version == old(self).version,
            match r {
                Ok(_) => stat_starttime(stat@) matches Ok(t) && final(self).children@ == old(
                    self,
                ).children@.insert(name@, (ChildRecord { pid, starttime: t as u64 })),
                Err(e) => stat_starttime(stat@) == Err::<nat, StatError>(e)
                    && final(self).children@ == old(self).children@,
            },
    {
        match read_starttime(stat) {
            Ok(t) => self.record_with_starttime(name, pid, t),
            Err(e) => Err(e),
        }
    }

    /// Enters a child whose start time is known.
    pub fn record_with_starttime(&mut self, name: &str, pid: u32, starttime: u64) -> (r: Result<
        (),
        StatError,
    >)
        requires
            old(self).wf(),
        ensures
            r is Ok,
            final(self).wf(),
            final(self).version == old(self).version,
            final(self).children@ == old(self).children@.insert(
                name@,
                (ChildRecord { pid, starttime }),
            ),
    {
        self.children.insert(copy_str(name), ChildRecord { pid, starttime });
        Ok(())
    }

    /// Takes a child out, if it is there.
    pub fn remove(&mut self, name: &str)
        requires
            old(self).wf(),
        ensures
            final(self).wf(),
            final(self).version == old(self).version,
            final(self).children@ == old(self).children@.remove(name@),
    {
        self.children.remove(name);
    }

    /// Finds a child.
    pub fn get(&self, name: &str) -> (r: Option<&ChildRecord>)
        requires
            self.wf(),
        ensures
            match r {
                Some(c) => self.children@.contains_key(name@) && *c == self.children@[name@],
                None => !self.children@.contains_key(name@),
            },
    {
        self.children.get(name)
    }
}

// ---------------------------------------------------------------------------
// /proc/<pid>/stat.
// ---------------------------------------------------------------------------
/// Why a process's status line cannot be read.
#[derive(Clone, Copy, Debug, PartialEq, Eq, Structural)]
pub enum StatError {
    NoParen,
    Truncated,
    TooShort,
    BadNumber(ParseIntError),
}

/// The words of an error.
pub open spec fn stat_error_text(e: StatError) -> Seq<char> {
    match e {
        StatError::NoParen => "no `)` in stat"@,
        StatError::Truncated => "stat truncated"@,
        StatError::TooShort => "stat too short"@,
        StatError::BadNumber(p) => parse_int_message(p),
    }
}

impl StatError {
    /// The words of this error.
    pub fn message(&self) -> (r: &'static str)
        ensures
            r@ == stat_error_text(*self),
    {
        match self {
            StatError::NoParen => "no `)` in stat",
            StatError::Truncated => "stat truncated",
            StatError::TooShort => "stat too short",
            StatError::BadNumber(p) => p.message(),
        }
    }
}

/// What follows the process's name: the name ends at the last closing parenthesis, so that
/// parentheses and spaces in it do no harm. One character, of one byte, separates the two.
pub open spec fn after_name(stat: Seq<char>) -> Result<Seq<char>, StatError> {
    let i = last_of(stat, ')');
    if i < 0 {
        Err(StatError::NoParen)
    } else if i + 1 >= stat.len() || stat[i + 1] as u32 >= 0x80 {
        Err(StatError::Truncated)
    } else {
        Ok(stat.skip(i + 2))
    }
}

/// The number in a field, counted from zero behind the name.
pub open spec fn stat_field(stat: Seq<char>, idx: int) -> Result<nat, StatError> {
    match after_name(stat) {
        Err(e) => Err(e),
        Ok(rest) => if idx >= words(rest).len() {
            Err(StatError::TooShort)
        } else {
            match parse_decimal(words(rest)[idx], u64::MAX as nat) {
                Ok(n) => Ok(n),
                Err(p) => Err(StatError::BadNumber(p)),
            }
        },
    }
}

/// When the process was started, in clock ticks since boot.
pub open spec fn stat_starttime(stat: Seq<char>) -> Result<nat, StatError> {
    stat_field(stat, 19)
}

fn read_field(stat: &str, idx: usize) -> (r: Result<u64, StatError>)
    ensures
        match r {
            Ok(n) => stat_field(stat@, idx as int) == Ok::<nat, StatError>(n as nat),
            Err(e) => stat_field(stat@, idx as int) == Err::<nat, StatError>(e),
        },
{
    let cs: Vec<char> = chars_of(stat);
    proof {
        lemma_last_of(stat@, ')');
    }
    let close: usize = match find_last(cs.as_slice(), ')') {
        Some(i) => i,
        None => return Err(StatError::NoParen),
    };
    if cs.len() - close < 2 || cs[close + 1] as u32 >= 0x80 {
        return Err(StatError::Truncated);
    }
    let rest: &[char] = slice_subrange(cs.as_slice(), close + 2, cs.len());
    assert(rest@ == stat@.skip(close + 2));
    let fields: Vec<&[char]> = words_of(rest);
    assert(texts(fields@).len() == fields@.len());
    if idx >= fields.len() {
        return Err(StatError::TooShort);
    }
    assert(texts(fields@)[idx as int] == fields@[idx as int]@);
    match read_decimal(fields[idx], u64::MAX) {
        Ok(n) => Ok(n),
        Err(p) => Err(StatError::BadNumber(p)),
    }
}

/// Reads when a process was started from its `/proc/<pid>/stat`.
pub fn read_starttime(stat: &str) -> (r: Result<u64, StatError>)
    ensures
        match r {
            Ok(n) => stat_starttime(stat@) == Ok::<nat, StatError>(n as nat),
            Err(e) => stat_starttime(stat@) == Err::<nat, StatError>(e),
        },
{
    read_field(stat, 19)
}

/// The CPU time of a process in user and in system mode, in clock ticks.
pub open spec fn stat_cpu(stat: Seq<char>) -> Result<(nat, nat), StatError> {
    match stat_field(stat, 11) {
        Err(e) => Err(e),
        Ok(u) => match stat_field(stat, 12) {
            Err(e) => Err(e),
            Ok(s) => Ok((u, s)),
        },
    }
}

/// Reads the two parts of a process's CPU time.
pub fn read_proc_cpu_times(stat: &str) -> (r: Result<(u64, u64), StatError>)
    ensures
        match r {
            Ok((u, s)) => stat_cpu(stat@) == Ok::<(nat, nat), StatError>((u as nat, s as nat)),
            Err(e) => stat_cpu(stat@) == Err::<(nat, nat), StatError>(e),
        },
{
    let u: u64 = match read_field(stat, 11) {
        Ok(n) => n,
        Err(e) => return Err(e),
    };
    match read_field(stat, 12) {
        Ok(s) => Ok((u, s)),
        Err(e) => Err(e),
    }
}

/// The CPU time of a process, user and system mode together, in clock ticks.
pub open spec fn stat_ticks(stat: Seq<char>) -> Result<nat, StatError> {
    match stat_cpu(stat) {
        Err(e) => Err(e),
        Ok((u, s)) => Ok(u + s),
    }
}

/// Reads a process's CPU time from its `/proc/<pid>/stat`: user and system mode together.
pub fn read_proc_cpu_ticks(stat: &str) -> (r: Result<u64, StatError>)
    requires
        stat_cpu(stat@) matches Ok((u, s)) ==> u + s <= u64::MAX,
    ensures
        match r {
            Ok(n) => stat_ticks(stat@) == Ok::<nat, StatError>(n as nat),
            Err(e) => stat_ticks(stat@) == Err::<nat, StatError>(e),
        },
{
    match read_proc_cpu_times(stat) {
        Ok((u, s)) => Ok(u + s),
        Err(e) => Err(e),
    }
}

// ---------------------------------------------------------------------------
// Adoption.
// ---------------------------------------------------------------------------
/// What is found at a remembered process number.
pub enum ProcessProbe {
    /// There is no such process.
    Gone,
    /// There is one; this is its `/proc/<pid>/stat`.
    Stat(String),
}

/// Whether a remembered child can be taken over.
#[derive(Clone, Copy, Debug, PartialEq, Eq, Structural)]
pub enum AdoptResult {
    /// It is the remembered process.
    Adopted,
    /// It is no more.
    Dead,
    /// The number was given to another process.
    Recycled { saved: u64, live: u64 },
}

/// Whether a remembered child can be taken over.
pub open spec fn identified(record: ChildRecord, probe: ProcessProbe) -> Result<
    AdoptResult,
    StatError,
> {
    match probe {
        ProcessProbe::Gone => Ok(AdoptResult::Dead),
        ProcessProbe::Stat(s) => match stat_starttime(s@) {
            Err(e) => Err(e),
            Ok(t) => Ok(
                if t == record.starttime {
                    AdoptResult::Adopted
                } else {
                    AdoptResult::Recycled { saved: record.starttime, live: t as u64 }
                },
            ),
        },
    }
}

/// Decides whether a remembered child can be taken over.
pub fn adopt(record: &ChildRecord, probe: &ProcessProbe) -> (r: Result<AdoptResult, StatError>)
    ensures
        r == identified(*record, *probe),
{
    match probe {
        ProcessProbe::Gone => Ok(AdoptResult::Dead),
        ProcessProbe::Stat(s) => match read_starttime(s.as_str()) {
            Err(e) => Err(e),
            Ok(live) => {
                if live != record.starttime {
                    Ok(AdoptResult::Recycled { saved: record.starttime, live })
                } else {
                    Ok(AdoptResult::Adopted)
                }
            },
        },
    }
}

// ---------------------------------------------------------------------------
// Laws.
// ---------------------------------------------------------------------------
/// Words with a space between neighbours.
pub open spec fn spaced(ws: Seq<Seq<char>>) -> Seq<char>
    decreases ws.len(),
{
    if ws.len() == 0 {
        seq![]
    } else if ws.len() == 1 {
        ws[0]
    } else {
        ws[0] + (" "@ + spaced(ws.skip(1)))
    }
}

/// Whether a text can be a field behind the name: a word without a closing parenthesis.
pub open spec fn is_field(w: Seq<char>) -> bool {
    w.len() > 0 && forall|j: int|
        0 <= j < w.len() ==> !is_white(#[trigger] w[j]) && w[j] != ')'
}

proof fn lemma_spaced(ws: Seq<Seq<char>>)
    requires
        forall|i: int| 0 <= i < ws.len() ==> is_field(#[trigger] ws[i]),
    ensures
        words(spaced(ws)) == ws,
        forall|j: int| 0 <= j < spaced(ws).len() ==> #[trigger] spaced(ws)[j] != ')',
    decreases ws.len(),
{
    reveal_strlit(" ");
    let none = Seq::<char>::empty();
    if ws.len() == 0 {
        assert(words(none) =~= ws);
    } else if ws.len() == 1 {
        assert(is_field(ws[0]));
        lemma_first_word(ws[0], none);
        assert(ws[0] + none =~= ws[0]);
        assert(words(none) =~= seq![]);
        assert(words(ws[0]) =~= ws);
    } else {
        let rest = ws.skip(1);
        assert(is_field(ws[0]));
        assert forall|i: int| 0 <= i < rest.len() implies is_field(#[trigger] rest[i]) by {
            assert(rest[i] == ws[i + 1]);
        }
        lemma_spaced(rest);
        let tail = " "@ + spaced(rest);
        assert(is_white(' '));
        lemma_words_behind_space(spaced(rest));
        lemma_first_word(ws[0], tail);
        assert(seq![ws[0]] + rest =~= ws);
        let all = ws[0] + tail;
        assert forall|j: int| 0 <= j < all.len() implies #[trigger] all[j] != ')' by {
            if j < ws[0].len() {
                assert(all[j] == ws[0][j]);
            } else if j > ws[0].len() {
                assert(all[j] == spaced(rest)[j - ws[0].len() - 1]);
            }
        }
    }
}

/// Whatever a process is called, with spaces and parentheses too, the fields behind its name are
/// found: the time of its start is the twentieth of them, and its time in user and in system mode
/// the twelfth and the thirteenth, which together are its CPU time.
pub proof fn law_status_line_is_read(
    before: Seq<char>,
    fields: Seq<Seq<char>>,
    start: nat,
    user: nat,
    system: nat,
)
    requires
        fields.len() >= 20,
        forall|i: int| 0 <= i < fields.len() ==> is_field(#[trigger] fields[i]),
        start <= u64::MAX,
        user <= u64::MAX,
        system <= u64::MAX,
        fields[19] == decimal(start),
        fields[11] == decimal(user),
        fields[12] == decimal(system),
    ensures
        ({
            let stat = before + ") "@ + spaced(fields);
            &&& stat_starttime(stat) == Ok::<nat, StatError>(start)
            &&& stat_cpu(stat) == Ok::<(nat, nat), StatError>((user, system))
            &&& stat_ticks(stat) == Ok::<nat, StatError>(user + system)
        }),
{
    reveal_strlit(") ");
    let stat = before + ") "@ + spaced(fields);
    let n = before.len() as int;
    lemma_spaced(fields);
    lemma_last_of(stat, ')');
    assert(stat[n] == ')' && stat[n + 1] == ' ');
    assert forall|j: int| n < j < stat.len() implies stat[j] != ')' by {
        if j > n + 1 {
            assert(stat[j] == spaced(fields)[j - n - 2]);
        }
    }
    assert(last_of(stat, ')') == n);
    assert(stat.skip(n + 2) =~= spaced(fields));
    law_numeral_reads_back(start, 10, false, u64::MAX as nat);
    law_numeral_reads_back(user, 10, false, u64::MAX as nat);
    law_numeral_reads_back(system, 10, false, u64::MAX as nat);
}

/// A remembered child is taken over exactly if the process with its number was started when the
/// child was; one that is gone is dead, and one that was started at another time is another process.
pub proof fn law_start_time_identifies(record: ChildRecord, probe: ProcessProbe)
    ensures
        identified(record, probe) == Ok::<AdoptResult, StatError>(AdoptResult::Adopted) <==> (probe
            matches ProcessProbe::Stat(s) && stat_starttime(s@) == Ok::<nat, StatError>(
            record.starttime as nat,
        )),
        identified(record, probe) == Ok::<AdoptResult, StatError>(AdoptResult::Dead) <==> probe
            is Gone,
        (identified(record, probe) matches Ok(AdoptResult::Recycled { saved, live })) ==> (probe
            matches ProcessProbe::Stat(s) && stat_starttime(s@) is Ok && stat_starttime(s@)->Ok_0
            != record.starttime),
{
}

} // verus!
