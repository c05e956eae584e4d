//! How many pooler workers run.
//!
//! The pooler is single-threaded: one worker saturates one core. Workers are added while each of
//! them is close to that and reaped again when the load would fit into one fewer. The load is the
//! CPU time that the workers used between two samples; it is compared as a ratio of integers, so
//! that nothing is lost to rounding.
use std::collections::HashMap;
use vstd::prelude::*;

verus! {

broadcast use vstd::std_specs::hash::group_hash_axioms;

/// Consecutive hot samples before a worker is added.
pub const SCALE_UP_TICKS: u32 = 2;

/// Consecutive cold samples before a worker is reaped.
pub const SCALE_DOWN_TICKS: u32 = 6;

/// The least time between an action and adding a worker, in nanoseconds.
pub const SCALE_UP_COOLDOWN_NS: u64 = 30_000_000_000;

/// The least time between an action and reaping a worker, in nanoseconds.
pub const SCALE_DOWN_COOLDOWN_NS: u64 = 60_000_000_000;

/// What to do about the number of workers.
#[derive(Clone, Copy, Debug, PartialEq, Eq, Structural)]
pub enum ScaleAction {
    Up,
    Down,
    Hold,
}

/// CPU time used by all workers together: `ticks` of the clock that runs `clk_tck` times a
/// second, within `elapsed_ns` nanoseconds.
#[derive(Clone, Copy, Debug, PartialEq, Eq, Structural)]
pub struct PoolLoad {
    pub ticks: u64,
    pub clk_tck: u32,
    pub elapsed_ns: u64,
}

impl PoolLoad {
    /// The load is a ratio.
    pub open spec fn wf(&self) -> bool {
        self.clk_tck > 0 && self.elapsed_ns > 0
    }

    /// The load in cores is this number ..
    pub open spec fn numerator(&self) -> int {
        self.ticks * 1_000_000_000
    }

    /// .. divided by this one.
    pub open spec fn denominator(&self) -> int {
        self.clk_tck * self.elapsed_ns
    }

    /// Each of `live` workers uses more than three quarters of a core.
    pub open spec fn hot(&self, live: int) -> bool {
        self.numerator() * 4 > self.denominator() * 3 * live
    }

    /// With one worker fewer each would use less than half a core.
    pub open spec fn cold(&self, live: int) -> bool {
        live > 1 && self.numerator() * 2 < self.denominator() * (live - 1)
    }
}

/// One more, as far as the counter reaches.
pub open spec fn counted(streak: u32) -> u32 {
    if streak < u32::MAX {
        (streak + 1) as u32
    } else {
        streak
    }
}

/// The decision and the streaks after it.
pub open spec fn scale_decision(
    load: PoolLoad,
    live: int,
    max: int,
    up_streak: u32,
    down_streak: u32,
    since_ns: u64,
) -> (ScaleAction, u32, u32) {
    let up = if load.hot(live) {
        counted(up_streak)
    } else {
        0
    };
    let down = if load.cold(live) {
        counted(down_streak)
    } else {
        0
    };
    if up >= SCALE_UP_TICKS && live < max && since_ns >= SCALE_UP_COOLDOWN_NS {
        (ScaleAction::Up, 0, 0)
    } else if down >= SCALE_DOWN_TICKS && live > 1 && since_ns >= SCALE_DOWN_COOLDOWN_NS {
        (ScaleAction::Down, 0, 0)
    } else {
        (ScaleAction::Hold, up, down)
    }
}

proof fn lemma_quotient(x: int, d: int, l: int)
    by (nonlinear_arith)
    requires
        d > 0,
        x >= 0,
    ensures
        x / d >= l <==> x >= d * l,
        x / d < l <==> x < d * l,
{
}

impl PoolLoad {
    fn denominator_of(&self) -> (r: u128)
        ensures
            r == self.denominator(),
            r < 0x1_0000_0000_0000_0000_0000_0000,
    {
        assert(self.clk_tck * self.elapsed_ns <= u32::MAX * u64::MAX) by (nonlinear_arith)
            requires
                self.clk_tck <= u32::MAX,
                self.elapsed_ns <= u64::MAX,
        ;
        self.clk_tck as u128 * self.elapsed_ns as u128
    }

    /// Whether each of `live` workers uses more than three quarters of a core.
    pub fn is_hot(&self, live: usize) -> (r: bool)
        requires
            self.wf(),
        ensures
            r == self.hot(live as int),
    {
        let used: u128 = self.ticks as u128 * 4_000_000_000;
        let unit: u128 = self.denominator_of() * 3;
        assert(self.denominator() > 0) by (nonlinear_arith)
            requires
                self.clk_tck > 0,
                self.elapsed_ns > 0,
                self.denominator() == self.clk_tck * self.elapsed_ns,
        ;
        if used == 0 {
            assert(unit * live >= 0) by (nonlinear_arith)
                requires
                    unit >= 0,
                    live >= 0,
            ;
            return false;
        }
        proof {
            lemma_quotient(used - 1, unit as int, live as int);
        }
        (used - 1) / unit >= live as u128
    }

    /// Whether with one worker fewer each would use less than half a core.
    pub fn is_cold(&self, live: usize) -> (r: bool)
        requires
            self.wf(),
        ensures
            r == self.cold(live as int),
    {
        if live <= 1 {
            return false;
        }
        let used: u128 = self.ticks as u128 * 2_000_000_000;
        let unit: u128 = self.denominator_of();
        assert(self.denominator() > 0) by (nonlinear_arith)
            requires
                self.clk_tck > 0,
                self.elapsed_ns > 0,
                self.denominator() == self.clk_tck * self.elapsed_ns,
        ;
        proof {
            lemma_quotient(used as int, unit as int, live - 1);
        }
        used / unit < (live - 1) as u128
    }
}

/// Decides from the load of `live` workers, of at most `max`, the streaks so far and the time
/// since the last action. Returns the action and the streaks after it.
pub fn decide_scale(
    load: &PoolLoad,
    live: usize,
    max: usize,
    up_streak: u32,
    down_streak: u32,
    since_ns: u64,
) -> (r: (ScaleAction, u32, u32))
    requires
        load.wf(),
    ensures
        r == scale_decision(*load, live as int, max as int, up_streak, down_streak, since_ns),
{
    let up: u32 = if load.is_hot(live) {
        up_streak.saturating_add(1)
    } else {
        0
    };
    let down: u32 = if load.is_cold(live) {
        down_streak.saturating_add(1)
    } else {
        0
    };
    if up >= SCALE_UP_TICKS && live < max && since_ns >= SCALE_UP_COOLDOWN_NS {
        return (ScaleAction::Up, 0, 0);
    }
    if down >= SCALE_DOWN_TICKS && live > 1 && since_ns >= SCALE_DOWN_COOLDOWN_NS {
        return (ScaleAction::Down, 0, 0);
    }
    (ScaleAction::Hold, up, down)
}

// ---------------------------------------------------------------------------
// Laws of the decision.
// ---------------------------------------------------------------------------
/// A worker is added only below the ceiling and reaped only while there is another: the number
/// of workers stays between one and the ceiling.
pub proof fn law_workers_stay_in_bounds(
    load: PoolLoad,
    live: int,
    max: int,
    up_streak: u32,
    down_streak: u32,
    since_ns: u64,
)
    requires
        1 <= live <= max,
    ensures
        ({
            let after = live + match scale_decision(
                load,
                live,
                max,
                up_streak,
                down_streak,
                since_ns,
            ).0 {
                ScaleAction::Up => 1int,
                ScaleAction::Down => -1int,
                ScaleAction::Hold => 0int,
            };
            1 <= after <= max
        }),
{
}

/// Nothing is done within the shorter cooldown of an action, and an action starts both streaks
/// anew.
pub proof fn law_cooldown_and_streaks(
    load: PoolLoad,
    live: int,
    max: int,
    up_streak: u32,
    down_streak: u32,
    since_ns: u64,
)
    ensures
        ({
            let (action, up, down) = scale_decision(
                load,
                live,
                max,
                up_streak,
                down_streak,
                since_ns,
            );
            &&& since_ns < SCALE_UP_COOLDOWN_NS ==> action == ScaleAction::Hold
            &&& action != ScaleAction::Hold ==> up == 0 && down == 0
            &&& action == ScaleAction::Down ==> since_ns >= SCALE_DOWN_COOLDOWN_NS
        }),
{
}

/// A load cannot be hot and cold at once: no sample extends both streaks.
pub proof fn law_hot_and_cold_exclude_each_other(load: PoolLoad, live: int)
    requires
        load.wf(),
        live >= 1,
    ensures
        !(load.hot(live) && load.cold(live)),
{
    let n = load.numerator();
    let d = load.denominator();
    assert(!(n * 4 > d * 3 * live && n * 2 < d * (live - 1))) by (nonlinear_arith)
        requires
            d >= 0,
            live >= 1,
    ;
}

/// A worker is added exactly if this very sample and the one before it are hot, there is room for
/// one, and nothing was done for 30 seconds. One is reaped exactly if none is added, this very
/// sample and the five before it are cold, and nothing was done for 60 seconds. A sample is hot if
/// each worker uses more than three quarters of a core, and cold if one worker fewer would use less
/// than half a core each. A sample that is not hot ends the streak of hot ones, and one that is not
/// cold the streak of cold ones; one that is adds to it while nothing is done.
pub proof fn law_action_is_called_for(
    load: PoolLoad,
    live: int,
    max: int,
    up_streak: u32,
    down_streak: u32,
    since_ns: u64,
)
    ensures
        ({
            let (action, up, down) = scale_decision(
                load,
                live,
                max,
                up_streak,
                down_streak,
                since_ns,
            );
            let used = load.ticks * 1_000_000_000;
            let core = load.clk_tck * load.elapsed_ns;
            let hot = used * 4 > core * 3 * live;
            let cold = live > 1 && used * 2 < core * (live - 1);
            &&& action == ScaleAction::Up <==> hot && up_streak >= 1 && live < max && since_ns
                >= 30_000_000_000
            &&& action == ScaleAction::Down <==> action != ScaleAction::Up && cold && down_streak
                >= 5 && since_ns >= 60_000_000_000
            &&& !hot ==> up == 0
            &&& !cold ==> down == 0
            &&& action == ScaleAction::Hold && hot && up_streak < u32::MAX ==> up == up_streak + 1
            &&& action == ScaleAction::Hold && hot && up_streak == u32::MAX ==> up == up_streak
            &&& action == ScaleAction::Hold && cold && down_streak < u32::MAX ==> down
                == down_streak + 1
            &&& action == ScaleAction::Hold && cold && down_streak == u32::MAX ==> down
                == down_streak
            &&& action != ScaleAction::Hold ==> up == 0 && down == 0
        }),
{
}

// ---------------------------------------------------------------------------
// Samples.
// ---------------------------------------------------------------------------
/// A picture of the pooler, for those who ask. Loads are in hundredths of a core.
#[derive(Debug)]
pub struct PoolerStats {
    pub live_workers: u32,
    pub max_workers: u32,
    pub aggregate_centicores: u128,
    pub per_worker_centicores: u128,
    /// All workers that may run do, and they are hot.
    pub at_ceiling: bool,
    /// The last action: `up`, `down`, or nothing yet.
    pub last_action: String,
}

/// A picture of the pooler, without its representation.
pub struct PoolerPicture {
    pub live_workers: int,
    pub max_workers: int,
    pub aggregate_centicores: int,
    pub per_worker_centicores: int,
    pub at_ceiling: bool,
    pub last_action: Seq<char>,
}

impl View for PoolerStats {
    type V = PoolerPicture;

    open spec fn view(&self) -> PoolerPicture {
        PoolerPicture {
            live_workers: self.live_workers as int,
            max_workers: self.max_workers as int,
            aggregate_centicores: self.aggregate_centicores as int,
            per_worker_centicores: self.per_worker_centicores as int,
            at_ceiling: self.at_ceiling,
            last_action: self.last_action@,
        }
    }
}

impl Default for PoolerStats {
    fn default() -> (r: PoolerStats)
        ensures
            r@ == (PoolerPicture {
                live_workers: 0,
                max_workers: 0,
                aggregate_centicores: 0,
                per_worker_centicores: 0,
                at_ceiling: false,
                last_action: seq![],
            }),
    {
        let last_action = String::new();
        assert(last_action@ == Seq::<char>::empty());
        PoolerStats {
            live_workers: 0,
            max_workers: 0,
            aggregate_centicores: 0,
            per_worker_centicores: 0,
            at_ceiling: false,
            last_action,
        }
    }
}

/// The number closest to a ratio; a half goes up.
pub open spec fn rounded(n: int, d: int) -> int {
    (2 * n + d) / (2 * d)
}

/// The picture after a sample.
pub open spec fn picture_after(
    before: PoolerPicture,
    load: PoolLoad,
    live: int,
    max: int,
    action: ScaleAction,
) -> PoolerPicture {
    PoolerPicture {
        live_workers: live,
        max_workers: max,
        aggregate_centicores: rounded(load.numerator() * 100, load.denominator()),
        per_worker_centicores: rounded(load.numerator() * 100, load.denominator() * live),
        at_ceiling: live >= max && load.hot(live),
        last_action: match action {
            ScaleAction::Up => "up"@,
            ScaleAction::Down => "down"@,
            ScaleAction::Hold => before.last_action,
        },
    }
}

/// What samples read: the CPU time of each process so far.
pub open spec fn sampled(samples: Seq<(u32, u64)>) -> Map<u32, u64>
    decreases samples.len(),
{
    if samples.len() == 0 {
        Map::empty()
    } else {
        sampled(samples.drop_last()).insert(samples.last().0, samples.last().1)
    }
}

/// What a process used since the sample before: nothing where there is no such sample, and
/// nothing where its clock went back.
pub open spec fn used_since(prev: Map<u32, u64>, pid: u32, ticks: u64) -> int {
    if prev.contains_key(pid) && ticks > prev[pid] {
        ticks - prev[pid]
    } else {
        0
    }
}

/// What all processes used since the sample before.
pub open spec fn total_used(prev: Map<u32, u64>, samples: Seq<(u32, u64)>) -> int
    decreases samples.len(),
{
    if samples.len() == 0 {
        0
    } else {
        total_used(prev, samples.drop_last()) + used_since(
            prev,
            samples.last().0,
            samples.last().1,
        )
    }
}

/// A part of the sum is no larger than the sum.
proof fn lemma_total_grows(prev: Map<u32, u64>, samples: Seq<(u32, u64)>, k: int)
    requires
        0 <= k <= samples.len(),
    ensures
        0 <= total_used(prev, samples.take(k)) <= total_used(prev, samples),
    decreases samples.len(),
{
    if k < samples.len() {
        lemma_total_grows(prev, samples.drop_last(), k);
        assert(samples.drop_last().take(k) == samples.take(k));
    } else {
        assert(samples.take(k) == samples);
        if samples.len() > 0 {
            lemma_total_grows(prev, samples.drop_last(), k - 1);
        }
    }
}

/// What carries over from sample to sample.
#[derive(Debug)]
pub struct PgbScaler {
    pub clk_tck: u32,
    pub max_workers: usize,
    /// CPU time per process at the last sample. Keyed by process, so that a worker that came or
    /// went in between does not spoil the sum.
    pub prev_ticks: HashMap<u32, u64>,
    /// When the last sample was taken, on a monotonic clock in nanoseconds.
    pub prev_at_ns: Option<u64>,
    pub up_streak: u32,
    pub down_streak: u32,
    /// When the last action was taken.
    pub last_action_at_ns: Option<u64>,
}

/// Whether a scaler for so many workers and such a clock has seen nothing yet.
pub open spec fn is_fresh(s: PgbScaler, max_workers: usize, clk_tck: u32) -> bool {
    &&& s.max_workers == max_workers
    &&& s.clk_tck == clk_tck
    &&& s.prev_ticks@ == Map::<u32, u64>::empty()
    &&& s.prev_at_ns is None
    &&& s.up_streak == 0
    &&& s.down_streak == 0
    &&& s.last_action_at_ns is None
}

/// How much later `now` is than `then`.
pub open spec fn time_since(then: u64, now: u64) -> u64 {
    if now > then {
        (now - then) as u64
    } else {
        0
    }
}

/// What taking a sample comes to: the action, the scaler and the picture after it.
pub open spec fn sample_taken(
    before: PgbScaler,
    after: PgbScaler,
    samples: Seq<(u32, u64)>,
    now_ns: u64,
    action: ScaleAction,
    picture: PoolerPicture,
    picture_then: PoolerPicture,
) -> bool {
    &&& after.clk_tck == before.clk_tck
    &&& after.max_workers == before.max_workers
    &&& after.prev_ticks@ == sampled(samples)
    &&& after.prev_at_ns == Some(now_ns)
    &&& (action, after.up_streak, after.down_streak) == before.decision(samples, now_ns)
    &&& after.last_action_at_ns == (if action == ScaleAction::Hold {
        before.last_action_at_ns
    } else {
        Some(now_ns)
    })
    &&& picture_then == (if before.measurable(samples, now_ns) {
        picture_after(
            picture,
            before.load(samples, now_ns),
            samples.len() as int,
            before.max_workers as int,
            action,
        )
    } else {
        picture
    })
}

impl PgbScaler {
    /// The clock ticks, and the ceiling is within the range of the picture.
    pub open spec fn wf(&self) -> bool {
        self.clk_tck > 0 && self.max_workers <= u32::MAX
    }

    /// The load that samples amount to.
    pub open spec fn load(&self, samples: Seq<(u32, u64)>, now_ns: u64) -> PoolLoad {
        PoolLoad {
            ticks: total_used(self.prev_ticks@, samples) as u64,
            clk_tck: self.clk_tck,
            elapsed_ns: match self.prev_at_ns {
                Some(t) => time_since(t, now_ns),
                None => 0,
            },
        }
    }

    /// The time since the last action; the longest possible one where there was none.
    pub open spec fn since_action(&self, now_ns: u64) -> u64 {
        match self.last_action_at_ns {
            Some(t) => time_since(t, now_ns),
            None => u64::MAX,
        }
    }

    /// Whether the samples say anything: there is a worker, and a sample before.
    pub open spec fn measurable(&self, samples: Seq<(u32, u64)>, now_ns: u64) -> bool {
        self.load(samples, now_ns).elapsed_ns > 0 && samples.len() > 0
    }

    /// The decision that samples lead to.
    pub open spec fn decision(&self, samples: Seq<(u32, u64)>, now_ns: u64) -> (
        ScaleAction,
        u32,
        u32,
    ) {
        if self.measurable(samples, now_ns) {
            scale_decision(
                self.load(samples, now_ns),
                samples.len() as int,
                self.max_workers as int,
                self.up_streak,
                self.down_streak,
                self.since_action(now_ns),
            )
        } else {
            (ScaleAction::Hold, self.up_streak, self.down_streak)
        }
    }

    /// A scaler that has seen nothing yet.
    pub fn new(max_workers: usize, clk_tck: u32) -> (r: PgbScaler)
        requires
            clk_tck > 0,
            max_workers <= u32::MAX,
        ensures
            r.wf(),
            is_fresh(r, max_workers, clk_tck),
    {
        PgbScaler {
            clk_tck,
            max_workers,
            prev_ticks: HashMap::new(),
            prev_at_ns: None,
            up_streak: 0,
            down_streak: 0,
            last_action_at_ns: None,
        }
    }

    /// What all processes used since the sample before, if 64 bits hold it.
    pub fn delta_ticks(&self, samples: &Vec<(u32, u64)>) -> (r: Option<u64>)
        ensures
            match r {
                Some(t) => t == total_used(self.prev_ticks@, samples@),
                None => total_used(self.prev_ticks@, samples@) > u64::MAX,
            },
    {
        let mut sum: u64 = 0;
        assert(samples@.take(0) == Seq::<(u32, u64)>::empty());
        for i in 0..samples.len()
            invariant
                sum == total_used(self.prev_ticks@, samples@.take(i as int)),
        {
            let (pid, ticks) = samples[i];
            let ghost t = samples@.take(i + 1);
            assert(t.drop_last() == samples@.take(i as int));
            assert(t.last() == samples@[i as int]);
            let used: u64 = match self.prev_ticks.get(&pid) {
                Some(prev) => ticks.saturating_sub(*prev),
                None => 0,
            };
            assert(used == used_since(self.prev_ticks@, pid, ticks));
            match sum.checked_add(used) {
                Some(s) => {
                    sum = s;
                },
                None => {
                    proof {
                        lemma_total_grows(self.prev_ticks@, samples@, i + 1);
                    }
                    return None;
                },
            }
        }
        assert(samples@.take(samples@.len() as int) == samples@);
        Some(sum)
    }

    /// Takes a sample: the CPU time of each running worker so far. Decides what to do, remembers
    /// the sample, and updates the picture. The first sample only sets the baseline.
    pub fn tick_with(&mut self, samples: &Vec<(u32, u64)>, now_ns: u64, stats: &mut PoolerStats)
        -> (r: ScaleAction)
        requires
            old(self).wf(),
            samples@.len() <= u32::MAX,
            total_used(old(self).prev_ticks@, samples@) <= u64::MAX,
        ensures
            final(self).wf(),
            sample_taken(
                *old(self),
                *final(self),
                samples@,
                now_ns,
                r,
                old(stats)@,
                final(stats)@,
            ),
    {
        let live: usize = samples.len();
        let ticks: u64 = match self.delta_ticks(samples) {
            Some(t) => t,
            None => 0,
        };
        let mut cur: HashMap<u32, u64> = HashMap::new();
        assert(samples@.take(0) == Seq::<(u32, u64)>::empty());
        for i in 0..samples.len()
            invariant
                cur@ == sampled(samples@.take(i as int)),
        {
            let ghost t = samples@.take(i + 1);
            assert(t.drop_last() == samples@.take(i as int));
            assert(t.last() == samples@[i as int]);
            cur.insert(samples[i].0, samples[i].1);
        }
        assert(samples@.take(samples@.len() as int) == samples@);
        let elapsed_ns: u64 = match self.prev_at_ns {
            Some(t) => now_ns.saturating_sub(t),
            None => 0,
        };
        let since_ns: u64 = match self.last_action_at_ns {
            Some(t) => now_ns.saturating_sub(t),
            None => u64::MAX,
        };
        let load = PoolLoad { ticks, clk_tck: self.clk_tck, elapsed_ns };
        assert(load == self.load(samples@, now_ns));
        self.prev_ticks = cur;
        self.prev_at_ns = Some(now_ns);
        if elapsed_ns == 0 || live == 0 {
            return ScaleAction::Hold;
        }
        let (action, up, down) = decide_scale(
            &load,
            live,
            self.max_workers,
            self.up_streak,
            self.down_streak,
            since_ns,
        );
        self.up_streak = up;
        self.down_streak = down;
        if action != ScaleAction::Hold {
            self.last_action_at_ns = Some(now_ns);
        }
        publish(stats, &load, live, self.max_workers, action);
        action
    }
}

/// Updates the picture.
fn publish(
    stats: &mut PoolerStats,
    load: &PoolLoad,
    live: usize,
    max_workers: usize,
    action: ScaleAction,
)
    requires
        load.wf(),
        1 <= live <= u32::MAX,
        max_workers <= u32::MAX,
    ensures
        final(stats)@ == picture_after(
            old(stats)@,
            *load,
            live as int,
            max_workers as int,
            action,
        ),
{
    let n: u128 = load.ticks as u128 * 100_000_000_000;
    let d: u128 = load.denominator_of();
    assert(load.denominator() > 0) by (nonlinear_arith)
        requires
            load.clk_tck > 0,
            load.elapsed_ns > 0,
            load.denominator() == load.clk_tck * load.elapsed_ns,
    ;
    let twice: u128 = 2 * n / d;
    let l: u128 = live as u128;
    proof {
        lemma_round_per_worker(n as int, d as int, l as int);
        let (wide, unit) = (2 * n as int, d as int);
        assert(wide / unit <= wide) by (nonlinear_arith)
            requires
                unit >= 1,
                wide >= 0,
        ;
    }
    stats.live_workers = live as u32;
    stats.max_workers = max_workers as u32;
    stats.aggregate_centicores = (2 * n + d) / (2 * d);
    stats.per_worker_centicores = (twice + l) / (2 * l);
    stats.at_ceiling = live >= max_workers && load.is_hot(live);
    match action {
        ScaleAction::Up => {
            stats.last_action = crate::text::copy_str("up");
        },
        ScaleAction::Down => {
            stats.last_action = crate::text::copy_str("down");
        },
        ScaleAction::Hold => {},
    }
}

/// Rounding the share of each worker can start from the whole part of twice the total.
proof fn lemma_round_per_worker(n: int, d: int, l: int)
    requires
        n >= 0,
        d > 0,
        l > 0,
    ensures
        (2 * n / d + l) / (2 * l) == rounded(n, d * l),
{
    let x = 2 * n + d * l;
    assert(x / d == 2 * n / d + l) by {
        vstd::arithmetic::div_mod::lemma_hoist_over_denominator(2 * n, l, d as nat);
        assert(d * l == l * d) by (nonlinear_arith);
    }
    assert(x >= 0) by (nonlinear_arith)
        requires
            x == 2 * n + d * l,
            n >= 0,
            d > 0,
            l > 0,
    ;
    vstd::arithmetic::div_mod::lemma_div_denominator(x, d, 2 * l);
    assert(d * (2 * l) == 2 * (d * l)) by (nonlinear_arith);
}

// ---------------------------------------------------------------------------
// Laws of sampling.
// ---------------------------------------------------------------------------
/// A worker that was not there at the sample before adds nothing, however high its clock stands.
pub proof fn law_new_worker_adds_nothing(
    prev: Map<u32, u64>,
    samples: Seq<(u32, u64)>,
    pid: u32,
    ticks: u64,
)
    requires
        !prev.contains_key(pid),
    ensures
        total_used(prev, samples.push((pid, ticks))) == total_used(prev, samples),
{
    assert(samples.push((pid, ticks)).drop_last() == samples);
}

/// The time that processes have used in all, as the samples tell it.
pub open spec fn time_now(samples: Seq<(u32, u64)>) -> int
    decreases samples.len(),
{
    if samples.len() == 0 {
        0
    } else {
        time_now(samples.drop_last()) + samples.last().1
    }
}

/// The time that the same processes had used in all at the sample before.
pub open spec fn time_then(prev: Map<u32, u64>, samples: Seq<(u32, u64)>) -> int
    decreases samples.len(),
{
    if samples.len() == 0 {
        0
    } else {
        time_then(prev, samples.drop_last()) + prev[samples.last().0]
    }
}

/// Where all workers were there at the sample before, and no clock went back, the load is the
/// difference of the two samples.
pub proof fn law_load_is_the_difference(prev: Map<u32, u64>, samples: Seq<(u32, u64)>)
    requires
        forall|i: int|
            0 <= i < samples.len() ==> prev.contains_key((#[trigger] samples[i]).0)
                && prev[samples[i].0] <= samples[i].1,
    ensures
        total_used(prev, samples) == time_now(samples) - time_then(prev, samples),
    decreases samples.len(),
{
    if samples.len() > 0 {
        let rest = samples.drop_last();
        assert forall|i: int| 0 <= i < rest.len() implies prev.contains_key((#[trigger] rest[i]).0)
            && prev[rest[i].0] <= rest[i].1 by {
            assert(rest[i] == samples[i]);
        }
        law_load_is_the_difference(prev, rest);
        let last = samples[samples.len() - 1];
        assert(prev.contains_key(last.0));
    }
}

/// A worker whose clock went back, as that of a process with a number that was used before, adds
/// nothing either.
pub proof fn law_earlier_clock_adds_nothing(
    prev: Map<u32, u64>,
    samples: Seq<(u32, u64)>,
    pid: u32,
    ticks: u64,
)
    requires
        prev.contains_key(pid),
        ticks <= prev[pid],
    ensures
        total_used(prev, samples.push((pid, ticks))) == total_used(prev, samples),
{
    assert(samples.push((pid, ticks)).drop_last() == samples);
}

/// Each sample is remembered for the next one, process by process: what is known afterwards of a
/// process is what this sample told of it, and of no other process anything is known.
pub proof fn law_sample_is_remembered(samples: Seq<(u32, u64)>, pid: u32)
    requires
        forall|i: int, j: int|
            0 <= i < j < samples.len() ==> (#[trigger] samples[i]).0 != (#[trigger] samples[j]).0,
    ensures
        forall|i: int|
            0 <= i < samples.len() ==> sampled(samples).contains_key((#[trigger] samples[i]).0)
                && sampled(samples)[samples[i].0] == samples[i].1,
        sampled(samples).contains_key(pid) ==> exists|i: int|
            0 <= i < samples.len() && (#[trigger] samples[i]).0 == pid,
    decreases samples.len(),
{
    if samples.len() > 0 {
        let rest = samples.drop_last();
        assert forall|i: int, j: int| 0 <= i < j < rest.len() implies (#[trigger] rest[i]).0 != (
        #[trigger] rest[j]).0 by {
            assert(samples[i].0 != samples[j].0);
        }
        law_sample_is_remembered(rest, pid);
        let last = samples[samples.len() - 1];
        assert forall|i: int| 0 <= i < samples.len() implies sampled(samples).contains_key(
            (#[trigger] samples[i]).0,
        ) && sampled(samples)[samples[i].0] == samples[i].1 by {
            if i < rest.len() {
                assert(rest[i] == samples[i]);
                assert(samples[i].0 != last.0);
            }
        }
        if sampled(samples).contains_key(pid) {
            if pid == last.0 {
                assert(samples[samples.len() - 1].0 == pid);
            } else {
                let i = choose|i: int| 0 <= i < rest.len() && (#[trigger] rest[i]).0 == pid;
                assert(samples[i].0 == pid);
            }
        }
    }
}

/// The first sample, a sample without workers, and one without time passed change nothing but what
/// is remembered: nothing is done, and the picture and the streaks stay.
pub proof fn law_baseline_does_nothing(
    before: PgbScaler,
    after: PgbScaler,
    samples: Seq<(u32, u64)>,
    now_ns: u64,
    action: ScaleAction,
    picture: PoolerPicture,
    picture_then: PoolerPicture,
)
    requires
        sample_taken(before, after, samples, now_ns, action, picture, picture_then),
        samples.len() == 0 || before.prev_at_ns is None || now_ns <= before.prev_at_ns->0,
    ensures
        action == ScaleAction::Hold,
        picture_then == picture,
        after.up_streak == before.up_streak,
        after.down_streak == before.down_streak,
        after.last_action_at_ns == before.last_action_at_ns,
        after.prev_at_ns == Some(now_ns),
{
}

/// What is published after a sample that can be judged: the number of workers and the ceiling, the
/// load of all and of each rounded to the nearest hundredth of a core, whether workers that cannot
/// become more are hot, and the action, unless there was none.
pub proof fn law_picture_shows_the_sample(
    before: PgbScaler,
    after: PgbScaler,
    samples: Seq<(u32, u64)>,
    now_ns: u64,
    action: ScaleAction,
    picture: PoolerPicture,
    picture_then: PoolerPicture,
)
    requires
        before.wf(),
        sample_taken(before, after, samples, now_ns, action, picture, picture_then),
        samples.len() > 0,
        before.prev_at_ns matches Some(t) && t < now_ns,
        total_used(before.prev_ticks@, samples) <= u64::MAX,
    ensures
        ({
            let live = samples.len() as int;
            let used = total_used(before.prev_ticks@, samples) * 1_000_000_000;
            let core = before.clk_tck * (now_ns - before.prev_at_ns->0);
            &&& picture_then.live_workers == live
            &&& picture_then.max_workers == before.max_workers
            &&& -core < 2 * (picture_then.aggregate_centicores * core - 100 * used) <= core
            &&& -(core * live) < 2 * (picture_then.per_worker_centicores * (core * live) - 100
                * used) <= core * live
            &&& picture_then.at_ceiling <==> live >= before.max_workers && used * 4 > core * 3
                * live
            &&& action == ScaleAction::Up ==> picture_then.last_action == "up"@
            &&& action == ScaleAction::Down ==> picture_then.last_action == "down"@
            &&& action == ScaleAction::Hold ==> picture_then.last_action == picture.last_action
        }),
{
    let live = samples.len() as int;
    let load = before.load(samples, now_ns);
    lemma_total_grows(before.prev_ticks@, samples, samples.len() as int);
    assert(samples.take(samples.len() as int) == samples);
    let used = load.numerator();
    let core = load.denominator();
    assert(core > 0) by (nonlinear_arith)
        requires
            core == load.clk_tck * load.elapsed_ns,
            load.clk_tck > 0,
            load.elapsed_ns > 0,
    ;
    assert(core * live > 0) by (nonlinear_arith)
        requires
            core > 0,
            live > 0,
    ;
    lemma_rounded(used * 100, core);
    lemma_rounded(used * 100, core * live);
}

proof fn lemma_rounded(n: int, d: int)
    requires
        n >= 0,
        d > 0,
    ensures
        -d < 2 * (rounded(n, d) * d - n) <= d,
{
    let q = rounded(n, d);
    assert(q * (2 * d) <= 2 * n + d < (q + 1) * (2 * d)) by (nonlinear_arith)
        requires
            q == (2 * n + d) / (2 * d),
            d > 0,
            n >= 0,
    ;
    assert(q * (2 * d) == 2 * (q * d)) by (nonlinear_arith);
    assert((q + 1) * (2 * d) == 2 * (q * d) + 2 * d) by (nonlinear_arith);
}

/// Where a sample led to an action, the next one adds a worker only if it is taken at least 30
/// seconds later, and reaps one only at least 60 seconds later.
pub proof fn law_actions_are_apart(
    first: PgbScaler,
    second: PgbScaler,
    third: PgbScaler,
    samples: Seq<(u32, u64)>,
    more: Seq<(u32, u64)>,
    then_ns: u64,
    now_ns: u64,
    a: ScaleAction,
    b: ScaleAction,
    p: PoolerPicture,
    q: PoolerPicture,
    r: PoolerPicture,
)
    requires
        sample_taken(first, second, samples, then_ns, a, p, q),
        sample_taken(second, third, more, now_ns, b, q, r),
        a != ScaleAction::Hold,
    ensures
        b == ScaleAction::Up ==> now_ns >= then_ns + 30_000_000_000,
        b == ScaleAction::Down ==> now_ns >= then_ns + 60_000_000_000,
{
}

/// A sample is remembered with its time, and changes neither the clock nor the ceiling; the time of the
/// last action is that of this sample exactly if there was one.
pub proof fn law_sample_keeps_the_settings(
    before: PgbScaler,
    after: PgbScaler,
    samples: Seq<(u32, u64)>,
    now_ns: u64,
    action: ScaleAction,
    picture: PoolerPicture,
    picture_then: PoolerPicture,
)
    requires
        sample_taken(before, after, samples, now_ns, action, picture, picture_then),
    ensures
        after.clk_tck == before.clk_tck,
        after.max_workers == before.max_workers,
        after.prev_ticks@ == sampled(samples),
        after.prev_at_ns == Some(now_ns),
        action != ScaleAction::Hold ==> after.last_action_at_ns == Some(now_ns),
        action == ScaleAction::Hold ==> after.last_action_at_ns == before.last_action_at_ns,
{
}

/// A scaler that has seen nothing does nothing on its first sample, whatever that says, nor on its second
/// one, since a single sample that can be judged is not enough; after that no cooldown holds it up.
pub proof fn law_fresh_scaler_waits(
    fresh: PgbScaler,
    second: PgbScaler,
    third: PgbScaler,
    max_workers: usize,
    clk_tck: u32,
    first: Seq<(u32, u64)>,
    more: Seq<(u32, u64)>,
    then_ns: u64,
    now_ns: u64,
    a: ScaleAction,
    b: ScaleAction,
    p: PoolerPicture,
    q: PoolerPicture,
    r: PoolerPicture,
)
    requires
        is_fresh(fresh, max_workers, clk_tck),
        sample_taken(fresh, second, first, then_ns, a, p, q),
        sample_taken(second, third, more, now_ns, b, q, r),
    ensures
        a == ScaleAction::Hold && q == p,
        b == ScaleAction::Hold,
        third.last_action_at_ns is None,
        third.max_workers == max_workers && third.clk_tck == clk_tck,
        third.since_action(now_ns) == u64::MAX,
        third.up_streak <= 1 && third.down_streak <= 1,
{
}

} // verus!
