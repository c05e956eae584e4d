//! Watching for a certificate that was replaced.
use vstd::prelude::*;

verus! {

/// How often the file is looked at, in seconds.
pub const POLL_INTERVAL_SECS: u64 = 60;

/// When a file was last seen changed: seconds and nanoseconds; none if it could not be looked at.
pub struct CertWatcher {
    pub last_mtime: Option<(i64, u32)>,
}

/// Whether a certificate was replaced between two looks at its file.
pub open spec fn replaced(last: Option<(i64, u32)>, current: Option<(i64, u32)>) -> bool {
    last is Some && current != last
}

impl CertWatcher {
    /// Starts from what is there now.
    pub fn new(baseline: Option<(i64, u32)>) -> (r: CertWatcher)
        ensures
            r.last_mtime == baseline,
    {
        CertWatcher { last_mtime: baseline }
    }

    /// Whether the certificate was replaced since the file was last looked at. A file that appears
    /// anew is not taken for a replacement; one that disappears is.
    pub fn on_poll(&mut self, current: Option<(i64, u32)>) -> (r: bool)
        ensures
            r == replaced(old(self).last_mtime, current),
            final(self).last_mtime == current,
    {
        let rotated: bool = match (self.last_mtime, current) {
            (None, _) => false,
            (Some(_), None) => true,
            (Some(a), Some(b)) => a.0 != b.0 || a.1 != b.1,
        };
        self.last_mtime = current;
        rotated
    }
}

/// How many replacements a series of looks reports.
pub open spec fn reported(last: Option<(i64, u32)>, seen: Seq<Option<(i64, u32)>>) -> nat
    decreases seen.len(),
{
    if seen.len() == 0 {
        0
    } else {
        reported(seen[0], seen.skip(1)) + if replaced(last, seen[0]) {
            1nat
        } else {
            0
        }
    }
}

/// As long as the file does not change, nothing is reported.
pub proof fn law_quiet_without_change(last: Option<(i64, u32)>, seen: Seq<Option<(i64, u32)>>)
    requires
        forall|i: int| 0 <= i < seen.len() ==> seen[i] == last,
    ensures
        reported(last, seen) == 0,
    decreases seen.len(),
{
    if seen.len() > 0 {
        assert(seen[0] == last);
        law_quiet_without_change(last, seen.skip(1));
    }
}

/// A replacement is reported exactly once, however often the file is looked at.
pub proof fn law_replacement_is_reported_once(
    before: (i64, u32),
    after: (i64, u32),
    n: nat,
    m: nat,
)
    requires
        before != after,
        m > 0,
    ensures
        reported(
            Some(before),
            Seq::new(n, |i: int| Some(before)) + Seq::new(m, |i: int| Some(after)),
        ) == 1,
    decreases n,
{
    let olds = Seq::new(n, |i: int| Some(before));
    let news = Seq::new(m, |i: int| Some(after));
    let seen = olds + news;
    if n == 0 {
        assert(seen =~= news);
        assert(seen[0] == Some(after));
        law_quiet_without_change(Some(after), news.skip(1));
    } else {
        let fewer = Seq::new((n - 1) as nat, |i: int| Some(before));
        assert(seen[0] == Some(before));
        assert(seen.skip(1) =~= fewer + news);
        law_replacement_is_reported_once(before, after, (n - 1) as nat, m);
    }
}

/// A certificate was replaced exactly if its file was there and is now gone or of another time, be
/// that earlier or later; one that appears is no replacement.
pub proof fn law_other_time_is_a_replacement(a: (i64, u32), b: (i64, u32))
    ensures
        replaced(Some(a), Some(b)) <==> a.0 != b.0 || a.1 != b.1,
        replaced(Some(a), None),
        !replaced(None, Some(b)),
        !replaced(None, None),
{
}

} // verus!
