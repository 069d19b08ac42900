//! How often work that runs in bursts shows itself: on a budget of wall time,
//! since each report costs a repaint.

use vstd::prelude::*;

verus! {

/// How long, in milliseconds of wall time, to go between two reports.
///
/// A long piece of work reports every step, which on a cached repository is a
/// burst far faster than anything can be seen.
pub const REPORT_INTERVAL_MS: u64 = 50;

/// When the last report was made, in milliseconds.
#[derive(Clone, Copy, PartialEq, Eq, Structural, Debug)]
pub struct Pace {
    pub last: u64,
}

/// Whether a report is due.
pub open spec fn due_at(last: u64, now: u64) -> bool {
    now - last >= REPORT_INTERVAL_MS
}

impl Pace {
    pub fn since(last: u64) -> (r: Self)
        ensures
            r.last == last,
    {
        Pace { last }
    }

    /// Whether a report is due at `now`.
    pub fn is_due(&self, now: u64) -> (r: bool)
        ensures
            r == due_at(self.last, now),
    {
        now >= self.last && now - self.last >= REPORT_INTERVAL_MS
    }

    /// Whether a report is due at `now`; one that is counts as made.
    pub fn due(&mut self, now: u64) -> (r: bool)
        ensures
            r == due_at(old(self).last, now),
            final(self).last == (if r {
                now
            } else {
                old(self).last
            }),
    {
        if self.is_due(now) {
            self.last = now;
            true
        } else {
            false
        }
    }
}

/// When the last report was made, after the clock was read at each of `times`.
pub open spec fn last_report(last: u64, times: Seq<u64>) -> u64
    decreases times.len(),
{
    if times.len() == 0 {
        last
    } else {
        let before = last_report(last, times.drop_last());
        if due_at(before, times.last()) {
            times.last()
        } else {
            before
        }
    }
}

/// Whatever the clock read in between, a report is made no sooner than the
/// interval after any report that came before it.
pub proof fn reports_keep_their_distance(last: u64, times: Seq<u64>, i: int, j: int)
    requires
        0 <= i < j < times.len(),
        due_at(last_report(last, times.take(i)), times[i]),
        due_at(last_report(last, times.take(j)), times[j]),
    ensures
        times[j] - times[i] >= REPORT_INTERVAL_MS,
{
    assert(times.take(i + 1).drop_last() =~= times.take(i));
    assert(last_report(last, times.take(i + 1)) == times[i]);
    lemma_last_report_grows(last, times, i + 1, j);
}

proof fn lemma_last_report_grows(last: u64, times: Seq<u64>, i: int, j: int)
    requires
        0 <= i <= j <= times.len(),
    ensures
        last_report(last, times.take(i)) <= last_report(last, times.take(j)),
    decreases j - i,
{
    if i < j {
        lemma_last_report_grows(last, times, i, j - 1);
        assert(times.take(j).drop_last() =~= times.take(j - 1));
    }
}

/// A report is due from fifty milliseconds after the last.
pub proof fn reports_wait_fifty_milliseconds(last: u64, now: u64)
    ensures
        due_at(last, now) <==> now >= last + 50,
{
}

} // verus!
