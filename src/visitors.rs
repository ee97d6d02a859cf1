use vstd::prelude::*;

verus! {

/// A process-wide count of requests to the visitor-count endpoint.
pub struct VisitorCounter {
    count: u64,
}

/// The count after one increment; a count that has reached `u64::MAX`
/// stays there, and the increment is refused.
pub open spec fn bumped(count: u64) -> u64 {
    if count < u64::MAX {
        (count + 1) as u64
    } else {
        count
    }
}

/// The count after `n` increments, one after another, from `count`.
pub open spec fn bumped_times(count: u64, n: nat) -> u64
    decreases n,
{
    if n == 0 {
        count
    } else {
        bumped(bumped_times(count, (n - 1) as nat))
    }
}

impl VisitorCounter {
    /// The current count.
    pub closed spec fn value(&self) -> u64 {
        self.count
    }

    /// A counter at zero.
    pub fn new() -> (r: VisitorCounter)
        ensures
            r.value() == 0,
    {
        VisitorCounter { count: 0 }
    }

    /// The current count.
    pub fn get(&self) -> (r: u64)
        ensures
            r == self.value(),
    {
        self.count
    }

    /// Adds one visit and returns the new count, or `None`, leaving the
    /// count unchanged, when it cannot grow any further.
    pub fn increment_and_get(&mut self) -> (r: Option<u64>)
        ensures
            final(self).value() == bumped(old(self).value()),
            r == if old(self).value() < u64::MAX {
                Some(final(self).value())
            } else {
                None::<u64>
            },
    {
        if self.count < u64::MAX {
            self.count = self.count + 1;
            Some(self.count)
        } else {
            None
        }
    }
}

/// No visit is lost or counted twice: `n` increments, whichever callers
/// make them and in whatever order an exclusive lock lets them through,
/// leave the count exactly `n` above where it started, and the `k`-th of
/// them hands back `start + k`.
pub proof fn lemma_increments_accumulate(start: u64, n: nat)
    requires
        start + n <= u64::MAX,
    ensures
        bumped_times(start, n) == start + n,
        forall|k: nat| 0 < k <= n ==> #[trigger] bumped_times(start, k) == start + k,
    decreases n,
{
    if n > 0 {
        lemma_increments_accumulate(start, (n - 1) as nat);
        assert(bumped_times(start, n) == start + n);
    }
}

} // verus!
