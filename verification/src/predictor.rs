//! The predictor's sliding window of recent samples per deployment.
use vstd::prelude::*;

verus! {

/// The newest samples of one deployment: the timestamp of the newest one,
/// and its CPU and energy readings, oldest first.
pub struct Window<T> {
    pub last_seen: i64,
    pub cpu: Vec<T>,
    pub joules: Vec<T>,
}

/// A series after one reading was appended and, if it grew past `cap`, its
/// oldest reading dropped.
pub open spec fn slide<T>(s: Seq<T>, x: T, cap: nat) -> Seq<T> {
    if s.len() + 1 > cap {
        s.push(x).drop_first()
    } else {
        s.push(x)
    }
}

impl<T> Window<T> {
    /// An empty window that has seen nothing newer than time zero.
    pub fn new() -> (w: Window<T>)
        ensures
            w.last_seen == 0,
            w.cpu@.len() == 0,
            w.joules@.len() == 0,
    {
        Window { last_seen: 0, cpu: Vec::new(), joules: Vec::new() }
    }

    /// Takes in a sample if it is newer than the newest one seen: records
    /// its time, appends its readings and, when the window then holds more
    /// than `cap` readings, drops the oldest. An older or repeated sample
    /// changes nothing. Returns whether the sample was taken.
    pub fn observe(&mut self, timestamp: i64, cpu: T, joules: T, cap: usize) -> (taken: bool)
        requires
            old(self).cpu@.len() == old(self).joules@.len(),
        ensures
            taken == (timestamp > old(self).last_seen),
            !taken ==> final(self).last_seen == old(self).last_seen && final(self).cpu@ == old(self).cpu@
                && final(self).joules@ == old(self).joules@,
            taken ==> final(self).last_seen == timestamp
                && final(self).cpu@ == slide(old(self).cpu@, cpu, cap as nat)
                && final(self).joules@ == slide(old(self).joules@, joules, cap as nat),
            final(self).cpu@.len() == final(self).joules@.len(),
    {
        if timestamp <= self.last_seen {
            return false;
        }
        self.last_seen = timestamp;
        self.cpu.push(cpu);
        self.joules.push(joules);
        if self.cpu.len() > cap {
            let ghost c = self.cpu@;
            let ghost j = self.joules@;
            self.cpu.remove(0);
            self.joules.remove(0);
            assert(self.cpu@ =~= c.drop_first());
            assert(self.joules@ =~= j.drop_first());
        }
        true
    }
}

/// A window never holds more than `cap` readings once it holds at most
/// `cap`, and its readings are always the newest ones taken, oldest first:
/// the window after a sample is the last readings of the history extended
/// by that sample.
pub proof fn lemma_slide_keeps_newest<T>(s: Seq<T>, x: T, cap: nat, history: Seq<T>)
    requires
        s.len() <= cap,
        s.len() <= history.len(),
        s == history.subrange(history.len() - s.len(), history.len() as int),
    ensures
        slide(s, x, cap).len() <= cap,
        slide(s, x, cap) == history.push(x).subrange(
            history.push(x).len() - slide(s, x, cap).len(),
            history.push(x).len() as int,
        ),
        slide(s, x, cap).len() == if s.len() + 1 > cap { s.len() } else { s.len() + 1 },
{
    let h = history.push(x);
    if s.len() + 1 > cap {
        assert(slide(s, x, cap) =~= h.subrange(h.len() - s.len(), h.len() as int));
    } else {
        assert(slide(s, x, cap) =~= h.subrange(h.len() - s.len() - 1, h.len() as int));
    }
}

} // verus!
