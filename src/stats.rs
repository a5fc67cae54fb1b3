use vstd::prelude::*;

verus! {

/// Per-operation trial durations, in microseconds, in the order recorded.
/// When disabled, recording changes nothing.
pub struct RunStats {
    pub enabled: bool,
    pub times: Vec<Vec<u64>>,
}

impl View for RunStats {
    type V = Seq<Seq<u64>>;

    open spec fn view(&self) -> Seq<Seq<u64>> {
        self.times@.map_values(|t: Vec<u64>| t@)
    }
}

impl RunStats {
    /// Empty statistics for `op_count` operations.
    pub fn new(op_count: usize, enabled: bool) -> (r: RunStats)
        ensures
            r.enabled == enabled,
            r@.len() == op_count,
            forall|i: int| 0 <= i < op_count ==> #[trigger] r@[i].len() == 0,
    {
        let mut times: Vec<Vec<u64>> = Vec::new();
        while times.len() < op_count
            invariant
                times@.len() <= op_count,
                forall|i: int| 0 <= i < times@.len() ==> #[trigger] times@[i]@.len() == 0,
            decreases op_count - times@.len(),
        {
            times.push(Vec::new());
        }
        RunStats { enabled, times }
    }

    /// Appends one duration to the sequence of operation `op`.
    pub fn record(&mut self, op: usize, micros: u64)
        requires
            op < old(self)@.len(),
        ensures
            final(self).enabled == old(self).enabled,
            !old(self).enabled ==> final(self)@ == old(self)@,
            old(self).enabled ==> final(self)@ == old(self)@.update(op as int, old(self)@[op as int].push(micros)),
    {
        if self.enabled {
            let ghost before = self@;
            let mut row: Vec<u64> = Vec::new();
            std::mem::swap(&mut row, &mut self.times[op]);
            row.push(micros);
            std::mem::swap(&mut row, &mut self.times[op]);
            assert(self@ =~= before.update(op as int, before[op as int].push(micros)));
        }
    }
}

} // verus!
