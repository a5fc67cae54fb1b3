use vstd::prelude::*;

verus! {

/// What came back from the transport for one trial.
#[derive(Clone, Copy, PartialEq, Eq, Structural)]
pub enum Outcome {
    Status(u16),
    /// Timeout, refused connection or malformed response.
    TransportError,
}

/// What the driver of a run does next.
#[derive(Clone, Copy, PartialEq, Eq, Structural)]
pub enum Action {
    /// Sample, build and send trial `trial` of operation `op`.
    Send { op: usize, trial: u32 },
    /// The run is over.
    Done,
}

/// How a run ended.
#[derive(Clone, Copy, PartialEq, Eq, Structural)]
pub enum ExitSignal {
    Clean,
    FindingsPresent,
}

/// `s` is in `ignore`.
pub open spec fn ignored(ignore: Seq<u16>, s: u16) -> bool {
    exists|i: int| 0 <= i < ignore.len() && #[trigger] ignore[i] == s
}

/// An outcome is a finding when its status is not ignored, or, where so
/// configured, when the transport failed.
pub open spec fn finding_spec(ignore: Seq<u16>, errors_are_findings: bool, o: Outcome) -> bool {
    match o {
        Outcome::Status(s) => !ignored(ignore, s),
        Outcome::TransportError => errors_are_findings,
    }
}

/// Classifies one outcome against the ignore set.
pub fn is_finding(ignore: &Vec<u16>, errors_are_findings: bool, o: Outcome) -> (r: bool)
    ensures
        r == finding_spec(ignore@, errors_are_findings, o),
{
    match o {
        Outcome::Status(s) => {
            let mut i: usize = 0;
            while i < ignore.len()
                invariant
                    o == Outcome::Status(s),
                    i <= ignore@.len(),
                    forall|k: int| 0 <= k < i ==> ignore@[k] != s,
                decreases ignore@.len() - i,
            {
                if ignore[i] == s {
                    assert(ignore@[i as int] == s);
                    assert(ignored(ignore@, s));
                    return false;
                }
                i += 1;
            }
            true
        },
        Outcome::TransportError => errors_are_findings,
    }
}

/// The operation × trial loop of a run, as a state machine: the driver asks
/// for the next action, performs it and reports the outcome.
pub struct Engine {
    pub op_count: usize,
    pub max_trials: u32,
    pub ignore: Vec<u16>,
    pub errors_are_findings: bool,
    /// The operation whose trials are under way.
    pub op: usize,
    /// Trials of `op` already run.
    pub trial: u32,
    /// Requests issued so far.
    pub sent: u64,
    pub findings: u64,
    /// A request has been handed out and its outcome not yet reported.
    pub pending: bool,
    /// No further trial is to be started.
    pub cancelled: bool,
    /// Every outcome reported so far, in order.
    pub outcomes: Ghost<Seq<Outcome>>,
}

/// Number of findings among `os`.
pub open spec fn count_findings(ignore: Seq<u16>, e: bool, os: Seq<Outcome>) -> nat
    decreases os.len(),
{
    if os.len() == 0 {
        0
    } else {
        count_findings(ignore, e, os.drop_last()) + if finding_spec(ignore, e, os.last()) {
            1nat
        } else {
            0nat
        }
    }
}

impl Engine {
    pub open spec fn wf(&self) -> bool {
        &&& self.op <= self.op_count
        &&& self.trial <= self.max_trials
        &&& (self.op == self.op_count ==> self.trial == 0)
        &&& (self.max_trials == 0 ==> self.op == self.op_count)
        &&& self.op_count * self.max_trials <= u64::MAX
        &&& self.findings <= self.sent
        &&& self.sent == self.op * self.max_trials + self.trial
        &&& self.outcomes@.len() == self.sent
        &&& self.findings == count_findings(self.ignore@, self.errors_are_findings, self.outcomes@)
        &&& !self.pending
    }

    pub fn new(op_count: usize, max_trials: u32, ignore: Vec<u16>, errors_are_findings: bool) -> (r: Engine)
        requires
            op_count * max_trials <= u64::MAX,
        ensures
            r.wf(),
            r.op_count == op_count,
            r.max_trials == max_trials,
            r.ignore@ == ignore@,
            r.errors_are_findings == errors_are_findings,
            r.sent == 0,
            !r.cancelled,
            r.outcomes@ == Seq::<Outcome>::empty(),
    {
        Engine {
            op_count,
            max_trials,
            ignore,
            errors_are_findings,
            op: if max_trials == 0 { op_count } else { 0 },
            trial: 0,
            sent: 0,
            findings: 0,
            pending: false,
            cancelled: false,
            outcomes: Ghost(Seq::empty()),
        }
    }

    /// Asks that no further trial be started; findings already recorded stay.
    pub fn cancel(&mut self)
        requires
            old(self).wf(),
        ensures
            final(self).wf(),
            final(self).cancelled,
            final(self).op == old(self).op,
            final(self).trial == old(self).trial,
            final(self).sent == old(self).sent,
            final(self).findings == old(self).findings,
            final(self).outcomes@ == old(self).outcomes@,
            final(self).ignore@ == old(self).ignore@,
            final(self).errors_are_findings == old(self).errors_are_findings,
            final(self).op_count == old(self).op_count,
            final(self).max_trials == old(self).max_trials,
    {
        self.cancelled = true;
    }

    /// The next action: the next trial of the current operation, else the
    /// first trial of the next one, else the end of the run; once cancelled,
    /// the end of the run.
    pub fn next_action(&mut self) -> (a: Action)
        requires
            old(self).wf(),
        ensures
            final(self).op_count == old(self).op_count,
            final(self).max_trials == old(self).max_trials,
            final(self).ignore@ == old(self).ignore@,
            final(self).errors_are_findings == old(self).errors_are_findings,
            final(self).sent == old(self).sent,
            final(self).findings == old(self).findings,
            final(self).outcomes@ == old(self).outcomes@,
            final(self).cancelled == old(self).cancelled,
            (!old(self).cancelled && (old(self).sent as int) < old(self).op_count * old(self).max_trials)
                <==> a is Send,
            a is Send ==> {
                &&& final(self).op == a->op
                &&& final(self).trial == a->trial
                &&& a->op < final(self).op_count
                &&& a->trial < final(self).max_trials
                &&& final(self).sent == a->op * final(self).max_trials + a->trial
                &&& final(self).pending
            },
            a is Done ==> final(self).wf() && (old(self).cancelled || final(self).op
                == final(self).op_count),
    {
        if self.cancelled {
            return Action::Done;
        }
        proof {
            let n = self.max_trials as int;
            let k = self.op_count as int;
            let o = self.op as int;
            let t = self.trial as int;
            if o < k {
                assert(o * n + t < k * n <==> (o < k - 1 || t < n)) by (nonlinear_arith)
                    requires
                        0 <= o < k,
                        0 <= t <= n,
                        n > 0,
                ;
            } else {
                assert(o * n + t == k * n);
            }
        }
        if self.op < self.op_count && self.trial == self.max_trials {
            self.op = self.op + 1;
            self.trial = 0;
            proof {
                assert((self.op - 1) * self.max_trials + self.max_trials == self.op * self.max_trials)
                    by (nonlinear_arith);
            }
        }
        if self.op < self.op_count {
            self.pending = true;
            Action::Send { op: self.op, trial: self.trial }
        } else {
            Action::Done
        }
    }

    /// Records the outcome of the request handed out last; returns whether it
    /// is a finding.
    pub fn record(&mut self, o: Outcome) -> (r: bool)
        requires
            old(self).pending,
            old(self).op < old(self).op_count,
            old(self).trial < old(self).max_trials,
            old(self).sent == old(self).op * old(self).max_trials + old(self).trial,
            old(self).outcomes@.len() == old(self).sent,
            old(self).op_count * old(self).max_trials <= u64::MAX,
            old(self).findings <= old(self).sent,
            old(self).findings == count_findings(
                old(self).ignore@,
                old(self).errors_are_findings,
                old(self).outcomes@,
            ),
        ensures
            final(self).wf(),
            r == finding_spec(old(self).ignore@, old(self).errors_are_findings, o),
            final(self).outcomes@ == old(self).outcomes@.push(o),
            final(self).sent == old(self).sent + 1,
            final(self).op == old(self).op,
            final(self).trial == old(self).trial + 1,
            final(self).op_count == old(self).op_count,
            final(self).max_trials == old(self).max_trials,
            final(self).ignore@ == old(self).ignore@,
            final(self).errors_are_findings == old(self).errors_are_findings,
            final(self).cancelled == old(self).cancelled,
    {
        let f = is_finding(&self.ignore, self.errors_are_findings, o);
        proof {
            assert(self.op * self.max_trials + self.trial < self.op_count * self.max_trials)
                by (nonlinear_arith)
                requires
                    self.op < self.op_count,
                    self.trial < self.max_trials,
            ;
        }
        let ghost before = self.outcomes@;
        assert(before.push(o).drop_last() =~= before);
        self.outcomes = Ghost(self.outcomes@.push(o));
        self.trial = self.trial + 1;
        self.sent = self.sent + 1;
        if f {
            self.findings = self.findings + 1;
        }
        self.pending = false;
        f
    }

    /// Clean when no finding was recorded.
    pub fn exit_signal(&self) -> (r: ExitSignal)
        requires
            self.wf(),
        ensures
            r == ExitSignal::FindingsPresent <==> exists|i: int|
                0 <= i < self.outcomes@.len() && finding_spec(
                    self.ignore@,
                    self.errors_are_findings,
                    #[trigger] self.outcomes@[i],
                ),
    {
        proof {
            lemma_count_positive(self.ignore@, self.errors_are_findings, self.outcomes@);
        }
        if self.findings > 0 {
            ExitSignal::FindingsPresent
        } else {
            ExitSignal::Clean
        }
    }
}

/// The count of findings is positive exactly when some outcome is a finding.
pub proof fn lemma_count_positive(ignore: Seq<u16>, e: bool, os: Seq<Outcome>)
    ensures
        count_findings(ignore, e, os) > 0 <==> exists|i: int|
            0 <= i < os.len() && finding_spec(ignore, e, #[trigger] os[i]),
    decreases os.len(),
{
    if os.len() > 0 {
        let init = os.drop_last();
        lemma_count_positive(ignore, e, init);
        if count_findings(ignore, e, init) > 0 {
            let i = choose|i: int| 0 <= i < init.len() && finding_spec(ignore, e, #[trigger] init[i]);
            assert(os[i] == init[i]);
        }
        if exists|i: int| 0 <= i < os.len() && finding_spec(ignore, e, #[trigger] os[i]) {
            let i = choose|i: int| 0 <= i < os.len() && finding_spec(ignore, e, #[trigger] os[i]);
            if i < os.len() - 1 {
                assert(init[i] == os[i]);
            }
        }
    }
}

} // verus!
