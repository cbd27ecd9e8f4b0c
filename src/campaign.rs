//! The fuzzing loop's decisions: which inputs to keep as crashes, where to keep
//! them, and the cumulative coverage series.
use vstd::prelude::*;
use crate::text::{push_str, push_decimal, decimal};
use crate::compiler::texts;
use crate::fuzzer::Outcome;

verus! {

/// Where a campaign stands.
#[derive(Debug, Clone, Copy, PartialEq, Eq, Structural)]
pub enum Phase {
    Idle,
    Running,
    Complete,
}

/// One point of the cumulative coverage series: after `iteration` executions,
/// `covered` of `total` lines were covered (a zero total means zero percent).
#[derive(Debug, Clone, Copy, PartialEq, Eq, Structural)]
pub struct CoveragePoint {
    pub iteration: usize,
    pub covered: usize,
    pub total: usize,
}

/// The name of the crash file of iteration `index`: `crash_<index>.txt`.
pub open spec fn crash_name(index: nat) -> Seq<char> {
    "crash_"@ + decimal(index) + ".txt"@
}

/// The file name for the crash file of iteration `index`.
pub fn crash_file_name(index: usize) -> (r: String)
    ensures
        r@ == crash_name(index as nat),
{
    let mut s = String::new();
    push_str(&mut s, "crash_");
    push_decimal(&mut s, index as u64);
    push_str(&mut s, ".txt");
    assert(s@ =~= crash_name(index as nat));
    s
}

/// The name of a crash file tagged with an identifier and a Unix time:
/// `crash_<identifier>_<timestamp>.txt`.
pub open spec fn tagged_crash_name(identifier: Seq<char>, timestamp: nat) -> Seq<char> {
    "crash_"@ + identifier + "_"@ + decimal(timestamp) + ".txt"@
}

/// The file name for a crash tagged with `identifier` at Unix time `timestamp`.
pub fn tagged_crash_file_name(identifier: &str, timestamp: u64) -> (r: String)
    ensures
        r@ == tagged_crash_name(identifier@, timestamp as nat),
{
    let mut s = String::new();
    push_str(&mut s, "crash_");
    push_str(&mut s, identifier);
    push_str(&mut s, "_");
    push_decimal(&mut s, timestamp);
    push_str(&mut s, ".txt");
    assert(s@ =~= tagged_crash_name(identifier@, timestamp as nat));
    s
}

/// The inputs of `h` whose execution failed, in order.
pub open spec fn failed_inputs(h: Seq<(Seq<char>, Outcome)>) -> Seq<Seq<char>>
    decreases h.len(),
{
    if h.len() == 0 {
        Seq::<Seq<char>>::empty()
    } else if h.last().1 == Outcome::Fail {
        failed_inputs(h.drop_last()).push(h.last().0)
    } else {
        failed_inputs(h.drop_last())
    }
}

/// A fixed number of iterations of generate, execute, keep crashes, refresh
/// coverage. Each iteration is one `record_execution` and then one
/// `record_coverage`.
pub struct Campaign {
    phase: Phase,
    budget: usize,
    iteration: usize,
    executed: bool,
    crashes: Vec<String>,
    series: Vec<CoveragePoint>,
    history: Ghost<Seq<(Seq<char>, Outcome)>>,
}

impl Campaign {
    pub closed spec fn phase_of(&self) -> Phase {
        self.phase
    }

    /// The number of iterations the campaign runs.
    pub closed spec fn budget_of(&self) -> nat {
        self.budget as nat
    }

    /// The number of iterations finished.
    pub closed spec fn done(&self) -> nat {
        self.iteration as nat
    }

    /// Whether the current iteration has executed its input.
    pub closed spec fn awaiting_coverage(&self) -> bool {
        self.executed
    }

    /// Every input executed so far, with its outcome.
    pub closed spec fn executions(&self) -> Seq<(Seq<char>, Outcome)> {
        self.history@
    }

    /// The inputs kept as crashes.
    pub closed spec fn crash_inputs(&self) -> Seq<Seq<char>> {
        texts(self.crashes@)
    }

    /// The cumulative coverage series.
    pub closed spec fn points(&self) -> Seq<CoveragePoint> {
        self.series@
    }

    pub closed spec fn wf(&self) -> bool {
        &&& self.iteration <= self.budget
        &&& self.phase == Phase::Complete <==> (self.phase != Phase::Idle && self.iteration
            == self.budget)
        &&& self.executed ==> self.phase == Phase::Running
        &&& self.phase == Phase::Idle ==> self.iteration == 0
        &&& self.history@.len() == self.iteration + if self.executed {
            1int
        } else {
            0
        }
        &&& self.series@.len() == self.iteration
        &&& texts(self.crashes@) == failed_inputs(self.history@)
        &&& forall|k: int|
            0 <= k < self.series@.len() ==> (#[trigger] self.series@[k]).iteration == k + 1
    }

    /// A campaign of `budget` iterations that has not started.
    pub fn new(budget: usize) -> (r: Self)
        ensures
            r.wf(),
            r.phase_of() == Phase::Idle,
            r.budget_of() == budget,
            r.done() == 0,
            !r.awaiting_coverage(),
            r.executions().len() == 0,
            r.crash_inputs().len() == 0,
            r.points().len() == 0,
    {
        let r = Campaign {
            phase: Phase::Idle,
            budget,
            iteration: 0,
            executed: false,
            crashes: Vec::new(),
            series: Vec::new(),
            history: Ghost(Seq::empty()),
        };
        assert(texts(r.crashes@) =~= Seq::<Seq<char>>::empty());
        r
    }

    /// Starts the campaign; one with no iterations is complete at once.
    pub fn start(&mut self)
        requires
            old(self).wf(),
            old(self).phase_of() == Phase::Idle,
        ensures
            final(self).wf(),
            final(self).phase_of() == if old(self).budget_of() == 0 {
                Phase::Complete
            } else {
                Phase::Running
            },
            final(self).budget_of() == old(self).budget_of(),
            final(self).done() == old(self).done(),
            final(self).awaiting_coverage() == old(self).awaiting_coverage(),
            final(self).executions() == old(self).executions(),
            final(self).crash_inputs() == old(self).crash_inputs(),
            final(self).points() == old(self).points(),
    {
        if self.budget == 0 {
            self.phase = Phase::Complete;
        } else {
            self.phase = Phase::Running;
        }
    }

    /// Records the outcome of the current iteration's input. A failing input is
    /// kept as a crash, and the name of the file to keep it in is returned.
    pub fn record_execution(&mut self, input: String, outcome: Outcome) -> (r: Option<String>)
        requires
            old(self).wf(),
            old(self).phase_of() == Phase::Running,
            !old(self).awaiting_coverage(),
        ensures
            final(self).wf(),
            final(self).phase_of() == Phase::Running,
            final(self).awaiting_coverage(),
            final(self).budget_of() == old(self).budget_of(),
            final(self).done() == old(self).done(),
            final(self).executions() == old(self).executions().push((input@, outcome)),
            final(self).points() == old(self).points(),
            outcome == Outcome::Fail ==> final(self).crash_inputs() == old(
                self,
            ).crash_inputs().push(input@),
            outcome != Outcome::Fail ==> final(self).crash_inputs() == old(self).crash_inputs(),
            match r {
                Some(name) => outcome == Outcome::Fail && name@ == crash_name(
                    old(self).done(),
                ),
                None => outcome != Outcome::Fail,
            },
    {
        let ghost h = self.history@.push((input@, outcome));
        assert(h.drop_last() =~= self.history@);
        self.history = Ghost(h);
        self.executed = true;
        if outcome == Outcome::Fail {
            let ghost before = self.crashes@;
            let ghost iv = input@;
            self.crashes.push(input);
            assert(texts(self.crashes@) =~= texts(before).push(iv));
            Some(crash_file_name(self.iteration))
        } else {
            None
        }
    }

    /// Records the coverage after the current iteration, `covered` of `total`
    /// lines, and moves to the next iteration; after the last one the campaign
    /// is complete.
    pub fn record_coverage(&mut self, covered: usize, total: usize)
        requires
            old(self).wf(),
            old(self).phase_of() == Phase::Running,
            old(self).awaiting_coverage(),
        ensures
            final(self).wf(),
            !final(self).awaiting_coverage(),
            final(self).budget_of() == old(self).budget_of(),
            final(self).done() == old(self).done() + 1,
            final(self).phase_of() == if final(self).done() == final(self).budget_of() {
                Phase::Complete
            } else {
                Phase::Running
            },
            final(self).executions() == old(self).executions(),
            final(self).crash_inputs() == old(self).crash_inputs(),
            final(self).points() == old(self).points().push(
                CoveragePoint { iteration: (old(self).done() + 1) as usize, covered, total },
            ),
    {
        self.iteration = self.iteration + 1;
        self.executed = false;
        self.series.push(CoveragePoint { iteration: self.iteration, covered, total });
        if self.iteration == self.budget {
            self.phase = Phase::Complete;
        }
    }

    pub fn phase(&self) -> (r: Phase)
        ensures
            r == self.phase_of(),
    {
        self.phase
    }

    /// The number of iterations finished.
    pub fn iteration(&self) -> (r: usize)
        ensures
            r == self.done(),
    {
        self.iteration
    }

    /// The inputs kept as crashes, in the order they were found.
    pub fn crashes(&self) -> (r: &Vec<String>)
        ensures
            texts(r@) == self.crash_inputs(),
    {
        &self.crashes
    }

    /// The cumulative coverage series.
    pub fn series(&self) -> (r: &Vec<CoveragePoint>)
        ensures
            r@ == self.points(),
    {
        &self.series
    }
}

/// In every well-formed campaign the crashes are exactly the failing inputs,
/// in the order they were executed, and there is one coverage point per
/// finished iteration.
pub proof fn lemma_crashes_are_failures(c: Campaign)
    requires
        c.wf(),
    ensures
        c.crash_inputs() == failed_inputs(c.executions()),
        c.points().len() == c.done(),
        c.done() <= c.budget_of(),
{
}

} // verus!
