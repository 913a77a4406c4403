use vstd::prelude::*;
use crate::offset::{ClockError, ClockOffset, offset_of};
use crate::policy::{Policy, advance_ramp, ramp, ramp_step};

verus! {

/// What the scheduler last asked for, or that it has stopped.
#[derive(Clone, Copy, Debug, PartialEq, Eq, Structural)]
pub enum Phase {
    /// Nothing has been asked for yet.
    Idle,
    /// The last command was `Apply`.
    Applied,
    /// The last command was `Sleep`.
    Slept,
    /// The one-shot adjustment is done; the run is over.
    Finished,
    /// A clock operation failed; the run is over.
    Aborted { error: ClockError },
}

/// What the driver of the scheduler is to do next.
#[derive(Clone, Copy, Debug, PartialEq, Eq, Structural)]
pub enum Command {
    /// Shift the system clock forward by `offset`.
    Apply { offset: ClockOffset },
    /// Wait for `pause` before the next tick.
    Sleep { pause: ClockOffset },
    /// Stop: the run ended normally.
    Finish,
    /// Stop: the run failed with `error`.
    Abort { error: ClockError },
}

/// The adjustment scheduler: a policy, the offset applied last (for a ramp, the
/// current step), and where the run stands.
pub struct Scheduler {
    pub policy: Policy,
    pub current: ClockOffset,
    pub phase: Phase,
    /// How many times a linear ramp has advanced.
    pub advances: Ghost<nat>,
}

impl Policy {
    /// Whether `sample` is an offset the policy may draw: inside `[low, high)`
    /// for a random policy; any offset for the others, which draw none.
    pub open spec fn admits(self, sample: ClockOffset) -> bool {
        match self {
            Policy::Random { low, high, .. } => sample.wf() && low@ <= sample@ && sample@ < high@,
            _ => true,
        }
    }
}

/// Relies on rand 0.8's `Uniform` over `std::time::Duration`: a value sampled from
/// `Uniform::from(low..high)` lies in `[low, high)`. `Uniform::from` panics where
/// `low >= high`.
#[verifier::external_body]
fn draw_uniform(low: &ClockOffset, high: &ClockOffset) -> (r: ClockOffset)
    requires
        low.wf(),
        high.wf(),
        low@ < high@,
    ensures
        r.wf(),
        low@ <= r@,
        r@ < high@,
{
    let range = std::time::Duration::new(low.secs, low.nanos)..std::time::Duration::new(high.secs, high.nanos);
    let uniform = rand::distributions::Uniform::from(range);
    let d = rand::distributions::Distribution::sample(&uniform, &mut rand::thread_rng());
    ClockOffset { secs: d.as_secs(), nanos: d.subsec_nanos() }
}

impl Scheduler {
    /// The policy holds, the offsets are normalized, a ramp stands at the step
    /// that its advances give, a random policy's last draw lies in its range,
    /// and only a one-shot policy finishes.
    pub open spec fn wf(self) -> bool {
        &&& self.policy.wf()
        &&& self.current.wf()
        &&& match self.policy {
            Policy::Oneshot { offset } => self.current == offset && self.phase != Phase::Slept,
            Policy::Linear { start, end, increment, .. } => {
                &&& self.current@ == ramp(start@, end@, increment@, self.advances@)
                &&& self.phase != Phase::Finished
            },
            Policy::Random { .. } => {
                &&& self.policy.admits(self.current)
                &&& self.phase != Phase::Finished
            },
        }
    }

    /// The scheduler before its first tick.
    pub open spec fn initial(policy: Policy) -> Scheduler {
        Scheduler {
            policy,
            current: match policy {
                Policy::Oneshot { offset } => offset,
                Policy::Linear { start, .. } => start,
                Policy::Random { low, .. } => low,
            },
            phase: Phase::Idle,
            advances: Ghost(0),
        }
    }

    /// The next state and command, given the outcome `done` of the previous
    /// command and, for a random policy, a fresh draw `sample`. A failure ends
    /// the run at once; an ended run stays ended. Otherwise the phases cycle
    /// apply, sleep, apply, ... (a one-shot policy finishes after its one apply),
    /// and each apply after a sleep takes the ramp's next step or the new draw.
    pub open spec fn transition(self, done: Result<(), ClockError>, sample: ClockOffset) -> (Scheduler, Command) {
        match self.phase {
            Phase::Finished => (self, Command::Finish),
            Phase::Aborted { error } => (self, Command::Abort { error }),
            _ => match done {
                Err(error) => (
                    Scheduler { policy: self.policy, current: self.current, phase: Phase::Aborted { error }, advances: self.advances },
                    Command::Abort { error },
                ),
                Ok(_) => match self.phase {
                    Phase::Idle => {
                        let offset = match self.policy {
                            Policy::Random { .. } => sample,
                            _ => self.current,
                        };
                        (
                            Scheduler { policy: self.policy, current: offset, phase: Phase::Applied, advances: self.advances },
                            Command::Apply { offset },
                        )
                    },
                    Phase::Applied => match self.policy {
                        Policy::Oneshot { .. } => (
                            Scheduler { policy: self.policy, current: self.current, phase: Phase::Finished, advances: self.advances },
                            Command::Finish,
                        ),
                        Policy::Linear { tick, .. } => (
                            Scheduler { policy: self.policy, current: self.current, phase: Phase::Slept, advances: self.advances },
                            Command::Sleep { pause: tick },
                        ),
                        Policy::Random { tick, .. } => (
                            Scheduler { policy: self.policy, current: self.current, phase: Phase::Slept, advances: self.advances },
                            Command::Sleep { pause: tick },
                        ),
                    },
                    _ => match self.policy {
                        Policy::Linear { end, increment, .. } => {
                            let next = offset_of(ramp_step(self.current@, increment@, end@));
                            (
                                Scheduler {
                                    policy: self.policy,
                                    current: next,
                                    phase: Phase::Applied,
                                    advances: Ghost(self.advances@ + 1),
                                },
                                Command::Apply { offset: next },
                            )
                        },
                        Policy::Random { .. } => (
                            Scheduler { policy: self.policy, current: sample, phase: Phase::Applied, advances: self.advances },
                            Command::Apply { offset: sample },
                        ),
                        Policy::Oneshot { .. } => (
                            Scheduler { policy: self.policy, current: self.current, phase: Phase::Finished, advances: self.advances },
                            Command::Finish,
                        ),
                    },
                },
            },
        }
    }

    /// A scheduler for `policy`, before its first tick.
    pub fn new(policy: Policy) -> (r: Scheduler)
        requires
            policy.wf(),
        ensures
            r == Scheduler::initial(policy),
            r.wf(),
    {
        let current = match policy {
            Policy::Oneshot { offset } => offset,
            Policy::Linear { start, .. } => start,
            Policy::Random { low, .. } => low,
        };
        Scheduler { policy, current, phase: Phase::Idle, advances: Ghost(0) }
    }

    /// Takes one step: `done` is the outcome of the previous command (`Ok` to
    /// begin), and `sample` the offset drawn for this tick where the policy is
    /// random (ignored otherwise).
    pub fn step_with(&mut self, done: Result<(), ClockError>, sample: ClockOffset) -> (r: Command)
        requires
            old(self).wf(),
            old(self).policy.admits(sample),
        ensures
            (*final(self), r) == old(self).transition(done, sample),
            final(self).wf(),
    {
        match self.phase {
            Phase::Finished => Command::Finish,
            Phase::Aborted { error } => Command::Abort { error },
            _ => match done {
                Err(error) => {
                    self.phase = Phase::Aborted { error };
                    Command::Abort { error }
                },
                Ok(_) => match self.phase {
                    Phase::Idle => {
                        let offset = match self.policy {
                            Policy::Random { .. } => sample,
                            _ => self.current,
                        };
                        self.current = offset;
                        self.phase = Phase::Applied;
                        Command::Apply { offset }
                    },
                    Phase::Applied => match self.policy {
                        Policy::Oneshot { .. } => {
                            self.phase = Phase::Finished;
                            Command::Finish
                        },
                        Policy::Linear { tick, .. } => {
                            self.phase = Phase::Slept;
                            Command::Sleep { pause: tick }
                        },
                        Policy::Random { tick, .. } => {
                            self.phase = Phase::Slept;
                            Command::Sleep { pause: tick }
                        },
                    },
                    _ => match self.policy {
                        Policy::Linear { end, increment, .. } => {
                            let next = advance_ramp(&self.current, &increment, &end);
                            self.current = next;
                            self.phase = Phase::Applied;
                            self.advances = Ghost(self.advances@ + 1);
                            Command::Apply { offset: next }
                        },
                        Policy::Random { .. } => {
                            self.current = sample;
                            self.phase = Phase::Applied;
                            Command::Apply { offset: sample }
                        },
                        Policy::Oneshot { .. } => {
                            self.phase = Phase::Finished;
                            Command::Finish
                        },
                    },
                },
            },
        }
    }

    /// Takes one step, drawing the offset of this tick uniformly from
    /// `[low, high)` where the policy is random.
    pub fn step(&mut self, done: Result<(), ClockError>) -> (r: Command)
        requires
            old(self).wf(),
        ensures
            final(self).wf(),
            exists|sample: ClockOffset|
                old(self).policy.admits(sample) && (*final(self), r) == #[trigger] old(self).transition(done, sample),
    {
        let sample = match self.policy {
            Policy::Random { low, high, .. } => {
                if done.is_ok() && (self.phase == Phase::Idle || self.phase == Phase::Slept) {
                    draw_uniform(&low, &high)
                } else {
                    self.current
                }
            },
            _ => self.current,
        };
        self.step_with(done, sample)
    }
}

} // verus!

verus! {

/// The inputs of a run: for each step, the outcome of the previous command and
/// the offset drawn for that tick.
pub type Inputs = Seq<(Result<(), ClockError>, ClockOffset)>;

/// The commands that the scheduler `s` issues, one for each input.
pub open spec fn run(s: Scheduler, inputs: Inputs) -> Seq<Command>
    decreases inputs.len(),
{
    if inputs.len() == 0 {
        Seq::empty()
    } else {
        let (next, c) = s.transition(inputs[0].0, inputs[0].1);
        seq![c] + run(next, inputs.drop_first())
    }
}

/// Every draw among `inputs` is one that `policy` may make.
pub open spec fn all_admitted(policy: Policy, inputs: Inputs) -> bool {
    forall|i: int| 0 <= i < inputs.len() ==> policy.admits(#[trigger] inputs[i].1)
}

/// A run issues one command for each input; the first is that of the first
/// step, the others those of the run from the state after it.
proof fn lemma_run_unfold(s: Scheduler, inputs: Inputs)
    requires
        inputs.len() > 0,
    ensures
        run(s, inputs).len() == inputs.len(),
        run(s, inputs)[0] == s.transition(inputs[0].0, inputs[0].1).1,
        forall|j: int| 0 < j < inputs.len() ==> run(s, inputs)[j]
            == #[trigger] run(s.transition(inputs[0].0, inputs[0].1).0, inputs.drop_first())[j - 1],
{
    lemma_run_len(s.transition(inputs[0].0, inputs[0].1).0, inputs.drop_first());
}

proof fn lemma_run_len(s: Scheduler, inputs: Inputs)
    ensures
        run(s, inputs).len() == inputs.len(),
    decreases inputs.len(),
{
    if inputs.len() > 0 {
        lemma_run_len(s.transition(inputs[0].0, inputs[0].1).0, inputs.drop_first());
    }
}

/// A step keeps the policy and the scheduler's invariant.
proof fn lemma_transition_wf(s: Scheduler, done: Result<(), ClockError>, sample: ClockOffset)
    requires
        s.wf(),
        s.policy.admits(sample),
    ensures
        s.transition(done, sample).0.wf(),
        s.transition(done, sample).0.policy == s.policy,
{
    if let Policy::Linear { start, end, increment, .. } = s.policy {
        crate::policy::lemma_ramp_monotone(start@, end@, increment@, s.advances@, s.advances@);
        crate::offset::lemma_offset_of_nanos(ramp_step(s.current@, increment@, end@));
    }
}

proof fn lemma_admitted_rest(policy: Policy, inputs: Inputs)
    requires
        inputs.len() > 0,
        all_admitted(policy, inputs),
    ensures
        policy.admits(inputs[0].1),
        all_admitted(policy, inputs.drop_first()),
{
    assert(policy.admits(inputs[0].1));
    assert forall|i: int| 0 <= i < inputs.drop_first().len() implies policy.admits(
        #[trigger] inputs.drop_first()[i].1,
    ) by {
        assert(inputs.drop_first()[i] == inputs[i + 1]);
    }
}

/// Once aborted, a scheduler answers every input with the same `Abort`.
proof fn lemma_aborted_stays(s: Scheduler, inputs: Inputs, error: ClockError)
    requires
        s.phase == (Phase::Aborted { error }),
    ensures
        forall|j: int| 0 <= j < inputs.len() ==> #[trigger] run(s, inputs)[j] == (Command::Abort { error }),
    decreases inputs.len(),
{
    if inputs.len() > 0 {
        lemma_run_unfold(s, inputs);
        lemma_aborted_stays(s, inputs.drop_first(), error);
    }
}

/// A repeating run stops at the first failed clock operation: the command
/// answering that failure, and every command after it, is `Abort` with the
/// failure's error; the driver never gets to apply or sleep again.
pub proof fn lemma_failure_aborts(policy: Policy, inputs: Inputs, i: int)
    requires
        policy.wf(),
        !(policy is Oneshot),
        all_admitted(policy, inputs),
        0 <= i < inputs.len(),
        inputs[i].0 is Err,
        forall|k: int| 0 <= k < i ==> (#[trigger] inputs[k].0) is Ok,
    ensures
        forall|j: int| i <= j < inputs.len() ==> #[trigger] run(Scheduler::initial(policy), inputs)[j]
            == (Command::Abort { error: inputs[i].0->Err_0 }),
{
    lemma_failure_aborts_from(Scheduler::initial(policy), inputs, i);
}

proof fn lemma_failure_aborts_from(s: Scheduler, inputs: Inputs, i: int)
    requires
        s.wf(),
        !(s.policy is Oneshot),
        !(s.phase is Aborted),
        all_admitted(s.policy, inputs),
        0 <= i < inputs.len(),
        inputs[i].0 is Err,
        forall|k: int| 0 <= k < i ==> (#[trigger] inputs[k].0) is Ok,
    ensures
        forall|j: int| i <= j < inputs.len() ==> #[trigger] run(s, inputs)[j]
            == (Command::Abort { error: inputs[i].0->Err_0 }),
    decreases i,
{
    lemma_run_unfold(s, inputs);
    lemma_admitted_rest(s.policy, inputs);
    let next = s.transition(inputs[0].0, inputs[0].1).0;
    lemma_transition_wf(s, inputs[0].0, inputs[0].1);
    let rest = inputs.drop_first();
    if i == 0 {
        lemma_aborted_stays(next, rest, inputs[0].0->Err_0);
        assert forall|j: int| 0 <= j < inputs.len() implies #[trigger] run(s, inputs)[j]
            == (Command::Abort { error: inputs[0].0->Err_0 }) by {
            if j > 0 {
                assert(run(s, inputs)[j] == run(next, rest)[j - 1]);
            }
        }
    } else {
        assert(inputs[0].0 is Ok);
        assert forall|k: int| 0 <= k < i - 1 implies (#[trigger] rest[k].0) is Ok by {
            assert(rest[k] == inputs[k + 1]);
        }
        assert(rest[i - 1] == inputs[i]);
        lemma_failure_aborts_from(next, rest, i - 1);
        assert forall|j: int| i <= j < inputs.len() implies #[trigger] run(s, inputs)[j]
            == (Command::Abort { error: inputs[i].0->Err_0 }) by {
            assert(run(s, inputs)[j] == run(next, rest)[j - 1]);
        }
    }
}

/// After its one apply, a one-shot scheduler neither applies nor sleeps again.
proof fn lemma_oneshot_quiet(s: Scheduler, inputs: Inputs)
    requires
        s.wf(),
        s.policy is Oneshot,
        s.phase != Phase::Idle,
    ensures
        forall|j: int| 0 <= j < inputs.len() ==> !(#[trigger] run(s, inputs)[j] is Apply)
            && !(run(s, inputs)[j] is Sleep),
    decreases inputs.len(),
{
    if inputs.len() > 0 {
        lemma_run_unfold(s, inputs);
        let next = s.transition(inputs[0].0, inputs[0].1).0;
        lemma_transition_wf(s, inputs[0].0, inputs[0].1);
        lemma_oneshot_quiet(next, inputs.drop_first());
        assert forall|j: int| 0 < j < inputs.len() implies !(#[trigger] run(s, inputs)[j] is Apply)
            && !(run(s, inputs)[j] is Sleep) by {
            assert(run(s, inputs)[j] == run(next, inputs.drop_first())[j - 1]);
        }
    }
}

/// A one-shot run applies its offset exactly once and never sleeps: the first
/// command applies `offset`, no later command applies anything, and once that
/// apply has succeeded the run finishes.
pub proof fn lemma_oneshot_applies_once(offset: ClockOffset, inputs: Inputs)
    requires
        offset.wf(),
    ensures
        forall|j: int| 0 <= j < inputs.len() ==> !(#[trigger] run(Scheduler::initial(Policy::Oneshot { offset }), inputs)[j] is Sleep),
        forall|j: int| 0 < j < inputs.len() ==> !(#[trigger] run(Scheduler::initial(Policy::Oneshot { offset }), inputs)[j] is Apply),
        inputs.len() > 0 && inputs[0].0 is Ok ==> run(Scheduler::initial(Policy::Oneshot { offset }), inputs)[0]
            == (Command::Apply { offset }),
        inputs.len() > 1 && inputs[0].0 is Ok && inputs[1].0 is Ok ==> run(Scheduler::initial(Policy::Oneshot { offset }), inputs)[1]
            == Command::Finish,
{
    let s = Scheduler::initial(Policy::Oneshot { offset });
    if inputs.len() > 0 {
        lemma_run_unfold(s, inputs);
        let next = s.transition(inputs[0].0, inputs[0].1).0;
        lemma_transition_wf(s, inputs[0].0, inputs[0].1);
        let rest = inputs.drop_first();
        lemma_oneshot_quiet(next, rest);
        assert forall|j: int| 0 < j < inputs.len() implies !(#[trigger] run(s, inputs)[j] is Apply)
            && !(run(s, inputs)[j] is Sleep) by {
            assert(run(s, inputs)[j] == run(next, rest)[j - 1]);
        }
        if inputs.len() > 1 {
            lemma_run_unfold(next, rest);
            assert(rest[0] == inputs[1]);
        }
    }
}

/// Every offset that a linear scheduler applies from now on lies between its
/// current offset and `end`, and is `end` itself once the current one is.
proof fn lemma_linear_ahead(s: Scheduler, inputs: Inputs)
    requires
        s.wf(),
        s.policy is Linear,
    ensures
        forall|j: int| 0 <= j < inputs.len() && (#[trigger] run(s, inputs)[j]) is Apply ==> {
            let o = run(s, inputs)[j]->Apply_offset;
            let end = s.policy->Linear_end;
            &&& s.current@ <= o@ <= end@
            &&& s.current@ == end@ ==> o@ == end@
        },
    decreases inputs.len(),
{
    if inputs.len() > 0 {
        let end = s.policy->Linear_end;
        let start = s.policy->Linear_start;
        let increment = s.policy->Linear_increment;
        crate::policy::lemma_ramp_monotone(start@, end@, increment@, s.advances@, s.advances@);
        lemma_run_unfold(s, inputs);
        let next = s.transition(inputs[0].0, inputs[0].1).0;
        lemma_transition_wf(s, inputs[0].0, inputs[0].1);
        crate::policy::lemma_ramp_monotone(start@, end@, increment@, s.advances@, next.advances@);
        lemma_linear_ahead(next, inputs.drop_first());
        assert forall|j: int| 0 <= j < inputs.len() && (#[trigger] run(s, inputs)[j]) is Apply implies {
            let o = run(s, inputs)[j]->Apply_offset;
            &&& s.current@ <= o@ <= end@
            &&& s.current@ == end@ ==> o@ == end@
        } by {
            if j > 0 {
                assert(run(s, inputs)[j] == run(next, inputs.drop_first())[j - 1]);
            }
        }
    }
}

/// The offsets that a linear run applies never decrease and never pass `end`;
/// once one equals `end`, every later one equals `end` too.
pub proof fn lemma_linear_run(policy: Policy, inputs: Inputs)
    requires
        policy.wf(),
        policy is Linear,
    ensures
        forall|i: int, j: int|
            0 <= i < j < inputs.len() && (#[trigger] run(Scheduler::initial(policy), inputs)[i]) is Apply
                && (#[trigger] run(Scheduler::initial(policy), inputs)[j]) is Apply ==> {
                let a = run(Scheduler::initial(policy), inputs)[i]->Apply_offset;
                let b = run(Scheduler::initial(policy), inputs)[j]->Apply_offset;
                let end = policy->Linear_end;
                &&& a@ <= b@ <= end@
                &&& a@ == end@ ==> b@ == end@
            },
{
    lemma_linear_ordered(Scheduler::initial(policy), inputs);
}

proof fn lemma_linear_ordered(s: Scheduler, inputs: Inputs)
    requires
        s.wf(),
        s.policy is Linear,
    ensures
        forall|i: int, j: int|
            0 <= i < j < inputs.len() && (#[trigger] run(s, inputs)[i]) is Apply
                && (#[trigger] run(s, inputs)[j]) is Apply ==> {
                let a = run(s, inputs)[i]->Apply_offset;
                let b = run(s, inputs)[j]->Apply_offset;
                let end = s.policy->Linear_end;
                &&& a@ <= b@ <= end@
                &&& a@ == end@ ==> b@ == end@
            },
    decreases inputs.len(),
{
    if inputs.len() > 0 {
        let end = s.policy->Linear_end;
        lemma_run_unfold(s, inputs);
        let next = s.transition(inputs[0].0, inputs[0].1).0;
        let rest = inputs.drop_first();
        lemma_transition_wf(s, inputs[0].0, inputs[0].1);
        lemma_linear_ordered(next, rest);
        lemma_linear_ahead(next, rest);
        assert forall|i: int, j: int|
            0 <= i < j < inputs.len() && (#[trigger] run(s, inputs)[i]) is Apply
                && (#[trigger] run(s, inputs)[j]) is Apply implies {
                let a = run(s, inputs)[i]->Apply_offset;
                let b = run(s, inputs)[j]->Apply_offset;
                &&& a@ <= b@ <= end@
                &&& a@ == end@ ==> b@ == end@
            } by {
            assert(run(s, inputs)[j] == run(next, rest)[j - 1]);
            if i > 0 {
                assert(run(s, inputs)[i] == run(next, rest)[i - 1]);
            }
        }
    }
}

/// Every offset that a random run applies lies in `[low, high)`, given draws
/// that the policy may make.
pub proof fn lemma_random_run(policy: Policy, inputs: Inputs)
    requires
        policy.wf(),
        policy is Random,
        all_admitted(policy, inputs),
    ensures
        forall|j: int| 0 <= j < inputs.len() && (#[trigger] run(Scheduler::initial(policy), inputs)[j]) is Apply ==> {
            let o = run(Scheduler::initial(policy), inputs)[j]->Apply_offset;
            policy->Random_low@ <= o@ && o@ < policy->Random_high@
        },
{
    lemma_random_in_range(Scheduler::initial(policy), inputs);
}

proof fn lemma_random_in_range(s: Scheduler, inputs: Inputs)
    requires
        s.wf(),
        s.policy is Random,
        all_admitted(s.policy, inputs),
    ensures
        forall|j: int| 0 <= j < inputs.len() && (#[trigger] run(s, inputs)[j]) is Apply ==> {
            let o = run(s, inputs)[j]->Apply_offset;
            s.policy->Random_low@ <= o@ && o@ < s.policy->Random_high@
        },
    decreases inputs.len(),
{
    if inputs.len() > 0 {
        lemma_run_unfold(s, inputs);
        lemma_admitted_rest(s.policy, inputs);
        let next = s.transition(inputs[0].0, inputs[0].1).0;
        lemma_transition_wf(s, inputs[0].0, inputs[0].1);
        lemma_random_in_range(next, inputs.drop_first());
        assert forall|j: int| 0 <= j < inputs.len() && (#[trigger] run(s, inputs)[j]) is Apply implies {
            let o = run(s, inputs)[j]->Apply_offset;
            s.policy->Random_low@ <= o@ && o@ < s.policy->Random_high@
        } by {
            if j > 0 {
                assert(run(s, inputs)[j] == run(next, inputs.drop_first())[j - 1]);
            }
        }
    }
}

} // verus!
