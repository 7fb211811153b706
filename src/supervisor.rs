//! Supervision: which children to restart when one exits, and when the
//! supervisor gives up and fails itself.
//!
//! The supervisor is a state machine: it is told of a child's exit and the
//! time, updates its records and returns the action to carry out.
use vstd::prelude::*;
use crate::mailbox::ExitCause;

verus! {

/// Whether a child is restarted after it exits.
#[derive(Clone, Copy, Debug, PartialEq, Eq, Structural)]
pub enum RestartStrategy {
    /// Always.
    Permanent,
    /// Only after an abnormal exit.
    Transient,
    /// Never.
    Temporary,
}

/// Which children a restart takes along.
#[derive(Clone, Copy, Debug, PartialEq, Eq, Structural)]
pub enum RestartPolicy {
    /// The failed child alone.
    OneForOne,
    /// Every child.
    OneForAll,
    /// The failed child and every child started after it.
    RestForOne,
}

#[derive(Clone, Copy, Debug, PartialEq, Eq, Structural)]
pub enum RunState {
    NotStarted,
    Running,
    Exited(ExitCause),
}

/// What the supervisor's host has to do after a child's exit.
#[derive(Clone, Copy, Debug, PartialEq, Eq, Structural)]
pub enum SupervisorAction {
    /// Leave the child down.
    Ignore,
    /// Stop the children `first .. end` that still run, then start them all
    /// again, in order.
    Restart { first: usize, end: usize },
    /// The restart limit is exceeded: the supervisor itself ends abnormally.
    Escalate,
}

pub open spec fn should_restart(strategy: RestartStrategy, cause: ExitCause) -> bool {
    match strategy {
        RestartStrategy::Permanent => true,
        RestartStrategy::Transient => cause is Abnormal,
        RestartStrategy::Temporary => false,
    }
}

pub fn restart_wanted(strategy: RestartStrategy, cause: ExitCause) -> (r: bool)
    ensures
        r == should_restart(strategy, cause),
{
    match strategy {
        RestartStrategy::Permanent => true,
        RestartStrategy::Transient => cause.is_abnormal(),
        RestartStrategy::Temporary => false,
    }
}

/// The children, `first .. end`, that a restart of `child` takes along
/// among `n` children.
pub open spec fn restart_range(policy: RestartPolicy, n: int, child: int) -> (int, int) {
    match policy {
        RestartPolicy::OneForOne => (child, child + 1),
        RestartPolicy::OneForAll => (0, n),
        RestartPolicy::RestForOne => (child, n),
    }
}

/// A restart at `t` still counts at `now` when it lies less than `window`
/// before it.
pub open spec fn counts_at(t: u64, now: u64, window: u64) -> bool {
    now < t + window
}

/// The restarts of `h` that still count at `now`, in order.
pub open spec fn within(h: Seq<u64>, now: u64, window: u64) -> Seq<u64>
    decreases h.len(),
{
    if h.len() == 0 {
        Seq::empty()
    } else {
        let before = within(h.drop_last(), now, window);
        if counts_at(h.last(), now, window) {
            before.push(h.last())
        } else {
            before
        }
    }
}

/// Allows at most `max_restarts` restarts within any `window` (in the
/// host's time unit).
pub struct RestartIntensity {
    max_restarts: u64,
    window: u64,
    history: Vec<u64>,
}

impl RestartIntensity {
    pub closed spec fn max_restarts(&self) -> u64 {
        self.max_restarts
    }

    pub closed spec fn window(&self) -> u64 {
        self.window
    }

    /// The times of the restarts recorded, in order.
    pub closed spec fn history(&self) -> Seq<u64> {
        self.history@
    }

    pub fn new(max_restarts: u64, window: u64) -> (r: RestartIntensity)
        ensures
            r.max_restarts() == max_restarts,
            r.window() == window,
            r.history() == Seq::<u64>::empty(),
    {
        RestartIntensity { max_restarts, window, history: Vec::new() }
    }

    /// The number of restarts recorded that still count.
    pub fn count(&self) -> (r: usize)
        ensures
            r == self.history().len(),
    {
        self.history.len()
    }

    /// Records a restart at `now` if it keeps within the limit: it does
    /// when fewer than `max_restarts` restarts count at `now`. Restarts that
    /// no longer count are forgotten either way.
    pub fn record(&mut self, now: u64) -> (r: bool)
        ensures
            final(self).max_restarts() == old(self).max_restarts(),
            final(self).window() == old(self).window(),
            r == (within(old(self).history(), now, old(self).window()).len() < old(
                self,
            ).max_restarts()),
            final(self).history() == (if r {
                within(old(self).history(), now, old(self).window()).push(now)
            } else {
                within(old(self).history(), now, old(self).window())
            }),
    {
        let ghost h = self.history@;
        let mut kept: Vec<u64> = Vec::new();
        let mut i: usize = 0;
        while i < self.history.len()
            invariant
                self.history@ == h,
                i <= h.len(),
                kept@ == within(h.take(i as int), now, self.window),
            decreases h.len() - i,
        {
            let t = self.history[i];
            proof {
                assert(h.take(i as int + 1).drop_last() =~= h.take(i as int));
            }
            if (now as u128) < (t as u128) + (self.window as u128) {
                kept.push(t);
            }
            i = i + 1;
        }
        proof {
            assert(h.take(h.len() as int) =~= h);
        }
        let ok = (kept.len() as u128) < (self.max_restarts as u128);
        if ok {
            kept.push(now);
        }
        self.history = kept;
        ok
    }
}

/// Supervises an ordered list of children under one policy.
pub struct Supervisor {
    policy: RestartPolicy,
    strategies: Vec<RestartStrategy>,
    states: Vec<RunState>,
    intensity: RestartIntensity,
}

impl Supervisor {
    pub closed spec fn policy(&self) -> RestartPolicy {
        self.policy
    }

    pub closed spec fn strategies(&self) -> Seq<RestartStrategy> {
        self.strategies@
    }

    pub closed spec fn states(&self) -> Seq<RunState> {
        self.states@
    }

    pub closed spec fn intensity(&self) -> RestartIntensity {
        self.intensity
    }

    pub closed spec fn wf(&self) -> bool {
        self.strategies@.len() == self.states@.len()
    }

    /// A supervisor of children with `strategies`, in that order, none of
    /// them started yet.
    pub fn new(
        policy: RestartPolicy,
        strategies: Vec<RestartStrategy>,
        intensity: RestartIntensity,
    ) -> (r: Supervisor)
        ensures
            r.wf(),
            r.policy() == policy,
            r.strategies() == strategies@,
            r.states() == Seq::new(strategies@.len(), |j: int| RunState::NotStarted),
            r.intensity() == intensity,
    {
        let n = strategies.len();
        let mut states: Vec<RunState> = Vec::new();
        while states.len() < n
            invariant
                states@.len() <= n,
                states@ == Seq::new(states@.len(), |j: int| RunState::NotStarted),
            decreases n - states@.len(),
        {
            states.push(RunState::NotStarted);
            assert(states@ =~= Seq::new(states@.len(), |j: int| RunState::NotStarted));
        }
        Supervisor { policy, strategies, states, intensity }
    }

    pub fn len(&self) -> (r: usize)
        requires
            self.wf(),
        ensures
            r == self.states().len(),
    {
        self.states.len()
    }

    pub fn child_state(&self, i: usize) -> (r: RunState)
        requires
            i < self.states().len(),
        ensures
            r == self.states()[i as int],
    {
        self.states[i]
    }

    pub fn restarts_counted(&self) -> (r: usize)
        ensures
            r == self.intensity().history().len(),
    {
        self.intensity.count()
    }

    /// Marks every child running: the host starts and links them in
    /// order.
    pub fn start_all(&mut self)
        requires
            old(self).wf(),
        ensures
            final(self).wf(),
            final(self).policy() == old(self).policy(),
            final(self).strategies() == old(self).strategies(),
            final(self).intensity() == old(self).intensity(),
            final(self).states() == Seq::new(old(self).states().len(), |j: int| RunState::Running),
    {
        let n = self.states.len();
        let mut i: usize = 0;
        while i < n
            invariant
                self.wf(),
                self.policy == old(self).policy,
                self.strategies == old(self).strategies,
                self.intensity == old(self).intensity,
                n == self.states@.len(),
                i <= n,
                forall|j: int| 0 <= j < i ==> self.states@[j] == RunState::Running,
            decreases n - i,
        {
            self.states.set(i, RunState::Running);
            i = i + 1;
        }
        assert(self.states@ =~= Seq::new(n as nat, |j: int| RunState::Running));
    }

    /// Handles the exit of `child` with `cause` at time `now`: records the
    /// exit, then restarts as the child's strategy and the policy say, or
    /// escalates when that restart would exceed the restart intensity.
    pub fn child_exited(&mut self, child: usize, cause: ExitCause, now: u64) -> (r: SupervisorAction)
        requires
            old(self).wf(),
            child < old(self).states().len(),
        ensures
            final(self).wf(),
            final(self).policy() == old(self).policy(),
            final(self).strategies() == old(self).strategies(),
            final(self).intensity().max_restarts() == old(self).intensity().max_restarts(),
            final(self).intensity().window() == old(self).intensity().window(),
            ({
                let exited = old(self).states().update(child as int, RunState::Exited(cause));
                let counted = within(
                    old(self).intensity().history(),
                    now,
                    old(self).intensity().window(),
                );
                let (first, end) = restart_range(
                    old(self).policy(),
                    old(self).states().len() as int,
                    child as int,
                );
                if !should_restart(old(self).strategies()[child as int], cause) {
                    &&& r == SupervisorAction::Ignore
                    &&& final(self).states() == exited
                    &&& final(self).intensity() == old(self).intensity()
                } else if counted.len() >= old(self).intensity().max_restarts() {
                    &&& r == SupervisorAction::Escalate
                    &&& final(self).states() == exited
                    &&& final(self).intensity().history() == counted
                } else {
                    &&& r == SupervisorAction::Restart { first: first as usize, end: end as usize }
                    &&& final(self).states() == Seq::new(
                        exited.len(),
                        |j: int|
                            if first <= j < end {
                                RunState::Running
                            } else {
                                exited[j]
                            },
                    )
                    &&& final(self).intensity().history() == counted.push(now)
                }
            }),
    {
        let n = self.states.len();
        self.states.set(child, RunState::Exited(cause));
        if !restart_wanted(self.strategies[child], cause) {
            return SupervisorAction::Ignore;
        }
        if !self.intensity.record(now) {
            return SupervisorAction::Escalate;
        }
        let (first, end) = match self.policy {
            RestartPolicy::OneForOne => (child, child + 1),
            RestartPolicy::OneForAll => (0, n),
            RestartPolicy::RestForOne => (child, n),
        };
        let ghost exited = self.states@;
        let ghost limiter = self.intensity;
        let mut j: usize = first;
        while j < end
            invariant
                self.wf(),
                self.policy == old(self).policy,
                self.strategies == old(self).strategies,
                self.intensity == limiter,
                n == self.states@.len(),
                n == exited.len(),
                first <= j <= end <= n,
                forall|k: int|
                    0 <= k < n ==> #[trigger] self.states@[k] == (if first <= k < j {
                        RunState::Running
                    } else {
                        exited[k]
                    }),
            decreases end - j,
        {
            self.states.set(j, RunState::Running);
            j = j + 1;
        }
        assert(self.states@ =~= Seq::new(
            exited.len(),
            |k: int|
                if first <= k < end {
                    RunState::Running
                } else {
                    exited[k]
                },
        ));
        SupervisorAction::Restart { first, end }
    }
}

} // verus!
