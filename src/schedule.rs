use vstd::prelude::*;

use crate::error::SimError;

verus! {

/// The sign of a time step.
#[derive(Debug, Clone, Copy, PartialEq, Eq, Structural)]
pub enum TimeStep {
    Negative,
    Zero,
    Positive,
}

/// The stages of one call of `step`, in the order they run.
#[derive(Debug, Clone, Copy, PartialEq, Eq, Structural)]
pub enum StepPhase {
    IntegrateForces,
    Collide,
    Prepare,
    WarmStart,
    /// One pass of sequential impulses over all contacts, then all joints.
    Iterate { pass: u32 },
    IntegratePositions,
    Done,
}

/// One constraint row solved within a pass.
#[derive(Debug, Clone, Copy, PartialEq, Eq, Structural)]
pub enum SolveTask {
    Contact { index: usize },
    Joint { index: usize },
}

/// The stage that follows `p` in a world with `iterations` solver passes.
pub open spec fn next_spec(p: StepPhase, iterations: u32) -> StepPhase {
    match p {
        StepPhase::IntegrateForces => StepPhase::Collide,
        StepPhase::Collide => StepPhase::Prepare,
        StepPhase::Prepare => StepPhase::WarmStart,
        StepPhase::WarmStart => StepPhase::Iterate { pass: 0 },
        StepPhase::Iterate { pass } => if pass + 1 < iterations {
            StepPhase::Iterate { pass: (pass + 1) as u32 }
        } else {
            StepPhase::IntegratePositions
        },
        StepPhase::IntegratePositions => StepPhase::Done,
        StepPhase::Done => StepPhase::Done,
    }
}

/// The `k`-th stage of a step with `iterations` solver passes.
pub open spec fn plan_at(k: int, iterations: u32) -> StepPhase {
    if k == 0 {
        StepPhase::IntegrateForces
    } else if k == 1 {
        StepPhase::Collide
    } else if k == 2 {
        StepPhase::Prepare
    } else if k == 3 {
        StepPhase::WarmStart
    } else if 4 <= k < 4 + iterations {
        StepPhase::Iterate { pass: (k - 4) as u32 }
    } else if k == 4 + iterations {
        StepPhase::IntegratePositions
    } else {
        StepPhase::Done
    }
}

/// Following the plan one stage at a time walks it in order.
proof fn lemma_plan_advances(k: int, iterations: u32)
    requires
        iterations >= 1,
        0 <= k < iterations + 5,
    ensures
        plan_at(k, iterations) != StepPhase::Done,
        next_spec(plan_at(k, iterations), iterations) == plan_at(k + 1, iterations),
{
    if 4 <= k < 4 + iterations {
        let pass = (k - 4) as u32;
        assert(plan_at(k, iterations) == StepPhase::Iterate { pass });
        if k + 1 < 4 + iterations {
            assert(pass + 1 < iterations);
        } else {
            assert(pass + 1 >= iterations);
        }
    }
}

/// The stage at which a call of `step` begins: a negative time step is
/// refused before anything changes, a world without solver passes is
/// inconsistent, and a zero time step or an empty world is a no-op.
pub fn start_step(dt: TimeStep, body_count: usize, iterations: u32) -> (r: Result<StepPhase, SimError>)
    ensures
        dt == TimeStep::Negative ==> r == Err::<StepPhase, SimError>(SimError::InvalidArgument),
        dt != TimeStep::Negative && iterations == 0 ==> r == Err::<StepPhase, SimError>(SimError::Consistency),
        dt != TimeStep::Negative && iterations > 0 && (dt == TimeStep::Zero || body_count == 0)
            ==> r == Ok::<StepPhase, SimError>(StepPhase::Done),
        dt == TimeStep::Positive && iterations > 0 && body_count > 0
            ==> r == Ok::<StepPhase, SimError>(StepPhase::IntegrateForces),
{
    match dt {
        TimeStep::Negative => Err(SimError::InvalidArgument),
        _ => if iterations == 0 {
            Err(SimError::Consistency)
        } else if dt == TimeStep::Zero || body_count == 0 {
            Ok(StepPhase::Done)
        } else {
            Ok(StepPhase::IntegrateForces)
        },
    }
}

/// The stage after `p`.
pub fn next_phase(p: StepPhase, iterations: u32) -> (r: StepPhase)
    ensures
        r == next_spec(p, iterations),
{
    match p {
        StepPhase::IntegrateForces => StepPhase::Collide,
        StepPhase::Collide => StepPhase::Prepare,
        StepPhase::Prepare => StepPhase::WarmStart,
        StepPhase::WarmStart => StepPhase::Iterate { pass: 0 },
        StepPhase::Iterate { pass } => if pass < u32::MAX && pass + 1 < iterations {
            StepPhase::Iterate { pass: pass + 1 }
        } else {
            StepPhase::IntegratePositions
        },
        StepPhase::IntegratePositions => StepPhase::Done,
        StepPhase::Done => StepPhase::Done,
    }
}

/// The stages of a full step, from force integration to position
/// integration, each once, with exactly `iterations` solver passes.
pub fn step_plan(iterations: u32) -> (r: Vec<StepPhase>)
    requires
        iterations >= 1,
    ensures
        r@.len() == iterations + 5,
        forall|k: int| 0 <= k < r@.len() ==> #[trigger] r@[k] == plan_at(k, iterations),
{
    let mut r: Vec<StepPhase> = Vec::new();
    let mut p = StepPhase::IntegrateForces;
    let ghost mut idx: int = 0;
    while p != StepPhase::Done
        invariant
            iterations >= 1,
            0 <= idx <= iterations + 5,
            r@.len() == idx,
            p == plan_at(idx, iterations),
            forall|k: int| 0 <= k < idx ==> #[trigger] r@[k] == plan_at(k, iterations),
        decreases iterations + 5 - idx,
    {
        proof {
            if idx >= iterations + 5 {
                assert(plan_at(idx, iterations) == StepPhase::Done);
            }
            lemma_plan_advances(idx, iterations);
        }
        r.push(p);
        p = next_phase(p, iterations);
        proof {
            idx = idx + 1;
        }
    }
    r
}

/// The order of the constraint rows within one solver pass: every contact in
/// order, then every joint in order.
pub fn solve_pass(contacts: usize, joints: usize) -> (r: Vec<SolveTask>)
    requires
        contacts + joints <= usize::MAX,
    ensures
        r@.len() == contacts + joints,
        forall|k: int| 0 <= k < contacts ==> #[trigger] r@[k] == (SolveTask::Contact { index: k as usize }),
        forall|k: int| contacts <= k < r@.len() ==> #[trigger] r@[k] == (SolveTask::Joint { index: (k - contacts) as usize }),
{
    let mut r: Vec<SolveTask> = Vec::new();
    let mut i: usize = 0;
    while i < contacts
        invariant
            i <= contacts,
            r@.len() == i,
            forall|k: int| 0 <= k < i ==> #[trigger] r@[k] == (SolveTask::Contact { index: k as usize }),
        decreases contacts - i,
    {
        r.push(SolveTask::Contact { index: i });
        i = i + 1;
    }
    let mut j: usize = 0;
    while j < joints
        invariant
            contacts + joints <= usize::MAX,
            j <= joints,
            r@.len() == contacts + j,
            forall|k: int| 0 <= k < contacts ==> #[trigger] r@[k] == (SolveTask::Contact { index: k as usize }),
            forall|k: int| contacts <= k < r@.len() ==> #[trigger] r@[k] == (SolveTask::Joint { index: (k - contacts) as usize }),
        decreases joints - j,
    {
        r.push(SolveTask::Joint { index: j });
        j = j + 1;
    }
    r
}

} // verus!
