//! The decisions of an ETW session run: in what order providers are
//! enabled and disabled around the session's hooks, which id an event is
//! looked up by, and which events a process filter skips.

use std::collections::HashSet;

use vstd::prelude::*;

verus! {

broadcast use vstd::std_specs::hash::group_hash_axioms;

/// One step of a session run.
#[derive(Debug, Clone, Copy, PartialEq, Eq)]
pub enum SessionStep {
    /// Enables provider `i`, which needs the capture environment; an error
    /// stops the session.
    EnableCaptureEnvironment(usize),
    /// Runs the starting hooks.
    RunStartingHooks,
    /// Enables provider `i`; an error stops the session.
    Enable(usize),
    /// Runs the started hooks.
    RunStartedHooks,
    /// Waits until the session is told to stop.
    WaitUntilStopped,
    /// Runs the stopping hooks.
    RunStoppingHooks,
    /// Enables provider `i` for its rundown; an error is ignored.
    EnableRundown(usize),
    /// Disables provider `i`; an error is ignored.
    Disable(usize),
    /// Runs the rundown hooks.
    RunRundownHooks,
    /// Stops the session.
    Stop,
}

/// The phases in which providers are enabled or disabled.
pub open spec fn in_phase(p: (bool, bool), phase: int) -> bool {
    let (capture, rundown) = p;
    if phase == 0 {
        capture
    } else if phase == 1 {
        !capture && !rundown
    } else if phase == 2 {
        rundown
    } else {
        !rundown
    }
}

/// The step for provider `i` in a phase.
pub open spec fn phase_step(phase: int, i: usize) -> SessionStep {
    if phase == 0 {
        SessionStep::EnableCaptureEnvironment(i)
    } else if phase == 1 {
        SessionStep::Enable(i)
    } else if phase == 2 {
        SessionStep::EnableRundown(i)
    } else {
        SessionStep::Disable(i)
    }
}

/// The steps of a phase for the first `n` providers, in order.
pub open spec fn phase_steps(p: Seq<(bool, bool)>, n: int, phase: int) -> Seq<SessionStep>
    decreases n,
{
    if n <= 0 {
        Seq::empty()
    } else if in_phase(p[n - 1], phase) {
        phase_steps(p, n - 1, phase).push(phase_step(phase, (n - 1) as usize))
    } else {
        phase_steps(p, n - 1, phase)
    }
}

/// The run of a session whose providers each say whether they need the
/// capture environment and whether they need a rundown: enable those that
/// need the capture environment, run the starting hooks, enable the others
/// that need no rundown, run the started hooks and wait; then run the
/// stopping hooks, enable those that need a rundown, disable the rest, run
/// the rundown hooks and stop.
pub open spec fn session_plan_spec(p: Seq<(bool, bool)>) -> Seq<SessionStep> {
    let n = p.len() as int;
    phase_steps(p, n, 0) + seq![SessionStep::RunStartingHooks] + phase_steps(p, n, 1) + seq![
        SessionStep::RunStartedHooks,
        SessionStep::WaitUntilStopped,
        SessionStep::RunStoppingHooks,
    ] + phase_steps(p, n, 2) + phase_steps(p, n, 3) + seq![SessionStep::RunRundownHooks, SessionStep::Stop]
}

fn push_phase(plan: &mut Vec<SessionStep>, providers: &[(bool, bool)], phase: u8)
    requires
        phase < 4,
    ensures
        final(plan)@ == old(plan)@ + phase_steps(providers@, providers@.len() as int, phase as int),
{
    let ghost start = plan@;
    let mut i: usize = 0;
    while i < providers.len()
        invariant
            phase < 4,
            i <= providers@.len(),
            plan@ == start + phase_steps(providers@, i as int, phase as int),
        decreases providers@.len() - i,
    {
        let (capture, rundown) = providers[i];
        let wanted = if phase == 0 {
            capture
        } else if phase == 1 {
            !capture && !rundown
        } else if phase == 2 {
            rundown
        } else {
            !rundown
        };
        if wanted {
            let step = if phase == 0 {
                SessionStep::EnableCaptureEnvironment(i)
            } else if phase == 1 {
                SessionStep::Enable(i)
            } else if phase == 2 {
                SessionStep::EnableRundown(i)
            } else {
                SessionStep::Disable(i)
            };
            plan.push(step);
        }
        assert(plan@ =~= start + phase_steps(providers@, i + 1, phase as int));
        i = i + 1;
    }
}

/// The steps of a session run, in order (see `session_plan_spec`).
pub fn session_plan(providers: &[(bool, bool)]) -> (plan: Vec<SessionStep>)
    ensures
        plan@ == session_plan_spec(providers@),
{
    let mut plan: Vec<SessionStep> = Vec::new();
    push_phase(&mut plan, providers, 0);
    plan.push(SessionStep::RunStartingHooks);
    push_phase(&mut plan, providers, 1);
    plan.push(SessionStep::RunStartedHooks);
    plan.push(SessionStep::WaitUntilStopped);
    plan.push(SessionStep::RunStoppingHooks);
    push_phase(&mut plan, providers, 2);
    push_phase(&mut plan, providers, 3);
    plan.push(SessionStep::RunRundownHooks);
    plan.push(SessionStep::Stop);
    assert(plan@ =~= session_plan_spec(providers@));
    plan
}

/// The id a provider's events are looked up by: the opcode for a provider
/// looked up through another one, else the event id.
pub fn event_lookup_id(use_op_id: bool, opcode: u8, id: u16) -> (r: usize)
    ensures
        r == (if use_op_id { opcode as usize } else { id as usize }),
{
    if use_op_id {
        opcode as usize
    } else {
        id as usize
    }
}

/// Whether an event is skipped by the process filter: there is a filter,
/// the event reads its own process id, and that id is neither 0 nor one of
/// the targets.
pub fn skipped_by_pid_filter(targets: &HashSet<u32>, soft_pid: Option<u32>) -> (skip: bool)
    ensures
        skip == (targets@.len() > 0 && (soft_pid matches Some(p) && p != 0 && !targets@.contains(p))),
{
    if targets.len() == 0 {
        return false;
    }
    match soft_pid {
        Some(pid) => pid != 0 && !targets.contains(&pid),
        None => false,
    }
}

} // verus!
