//! Laws of a run, proved of the engine's specification: what every run's
//! event log satisfies, whatever the workload and the schedule seed.

use vstd::prelude::*;
use crate::logging::{LogEvent, SubmitWindow, fault_text};
use crate::model::{
    Status, execute_spec, lemma_complete_inv, lemma_submit_inv, position_of, strictly_ascending,
};
use crate::runner::{
    RunConfig, RunOutput, RunState, after_flip, chooses_complete, engine_step, fault_due,
    final_state, initial_state, lemma_initial, lemma_pick_pending, lemma_run_induct,
    lemma_step_facts, loop_exits, reported_peak,
    run_end_event, run_events, run_id_text, run_inv, run_log, submit_allowed,
};
use crate::scheduler::{BoundK, bound_text, pick_spec, policy_text};
use crate::seed::Command;

verus! {

/// Number of SUBMIT events.
pub open spec fn submits(ev: Seq<LogEvent>) -> nat
    decreases ev.len(),
{
    if ev.len() == 0 {
        0
    } else {
        submits(ev.drop_last()) + if ev.last() is Submit {
            1nat
        } else {
            0nat
        }
    }
}

/// Number of COMPLETE events.
pub open spec fn completes(ev: Seq<LogEvent>) -> nat
    decreases ev.len(),
{
    if ev.len() == 0 {
        0
    } else {
        completes(ev.drop_last()) + if ev.last() is Complete {
            1nat
        } else {
            0nat
        }
    }
}

/// Number of RESET events.
pub open spec fn resets(ev: Seq<LogEvent>) -> nat
    decreases ev.len(),
{
    if ev.len() == 0 {
        0
    } else {
        resets(ev.drop_last()) + if ev.last() is Reset {
            1nat
        } else {
            0nat
        }
    }
}

/// Sum of `pending_before` over the RESET events.
pub open spec fn lost_to_reset(ev: Seq<LogEvent>) -> nat
    decreases ev.len(),
{
    if ev.len() == 0 {
        0
    } else {
        lost_to_reset(ev.drop_last()) + match ev.last() {
            LogEvent::Reset { pending_before } => pending_before as nat,
            _ => 0nat,
        }
    }
}

/// Whether `e` completes a command with status TIMEOUT.
pub open spec fn is_timeout(e: LogEvent) -> bool {
    e matches LogEvent::Complete { result } && result.status == Status::TIMEOUT
}

/// Number of COMPLETE events with status TIMEOUT.
pub open spec fn timeouts(ev: Seq<LogEvent>) -> nat
    decreases ev.len(),
{
    if ev.len() == 0 {
        0
    } else {
        timeouts(ev.drop_last()) + if is_timeout(ev.last()) {
            1nat
        } else {
            0nat
        }
    }
}

/// The cmd_ids of the SUBMIT events, in order.
pub open spec fn submit_ids(ev: Seq<LogEvent>) -> Seq<u32>
    decreases ev.len(),
{
    if ev.len() == 0 {
        seq![]
    } else {
        let r = submit_ids(ev.drop_last());
        match ev.last() {
            LogEvent::Submit { cmd_id, .. } => r.push(cmd_id),
            _ => r,
        }
    }
}

/// The cmd_ids of the COMPLETE events, in order.
pub open spec fn complete_ids(ev: Seq<LogEvent>) -> Seq<u32>
    decreases ev.len(),
{
    if ev.len() == 0 {
        seq![]
    } else {
        let r = complete_ids(ev.drop_last());
        match ev.last() {
            LogEvent::Complete { result } => r.push(result.cmd_id),
            _ => r,
        }
    }
}

/// The cmd_ids pending after events `ev`: submitted, not completed, not lost to a reset.
pub open spec fn pending_ids(ev: Seq<LogEvent>) -> Set<u32>
    decreases ev.len(),
{
    if ev.len() == 0 {
        Set::empty()
    } else {
        let r = pending_ids(ev.drop_last());
        match ev.last() {
            LogEvent::Submit { cmd_id, .. } => r.insert(cmd_id),
            LogEvent::Complete { result } => r.remove(result.cmd_id),
            LogEvent::Reset { .. } => Set::empty(),
            _ => r,
        }
    }
}

/// How a sequence with one more event relates to the one before.
proof fn lemma_push(ev: Seq<LogEvent>, e: LogEvent)
    ensures
        ev.push(e).drop_last() == ev,
        ev.push(e).last() == e,
        ev.push(e).len() == ev.len() + 1,
        forall|k: int| 0 <= k <= ev.len() ==> #[trigger] ev.push(e).take(k) == ev.take(k),
        ev.push(e).take(ev.len() as int + 1) == ev.push(e),
{
    assert(ev.push(e).drop_last() =~= ev);
    assert forall|k: int| 0 <= k <= ev.len() implies #[trigger] ev.push(e).take(k) == ev.take(k) by {
        assert(ev.push(e).take(k) =~= ev.take(k));
    }
    assert(ev.push(e).take(ev.len() as int + 1) =~= ev.push(e));
}

/// Executing a command never yields TIMEOUT.
proof fn lemma_execute_not_timeout(c: Command, host: Seq<u32>, dev: Seq<u32>)
    ensures
        execute_spec(c, host, dev).0 != Status::TIMEOUT,
{
}

// ---------------------------------------------------------------------------
// Runs without faults.

/// Without faults: every submit is logged, every command is pending or completed,
/// and the loop ends only with nothing left to do.
spec fn no_fault_inv(c: RunConfig, n: nat, t: RunState) -> bool {
    &&& !t.fault_injected
    &&& !t.stop_submits
    &&& submits(t.events) == t.next_cmd
    &&& completes(t.events) + t.model.pending.len() == t.next_cmd
    &&& t.done ==> t.model.pending.len() == 0 && !submit_allowed(c, n, t)
}

/// One step keeps `no_fault_inv`.
proof fn lemma_no_fault_step(c: RunConfig, cmds: Seq<Command>, t: RunState)
    requires
        c.fault_mode is NONE,
        run_inv(c, cmds.len(), t),
        !t.done,
        no_fault_inv(c, cmds.len(), t),
    ensures
        no_fault_inv(c, cmds.len(), engine_step(c, cmds, t)),
{
    lemma_step_facts(c, cmds, t);
    let t1 = after_flip(c, cmds, t);
    if loop_exits(c, cmds, t) {
    } else if chooses_complete(c, cmds, t) {
        lemma_pick_pending(c, t1);
        let dec = pick_spec(c.policy, c.bound_k, t1.rng, t1.model.pending).0->Some_0;
        lemma_complete_inv(t.model, dec.cmd_id, None);
        let res = t.model.complete(dec.cmd_id, None).1->Some_0;
        lemma_push(t.events, LogEvent::Complete { result: res });
        let u = engine_step(c, cmds, t);
        assert(!fault_due(c, cmds.len(), t1));
        assert(u.events == t.events.push(LogEvent::Complete { result: res }));
        assert(completes(u.events) == completes(t.events) + 1);
        assert(submits(u.events) == submits(t.events));
        assert(u.model.pending.len() + 1 == t.model.pending.len());
    } else {
        let cmd = cmds[t.next_cmd as int];
        let e1 = t.events.push(LogEvent::Submit { cmd_id: t.model.next_cmd_id, command: cmd });
        lemma_push(t.events, LogEvent::Submit { cmd_id: t.model.next_cmd_id, command: cmd });
        lemma_push(e1, LogEvent::Fence { fence_id: t.model.current_fence_id });
        lemma_submit_inv(t.model, cmd);
        let u = engine_step(c, cmds, t);
        assert(submits(e1) == submits(t.events) + 1);
        assert(completes(e1) == completes(t.events));
        assert(submits(u.events) == submits(t.events) + 1);
        assert(completes(u.events) == completes(t.events));
    }
}

/// `no_fault_inv` holds where a run without faults ends.
proof fn lemma_no_fault_run(c: RunConfig, cmds: Seq<Command>)
    requires
        c.fault_mode is NONE,
        cmds.len() <= u32::MAX,
    ensures
        no_fault_inv(c, cmds.len(), final_state(c, cmds)),
        run_inv(c, cmds.len(), final_state(c, cmds)),
        final_state(c, cmds).done,
{
    lemma_initial(c, cmds);
    let keep = |t: RunState| no_fault_inv(c, cmds.len(), t);
    assert forall|t: RunState|
        #![trigger engine_step(c, cmds, t)]
        run_inv(c, cmds.len(), t) && !t.done && keep(t) implies keep(engine_step(c, cmds, t)) by {
        lemma_no_fault_step(c, cmds, t);
    }
    lemma_run_induct(c, cmds, initial_state(c), keep);
}

/// Without faults and without a submit window, every command is submitted
/// once and completed once, and none is left pending at the end.
pub proof fn lemma_all_complete_without_faults(c: RunConfig, cmds: Seq<Command>)
    requires
        c.fault_mode is NONE,
        c.submit_window is Infinite,
        cmds.len() <= u32::MAX,
    ensures
        final_state(c, cmds).model.pending.len() == 0,
        run_end_event(final_state(c, cmds)) matches LogEvent::RunEnd { pending_left, .. }
            && pending_left == 0,
        submits(run_events(c, cmds)) == cmds.len(),
        completes(run_events(c, cmds)) == cmds.len(),
{
    lemma_no_fault_run(c, cmds);
    let f = final_state(c, cmds);
    lemma_push(f.events, run_end_event(f));
}

// ---------------------------------------------------------------------------
// Fences.

/// Whether `e` is the SUBMIT of a FENCE command.
pub open spec fn submits_fence(e: LogEvent) -> bool {
    e matches LogEvent::Submit { command, .. } && command is FENCE
}

/// Every FENCE event comes right after the SUBMIT of a FENCE command, and
/// every SUBMIT of a FENCE command is followed right away by a FENCE event.
pub open spec fn fences_follow_submits(ev: Seq<LogEvent>) -> bool {
    &&& forall|i: int|
        0 <= i < ev.len() && #[trigger] ev[i] is Fence ==> i > 0 && submits_fence(ev[i - 1])
    &&& forall|i: int|
        0 <= i < ev.len() && submits_fence(#[trigger] ev[i]) ==> i + 1 < ev.len() && ev[i + 1] is Fence
}

/// Appending an event that is neither a FENCE nor the SUBMIT of one keeps the fence law.
proof fn lemma_fences_push(ev: Seq<LogEvent>, e: LogEvent)
    requires
        fences_follow_submits(ev),
        !(e is Fence),
        !submits_fence(e),
    ensures
        fences_follow_submits(ev.push(e)),
{
    let ev2 = ev.push(e);
    assert forall|i: int| 0 <= i < ev2.len() && #[trigger] ev2[i] is Fence implies i > 0
        && submits_fence(ev2[i - 1]) by {
        assert(ev2[i] == ev[i]);
    }
}

/// One step keeps the fence law.
proof fn lemma_fences_step(c: RunConfig, cmds: Seq<Command>, t: RunState)
    requires
        run_inv(c, cmds.len(), t),
        !t.done,
        fences_follow_submits(t.events),
    ensures
        fences_follow_submits(engine_step(c, cmds, t).events),
{
    lemma_step_facts(c, cmds, t);
    let t1 = after_flip(c, cmds, t);
    let n = cmds.len();
    if loop_exits(c, cmds, t) {
    } else if chooses_complete(c, cmds, t) {
        let p = t.model.pending;
        if fault_due(c, n, t1) {
            if c.fault_mode is TIMEOUT {
                assert(p.contains(p[0]));
                lemma_complete_inv(t.model, p[0], Some(Status::TIMEOUT));
                let res = t.model.complete(p[0], Some(Status::TIMEOUT)).1->Some_0;
                lemma_fences_push(t.events, LogEvent::Complete { result: res });
            } else {
                lemma_fences_push(
                    t.events,
                    LogEvent::Reset { pending_before: t.model.pending.len() as u32 },
                );
            }
        } else {
            lemma_pick_pending(c, t1);
            let dec = pick_spec(c.policy, c.bound_k, t1.rng, p).0->Some_0;
            lemma_complete_inv(t.model, dec.cmd_id, None);
            let res = t.model.complete(dec.cmd_id, None).1->Some_0;
            lemma_fences_push(t.events, LogEvent::Complete { result: res });
        }
    } else {
        let cmd = cmds[t.next_cmd as int];
        let sub = LogEvent::Submit { cmd_id: t.model.next_cmd_id, command: cmd };
        let ev1 = t.events.push(sub);
        if cmd is FENCE {
            let ev2 = ev1.push(LogEvent::Fence { fence_id: t.model.current_fence_id });
            assert forall|i: int| 0 <= i < ev2.len() && #[trigger] ev2[i] is Fence implies i > 0
                && submits_fence(ev2[i - 1]) by {
                if i < t.events.len() {
                    assert(ev2[i] == t.events[i]);
                    assert(ev2[i - 1] == t.events[i - 1]);
                }
            }
            assert forall|i: int|
                0 <= i < ev2.len() && submits_fence(#[trigger] ev2[i]) implies i + 1 < ev2.len() && ev2[i + 1] is Fence by {
                if i < t.events.len() {
                    assert(ev2[i] == t.events[i]);
                    if i + 1 < t.events.len() {
                        assert(ev2[i + 1] == t.events[i + 1]);
                    }
                }
            }
        } else {
            lemma_fences_push(t.events, sub);
        }
    }
}

/// In every run's log, a FENCE line comes right after the SUBMIT line of its
/// FENCE command, with no event between them.
pub proof fn lemma_fence_follows_submit(c: RunConfig, cmds: Seq<Command>)
    requires
        cmds.len() <= u32::MAX,
    ensures
        fences_follow_submits(run_events(c, cmds)),
{
    lemma_initial(c, cmds);
    let keep = |t: RunState| fences_follow_submits(t.events);
    assert forall|t: RunState|
        #![trigger engine_step(c, cmds, t)]
        run_inv(c, cmds.len(), t) && !t.done && keep(t) implies keep(engine_step(c, cmds, t)) by {
        lemma_fences_step(c, cmds, t);
    }
    lemma_run_induct(c, cmds, initial_state(c), keep);
    let f = final_state(c, cmds);
    lemma_fences_push(f.events, run_end_event(f));
}

// ---------------------------------------------------------------------------
// The submit window.

/// Both peaks stay within the submit window.
spec fn window_inv(w: usize, t: RunState) -> bool {
    t.peak <= w && t.model.pending_peak <= w
}

/// With a finite submit window, the reported pending peak never exceeds it.
pub proof fn lemma_peak_within_window(c: RunConfig, cmds: Seq<Command>, w: usize)
    requires
        c.submit_window == SubmitWindow::Finite(w),
        cmds.len() <= u32::MAX,
    ensures
        reported_peak(final_state(c, cmds)) <= w,
        run_end_event(final_state(c, cmds)) matches LogEvent::RunEnd { pending_peak, .. }
            && pending_peak <= w,
{
    lemma_initial(c, cmds);
    let keep = |t: RunState| window_inv(w, t);
    assert forall|t: RunState|
        #![trigger engine_step(c, cmds, t)]
        run_inv(c, cmds.len(), t) && !t.done && keep(t) implies keep(engine_step(c, cmds, t)) by {
        lemma_step_facts(c, cmds, t);
        let t1 = after_flip(c, cmds, t);
        if loop_exits(c, cmds, t) {
        } else if chooses_complete(c, cmds, t) {
            let p = t.model.pending;
            if fault_due(c, cmds.len(), t1) {
                if c.fault_mode is TIMEOUT {
                    assert(p.contains(p[0]));
                    lemma_complete_inv(t.model, p[0], Some(Status::TIMEOUT));
                }
            } else {
                lemma_pick_pending(c, t1);
                let dec = pick_spec(c.policy, c.bound_k, t1.rng, p).0->Some_0;
                lemma_complete_inv(t.model, dec.cmd_id, None);
            }
        } else {
            lemma_submit_inv(t.model, cmds[t.next_cmd as int]);
        }
    }
    lemma_run_induct(c, cmds, initial_state(c), keep);
    let f = final_state(c, cmds);
    assert(reported_peak(f) <= w);
}

// ---------------------------------------------------------------------------
// Reset runs.

/// A RESET can only be the last event of a finished run, and a finished run
/// leaves nothing pending.
spec fn reset_inv(t: RunState) -> bool {
    &&& forall|i: int| 0 <= i < t.events.len() && #[trigger] t.events[i] is Reset ==> t.done && i
        == t.events.len() - 1
    &&& resets(t.events) <= 1
    &&& t.done ==> t.model.pending.len() == 0
}

/// In a RESET run, RESET appears at most once, no SUBMIT or COMPLETE follows
/// it, and RUN_END reports no pending command left.
pub proof fn lemma_reset_ends_run(c: RunConfig, cmds: Seq<Command>)
    requires
        c.fault_mode is RESET,
        cmds.len() <= u32::MAX,
    ensures
        resets(run_events(c, cmds)) <= 1,
        forall|i: int, j: int|
            0 <= i < j < run_events(c, cmds).len() && #[trigger] run_events(c, cmds)[i] is Reset
                ==> !(#[trigger] run_events(c, cmds)[j] is Submit) && !(run_events(c, cmds)[j] is Complete),
        run_end_event(final_state(c, cmds)) matches LogEvent::RunEnd { pending_left, .. }
            && pending_left == 0,
{
    lemma_initial(c, cmds);
    let keep = |t: RunState| reset_inv(t);
    assert forall|t: RunState|
        #![trigger engine_step(c, cmds, t)]
        run_inv(c, cmds.len(), t) && !t.done && keep(t) implies keep(engine_step(c, cmds, t)) by {
        lemma_step_facts(c, cmds, t);
        let t1 = after_flip(c, cmds, t);
        assert(resets(t.events) == 0) by {
            lemma_no_reset_count(t.events);
        }
        if loop_exits(c, cmds, t) {
        } else if chooses_complete(c, cmds, t) {
            let p = t.model.pending;
            if fault_due(c, cmds.len(), t1) {
                let e = LogEvent::Reset { pending_before: t.model.pending.len() as u32 };
                lemma_push(t.events, e);
                let u = engine_step(c, cmds, t);
                assert(u.events == t.events.push(e));
                assert(resets(u.events) == 1);
                assert forall|i: int| 0 <= i < u.events.len() && #[trigger] u.events[i] is Reset implies u.done
                    && i == u.events.len() - 1 by {
                    if i < t.events.len() {
                        assert(u.events[i] == t.events[i]);
                    }
                }
            } else {
                lemma_pick_pending(c, t1);
                let dec = pick_spec(c.policy, c.bound_k, t1.rng, p).0->Some_0;
                lemma_complete_inv(t.model, dec.cmd_id, None);
                let res = t.model.complete(dec.cmd_id, None).1->Some_0;
                let e = LogEvent::Complete { result: res };
                lemma_push(t.events, e);
                let u = engine_step(c, cmds, t);
                assert(u.events == t.events.push(e));
                assert(resets(u.events) == 0);
                assert forall|i: int| 0 <= i < u.events.len() implies !(#[trigger] u.events[i] is Reset) by {
                    if i < t.events.len() {
                        assert(u.events[i] == t.events[i]);
                    }
                }
            }
        } else {
            let cmd = cmds[t.next_cmd as int];
            let sub = LogEvent::Submit { cmd_id: t.model.next_cmd_id, command: cmd };
            let e1 = t.events.push(sub);
            let fe = LogEvent::Fence { fence_id: t.model.current_fence_id };
            lemma_push(t.events, sub);
            lemma_push(e1, fe);
            let u = engine_step(c, cmds, t);
            assert(resets(e1) == 0);
            assert(resets(e1.push(fe)) == 0);
            assert(resets(u.events) == 0);
            assert forall|i: int| 0 <= i < u.events.len() implies !(#[trigger] u.events[i] is Reset) by {
                if i < t.events.len() {
                    assert(u.events[i] == t.events[i]);
                } else if i == t.events.len() {
                    assert(u.events[i] == sub);
                }
            }
        }
    }
    lemma_run_induct(c, cmds, initial_state(c), keep);
    let f = final_state(c, cmds);
    let ev = run_events(c, cmds);
    lemma_push(f.events, run_end_event(f));
    assert forall|i: int, j: int|
        0 <= i < j < ev.len() && #[trigger] ev[i] is Reset implies !(#[trigger] ev[j] is Submit) && !(
        ev[j] is Complete) by {
        assert(ev[i] == f.events[i]);
    }
}

/// Events with no RESET among them count no RESET.
proof fn lemma_no_reset_count(ev: Seq<LogEvent>)
    requires
        forall|i: int| 0 <= i < ev.len() ==> !(#[trigger] ev[i] is Reset),
    ensures
        resets(ev) == 0,
    decreases ev.len(),
{
    if ev.len() > 0 {
        assert(ev.last() == ev[ev.len() - 1]);
        let d = ev.drop_last();
        assert forall|i: int| 0 <= i < d.len() implies !(#[trigger] d[i] is Reset) by {
            assert(d[i] == ev[i]);
        }
        lemma_no_reset_count(d);
    }
}

// ---------------------------------------------------------------------------
// The pending peak.

/// SUBMITs less COMPLETEs less commands lost to RESETs.
pub open spec fn outstanding(ev: Seq<LogEvent>) -> int {
    submits(ev) - completes(ev) - lost_to_reset(ev)
}

/// Every prefix of `ev` has at most `b` outstanding commands.
pub open spec fn prefixes_within(ev: Seq<LogEvent>, b: int) -> bool {
    forall|k: int| 0 <= k <= ev.len() ==> outstanding(#[trigger] ev.take(k)) <= b
}

/// Appending an event keeps the prefix bound when the whole new sequence meets it.
proof fn lemma_prefixes_push(ev: Seq<LogEvent>, e: LogEvent, b: int)
    requires
        prefixes_within(ev, b),
        outstanding(ev.push(e)) <= b,
    ensures
        prefixes_within(ev.push(e), b),
{
    lemma_push(ev, e);
    assert forall|k: int| 0 <= k <= ev.push(e).len() implies outstanding(#[trigger] ev.push(e).take(k))
        <= b by {
        if k <= ev.len() {
            assert(ev.push(e).take(k) == ev.take(k));
        }
    }
}

/// A prefix bound holds of every larger bound.
proof fn lemma_prefixes_weaken(ev: Seq<LogEvent>, a: int, b: int)
    requires
        prefixes_within(ev, a),
        a <= b,
    ensures
        prefixes_within(ev, b),
{
}

/// The outstanding count is the pending count, and no prefix exceeds the model's peak.
spec fn peak_inv(t: RunState) -> bool {
    &&& outstanding(t.events) == t.model.pending.len()
    &&& prefixes_within(t.events, t.model.pending_peak as int)
}

/// One step keeps `peak_inv`.
proof fn lemma_peak_step(c: RunConfig, cmds: Seq<Command>, t: RunState)
    requires
        run_inv(c, cmds.len(), t),
        !t.done,
        peak_inv(t),
    ensures
        peak_inv(engine_step(c, cmds, t)),
{
    lemma_step_facts(c, cmds, t);
    let t1 = after_flip(c, cmds, t);
    let b = t.model.pending_peak as int;
    let u = engine_step(c, cmds, t);
    if loop_exits(c, cmds, t) {
    } else if chooses_complete(c, cmds, t) {
        let p = t.model.pending;
        if fault_due(c, cmds.len(), t1) {
            if c.fault_mode is TIMEOUT {
                assert(p.contains(p[0]));
                lemma_complete_inv(t.model, p[0], Some(Status::TIMEOUT));
                let res = t.model.complete(p[0], Some(Status::TIMEOUT)).1->Some_0;
                let e = LogEvent::Complete { result: res };
                lemma_push(t.events, e);
                assert(outstanding(t.events.push(e)) == outstanding(t.events) - 1);
                lemma_prefixes_push(t.events, e, b);
                assert(u.events == t.events.push(e));
            } else {
                let e = LogEvent::Reset { pending_before: t.model.pending.len() as u32 };
                lemma_push(t.events, e);
                assert(outstanding(t.events.push(e)) == 0);
                lemma_prefixes_push(t.events, e, b);
                assert(u.events == t.events.push(e));
            }
        } else {
            lemma_pick_pending(c, t1);
            let dec = pick_spec(c.policy, c.bound_k, t1.rng, p).0->Some_0;
            lemma_complete_inv(t.model, dec.cmd_id, None);
            let res = t.model.complete(dec.cmd_id, None).1->Some_0;
            let e = LogEvent::Complete { result: res };
            lemma_push(t.events, e);
            assert(outstanding(t.events.push(e)) == outstanding(t.events) - 1);
            lemma_prefixes_push(t.events, e, b);
            assert(u.events == t.events.push(e));
        }
    } else {
        let cmd = cmds[t.next_cmd as int];
        lemma_submit_inv(t.model, cmd);
        let b2 = u.model.pending_peak as int;
        let sub = LogEvent::Submit { cmd_id: t.model.next_cmd_id, command: cmd };
        let e1 = t.events.push(sub);
        let fe = LogEvent::Fence { fence_id: t.model.current_fence_id };
        lemma_push(t.events, sub);
        lemma_push(e1, fe);
        lemma_prefixes_weaken(t.events, b, b2);
        assert(outstanding(e1) == outstanding(t.events) + 1);
        lemma_prefixes_push(t.events, sub, b2);
        assert(outstanding(e1.push(fe)) == outstanding(e1));
        lemma_prefixes_push(e1, fe, b2);
    }
}

/// At every point of every run's log, SUBMITs so far less COMPLETEs so far
/// less the commands lost to a RESET is at most the pending peak that
/// RUN_END reports.
pub proof fn lemma_peak_bounds_outstanding(c: RunConfig, cmds: Seq<Command>)
    requires
        cmds.len() <= u32::MAX,
    ensures
        prefixes_within(run_events(c, cmds), reported_peak(final_state(c, cmds)) as int),
{
    lemma_initial(c, cmds);
    assert(initial_state(c).events.take(0) =~= initial_state(c).events);
    let keep = |t: RunState| peak_inv(t);
    assert forall|t: RunState|
        #![trigger engine_step(c, cmds, t)]
        run_inv(c, cmds.len(), t) && !t.done && keep(t) implies keep(engine_step(c, cmds, t)) by {
        lemma_peak_step(c, cmds, t);
    }
    lemma_run_induct(c, cmds, initial_state(c), keep);
    let f = final_state(c, cmds);
    let e = run_end_event(f);
    let b = reported_peak(f) as int;
    lemma_push(f.events, e);
    lemma_prefixes_weaken(f.events, f.model.pending_peak as int, b);
    lemma_prefixes_push(f.events, e, b);
}

// ---------------------------------------------------------------------------
// FIFO.

/// `p[i]` sits at position `i` of a strictly ascending sequence, and nowhere else.
proof fn lemma_position(p: Seq<u32>, i: int)
    requires
        strictly_ascending(p),
        0 <= i < p.len(),
    ensures
        position_of(p, p[i]) == i,
{
    let j = position_of(p, p[i]);
    assert(0 <= j < p.len() && p[j] == p[i]);
    if j < i {
        assert(p[j] < p[i]);
    } else if j > i {
        assert(p[i] < p[j]);
    }
}

/// Under FIFO: cmd_ids are submitted and completed as 0, 1, 2, ..., and the
/// pending ones are the next ones to complete, in order.
spec fn fifo_inv(t: RunState) -> bool {
    &&& submit_ids(t.events).len() == t.next_cmd
    &&& forall|i: int| 0 <= i < submit_ids(t.events).len() ==> #[trigger] submit_ids(t.events)[i] == i
    &&& complete_ids(t.events).len() + t.model.pending.len() == t.next_cmd
    &&& forall|i: int| 0 <= i < complete_ids(t.events).len() ==> #[trigger] complete_ids(t.events)[i] == i
    &&& forall|j: int|
        0 <= j < t.model.pending.len() ==> #[trigger] t.model.pending[j] == complete_ids(t.events).len()
            + j
}

/// One FIFO step keeps `fifo_inv`.
proof fn lemma_fifo_step(c: RunConfig, cmds: Seq<Command>, t: RunState)
    requires
        c.policy is FIFO,
        c.fault_mode is NONE,
        run_inv(c, cmds.len(), t),
        !t.done,
        fifo_inv(t),
    ensures
        fifo_inv(engine_step(c, cmds, t)),
{
    lemma_step_facts(c, cmds, t);
    let t1 = after_flip(c, cmds, t);
    let u = engine_step(c, cmds, t);
    if loop_exits(c, cmds, t) {
    } else if chooses_complete(c, cmds, t) {
        let p = t.model.pending;
        lemma_pick_pending(c, t1);
        let dec = pick_spec(c.policy, c.bound_k, t1.rng, p).0->Some_0;
        assert(dec.cmd_id == p[0]);
        lemma_complete_inv(t.model, dec.cmd_id, None);
        lemma_position(p, 0);
        let res = t.model.complete(dec.cmd_id, None).1->Some_0;
        let e = LogEvent::Complete { result: res };
        lemma_push(t.events, e);
        assert(u.events == t.events.push(e));
        assert(u.model.pending == p.remove(0));
        let ci = complete_ids(t.events);
        assert(complete_ids(u.events) == ci.push(p[0]));
        assert(submit_ids(u.events) == submit_ids(t.events));
        assert forall|j: int| 0 <= j < u.model.pending.len() implies #[trigger] u.model.pending[j]
            == complete_ids(u.events).len() + j by {
            assert(u.model.pending[j] == p[j + 1]);
        }
    } else {
        let cmd = cmds[t.next_cmd as int];
        lemma_submit_inv(t.model, cmd);
        let sub = LogEvent::Submit { cmd_id: t.model.next_cmd_id, command: cmd };
        let e1 = t.events.push(sub);
        let fe = LogEvent::Fence { fence_id: t.model.current_fence_id };
        lemma_push(t.events, sub);
        lemma_push(e1, fe);
        assert(submit_ids(e1) == submit_ids(t.events).push(t.model.next_cmd_id));
        assert(submit_ids(e1.push(fe)) == submit_ids(e1));
        assert(complete_ids(e1) == complete_ids(t.events));
        assert(complete_ids(e1.push(fe)) == complete_ids(e1));
        assert(u.model.pending == t.model.pending.push(t.model.next_cmd_id));
    }
}

/// Under FIFO with reorder bound 0 and no faults, commands complete in the
/// order in which they were submitted.
pub proof fn lemma_fifo_completes_in_order(c: RunConfig, cmds: Seq<Command>)
    requires
        c.policy is FIFO,
        c.bound_k == BoundK::Finite(0),
        c.fault_mode is NONE,
        cmds.len() <= u32::MAX,
    ensures
        complete_ids(run_events(c, cmds)) == submit_ids(run_events(c, cmds)),
{
    lemma_initial(c, cmds);
    let n = cmds.len();
    let keep = |t: RunState| no_fault_inv(c, n, t) && fifo_inv(t);
    assert forall|t: RunState|
        #![trigger engine_step(c, cmds, t)]
        run_inv(c, n, t) && !t.done && keep(t) implies keep(engine_step(c, cmds, t)) by {
        lemma_no_fault_step(c, cmds, t);
        lemma_fifo_step(c, cmds, t);
    }
    lemma_run_induct(c, cmds, initial_state(c), keep);
    let f = final_state(c, cmds);
    let e = run_end_event(f);
    lemma_push(f.events, e);
    assert(complete_ids(f.events.push(e)) == complete_ids(f.events));
    assert(submit_ids(f.events.push(e)) == submit_ids(f.events));
    assert(complete_ids(f.events) =~= submit_ids(f.events));
}

// ---------------------------------------------------------------------------
// ADVERSARIAL with no reorder bound.

/// `id` is pending after events `before`, and no pending cmd_id is larger.
pub open spec fn newest_pending(before: Seq<LogEvent>, id: u32) -> bool {
    &&& pending_ids(before).contains(id)
    &&& forall|d: u32| #[trigger] pending_ids(before).contains(d) ==> d <= id
}

/// Every COMPLETE of `ev` completes the newest command pending just before it.
pub open spec fn completes_newest(ev: Seq<LogEvent>) -> bool {
    forall|i: int|
        0 <= i < ev.len() && #[trigger] ev[i] is Complete ==> newest_pending(
            ev.take(i),
            ev[i]->Complete_result.cmd_id,
        )
}

/// What a strictly ascending sequence holds once its `i`-th element is removed.
proof fn lemma_remove_contains(p: Seq<u32>, i: int)
    requires
        strictly_ascending(p),
        0 <= i < p.len(),
    ensures
        forall|x: u32| #[trigger] p.remove(i).contains(x) <==> (p.contains(x) && x != p[i]),
{
    let q = p.remove(i);
    assert forall|x: u32| #[trigger] q.contains(x) <==> (p.contains(x) && x != p[i]) by {
        if q.contains(x) {
            let j = choose|j: int| 0 <= j < q.len() && q[j] == x;
            if j < i {
                assert(q[j] == p[j]);
                assert(p[j] < p[i]);
            } else {
                assert(q[j] == p[j + 1]);
                assert(p[i] < p[j + 1]);
            }
        }
        if p.contains(x) && x != p[i] {
            let k = choose|k: int| 0 <= k < p.len() && p[k] == x;
            if k < i {
                assert(q[k] == p[k]);
            } else {
                assert(k > i);
                assert(q[k - 1] == p[k]);
            }
        }
    }
}

/// What a sequence holds once `v` is appended.
proof fn lemma_push_contains(p: Seq<u32>, v: u32)
    ensures
        forall|x: u32| #[trigger] p.push(v).contains(x) <==> (p.contains(x) || x == v),
{
    assert forall|x: u32| #[trigger] p.push(v).contains(x) <==> (p.contains(x) || x == v) by {
        if p.contains(x) {
            let k = choose|k: int| 0 <= k < p.len() && p[k] == x;
            assert(p.push(v)[k] == x);
        }
        if x == v {
            assert(p.push(v)[p.len() as int] == v);
        }
        if p.push(v).contains(x) {
            let k = choose|k: int| 0 <= k < p.len() + 1 && p.push(v)[k] == x;
            if k < p.len() {
                assert(p[k] == x);
            }
        }
    }
}

/// The log's pending set is the model's, and every completion took the newest.
spec fn newest_inv(t: RunState) -> bool {
    &&& forall|x: u32| #[trigger] pending_ids(t.events).contains(x) <==> t.model.pending.contains(x)
    &&& completes_newest(t.events)
}

/// Appending an event keeps `completes_newest` when a COMPLETE among them takes the newest.
proof fn lemma_newest_push(ev: Seq<LogEvent>, e: LogEvent)
    requires
        completes_newest(ev),
        e is Complete ==> newest_pending(ev, e->Complete_result.cmd_id),
    ensures
        completes_newest(ev.push(e)),
{
    lemma_push(ev, e);
    let ev2 = ev.push(e);
    assert forall|i: int| 0 <= i < ev2.len() && #[trigger] ev2[i] is Complete implies newest_pending(
        ev2.take(i),
        ev2[i]->Complete_result.cmd_id,
    ) by {
        if i < ev.len() {
            assert(ev2[i] == ev[i]);
            assert(ev2.take(i) == ev.take(i));
        } else {
            assert(ev2.take(i) =~= ev);
        }
    }
}

/// One ADVERSARIAL step without a reorder bound keeps `newest_inv`.
proof fn lemma_newest_step(c: RunConfig, cmds: Seq<Command>, t: RunState)
    requires
        c.policy is ADVERSARIAL,
        c.bound_k is Infinite,
        c.fault_mode is NONE,
        run_inv(c, cmds.len(), t),
        !t.done,
        newest_inv(t),
    ensures
        newest_inv(engine_step(c, cmds, t)),
{
    lemma_step_facts(c, cmds, t);
    let t1 = after_flip(c, cmds, t);
    let u = engine_step(c, cmds, t);
    if loop_exits(c, cmds, t) {
    } else if chooses_complete(c, cmds, t) {
        let p = t.model.pending;
        let n = p.len() as int;
        lemma_pick_pending(c, t1);
        let dec = pick_spec(c.policy, c.bound_k, t1.rng, p).0->Some_0;
        assert(dec.cmd_id == p[n - 1]);
        lemma_complete_inv(t.model, dec.cmd_id, None);
        lemma_position(p, n - 1);
        lemma_remove_contains(p, n - 1);
        let res = t.model.complete(dec.cmd_id, None).1->Some_0;
        let e = LogEvent::Complete { result: res };
        lemma_push(t.events, e);
        assert(u.events == t.events.push(e));
        assert(u.model.pending == p.remove(n - 1));
        assert(p.contains(p[n - 1]));
        assert forall|d: u32| #[trigger] pending_ids(t.events).contains(d) implies d <= dec.cmd_id by {
            let k = choose|k: int| 0 <= k < p.len() && p[k] == d;
            if k < n - 1 {
                assert(p[k] < p[n - 1]);
            }
        }
        lemma_newest_push(t.events, e);
        assert(pending_ids(u.events) == pending_ids(t.events).remove(dec.cmd_id));
    } else {
        let cmd = cmds[t.next_cmd as int];
        lemma_submit_inv(t.model, cmd);
        let sub = LogEvent::Submit { cmd_id: t.model.next_cmd_id, command: cmd };
        let e1 = t.events.push(sub);
        let fe = LogEvent::Fence { fence_id: t.model.current_fence_id };
        lemma_push(t.events, sub);
        lemma_push(e1, fe);
        lemma_newest_push(t.events, sub);
        lemma_newest_push(e1, fe);
        lemma_push_contains(t.model.pending, t.model.next_cmd_id);
        assert(pending_ids(e1) == pending_ids(t.events).insert(t.model.next_cmd_id));
        assert(pending_ids(e1.push(fe)) == pending_ids(e1));
        assert(u.model.pending == t.model.pending.push(t.model.next_cmd_id));
    }
}

/// Under ADVERSARIAL with no reorder bound and no faults, every completion
/// completes the largest cmd_id pending at that moment.
pub proof fn lemma_adversarial_completes_newest(c: RunConfig, cmds: Seq<Command>)
    requires
        c.policy is ADVERSARIAL,
        c.bound_k is Infinite,
        c.fault_mode is NONE,
        cmds.len() <= u32::MAX,
    ensures
        completes_newest(run_events(c, cmds)),
{
    lemma_initial(c, cmds);
    let keep = |t: RunState| newest_inv(t);
    assert forall|t: RunState|
        #![trigger engine_step(c, cmds, t)]
        run_inv(c, cmds.len(), t) && !t.done && keep(t) implies keep(engine_step(c, cmds, t)) by {
        lemma_newest_step(c, cmds, t);
    }
    lemma_run_induct(c, cmds, initial_state(c), keep);
    let f = final_state(c, cmds);
    lemma_newest_push(f.events, run_end_event(f));
}

// ---------------------------------------------------------------------------
// TIMEOUT runs.

/// No SUBMIT of `ev` comes after a TIMEOUT completion.
pub open spec fn no_submit_after_timeout(ev: Seq<LogEvent>) -> bool {
    forall|i: int, j: int|
        0 <= i < j < ev.len() && #[trigger] is_timeout(ev[i]) ==> !(#[trigger] ev[j] is Submit)
}

/// In a TIMEOUT run: submits stop exactly when the fault fires, the fault is
/// the only TIMEOUT completion, and until it fires the step count stays at most
/// the fault step.
spec fn timeout_inv(c: RunConfig, n: nat, t: RunState) -> bool {
    &&& t.stop_submits == t.fault_injected
    &&& timeouts(t.events) == if t.fault_injected {
        1nat
    } else {
        0nat
    }
    &&& !t.fault_injected ==> forall|i: int| 0 <= i < t.events.len() ==> !is_timeout(#[trigger] t.events[i])
    &&& no_submit_after_timeout(t.events)
    &&& !t.fault_injected ==> t.step_count <= n / 2
    &&& t.step_count + t.model.pending.len() == t.next_cmd
    &&& t.done ==> t.model.pending.len() == 0 && !submit_allowed(c, n, t)
}

/// Appending an event keeps the TIMEOUT laws, and counts the event if it is a TIMEOUT.
proof fn lemma_timeout_push(ev: Seq<LogEvent>, e: LogEvent, clean: bool)
    requires
        no_submit_after_timeout(ev),
        clean ==> forall|i: int| 0 <= i < ev.len() ==> !is_timeout(#[trigger] ev[i]),
        e is Submit ==> clean,
    ensures
        no_submit_after_timeout(ev.push(e)),
        timeouts(ev.push(e)) == timeouts(ev) + if is_timeout(e) { 1nat } else { 0nat },
        clean && !is_timeout(e) ==> forall|i: int| 0 <= i < ev.push(e).len() ==> !is_timeout(#[trigger] ev.push(e)[i]),
{
    lemma_push(ev, e);
    let ev2 = ev.push(e);
    assert forall|i: int, j: int|
        0 <= i < j < ev2.len() && #[trigger] is_timeout(ev2[i]) implies !(#[trigger] ev2[j] is Submit) by {
        assert(ev2[i] == ev[i]);
        if j < ev.len() {
            assert(ev2[j] == ev[j]);
        }
    }
    if clean && !is_timeout(e) {
        assert forall|i: int| 0 <= i < ev2.len() implies !is_timeout(#[trigger] ev2[i]) by {
            if i < ev.len() {
                assert(ev2[i] == ev[i]);
            }
        }
    }
}

/// One step of a TIMEOUT run keeps `timeout_inv`.
proof fn lemma_timeout_step(c: RunConfig, cmds: Seq<Command>, t: RunState)
    requires
        c.fault_mode is TIMEOUT,
        run_inv(c, cmds.len(), t),
        !t.done,
        timeout_inv(c, cmds.len(), t),
    ensures
        timeout_inv(c, cmds.len(), engine_step(c, cmds, t)),
{
    lemma_step_facts(c, cmds, t);
    let n = cmds.len();
    let t1 = after_flip(c, cmds, t);
    let u = engine_step(c, cmds, t);
    if loop_exits(c, cmds, t) {
    } else if chooses_complete(c, cmds, t) {
        let p = t.model.pending;
        if fault_due(c, n, t1) {
            assert(p.contains(p[0]));
            lemma_complete_inv(t.model, p[0], Some(Status::TIMEOUT));
            let res = t.model.complete(p[0], Some(Status::TIMEOUT)).1->Some_0;
            let e = LogEvent::Complete { result: res };
            assert(is_timeout(e));
            lemma_timeout_push(t.events, e, true);
            assert(u.events == t.events.push(e));
        } else {
            lemma_pick_pending(c, t1);
            let dec = pick_spec(c.policy, c.bound_k, t1.rng, p).0->Some_0;
            lemma_complete_inv(t.model, dec.cmd_id, None);
            let cmd = t.model.submitted[dec.cmd_id as int].command;
            lemma_execute_not_timeout(cmd, t.model.host, t.model.dev);
            let res = t.model.complete(dec.cmd_id, None).1->Some_0;
            let e = LogEvent::Complete { result: res };
            assert(!is_timeout(e));
            lemma_timeout_push(t.events, e, !t.fault_injected);
            assert(u.events == t.events.push(e));
        }
    } else {
        let cmd = cmds[t.next_cmd as int];
        lemma_submit_inv(t.model, cmd);
        let sub = LogEvent::Submit { cmd_id: t.model.next_cmd_id, command: cmd };
        let e1 = t.events.push(sub);
        let fe = LogEvent::Fence { fence_id: t.model.current_fence_id };
        lemma_timeout_push(t.events, sub, true);
        lemma_timeout_push(e1, fe, true);
    }
}

/// In a TIMEOUT run of at least one command, with a submit window other
/// than 0, exactly one COMPLETE has status TIMEOUT, and no SUBMIT follows it.
pub proof fn lemma_timeout_fires_once(c: RunConfig, cmds: Seq<Command>)
    requires
        c.fault_mode is TIMEOUT,
        c.submit_window != SubmitWindow::Finite(0),
        1 <= cmds.len() <= u32::MAX,
    ensures
        timeouts(run_events(c, cmds)) == 1,
        no_submit_after_timeout(run_events(c, cmds)),
{
    lemma_initial(c, cmds);
    let n = cmds.len();
    let keep = |t: RunState| timeout_inv(c, n, t);
    assert forall|t: RunState|
        #![trigger engine_step(c, cmds, t)]
        run_inv(c, n, t) && !t.done && keep(t) implies keep(engine_step(c, cmds, t)) by {
        lemma_timeout_step(c, cmds, t);
    }
    lemma_run_induct(c, cmds, initial_state(c), keep);
    let f = final_state(c, cmds);
    assert(f.fault_injected) by {
        if !f.fault_injected {
            assert(f.next_cmd >= n);
            assert(f.step_count == n);
        }
    }
    lemma_timeout_push(f.events, run_end_event(f), false);
}

// ---------------------------------------------------------------------------
// Determinism.

/// What `execute_run` promises of its output for workload `cmds` named
/// `seed_id` under `c`.
pub open spec fn produced_by(
    r: RunOutput,
    seed_id: Seq<char>,
    cmds: Seq<Command>,
    c: RunConfig,
) -> bool {
    let f = final_state(c, cmds);
    &&& r.log@ == run_log(seed_id, c, cmds)
    &&& r.schedule.records() == f.steps
    &&& r.schedule.seed_id@ == seed_id
    &&& r.schedule.schedule_seed == c.schedule_seed
    &&& r.schedule.policy@ == policy_text(c.policy)
    &&& r.schedule.bound_k@ == bound_text(c.bound_k)
    &&& r.schedule.fault_mode@ == fault_text(c.fault_mode)
    &&& r.result.run_id@ == run_id_text(c)
    &&& r.result.pending_left == f.model.pending.len()
    &&& r.result.pending_peak == reported_peak(f)
    &&& r.result.had_reset == f.model.had_reset
    &&& r.result.commands_lost == f.model.commands_lost
}

/// Two runs of the same workload under the same configuration produce the
/// same log, the same schedule record and the same summary.
pub proof fn lemma_runs_are_deterministic(
    seed_id: Seq<char>,
    cmds: Seq<Command>,
    c: RunConfig,
    a: RunOutput,
    b: RunOutput,
)
    requires
        produced_by(a, seed_id, cmds, c),
        produced_by(b, seed_id, cmds, c),
    ensures
        a.log@ == b.log@,
        a.schedule.records() == b.schedule.records(),
        a.schedule.seed_id@ == b.schedule.seed_id@,
        a.schedule.schedule_seed == b.schedule.schedule_seed,
        a.schedule.policy@ == b.schedule.policy@,
        a.schedule.bound_k@ == b.schedule.bound_k@,
        a.schedule.fault_mode@ == b.schedule.fault_mode@,
        a.result.run_id@ == b.result.run_id@,
        a.result.pending_left == b.result.pending_left,
        a.result.pending_peak == b.result.pending_peak,
        a.result.had_reset == b.result.had_reset,
        a.result.commands_lost == b.result.commands_lost,
{
}

} // verus!
