//! The run engine: drives submits, completions and injected faults into one
//! event log and one schedule record.

use vstd::prelude::*;
use crate::logging::{
    FaultMode, LogEvent, Logger, SerializedSchedule, StepRecord, SubmitWindow, event_line,
    fault_text, header_head, header_tail, window_field,
};
use crate::model::{
    CommandResult, ModelView, NvmeLiteModel, Status, lemma_complete_inv, lemma_submit_inv,
};
use crate::prng::{advance, draw};
use crate::scheduler::{
    BoundK, Policy, Scheduler, bound_text, candidate_count, pick_spec, policy_text,
};
use crate::seed::{Command, Seed};
use crate::text::{decimal, push_decimal};

verus! {

/// Most completions forced in a row by a BATCHED burst.
pub const BATCH_SIZE: usize = 4;

/// Parameters of one run.
#[derive(Debug, Clone)]
pub struct RunConfig {
    pub seed_id: String,
    pub schedule_seed: u64,
    pub policy: Policy,
    pub bound_k: BoundK,
    pub fault_mode: FaultMode,
    pub submit_window: SubmitWindow,
    pub scheduler_version: String,
    pub git_commit: String,
    pub dump_schedule: bool,
}

/// `{seed_id}_{policy}_{bound_k}_{schedule_seed}_{fault_mode}`.
pub open spec fn run_id_text(c: RunConfig) -> Seq<char> {
    c.seed_id@ + "_"@ + policy_text(c.policy) + "_"@ + bound_text(c.bound_k) + "_"@ + decimal(
        c.schedule_seed as nat,
    ) + "_"@ + fault_text(c.fault_mode)
}

impl RunConfig {
    pub fn run_id(&self) -> (r: String)
        ensures
            r@ == run_id_text(*self),
    {
        let mut s = String::from_str(self.seed_id.as_str());
        s.append("_");
        s.append(self.policy.as_str());
        s.append("_");
        let b = self.bound_k.to_string();
        s.append(b.as_str());
        s.append("_");
        push_decimal(&mut s, self.schedule_seed);
        s.append("_");
        s.append(self.fault_mode.as_str());
        s
    }
}

/// Summary of a finished run.
#[derive(Debug)]
pub struct RunResult {
    pub run_id: String,
    pub pending_left: u32,
    pub pending_peak: u32,
    pub had_reset: bool,
    pub commands_lost: u32,
}

/// Everything a run produces: its summary, its log and its schedule record.
#[derive(Debug)]
pub struct RunOutput {
    pub result: RunResult,
    pub log: Logger,
    pub schedule: SerializedSchedule,
}

/// The engine's state between two iterations of its loop.
pub struct RunState {
    pub model: ModelView,
    /// State of the scheduler's stream.
    pub rng: u64,
    /// Events logged after the header.
    pub events: Seq<LogEvent>,
    pub steps: Seq<StepRecord>,
    pub next_cmd: nat,
    pub step_count: nat,
    pub fault_injected: bool,
    pub stop_submits: bool,
    pub batch_remaining: nat,
    /// Largest pending count seen right after a submit.
    pub peak: nat,
    pub done: bool,
}

pub open spec fn initial_state(c: RunConfig) -> RunState {
    RunState {
        model: ModelView::initial(),
        rng: c.schedule_seed,
        events: seq![],
        steps: seq![],
        next_cmd: 0,
        step_count: 0,
        fault_injected: false,
        stop_submits: false,
        batch_remaining: 0,
        peak: 0,
        done: false,
    }
}

pub open spec fn window_admits(w: SubmitWindow, pending: nat) -> bool {
    match w {
        SubmitWindow::Finite(n) => pending < n,
        SubmitWindow::Infinite => true,
    }
}

pub open spec fn submit_allowed(c: RunConfig, n_cmds: nat, s: RunState) -> bool {
    window_admits(c.submit_window, s.model.pending.len()) && s.next_cmd < n_cmds && !s.stop_submits
}

/// Whether a completion step of `s` injects the configured fault.
pub open spec fn fault_due(c: RunConfig, n_cmds: nat, s: RunState) -> bool {
    c.fault_mode !is NONE && s.step_count >= n_cmds / 2 && !s.fault_injected
}

/// Submits the next command of `cmds`.
pub open spec fn submit_step(cmds: Seq<Command>, s: RunState) -> RunState {
    let cmd = cmds[s.next_cmd as int];
    let rec = s.model.submitted_record(cmd);
    let m = s.model.submit(cmd);
    let submitted = s.events.push(LogEvent::Submit { cmd_id: rec.cmd_id, command: cmd });
    RunState {
        model: m,
        events: if cmd is FENCE {
            submitted.push(LogEvent::Fence { fence_id: s.model.current_fence_id })
        } else {
            submitted
        },
        next_cmd: s.next_cmd + 1,
        peak: if m.pending.len() > s.peak {
            m.pending.len()
        } else {
            s.peak
        },
        ..s
    }
}

/// Completes the oldest pending command as TIMEOUT; submits stop for good.
pub open spec fn timeout_step(s: RunState) -> RunState {
    let p = s.model.pending;
    let (m, r) = s.model.complete(p[0], Some(Status::TIMEOUT));
    if p.len() > 0 && r is Some {
        RunState {
            model: m,
            events: s.events.push(LogEvent::Complete { result: r->Some_0 }),
            steps: s.steps.push(
                StepRecord::Fault { fault_type: "TIMEOUT"@, at_step: s.step_count as usize },
            ),
            fault_injected: true,
            stop_submits: true,
            step_count: s.step_count + 1,
            ..s
        }
    } else {
        RunState {
            fault_injected: true,
            stop_submits: true,
            step_count: s.step_count + 1,
            ..s
        }
    }
}

/// Drops every pending command and ends the run body.
pub open spec fn reset_step(s: RunState) -> RunState {
    RunState {
        model: s.model.reset(),
        events: s.events.push(LogEvent::Reset { pending_before: s.model.pending.len() as u32 }),
        steps: s.steps.push(StepRecord::Fault { fault_type: "RESET"@, at_step: s.step_count as usize }),
        fault_injected: true,
        done: true,
        ..s
    }
}

/// Batch counter once a completion step has looked at the pending list.
pub open spec fn burst_start(c: RunConfig, s: RunState) -> nat {
    let n = s.model.pending.len();
    if c.policy is BATCHED && s.batch_remaining == 0 && n > 0 {
        if n < BATCH_SIZE {
            n
        } else {
            BATCH_SIZE as nat
        }
    } else {
        s.batch_remaining
    }
}

/// Completes the command that the scheduler picks.
pub open spec fn normal_complete(c: RunConfig, s: RunState) -> RunState {
    let batch = burst_start(c, s);
    let (d, rng) = pick_spec(c.policy, c.bound_k, s.rng, s.model.pending);
    match d {
        Some(dec) => {
            let (m, r) = s.model.complete(dec.cmd_id, None);
            match r {
                Some(res) => RunState {
                    model: m,
                    rng,
                    events: s.events.push(LogEvent::Complete { result: res }),
                    steps: s.steps.push(StepRecord::Pick { pick_index: dec.pick_index }),
                    batch_remaining: if c.policy is BATCHED && batch > 0 {
                        (batch - 1) as nat
                    } else {
                        batch
                    },
                    step_count: s.step_count + 1,
                    ..s
                },
                None => RunState {
                    model: m,
                    rng,
                    batch_remaining: batch,
                    step_count: s.step_count + 1,
                    ..s
                },
            }
        },
        None => RunState { rng, batch_remaining: batch, step_count: s.step_count + 1, ..s },
    }
}

pub open spec fn complete_action(c: RunConfig, n_cmds: nat, s: RunState) -> RunState {
    if fault_due(c, n_cmds, s) {
        if c.fault_mode is TIMEOUT {
            timeout_step(s)
        } else {
            reset_step(s)
        }
    } else {
        normal_complete(c, s)
    }
}

/// Whether the loop ends: nothing may be submitted and nothing is pending.
pub open spec fn loop_exits(c: RunConfig, cmds: Seq<Command>, s: RunState) -> bool {
    !submit_allowed(c, cmds.len(), s) && s.model.pending.len() == 0
}

/// Whether a BATCHED burst forces a completion.
pub open spec fn in_burst(c: RunConfig, s: RunState) -> bool {
    c.policy is BATCHED && s.batch_remaining > 0
}

/// Whether the step draws a bit to choose between submit and complete.
pub open spec fn flips_coin(c: RunConfig, cmds: Seq<Command>, s: RunState) -> bool {
    !in_burst(c, s) && submit_allowed(c, cmds.len(), s) && s.model.pending.len() > 0
}

/// Whether the step completes (else it submits).
pub open spec fn chooses_complete(c: RunConfig, cmds: Seq<Command>, s: RunState) -> bool {
    if in_burst(c, s) {
        true
    } else if flips_coin(c, cmds, s) {
        (draw(s.rng) & 1) == 1
    } else {
        s.model.pending.len() > 0
    }
}

/// `s` once the coin, if any, has been drawn.
pub open spec fn after_flip(c: RunConfig, cmds: Seq<Command>, s: RunState) -> RunState {
    if flips_coin(c, cmds, s) {
        RunState { rng: advance(s.rng), ..s }
    } else {
        s
    }
}

/// One iteration of the engine's loop.
pub open spec fn engine_step(c: RunConfig, cmds: Seq<Command>, s: RunState) -> RunState {
    if loop_exits(c, cmds, s) {
        RunState { done: true, ..s }
    } else if chooses_complete(c, cmds, s) {
        complete_action(c, cmds.len(), after_flip(c, cmds, s))
    } else {
        submit_step(cmds, after_flip(c, cmds, s))
    }
}

/// Bounds the iterations left: each one submits, completes, or ends the run.
pub open spec fn measure(n_cmds: nat, s: RunState) -> nat {
    (if s.next_cmd <= n_cmds {
        2 * (n_cmds - s.next_cmd)
    } else {
        0
    }) as nat + s.model.pending.len() + if s.done {
        0nat
    } else {
        1nat
    }
}

/// The state in which the engine's loop ends, started from `s`. From a state
/// that meets `run_inv` every step lowers `measure` (`lemma_step`), so the
/// guard below only ever stops the recursion at a final state.
pub open spec fn run_from(c: RunConfig, cmds: Seq<Command>, s: RunState) -> RunState
    decreases measure(cmds.len(), s),
{
    if s.done {
        s
    } else {
        let t = engine_step(c, cmds, s);
        if measure(cmds.len(), t) < measure(cmds.len(), s) {
            run_from(c, cmds, t)
        } else {
            s
        }
    }
}

pub open spec fn final_state(c: RunConfig, cmds: Seq<Command>) -> RunState {
    run_from(c, cmds, initial_state(c))
}

/// The pending peak that RUN_END reports: the larger of the engine's and the model's.
pub open spec fn reported_peak(s: RunState) -> nat {
    if s.peak > s.model.pending_peak {
        s.peak
    } else {
        s.model.pending_peak as nat
    }
}

/// The RUN_END event that closes a run ending in state `s`.
pub open spec fn run_end_event(s: RunState) -> LogEvent {
    LogEvent::RunEnd {
        pending_left: s.model.pending.len() as u32,
        pending_peak: reported_peak(s) as u32,
    }
}

/// Every event of the run after its header, RUN_END included.
pub open spec fn run_events(c: RunConfig, cmds: Seq<Command>) -> Seq<LogEvent> {
    let f = final_state(c, cmds);
    f.events.push(run_end_event(f))
}

/// The RUN_HEADER line of a run.
pub open spec fn run_header(seed_id: Seq<char>, c: RunConfig, n_cmds: nat) -> Seq<char> {
    header_head(
        run_id_text(c),
        seed_id,
        c.schedule_seed,
        c.policy,
        c.bound_k,
        c.fault_mode,
        n_cmds as usize,
    ) + window_field(c.submit_window) + header_tail(c.scheduler_version@, c.git_commit@)
}

/// The log lines of a run of workload `cmds` named `seed_id` under `c`.
pub open spec fn run_log(seed_id: Seq<char>, c: RunConfig, cmds: Seq<Command>) -> Seq<Seq<char>> {
    seq![run_header(seed_id, c, cmds.len())] + run_events(c, cmds).map_values(
        |e: LogEvent| event_line(e),
    )
}

/// What holds of every state the engine's loop goes through.
pub open spec fn run_inv(c: RunConfig, n_cmds: nat, s: RunState) -> bool {
    &&& s.model.inv()
    &&& n_cmds <= u32::MAX
    &&& s.next_cmd <= n_cmds
    &&& s.model.next_cmd_id == s.next_cmd
    &&& s.peak <= s.next_cmd
    &&& s.batch_remaining <= BATCH_SIZE
    &&& s.step_count <= s.next_cmd
    &&& !s.done ==> s.step_count + s.model.pending.len() == s.next_cmd
    &&& c.policy !is BATCHED ==> s.batch_remaining == 0
    &&& !s.fault_injected ==> s.batch_remaining <= s.model.pending.len()
    &&& s.fault_injected ==> s.stop_submits || s.done
    &&& s.fault_injected ==> c.fault_mode !is NONE
}

/// One iteration keeps the invariant and brings the run closer to its end.
pub proof fn lemma_step(c: RunConfig, cmds: Seq<Command>, s: RunState)
    requires
        run_inv(c, cmds.len(), s),
        !s.done,
    ensures
        run_inv(c, cmds.len(), engine_step(c, cmds, s)),
        measure(cmds.len(), engine_step(c, cmds, s)) < measure(cmds.len(), s),
{
    let n = cmds.len();
    lemma_step_facts(c, cmds, s);
    if loop_exits(c, cmds, s) {
    } else if chooses_complete(c, cmds, s) {
        let s1 = after_flip(c, cmds, s);
        let p = s.model.pending;
        if fault_due(c, n, s1) {
            if c.fault_mode is TIMEOUT {
                assert(p.contains(p[0]));
                lemma_complete_inv(s.model, p[0], Some(Status::TIMEOUT));
            }
        } else {
            lemma_pick_pending(c, s1);
            let dec = pick_spec(c.policy, c.bound_k, s1.rng, p).0->Some_0;
            lemma_complete_inv(s.model, dec.cmd_id, None);
        }
    } else {
        lemma_submit_inv(s.model, cmds[s.next_cmd as int]);
    }
}

/// What a step that does not end the loop can count on.
pub proof fn lemma_step_facts(c: RunConfig, cmds: Seq<Command>, s: RunState)
    requires
        run_inv(c, cmds.len(), s),
        !s.done,
    ensures
        !loop_exits(c, cmds, s) && chooses_complete(c, cmds, s) ==> s.model.pending.len() > 0,
        !loop_exits(c, cmds, s) && !chooses_complete(c, cmds, s) ==> submit_allowed(
            c,
            cmds.len(),
            s,
        ),
        after_flip(c, cmds, s) == (RunState { rng: after_flip(c, cmds, s).rng, ..s }),
{
}

/// The scheduler picks a pending command whenever one is pending.
pub proof fn lemma_pick_pending(c: RunConfig, s: RunState)
    requires
        s.model.pending.len() > 0,
        s.model.pending.len() <= u32::MAX,
    ensures
        pick_spec(c.policy, c.bound_k, s.rng, s.model.pending).0 is Some,
        s.model.pending.contains(pick_spec(c.policy, c.bound_k, s.rng, s.model.pending).0->Some_0.cmd_id),
        pick_spec(c.policy, c.bound_k, s.rng, s.model.pending).0->Some_0.cmd_id == s.model.pending[
            pick_spec(c.policy, c.bound_k, s.rng, s.model.pending).0->Some_0.pick_index as int],
        (pick_spec(c.policy, c.bound_k, s.rng, s.model.pending).0->Some_0.pick_index as int) < s.model.pending.len(),
{
    let p = s.model.pending;
    let k = candidate_count_pos(c.bound_k, p.len());
    let dec = pick_spec(c.policy, c.bound_k, s.rng, p).0->Some_0;
    let i = dec.pick_index as int;
    assert(p[i] == dec.cmd_id);
}

/// A property that every step keeps holds of the state where the loop ends,
/// and that state is final.
pub proof fn lemma_run_induct(
    c: RunConfig,
    cmds: Seq<Command>,
    s: RunState,
    keep: spec_fn(RunState) -> bool,
)
    requires
        run_inv(c, cmds.len(), s),
        keep(s),
        forall|t: RunState|
            #![trigger engine_step(c, cmds, t)]
            run_inv(c, cmds.len(), t) && !t.done && keep(t) ==> keep(engine_step(c, cmds, t)),
    ensures
        keep(run_from(c, cmds, s)),
        run_inv(c, cmds.len(), run_from(c, cmds, s)),
        run_from(c, cmds, s).done,
    decreases measure(cmds.len(), s),
{
    if !s.done {
        lemma_step(c, cmds, s);
        lemma_run_induct(c, cmds, engine_step(c, cmds, s), keep);
    }
}

/// The initial state meets the loop invariant.
pub proof fn lemma_initial(c: RunConfig, cmds: Seq<Command>)
    requires
        cmds.len() <= u32::MAX,
    ensures
        run_inv(c, cmds.len(), initial_state(c)),
{
}

/// The candidate window of a non-empty pending list is non-empty and fits in it.
proof fn candidate_count_pos(b: BoundK, n: nat) -> (k: nat)
    requires
        n > 0,
    ensures
        k == candidate_count(b, n),
        0 < k <= n,
{
    candidate_count(b, n)
}

/// The log after events `events` have followed `header`.
pub open spec fn log_of(header: Seq<char>, events: Seq<LogEvent>) -> Seq<Seq<char>> {
    seq![header] + events.map_values(|e: LogEvent| event_line(e))
}

proof fn lemma_log_push(header: Seq<char>, events: Seq<LogEvent>, e: LogEvent)
    ensures
        log_of(header, events.push(e)) == log_of(header, events).push(event_line(e)),
{
    assert(log_of(header, events.push(e)) =~= log_of(header, events).push(event_line(e)));
}

/// The engine's executable state.
struct Engine {
    model: NvmeLiteModel,
    scheduler: Scheduler,
    logger: Logger,
    schedule: SerializedSchedule,
    next_cmd: usize,
    pending_peak: u32,
    step_count: usize,
    fault_injected: bool,
    stop_submits: bool,
    batch_remaining: usize,
    header: Ghost<Seq<char>>,
    events: Ghost<Seq<LogEvent>>,
    seed_id: Ghost<Seq<char>>,
}

impl Engine {
    spec fn state(&self, done: bool) -> RunState {
        RunState {
            model: self.model@,
            rng: self.scheduler.rng_state(),
            events: self.events@,
            steps: self.schedule.records(),
            next_cmd: self.next_cmd as nat,
            step_count: self.step_count as nat,
            fault_injected: self.fault_injected,
            stop_submits: self.stop_submits,
            batch_remaining: self.batch_remaining as nat,
            peak: self.pending_peak as nat,
            done,
        }
    }

    spec fn wf(&self, c: RunConfig) -> bool {
        &&& self.model.wf()
        &&& self.scheduler.spec_policy() == c.policy
        &&& self.scheduler.spec_bound_k() == c.bound_k
        &&& self.logger@ == log_of(self.header@, self.events@)
        &&& self.schedule.seed_id@ == self.seed_id@
        &&& self.schedule.schedule_seed == c.schedule_seed
        &&& self.schedule.policy@ == policy_text(c.policy)
        &&& self.schedule.bound_k@ == bound_text(c.bound_k)
        &&& self.schedule.fault_mode@ == fault_text(c.fault_mode)
    }

    fn log_event_complete(&mut self, result: CommandResult)
        requires
            old(self).logger@ == log_of(old(self).header@, old(self).events@),
        ensures
            final(self).logger@ == log_of(old(self).header@, final(self).events@),
            final(self).events@ == old(self).events@.push(LogEvent::Complete { result }),
            final(self).header == old(self).header,
            final(self).model == old(self).model,
            final(self).scheduler == old(self).scheduler,
            final(self).schedule == old(self).schedule,
            final(self).next_cmd == old(self).next_cmd,
            final(self).pending_peak == old(self).pending_peak,
            final(self).step_count == old(self).step_count,
            final(self).fault_injected == old(self).fault_injected,
            final(self).stop_submits == old(self).stop_submits,
            final(self).batch_remaining == old(self).batch_remaining,
            final(self).seed_id == old(self).seed_id,
    {
        self.logger.log_complete(result.cmd_id, result.status, result.output);
        proof {
            lemma_log_push(self.header@, self.events@, LogEvent::Complete { result });
        }
        self.events = Ghost(self.events@.push(LogEvent::Complete { result }));
    }

    /// Submits the next command of the workload.
    fn submit_next(&mut self, c: &RunConfig, seed: &Seed)
        requires
            old(self).wf(*c),
            run_inv(*c, seed.commands@.len(), old(self).state(false)),
            old(self).next_cmd < seed.commands@.len(),
        ensures
            final(self).wf(*c),
            final(self).state(false) == submit_step(seed.commands@, old(self).state(false)),
            final(self).header == old(self).header,
            final(self).seed_id == old(self).seed_id,
    {
        let command = seed.commands[self.next_cmd];
        let (cmd_id, is_fence, fence_id) = self.model.submit(command);
        self.logger.log_submit(cmd_id, command.type_label());
        proof {
            lemma_log_push(self.header@, self.events@, LogEvent::Submit { cmd_id, command });
        }
        self.events = Ghost(self.events@.push(LogEvent::Submit { cmd_id, command }));
        if is_fence {
            if let Some(fid) = fence_id {
                self.logger.log_fence(fid);
                proof {
                    lemma_log_push(self.header@, self.events@, LogEvent::Fence { fence_id: fid });
                }
                self.events = Ghost(self.events@.push(LogEvent::Fence { fence_id: fid }));
            }
        }
        self.next_cmd = self.next_cmd + 1;
        let current = self.model.pending_count() as u32;
        if current > self.pending_peak {
            self.pending_peak = current;
        }
        proof {
            lemma_submit_inv(old(self).model@, command);
        }
    }

    /// One completion step: the due fault, else the scheduler's pick.
    /// Returns whether the run body ends here (a reset).
    fn complete_next(&mut self, c: &RunConfig, n: usize) -> (stop: bool)
        requires
            old(self).wf(*c),
            run_inv(*c, n as nat, old(self).state(false)),
            old(self).model@.pending.len() > 0,
        ensures
            final(self).wf(*c),
            final(self).state(stop) == complete_action(*c, n as nat, old(self).state(false)),
            final(self).header == old(self).header,
            final(self).seed_id == old(self).seed_id,
    {
        let due = !matches!(c.fault_mode, FaultMode::NONE) && self.step_count >= n / 2
            && !self.fault_injected;
        if due {
            match c.fault_mode {
                FaultMode::TIMEOUT => {
                    let pending = self.model.get_pending_canonical();
                    if pending.len() > 0 {
                        let cmd_id = pending[0];
                        if let Some(result) = self.model.complete(cmd_id, Some(Status::TIMEOUT)) {
                            self.log_event_complete(result);
                            self.schedule.add_fault("TIMEOUT", self.step_count);
                        }
                    }
                    self.fault_injected = true;
                    self.stop_submits = true;
                    self.step_count = self.step_count + 1;
                    return false;
                },
                _ => {
                    let pending_before = self.model.reset();
                    self.logger.log_reset("INJECTED", pending_before);
                    proof {
                        lemma_log_push(
                            self.header@,
                            self.events@,
                            LogEvent::Reset { pending_before },
                        );
                    }
                    self.events = Ghost(self.events@.push(LogEvent::Reset { pending_before }));
                    self.schedule.add_fault("RESET", self.step_count);
                    self.fault_injected = true;
                    return true;
                },
            }
        }
        let pending = self.model.get_pending_canonical();
        let batched = matches!(c.policy, Policy::BATCHED);
        if batched && self.batch_remaining == 0 && pending.len() > 0 {
            self.batch_remaining = if pending.len() < BATCH_SIZE {
                pending.len()
            } else {
                BATCH_SIZE
            };
        }
        let decision = self.scheduler.pick_next(pending.as_slice());
        if let Some(d) = decision {
            if let Some(result) = self.model.complete(d.cmd_id, None) {
                self.log_event_complete(result);
                self.schedule.add_complete(d.pick_index);
                if batched && self.batch_remaining > 0 {
                    self.batch_remaining = self.batch_remaining - 1;
                }
            }
        }
        self.step_count = self.step_count + 1;
        false
    }

    /// One iteration of the engine's loop; returns whether the loop ends.
    fn run_step(&mut self, config: &RunConfig, seed: &Seed) -> (stop: bool)
        requires
            old(self).wf(*config),
            run_inv(*config, seed.commands@.len(), old(self).state(false)),
        ensures
            final(self).wf(*config),
            final(self).state(stop) == engine_step(*config, seed.commands@, old(self).state(false)),
            final(self).header == old(self).header,
            final(self).seed_id == old(self).seed_id,
    {
        let n = seed.commands.len();
        let pending_count = self.model.pending_count();
        let window_ok = match config.submit_window {
            SubmitWindow::Finite(w) => pending_count < w,
            SubmitWindow::Infinite => true,
        };
        let submit_ok = window_ok && self.next_cmd < n && !self.stop_submits;
        let complete_ok = pending_count > 0;
        if !submit_ok && !complete_ok {
            return true;
        }
        let burst = matches!(config.policy, Policy::BATCHED) && self.batch_remaining > 0;
        let do_complete = if burst {
            true
        } else if submit_ok && complete_ok {
            let bit = self.scheduler.next_bit();
            bit == 1
        } else {
            complete_ok
        };
        if do_complete {
            self.complete_next(config, n)
        } else {
            self.submit_next(config, seed);
            false
        }
    }
}

/// Running on from a state that is not final is running on from its successor.
proof fn lemma_run_from_step(c: RunConfig, cmds: Seq<Command>, s: RunState)
    requires
        run_inv(c, cmds.len(), s),
        !s.done,
    ensures
        run_from(c, cmds, s) == run_from(c, cmds, engine_step(c, cmds, s)),
        run_inv(c, cmds.len(), engine_step(c, cmds, s)),
        measure(cmds.len(), engine_step(c, cmds, s)) < measure(cmds.len(), s),
{
    lemma_step(c, cmds, s);
}

proof fn lemma_run_from_done(c: RunConfig, cmds: Seq<Command>, s: RunState)
    requires
        s.done,
    ensures
        run_from(c, cmds, s) == s,
{
}

/// Runs workload `seed` under `config`: the log, the schedule record and a summary.
pub fn execute_run(seed: &Seed, config: &RunConfig) -> (r: RunOutput)
    requires
        seed.commands@.len() <= u32::MAX,
    ensures
        r.log@ == run_log(seed.seed_id@, *config, seed.commands@),
        r.schedule.records() == final_state(*config, seed.commands@).steps,
        r.schedule.seed_id@ == seed.seed_id@,
        r.schedule.schedule_seed == config.schedule_seed,
        r.schedule.policy@ == policy_text(config.policy),
        r.schedule.bound_k@ == bound_text(config.bound_k),
        r.schedule.fault_mode@ == fault_text(config.fault_mode),
        r.result.run_id@ == run_id_text(*config),
        r.result.pending_left == final_state(*config, seed.commands@).model.pending.len(),
        r.result.pending_peak == reported_peak(final_state(*config, seed.commands@)),
        r.result.had_reset == final_state(*config, seed.commands@).model.had_reset,
        r.result.commands_lost == final_state(*config, seed.commands@).model.commands_lost,
{
    let ghost cmds = seed.commands@;
    let n = seed.commands.len();
    let run_id = config.run_id();
    let mut logger = Logger::new();
    logger.write_header_with_window(
        run_id.as_str(),
        seed.seed_id.as_str(),
        config.schedule_seed,
        config.policy,
        config.bound_k,
        config.fault_mode,
        n,
        config.scheduler_version.as_str(),
        config.git_commit.as_str(),
        config.submit_window,
    );
    let ghost header = run_header(seed.seed_id@, *config, n as nat);
    assert(logger@ =~= log_of(header, Seq::empty()));
    let mut eng = Engine {
        model: NvmeLiteModel::new(),
        scheduler: Scheduler::new(config.policy, config.bound_k, config.schedule_seed),
        logger,
        schedule: SerializedSchedule::new(
            seed.seed_id.as_str(),
            config.schedule_seed,
            config.policy,
            config.bound_k,
            config.fault_mode,
        ),
        next_cmd: 0,
        pending_peak: 0,
        step_count: 0,
        fault_injected: false,
        stop_submits: false,
        batch_remaining: 0,
        header: Ghost(header),
        events: Ghost(Seq::empty()),
        seed_id: Ghost(seed.seed_id@),
    };
    assert(eng.schedule.records() =~= Seq::empty());
    assert(eng.state(false) == initial_state(*config));
    loop
        invariant_except_break
            run_inv(*config, n as nat, eng.state(false)),
            run_from(*config, cmds, eng.state(false)) == final_state(*config, cmds),
        invariant
            n == cmds.len(),
            cmds == seed.commands@,
            eng.wf(*config),
            eng.header@ == header,
            eng.seed_id@ == seed.seed_id@,
        ensures
            final_state(*config, cmds) == eng.state(true),
            run_inv(*config, n as nat, eng.state(true)),
        decreases measure(n as nat, eng.state(false)),
    {
        let ghost s = eng.state(false);
        proof {
            lemma_run_from_step(*config, cmds, s);
        }
        let stop = eng.run_step(config, seed);
        if stop {
            proof {
                lemma_run_from_done(*config, cmds, eng.state(true));
            }
            break ;
        }
    }
    let pending_left = eng.model.pending_count() as u32;
    let model_peak = eng.model.pending_peak();
    let final_peak = if eng.pending_peak > model_peak {
        eng.pending_peak
    } else {
        model_peak
    };
    eng.logger.log_run_end(pending_left, final_peak);
    proof {
        lemma_log_push(header, eng.events@, run_end_event(eng.state(true)));
    }
    let had_reset = eng.model.had_reset();
    let commands_lost = eng.model.commands_lost();
    RunOutput {
        result: RunResult { run_id, pending_left, pending_peak: final_peak, had_reset, commands_lost },
        log: eng.logger,
        schedule: eng.schedule,
    }
}

} // verus!
