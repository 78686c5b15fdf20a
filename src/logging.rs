//! The event log: one line per event, in the grammar that implementations
//! under test must reproduce byte for byte; and the schedule record.

use vstd::prelude::*;
use crate::model::{CommandResult, Status, status_text};
use crate::scheduler::{BoundK, Policy, bound_text, policy_text};
use crate::seed::{Command, type_text};
use crate::text::{
    decimal, decimal_string, joined, lower_of, lowercase, parse_unsigned, push_decimal, same_text,
    unsigned_value, upper_of, uppercase,
};

verus! {

/// Largest number of pending commands at which a submit may still happen.
#[derive(Debug, Clone, Copy, PartialEq, Eq, Structural)]
pub enum SubmitWindow {
    Finite(usize),
    Infinite,
}

pub open spec fn window_text(w: SubmitWindow) -> Seq<char> {
    match w {
        SubmitWindow::Finite(n) => decimal(n as nat),
        SubmitWindow::Infinite => "inf"@,
    }
}

/// The window that `s` spells, given `folded`, its lower-case form.
pub open spec fn window_named(s: Seq<char>, folded: Seq<char>) -> Option<SubmitWindow> {
    if folded == "inf"@ {
        Some(SubmitWindow::Infinite)
    } else {
        match unsigned_value(s, usize::MAX as nat) {
            Some(v) => Some(SubmitWindow::Finite(v as usize)),
            None => None,
        }
    }
}

impl SubmitWindow {
    /// Reads `inf` (in any case) or a decimal `usize`.
    pub fn parse(s: &str) -> (r: Result<SubmitWindow, String>)
        ensures
            match window_named(s@, lower_of(s@)) {
                Some(w) => r == Ok::<SubmitWindow, String>(w),
                None => r matches Err(e) && e@ == "Invalid submit_window: "@ + s@,
            },
    {
        let lower = lowercase(s);
        SubmitWindow::from_folded(s, lower.as_str())
    }

    /// Reads a window from `s` once `folded`, its lower-case form, is known.
    pub fn from_folded(s: &str, folded: &str) -> (r: Result<SubmitWindow, String>)
        ensures
            match window_named(s@, folded@) {
                Some(w) => r == Ok::<SubmitWindow, String>(w),
                None => r matches Err(e) && e@ == "Invalid submit_window: "@ + s@,
            },
    {
        if same_text(folded, "inf") {
            Ok(SubmitWindow::Infinite)
        } else {
            match parse_unsigned(s, usize::MAX as u64) {
                Some(v) => Ok(SubmitWindow::Finite(v as usize)),
                None => Err(joined("Invalid submit_window: ", s)),
            }
        }
    }

    /// The window as a number, `usize::MAX` standing for infinity.
    pub fn value(&self) -> (r: usize)
        ensures
            r == match *self {
                SubmitWindow::Finite(n) => n,
                SubmitWindow::Infinite => usize::MAX,
            },
    {
        match self {
            SubmitWindow::Finite(n) => *n,
            SubmitWindow::Infinite => usize::MAX,
        }
    }

    /// The window as the log spells it.
    pub fn to_string(&self) -> (r: String)
        ensures
            r@ == window_text(*self),
    {
        match self {
            SubmitWindow::Finite(n) => decimal_string(*n as u64),
            SubmitWindow::Infinite => String::from_str("inf"),
        }
    }
}

/// Fault injected into a run.
#[derive(Debug, Clone, Copy, PartialEq, Eq, Structural)]
pub enum FaultMode {
    NONE,
    TIMEOUT,
    RESET,
}

pub open spec fn fault_text(f: FaultMode) -> Seq<char> {
    match f {
        FaultMode::NONE => "NONE"@,
        FaultMode::TIMEOUT => "TIMEOUT"@,
        FaultMode::RESET => "RESET"@,
    }
}

/// The fault mode whose name is `t` (upper case).
pub open spec fn fault_named(t: Seq<char>) -> Option<FaultMode> {
    if t == "NONE"@ {
        Some(FaultMode::NONE)
    } else if t == "TIMEOUT"@ {
        Some(FaultMode::TIMEOUT)
    } else if t == "RESET"@ {
        Some(FaultMode::RESET)
    } else {
        None
    }
}

impl FaultMode {
    pub fn as_str(&self) -> (r: &'static str)
        ensures
            r@ == fault_text(*self),
    {
        match self {
            FaultMode::NONE => "NONE",
            FaultMode::TIMEOUT => "TIMEOUT",
            FaultMode::RESET => "RESET",
        }
    }

    /// Reads a fault mode name, in any case.
    pub fn parse(s: &str) -> (r: Result<FaultMode, String>)
        ensures
            match fault_named(upper_of(s@)) {
                Some(f) => r == Ok::<FaultMode, String>(f),
                None => r matches Err(e) && e@ == "Unknown fault mode: "@ + s@,
            },
    {
        let upper = uppercase(s);
        FaultMode::from_folded(s, upper.as_str())
    }

    /// Reads a fault mode from `s` once `folded`, its upper-case form, is known.
    pub fn from_folded(s: &str, folded: &str) -> (r: Result<FaultMode, String>)
        ensures
            match fault_named(folded@) {
                Some(f) => r == Ok::<FaultMode, String>(f),
                None => r matches Err(e) && e@ == "Unknown fault mode: "@ + s@,
            },
    {
        if same_text(folded, "NONE") {
            Ok(FaultMode::NONE)
        } else if same_text(folded, "TIMEOUT") {
            Ok(FaultMode::TIMEOUT)
        } else if same_text(folded, "RESET") {
            Ok(FaultMode::RESET)
        } else {
            Err(joined("Unknown fault mode: ", s))
        }
    }
}

/// `RUN_HEADER(` up to and including the `n_cmds` field.
pub open spec fn header_head(
    run_id: Seq<char>,
    seed_id: Seq<char>,
    schedule_seed: u64,
    policy: Policy,
    bound_k: BoundK,
    fault_mode: FaultMode,
    n_cmds: usize,
) -> Seq<char> {
    "RUN_HEADER(run_id="@ + run_id + ", seed_id="@ + seed_id + ", schedule_seed="@ + decimal(
        schedule_seed as nat,
    ) + ", policy="@ + policy_text(policy) + ", bound_k="@ + bound_text(bound_k) + ", fault_mode="@
        + fault_text(fault_mode) + ", n_cmds="@ + decimal(n_cmds as nat)
}

/// The end of a header line, after `n_cmds` or `submit_window`.
pub open spec fn header_tail(scheduler_version: Seq<char>, git_commit: Seq<char>) -> Seq<char> {
    ", scheduler_version="@ + scheduler_version + ", git_commit="@ + git_commit + ")"@
}

pub open spec fn window_field(w: SubmitWindow) -> Seq<char> {
    ", submit_window="@ + window_text(w)
}

pub open spec fn submit_line(cmd_id: u32, cmd_type: Seq<char>) -> Seq<char> {
    "SUBMIT(cmd_id="@ + decimal(cmd_id as nat) + ", cmd_type="@ + cmd_type + ")"@
}

pub open spec fn fence_line(fence_id: u32) -> Seq<char> {
    "FENCE(fence_id="@ + decimal(fence_id as nat) + ")"@
}

pub open spec fn complete_line(cmd_id: u32, status: Status, output: u32) -> Seq<char> {
    "COMPLETE(cmd_id="@ + decimal(cmd_id as nat) + ", status="@ + status_text(status) + ", out="@
        + decimal(output as nat) + ")"@
}

pub open spec fn reset_line(reason: Seq<char>, pending_before: u32) -> Seq<char> {
    "RESET(reason="@ + reason + ", pending_before="@ + decimal(pending_before as nat) + ")"@
}

pub open spec fn run_end_line(pending_left: u32, pending_peak: u32) -> Seq<char> {
    "RUN_END(pending_left="@ + decimal(pending_left as nat) + ", pending_peak="@ + decimal(
        pending_peak as nat,
    ) + ")"@
}

/// An event of a run, as the run engine logs it.
#[derive(Debug, Clone, Copy)]
pub enum LogEvent {
    Submit { cmd_id: u32, command: Command },
    Fence { fence_id: u32 },
    Complete { result: CommandResult },
    Reset { pending_before: u32 },
    RunEnd { pending_left: u32, pending_peak: u32 },
}

/// The log line of an event; the engine's resets give the reason `INJECTED`.
pub open spec fn event_line(e: LogEvent) -> Seq<char> {
    match e {
        LogEvent::Submit { cmd_id, command } => submit_line(cmd_id, type_text(command)),
        LogEvent::Fence { fence_id } => fence_line(fence_id),
        LogEvent::Complete { result } => complete_line(result.cmd_id, result.status, result.output),
        LogEvent::Reset { pending_before } => reset_line("INJECTED"@, pending_before),
        LogEvent::RunEnd { pending_left, pending_peak } => run_end_line(pending_left, pending_peak),
    }
}

/// Lines joined by `\n`, with no newline after the last.
pub open spec fn join_lines(ls: Seq<Seq<char>>) -> Seq<char>
    decreases ls.len(),
{
    if ls.len() == 0 {
        seq![]
    } else if ls.len() == 1 {
        ls[0]
    } else {
        join_lines(ls.drop_last()) + "\n"@ + ls.last()
    }
}

/// Buffers the lines of one run's log.
#[derive(Debug)]
pub struct Logger {
    buffer: Vec<String>,
}

impl View for Logger {
    type V = Seq<Seq<char>>;

    closed spec fn view(&self) -> Seq<Seq<char>> {
        self.buffer@.map_values(|s: String| s@)
    }
}

impl Logger {
    pub fn new() -> (r: Self)
        ensures
            r@ == Seq::<Seq<char>>::empty(),
    {
        let r = Logger { buffer: Vec::new() };
        assert(r@ =~= Seq::<Seq<char>>::empty());
        r
    }

    fn push_line(&mut self, line: String)
        ensures
            final(self)@ == old(self)@.push(line@),
    {
        self.buffer.push(line);
        assert(self@ =~= old(self)@.push(line@));
    }

    fn header_start(
        run_id: &str,
        seed_id: &str,
        schedule_seed: u64,
        policy: Policy,
        bound_k: BoundK,
        fault_mode: FaultMode,
        n_cmds: usize,
    ) -> (r: String)
        ensures
            r@ == header_head(run_id@, seed_id@, schedule_seed, policy, bound_k, fault_mode, n_cmds),
    {
        let mut line = String::from_str("RUN_HEADER(run_id=");
        line.append(run_id);
        line.append(", seed_id=");
        line.append(seed_id);
        line.append(", schedule_seed=");
        push_decimal(&mut line, schedule_seed);
        line.append(", policy=");
        line.append(policy.as_str());
        line.append(", bound_k=");
        let b = bound_k.to_string();
        line.append(b.as_str());
        line.append(", fault_mode=");
        line.append(fault_mode.as_str());
        line.append(", n_cmds=");
        push_decimal(&mut line, n_cmds as u64);
        line
    }

    fn header_end(line: &mut String, scheduler_version: &str, git_commit: &str)
        ensures
            final(line)@ == old(line)@ + header_tail(scheduler_version@, git_commit@),
    {
        line.append(", scheduler_version=");
        line.append(scheduler_version);
        line.append(", git_commit=");
        line.append(git_commit);
        line.append(")");
        assert(line@ =~= old(line)@ + header_tail(scheduler_version@, git_commit@));
    }

    /// Appends a RUN_HEADER line without the submit window.
    pub fn write_header(
        &mut self,
        run_id: &str,
        seed_id: &str,
        schedule_seed: u64,
        policy: Policy,
        bound_k: BoundK,
        fault_mode: FaultMode,
        n_cmds: usize,
        scheduler_version: &str,
        git_commit: &str,
    )
        ensures
            final(self)@ == old(self)@.push(
                header_head(run_id@, seed_id@, schedule_seed, policy, bound_k, fault_mode, n_cmds)
                    + header_tail(scheduler_version@, git_commit@),
            ),
    {
        let mut line = Logger::header_start(
            run_id,
            seed_id,
            schedule_seed,
            policy,
            bound_k,
            fault_mode,
            n_cmds,
        );
        Logger::header_end(&mut line, scheduler_version, git_commit);
        self.push_line(line);
    }

    /// Appends a RUN_HEADER line that gives the submit window.
    pub fn write_header_with_window(
        &mut self,
        run_id: &str,
        seed_id: &str,
        schedule_seed: u64,
        policy: Policy,
        bound_k: BoundK,
        fault_mode: FaultMode,
        n_cmds: usize,
        scheduler_version: &str,
        git_commit: &str,
        submit_window: SubmitWindow,
    )
        ensures
            final(self)@ == old(self)@.push(
                header_head(run_id@, seed_id@, schedule_seed, policy, bound_k, fault_mode, n_cmds)
                    + window_field(submit_window) + header_tail(scheduler_version@, git_commit@),
            ),
    {
        let mut line = Logger::header_start(
            run_id,
            seed_id,
            schedule_seed,
            policy,
            bound_k,
            fault_mode,
            n_cmds,
        );
        line.append(", submit_window=");
        let w = submit_window.to_string();
        line.append(w.as_str());
        Logger::header_end(&mut line, scheduler_version, git_commit);
        proof {
            let ghost head = header_head(
                run_id@,
                seed_id@,
                schedule_seed,
                policy,
                bound_k,
                fault_mode,
                n_cmds,
            );
            assert(line@ =~= head + window_field(submit_window) + header_tail(
                scheduler_version@,
                git_commit@,
            ));
        }
        self.push_line(line);
    }

    pub fn log_submit(&mut self, cmd_id: u32, cmd_type: &str)
        ensures
            final(self)@ == old(self)@.push(submit_line(cmd_id, cmd_type@)),
    {
        let mut line = String::from_str("SUBMIT(cmd_id=");
        push_decimal(&mut line, cmd_id as u64);
        line.append(", cmd_type=");
        line.append(cmd_type);
        line.append(")");
        self.push_line(line);
    }

    pub fn log_fence(&mut self, fence_id: u32)
        ensures
            final(self)@ == old(self)@.push(fence_line(fence_id)),
    {
        let mut line = String::from_str("FENCE(fence_id=");
        push_decimal(&mut line, fence_id as u64);
        line.append(")");
        self.push_line(line);
    }

    pub fn log_complete(&mut self, cmd_id: u32, status: Status, output: u32)
        ensures
            final(self)@ == old(self)@.push(complete_line(cmd_id, status, output)),
    {
        let mut line = String::from_str("COMPLETE(cmd_id=");
        push_decimal(&mut line, cmd_id as u64);
        line.append(", status=");
        line.append(status.as_str());
        line.append(", out=");
        push_decimal(&mut line, output as u64);
        line.append(")");
        self.push_line(line);
    }

    pub fn log_reset(&mut self, reason: &str, pending_before: u32)
        ensures
            final(self)@ == old(self)@.push(reset_line(reason@, pending_before)),
    {
        let mut line = String::from_str("RESET(reason=");
        line.append(reason);
        line.append(", pending_before=");
        push_decimal(&mut line, pending_before as u64);
        line.append(")");
        self.push_line(line);
    }

    pub fn log_run_end(&mut self, pending_left: u32, pending_peak: u32)
        ensures
            final(self)@ == old(self)@.push(run_end_line(pending_left, pending_peak)),
    {
        let mut line = String::from_str("RUN_END(pending_left=");
        push_decimal(&mut line, pending_left as u64);
        line.append(", pending_peak=");
        push_decimal(&mut line, pending_peak as u64);
        line.append(")");
        self.push_line(line);
    }

    /// The log as one string, lines separated by `\n`.
    pub fn to_string(&self) -> (r: String)
        ensures
            r@ == join_lines(self@),
    {
        let mut out = String::new();
        let n = self.buffer.len();
        let mut i: usize = 0;
        while i < n
            invariant
                n == self@.len(),
                i <= n,
                out@ == join_lines(self@.take(i as int)),
            decreases n - i,
        {
            if i > 0 {
                out.append("\n");
            }
            out.append(self.buffer[i].as_str());
            proof {
                let ghost t = self@.take(i as int + 1);
                assert(t.drop_last() =~= self@.take(i as int));
                assert(t.last() == self.buffer@[i as int]@);
                if i == 0 {
                    assert(out@ =~= join_lines(t));
                }
            }
            i = i + 1;
        }
        assert(self@.take(n as int) =~= self@);
        out
    }

    /// The lines logged so far.
    pub fn lines(&self) -> (r: &[String])
        ensures
            r@.len() == self@.len(),
            forall|i: int| 0 <= i < r@.len() ==> (#[trigger] r@[i])@ == self@[i],
    {
        self.buffer.as_slice()
    }
}

impl Default for Logger {
    fn default() -> (r: Self)
        ensures
            r@ == Seq::<Seq<char>>::empty(),
    {
        Logger::new()
    }
}

/// One entry of the schedule record.
#[derive(Debug, Clone)]
pub enum ScheduleStep {
    CompletePick { pick_index: usize },
    FAULT { fault_type: String, at_step: usize },
}

/// A schedule entry with text in place of strings.
pub enum StepRecord {
    Pick { pick_index: usize },
    Fault { fault_type: Seq<char>, at_step: usize },
}

pub open spec fn step_record(s: ScheduleStep) -> StepRecord {
    match s {
        ScheduleStep::CompletePick { pick_index } => StepRecord::Pick { pick_index },
        ScheduleStep::FAULT { fault_type, at_step } => StepRecord::Fault {
            fault_type: fault_type@,
            at_step,
        },
    }
}

/// The schedule of one run: its parameters, then one entry per completion pick or fault.
#[derive(Debug)]
pub struct SerializedSchedule {
    pub seed_id: String,
    pub schedule_seed: u64,
    pub policy: String,
    pub bound_k: String,
    pub fault_mode: String,
    pub steps: Vec<ScheduleStep>,
}

impl SerializedSchedule {
    /// The entries as records.
    pub open spec fn records(&self) -> Seq<StepRecord> {
        self.steps@.map_values(|s: ScheduleStep| step_record(s))
    }

    pub fn new(
        seed_id: &str,
        schedule_seed: u64,
        policy: Policy,
        bound_k: BoundK,
        fault_mode: FaultMode,
    ) -> (r: Self)
        ensures
            r.seed_id@ == seed_id@,
            r.schedule_seed == schedule_seed,
            r.policy@ == policy_text(policy),
            r.bound_k@ == bound_text(bound_k),
            r.fault_mode@ == fault_text(fault_mode),
            r.steps@ == Seq::<ScheduleStep>::empty(),
    {
        SerializedSchedule {
            seed_id: String::from_str(seed_id),
            schedule_seed,
            policy: String::from_str(policy.as_str()),
            bound_k: bound_k.to_string(),
            fault_mode: String::from_str(fault_mode.as_str()),
            steps: Vec::new(),
        }
    }

    pub fn add_complete(&mut self, pick_index: usize)
        ensures
            final(self).records() == old(self).records().push(StepRecord::Pick { pick_index }),
            final(self).steps@.len() == old(self).steps@.len() + 1,
            final(self).seed_id == old(self).seed_id,
            final(self).schedule_seed == old(self).schedule_seed,
            final(self).policy == old(self).policy,
            final(self).bound_k == old(self).bound_k,
            final(self).fault_mode == old(self).fault_mode,
    {
        self.steps.push(ScheduleStep::CompletePick { pick_index });
        assert(self.records() =~= old(self).records().push(StepRecord::Pick { pick_index }));
    }

    pub fn add_fault(&mut self, fault_type: &str, at_step: usize)
        ensures
            final(self).records() == old(self).records().push(
                StepRecord::Fault { fault_type: fault_type@, at_step },
            ),
            final(self).steps@.len() == old(self).steps@.len() + 1,
            final(self).seed_id == old(self).seed_id,
            final(self).schedule_seed == old(self).schedule_seed,
            final(self).policy == old(self).policy,
            final(self).bound_k == old(self).bound_k,
            final(self).fault_mode == old(self).fault_mode,
    {
        self.steps.push(ScheduleStep::FAULT { fault_type: String::from_str(fault_type), at_step });
        assert(self.records() =~= old(self).records().push(
            StepRecord::Fault { fault_type: fault_type@, at_step },
        ));
    }
}

} // verus!
