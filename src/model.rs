//! The device model: storage, submitted / pending / completed commands,
//! fence bookkeeping and reset.

use vstd::prelude::*;
use crate::seed::Command;

verus! {

/// Number of `u32` words in host storage and in device storage.
pub const STORAGE_SIZE: usize = 1024;

/// Terminal status of a command.
#[derive(Debug, Clone, Copy, PartialEq, Eq, Structural)]
pub enum Status {
    OK,
    ERR,
    TIMEOUT,
}

pub open spec fn status_text(s: Status) -> Seq<char> {
    match s {
        Status::OK => "OK"@,
        Status::ERR => "ERR"@,
        Status::TIMEOUT => "TIMEOUT"@,
    }
}

impl Status {
    /// The name under which a status appears in the log.
    pub fn as_str(&self) -> (r: &'static str)
        ensures
            r@ == status_text(*self),
    {
        match self {
            Status::OK => "OK",
            Status::ERR => "ERR",
            Status::TIMEOUT => "TIMEOUT",
        }
    }
}

/// A submitted command.
#[derive(Debug, Clone, Copy)]
pub struct PendingCommand {
    pub cmd_id: u32,
    pub command: Command,
    /// Set exactly for a FENCE: the number of fences submitted before it.
    pub fence_id: Option<u32>,
}

/// Outcome of a completed command.
#[derive(Debug, Clone, Copy)]
pub struct CommandResult {
    pub cmd_id: u32,
    pub status: Status,
    /// Zero but for a READ, where it is the hash of what was read.
    pub output: u32,
}

/// The model's state, with sequences in place of vectors.
pub struct ModelView {
    pub host: Seq<u32>,
    pub dev: Seq<u32>,
    pub submitted: Seq<PendingCommand>,
    /// The pending cmd_ids in canonical (ascending) order.
    pub pending: Seq<u32>,
    pub completed: Seq<CommandResult>,
    pub next_cmd_id: u32,
    pub current_fence_id: u32,
    /// Indexed by fence_id: (commands submitted before the fence, how many of them completed).
    pub fence_tracking: Seq<(u32, u32)>,
    pub pending_peak: u32,
    pub had_reset: bool,
    pub commands_lost: u32,
}

/// Whether `[lba, lba + len)` lies inside storage.
pub open spec fn in_storage(lba: u64, len: u32) -> bool {
    lba + len <= STORAGE_SIZE
}

/// `s` with `[lo, hi)` set to `v`.
pub open spec fn fill(s: Seq<u32>, lo: int, hi: int, v: u32) -> Seq<u32> {
    Seq::new(s.len(), |i: int| if lo <= i < hi { v } else { s[i] })
}

/// `dst` with `[lo, hi)` taken from `src`.
pub open spec fn copy_range(dst: Seq<u32>, src: Seq<u32>, lo: int, hi: int) -> Seq<u32> {
    Seq::new(dst.len(), |i: int| if lo <= i < hi { src[i] } else { dst[i] })
}

/// The running hash `h = h * 31 + s[i]` over `[lo, hi)`, wrapping at 32 bits.
pub open spec fn read_hash(s: Seq<u32>, lo: int, hi: int) -> u32
    decreases hi - lo,
{
    if hi <= lo {
        0
    } else {
        read_hash(s, lo, hi - 1).wrapping_mul(31).wrapping_add(s[hi - 1])
    }
}

/// Status, output, host storage and device storage after executing `c`.
pub open spec fn execute_spec(c: Command, host: Seq<u32>, dev: Seq<u32>) -> (
    Status,
    u32,
    Seq<u32>,
    Seq<u32>,
) {
    match c {
        Command::WRITE { lba, len, pattern } => if in_storage(lba, len) {
            (Status::OK, 0, fill(host, lba as int, lba + len, pattern), dev)
        } else {
            (Status::ERR, 0, host, dev)
        },
        Command::READ { lba, len } => if in_storage(lba, len) {
            (Status::OK, read_hash(dev, lba as int, lba + len), host, dev)
        } else {
            (Status::ERR, 0, host, dev)
        },
        Command::FENCE => (Status::OK, 0, host, dev),
        Command::WRITE_VISIBLE { lba, len } => if in_storage(lba, len) {
            (Status::OK, 0, host, copy_range(dev, host, lba as int, lba + len))
        } else {
            (Status::ERR, 0, host, dev)
        },
    }
}

/// Position of `v` in `s`.
pub open spec fn position_of(s: Seq<u32>, v: u32) -> int {
    choose|i: int| 0 <= i < s.len() && s[i] == v
}

pub open spec fn strictly_ascending(s: Seq<u32>) -> bool {
    forall|i: int, j: int| 0 <= i < j < s.len() ==> s[i] < s[j]
}

/// Fence counters after `cmd_id` completes: each fence submitted after it counts one more.
pub open spec fn count_completion(t: Seq<(u32, u32)>, cmd_id: u32) -> Seq<(u32, u32)> {
    t.map_values(|p: (u32, u32)| if cmd_id < p.0 { (p.0, p.1.wrapping_add(1)) } else { p })
}

/// The cmd_ids of the non-fence commands of `s` that precede `c`, in order.
pub open spec fn plain_ids_before(s: Seq<PendingCommand>, c: u32) -> Seq<u32>
    decreases s.len(),
{
    if s.len() == 0 {
        seq![]
    } else {
        let rest = plain_ids_before(s.drop_last(), c);
        let p = s.last();
        if p.cmd_id < c && p.fence_id is None {
            rest.push(p.cmd_id)
        } else {
            rest
        }
    }
}

/// For each fence of `s`, in order: its cmd_id and the non-fence commands of `all` before it.
pub open spec fn fence_data_of(s: Seq<PendingCommand>, all: Seq<PendingCommand>) -> Seq<
    (u32, Seq<u32>),
>
    decreases s.len(),
{
    if s.len() == 0 {
        seq![]
    } else {
        let rest = fence_data_of(s.drop_last(), all);
        let p = s.last();
        if p.fence_id is Some {
            rest.push((p.cmd_id, plain_ids_before(all, p.cmd_id)))
        } else {
            rest
        }
    }
}

/// Number of FENCE commands in `s`.
pub open spec fn count_fences(s: Seq<PendingCommand>) -> nat
    decreases s.len(),
{
    if s.len() == 0 {
        0
    } else {
        count_fences(s.drop_last()) + if s.last().command is FENCE {
            1nat
        } else {
            0nat
        }
    }
}

/// The `i`-th submitted command has a fence_id exactly if it is a FENCE; that
/// fence_id counts the fences submitted before it, and its tracking entry
/// records the fence's own cmd_id.
pub open spec fn fence_record_ok(s: Seq<PendingCommand>, t: Seq<(u32, u32)>, i: int) -> bool {
    &&& (s[i].fence_id is Some <==> s[i].command is FENCE)
    &&& s[i].fence_id matches Some(f) ==> f == count_fences(s.take(i)) && f < t.len() && t[f as int].0
        == i
}

pub open spec fn fences_consistent(s: Seq<PendingCommand>, t: Seq<(u32, u32)>) -> bool {
    forall|i: int| 0 <= i < s.len() ==> #[trigger] fence_record_ok(s, t, i)
}

impl ModelView {
    /// The state invariant.
    pub open spec fn inv(self) -> bool {
        &&& self.host.len() == STORAGE_SIZE
        &&& self.dev.len() == STORAGE_SIZE
        &&& self.submitted.len() == self.next_cmd_id
        &&& forall|i: int| 0 <= i < self.submitted.len() ==> (#[trigger] self.submitted[i]).cmd_id == i
        &&& strictly_ascending(self.pending)
        &&& forall|i: int| 0 <= i < self.pending.len() ==> #[trigger] self.pending[i] < self.next_cmd_id
        &&& self.pending.len() <= self.pending_peak
        &&& self.pending.len() <= self.next_cmd_id
        &&& self.fence_tracking.len() == self.current_fence_id
        &&& self.current_fence_id <= self.next_cmd_id
        &&& self.current_fence_id == count_fences(self.submitted)
        &&& fences_consistent(self.submitted, self.fence_tracking)
    }

    pub open spec fn initial() -> ModelView {
        ModelView {
            host: Seq::new(STORAGE_SIZE as nat, |i: int| 0u32),
            dev: Seq::new(STORAGE_SIZE as nat, |i: int| 0u32),
            submitted: seq![],
            pending: seq![],
            completed: seq![],
            next_cmd_id: 0,
            current_fence_id: 0,
            fence_tracking: seq![],
            pending_peak: 0,
            had_reset: false,
            commands_lost: 0,
        }
    }

    /// The record that `submit(c)` appends.
    pub open spec fn submitted_record(self, c: Command) -> PendingCommand {
        PendingCommand {
            cmd_id: self.next_cmd_id,
            command: c,
            fence_id: if c is FENCE {
                Some(self.current_fence_id)
            } else {
                None
            },
        }
    }

    /// State after submitting `c`.
    pub open spec fn submit(self, c: Command) -> ModelView {
        let id = self.next_cmd_id;
        let is_fence = c is FENCE;
        let new_len = self.pending.len() + 1;
        ModelView {
            submitted: self.submitted.push(self.submitted_record(c)),
            pending: self.pending.push(id),
            next_cmd_id: (id + 1) as u32,
            current_fence_id: if is_fence {
                (self.current_fence_id + 1) as u32
            } else {
                self.current_fence_id
            },
            fence_tracking: if is_fence {
                self.fence_tracking.push((id, 0u32))
            } else {
                self.fence_tracking
            },
            pending_peak: if new_len > self.pending_peak {
                new_len as u32
            } else {
                self.pending_peak
            },
            ..self
        }
    }

    /// State and result after completing `cmd_id`, forced to `force` when given.
    pub open spec fn complete(self, cmd_id: u32, force: Option<Status>) -> (
        ModelView,
        Option<CommandResult>,
    ) {
        if !self.pending.contains(cmd_id) {
            (self, None)
        } else {
            let c = self.submitted[cmd_id as int].command;
            let (status, output, host, dev) = match force {
                Some(st) => (st, 0u32, self.host, self.dev),
                None => execute_spec(c, self.host, self.dev),
            };
            let res = CommandResult { cmd_id, status, output };
            (
                ModelView {
                    host,
                    dev,
                    pending: self.pending.remove(position_of(self.pending, cmd_id)),
                    fence_tracking: count_completion(self.fence_tracking, cmd_id),
                    completed: self.completed.push(res),
                    ..self
                },
                Some(res),
            )
        }
    }

    /// State after a reset.
    pub open spec fn reset(self) -> ModelView {
        ModelView {
            pending: seq![],
            commands_lost: self.pending.len() as u32,
            had_reset: true,
            ..self
        }
    }
}

/// Submitting keeps the invariant.
pub proof fn lemma_submit_inv(m: ModelView, cmd: Command)
    requires
        m.inv(),
        m.next_cmd_id < u32::MAX,
    ensures
        m.submit(cmd).inv(),
        m.submit(cmd).pending.len() == m.pending.len() + 1,
        m.submit(cmd).next_cmd_id == m.next_cmd_id + 1,
{
    let m2 = m.submit(cmd);
    assert forall|i: int| 0 <= i < m2.submitted.len() implies (#[trigger] m2.submitted[i]).cmd_id
        == i by {
        if i < m.submitted.len() {
            assert(m2.submitted[i] == m.submitted[i]);
        }
    }
    assert forall|i: int, j: int| 0 <= i < j < m2.pending.len() implies m2.pending[i]
        < m2.pending[j] by {
        if j < m.pending.len() {
            assert(m2.pending[i] == m.pending[i]);
            assert(m2.pending[j] == m.pending[j]);
        } else {
            assert(m2.pending[i] == m.pending[i]);
            assert(m.pending[i] < m.next_cmd_id);
        }
    }
    assert forall|i: int| 0 <= i < m2.pending.len() implies #[trigger] m2.pending[i]
        < m2.next_cmd_id by {
        if i < m.pending.len() {
            assert(m2.pending[i] == m.pending[i]);
        }
    }
    assert(m2.submitted.drop_last() =~= m.submitted);
    assert forall|i: int| 0 <= i < m2.submitted.len() implies #[trigger] fence_record_ok(
        m2.submitted,
        m2.fence_tracking,
        i,
    ) by {
        if i < m.submitted.len() {
            assert(fence_record_ok(m.submitted, m.fence_tracking, i));
            assert(m2.submitted[i] == m.submitted[i]);
            assert(m2.submitted.take(i) =~= m.submitted.take(i));
            if let Some(f) = m.submitted[i].fence_id {
                assert(m2.fence_tracking[f as int] == m.fence_tracking[f as int]);
            }
        } else {
            assert(m2.submitted.take(i) =~= m.submitted);
        }
    }
}

/// Completing a pending command keeps the invariant and removes exactly that command.
pub proof fn lemma_complete_inv(m: ModelView, id: u32, force: Option<Status>)
    requires
        m.inv(),
        m.pending.contains(id),
    ensures
        m.complete(id, force).0.inv(),
        m.complete(id, force).1 is Some,
        m.complete(id, force).0.pending.len() + 1 == m.pending.len(),
        m.complete(id, force).0.next_cmd_id == m.next_cmd_id,
        m.complete(id, force).0.pending_peak == m.pending_peak,
        m.complete(id, force).0.had_reset == m.had_reset,
        m.complete(id, force).0.current_fence_id == m.current_fence_id,
{
    let i = position_of(m.pending, id);
    let m2 = m.complete(id, force).0;
    assert(0 <= i < m.pending.len() && m.pending[i] == id);
    assert(m2.pending == m.pending.remove(i));
    assert forall|a: int, b: int| 0 <= a < b < m2.pending.len() implies m2.pending[a]
        < m2.pending[b] by {
        if b < i {
        } else if a < i {
            assert(m2.pending[b] == m.pending[b + 1]);
        } else {
            assert(m2.pending[a] == m.pending[a + 1]);
            assert(m2.pending[b] == m.pending[b + 1]);
        }
    }
    assert forall|a: int| 0 <= a < m2.pending.len() implies #[trigger] m2.pending[a]
        < m2.next_cmd_id by {
        if a < i {
        } else {
            assert(m2.pending[a] == m.pending[a + 1]);
        }
    }
    assert forall|j: int| 0 <= j < m2.submitted.len() implies #[trigger] fence_record_ok(
        m2.submitted,
        m2.fence_tracking,
        j,
    ) by {
        assert(fence_record_ok(m.submitted, m.fence_tracking, j));
    }
    let c = m.submitted[id as int].command;
    let host2 = m2.host;
    let dev2 = m2.dev;
    assert(host2.len() == 1024 && dev2.len() == 1024) by {
        match force {
            Some(st) => {},
            None => {
                match c {
                    Command::WRITE { lba, len, pattern } => {},
                    Command::READ { lba, len } => {},
                    Command::FENCE => {},
                    Command::WRITE_VISIBLE { lba, len } => {},
                }
            },
        }
    }
}

/// Counts the completion of `cmd_id` for every fence submitted after it.
fn count_fence_completion(tracking: &mut Vec<(u32, u32)>, cmd_id: u32)
    ensures
        final(tracking)@ == count_completion(old(tracking)@, cmd_id),
{
    let n = tracking.len();
    let mut f: usize = 0;
    while f < n
        invariant
            n == tracking@.len(),
            n == old(tracking)@.len(),
            f <= n,
            forall|j: int|
                0 <= j < f ==> tracking@[j] == count_completion(old(tracking)@, cmd_id)[j],
            forall|j: int| f <= j < n ==> tracking@[j] == old(tracking)@[j],
        decreases n - f,
    {
        let (total, done) = tracking[f];
        if cmd_id < total {
            tracking.set(f, (total, done.wrapping_add(1)));
        }
        f = f + 1;
    }
    assert(tracking@ =~= count_completion(old(tracking)@, cmd_id));
}

/// The device model.
#[derive(Debug)]
pub struct NvmeLiteModel {
    host_storage: Vec<u32>,
    dev_storage: Vec<u32>,
    submitted: Vec<PendingCommand>,
    /// Pending cmd_ids, kept in ascending order.
    pending: Vec<u32>,
    completed: Vec<CommandResult>,
    next_cmd_id: u32,
    current_fence_id: u32,
    /// Indexed by fence_id.
    fence_tracking: Vec<(u32, u32)>,
    pending_peak: u32,
    had_reset: bool,
    commands_lost_to_reset: u32,
}

impl View for NvmeLiteModel {
    type V = ModelView;

    closed spec fn view(&self) -> ModelView {
        ModelView {
            host: self.host_storage@,
            dev: self.dev_storage@,
            submitted: self.submitted@,
            pending: self.pending@,
            completed: self.completed@,
            next_cmd_id: self.next_cmd_id,
            current_fence_id: self.current_fence_id,
            fence_tracking: self.fence_tracking@,
            pending_peak: self.pending_peak,
            had_reset: self.had_reset,
            commands_lost: self.commands_lost_to_reset,
        }
    }
}

impl NvmeLiteModel {
    pub open spec fn wf(&self) -> bool {
        self@.inv()
    }

    pub fn new() -> (r: Self)
        ensures
            r.wf(),
            r@ == ModelView::initial(),
    {
        let r = NvmeLiteModel {
            host_storage: vec![0; STORAGE_SIZE],
            dev_storage: vec![0; STORAGE_SIZE],
            submitted: Vec::new(),
            pending: Vec::new(),
            completed: Vec::new(),
            next_cmd_id: 0,
            current_fence_id: 0,
            fence_tracking: Vec::new(),
            pending_peak: 0,
            had_reset: false,
            commands_lost_to_reset: 0,
        };
        assert(r@.host =~= ModelView::initial().host);
        assert(r@.dev =~= ModelView::initial().dev);
        assert(r@ =~= ModelView::initial());
        r
    }

    /// Submits `command`; returns its cmd_id, whether it is a fence, and its fence_id.
    pub fn submit(&mut self, command: Command) -> (r: (u32, bool, Option<u32>))
        requires
            old(self).wf(),
            old(self)@.next_cmd_id < u32::MAX,
        ensures
            final(self).wf(),
            final(self)@ == old(self)@.submit(command),
            r.0 == old(self)@.next_cmd_id,
            r.1 == command is FENCE,
            r.2 == old(self)@.submitted_record(command).fence_id,
    {
        let cmd_id = self.next_cmd_id;
        self.next_cmd_id = self.next_cmd_id + 1;
        let is_fence = matches!(command, Command::FENCE);
        let fence_id = if is_fence {
            let fid = self.current_fence_id;
            self.current_fence_id = self.current_fence_id + 1;
            self.fence_tracking.push((cmd_id, 0));
            Some(fid)
        } else {
            None
        };
        self.submitted.push(PendingCommand { cmd_id, command, fence_id });
        self.pending.push(cmd_id);
        let current_pending = self.pending.len() as u32;
        if current_pending > self.pending_peak {
            self.pending_peak = current_pending;
        }
        assert(self@ =~= old(self)@.submit(command));
        proof {
            lemma_submit_inv(old(self)@, command);
        }
        (cmd_id, is_fence, fence_id)
    }

    /// The pending cmd_ids in ascending order (which is submission order).
    pub fn get_pending_canonical(&self) -> (r: Vec<u32>)
        ensures
            r@ == self@.pending,
    {
        self.pending.clone()
    }

    pub fn pending_count(&self) -> (r: usize)
        ensures
            r == self@.pending.len(),
    {
        self.pending.len()
    }

    pub fn pending_peak(&self) -> (r: u32)
        ensures
            r == self@.pending_peak,
    {
        self.pending_peak
    }

    /// Completes `cmd_id` if it is pending: with `force_status` as its status
    /// and no effect on storage when given, else by executing the command.
    pub fn complete(&mut self, cmd_id: u32, force_status: Option<Status>) -> (r: Option<
        CommandResult,
    >)
        requires
            old(self).wf(),
        ensures
            final(self).wf(),
            (final(self)@, r) == old(self)@.complete(cmd_id, force_status),
    {
        let n = self.pending.len();
        let mut idx: usize = 0;
        while idx < n && self.pending[idx] != cmd_id
            invariant
                n == self.pending@.len(),
                idx <= n,
                forall|j: int| 0 <= j < idx ==> self.pending@[j] != cmd_id,
            decreases n - idx,
        {
            idx = idx + 1;
        }
        if idx == n {
            return None;
        }
        assert(self@.pending.contains(cmd_id));
        assert(position_of(self@.pending, cmd_id) == idx as int);
        self.pending.remove(idx);
        let command = self.submitted[cmd_id as usize].command;
        let (status, output) = match force_status {
            Some(forced) => (forced, 0),
            None => self.execute_command(&command),
        };
        let result = CommandResult { cmd_id, status, output };
        count_fence_completion(&mut self.fence_tracking, cmd_id);
        self.completed.push(result);
        proof {
            assert(self@ =~= old(self)@.complete(cmd_id, force_status).0);
            lemma_complete_inv(old(self)@, cmd_id, force_status);
        }
        Some(result)
    }

    /// Executes `command` against storage; returns its status and output.
    fn execute_command(&mut self, command: &Command) -> (r: (Status, u32))
        requires
            old(self).wf(),
        ensures
            final(self).wf(),
            (r.0, r.1, final(self)@.host, final(self)@.dev) == execute_spec(
                *command,
                old(self)@.host,
                old(self)@.dev,
            ),
            final(self)@ == (ModelView { host: final(self)@.host, dev: final(self)@.dev, ..old(self)@ }),
    {
        match command {
            Command::WRITE { lba, len, pattern } => {
                if *lba > STORAGE_SIZE as u64 || *lba + *len as u64 > STORAGE_SIZE as u64 {
                    return (Status::ERR, 0);
                }
                let start = *lba as usize;
                let end = start + *len as usize;
                let mut i = start;
                while i < end
                    invariant
                        start <= i <= end,
                        end <= STORAGE_SIZE,
                        self.host_storage@ == fill(old(self).host_storage@, start as int, i as int, *pattern),
                        self.dev_storage@ == old(self).dev_storage@,
                        self.submitted == old(self).submitted,
                        self.pending == old(self).pending,
                        self.completed == old(self).completed,
                        self.fence_tracking == old(self).fence_tracking,
                        self.next_cmd_id == old(self).next_cmd_id,
                        self.current_fence_id == old(self).current_fence_id,
                        self.pending_peak == old(self).pending_peak,
                        self.had_reset == old(self).had_reset,
                        self.commands_lost_to_reset == old(self).commands_lost_to_reset,
                        old(self).host_storage@.len() == STORAGE_SIZE,
                    decreases end - i,
                {
                    self.host_storage.set(i, *pattern);
                    i = i + 1;
                    assert(self.host_storage@ =~= fill(old(self).host_storage@, start as int, i as int, *pattern));
                }
                (Status::OK, 0)
            },
            Command::READ { lba, len } => {
                if *lba > STORAGE_SIZE as u64 || *lba + *len as u64 > STORAGE_SIZE as u64 {
                    return (Status::ERR, 0);
                }
                let start = *lba as usize;
                let end = start + *len as usize;
                let mut hash: u32 = 0;
                let mut i = start;
                while i < end
                    invariant
                        start <= i <= end,
                        end <= STORAGE_SIZE,
                        self.dev_storage@.len() == STORAGE_SIZE,
                        hash == read_hash(self.dev_storage@, start as int, i as int),
                    decreases end - i,
                {
                    hash = hash.wrapping_mul(31).wrapping_add(self.dev_storage[i]);
                    i = i + 1;
                }
                (Status::OK, hash)
            },
            Command::FENCE => (Status::OK, 0),
            Command::WRITE_VISIBLE { lba, len } => {
                if *lba > STORAGE_SIZE as u64 || *lba + *len as u64 > STORAGE_SIZE as u64 {
                    return (Status::ERR, 0);
                }
                let start = *lba as usize;
                let end = start + *len as usize;
                let mut i = start;
                while i < end
                    invariant
                        start <= i <= end,
                        end <= STORAGE_SIZE,
                        self.dev_storage@ == copy_range(old(self).dev_storage@, old(self).host_storage@, start as int, i as int),
                        self.host_storage@ == old(self).host_storage@,
                        self.submitted == old(self).submitted,
                        self.pending == old(self).pending,
                        self.completed == old(self).completed,
                        self.fence_tracking == old(self).fence_tracking,
                        self.next_cmd_id == old(self).next_cmd_id,
                        self.current_fence_id == old(self).current_fence_id,
                        self.pending_peak == old(self).pending_peak,
                        self.had_reset == old(self).had_reset,
                        self.commands_lost_to_reset == old(self).commands_lost_to_reset,
                        old(self).host_storage@.len() == STORAGE_SIZE,
                        old(self).dev_storage@.len() == STORAGE_SIZE,
                    decreases end - i,
                {
                    let v = self.host_storage[i];
                    self.dev_storage.set(i, v);
                    i = i + 1;
                    assert(self.dev_storage@ =~= copy_range(old(self).dev_storage@, old(self).host_storage@, start as int, i as int));
                }
                (Status::OK, 0)
            },
        }
    }

    /// Drops every pending command; returns how many there were.
    pub fn reset(&mut self) -> (r: u32)
        requires
            old(self).wf(),
        ensures
            final(self).wf(),
            final(self)@ == old(self)@.reset(),
            r == old(self)@.pending.len(),
    {
        let pending_before = self.pending.len() as u32;
        self.commands_lost_to_reset = pending_before;
        self.pending.clear();
        self.had_reset = true;
        assert(self@ =~= old(self)@.reset());
        pending_before
    }

    pub fn commands_lost(&self) -> (r: u32)
        ensures
            r == self@.commands_lost,
    {
        self.commands_lost_to_reset
    }

    pub fn had_reset(&self) -> (r: bool)
        ensures
            r == self@.had_reset,
    {
        self.had_reset
    }

    /// The cmd_ids in submission order.
    pub fn get_submit_order(&self) -> (r: Vec<u32>)
        ensures
            r@ == self@.submitted.map_values(|p: PendingCommand| p.cmd_id),
    {
        let mut r: Vec<u32> = Vec::new();
        let n = self.submitted.len();
        let mut i: usize = 0;
        while i < n
            invariant
                n == self.submitted@.len(),
                i <= n,
                r@ == self.submitted@.take(i as int).map_values(|p: PendingCommand| p.cmd_id),
            decreases n - i,
        {
            r.push(self.submitted[i].cmd_id);
            i = i + 1;
            assert(r@ =~= self.submitted@.take(i as int).map_values(|p: PendingCommand| p.cmd_id));
        }
        assert(self.submitted@.take(n as int) =~= self.submitted@);
        r
    }

    /// The cmd_ids in completion order.
    pub fn get_complete_order(&self) -> (r: Vec<u32>)
        ensures
            r@ == self@.completed.map_values(|c: CommandResult| c.cmd_id),
    {
        let mut r: Vec<u32> = Vec::new();
        let n = self.completed.len();
        let mut i: usize = 0;
        while i < n
            invariant
                n == self.completed@.len(),
                i <= n,
                r@ == self.completed@.take(i as int).map_values(|c: CommandResult| c.cmd_id),
            decreases n - i,
        {
            r.push(self.completed[i].cmd_id);
            i = i + 1;
            assert(r@ =~= self.completed@.take(i as int).map_values(|c: CommandResult| c.cmd_id));
        }
        assert(self.completed@.take(n as int) =~= self.completed@);
        r
    }

    /// The non-fence cmd_ids submitted before cmd_id `c`, in order.
    fn plain_before(&self, c: u32) -> (r: Vec<u32>)
        ensures
            r@ == plain_ids_before(self@.submitted, c),
    {
        let mut r: Vec<u32> = Vec::new();
        let n = self.submitted.len();
        let mut j: usize = 0;
        while j < n
            invariant
                n == self.submitted@.len(),
                j <= n,
                r@ == plain_ids_before(self.submitted@.take(j as int), c),
            decreases n - j,
        {
            let p = self.submitted[j];
            if p.cmd_id < c && p.fence_id.is_none() {
                r.push(p.cmd_id);
            }
            proof {
                assert(self.submitted@.take(j + 1).drop_last() =~= self.submitted@.take(j as int));
            }
            j = j + 1;
        }
        assert(self.submitted@.take(n as int) =~= self.submitted@);
        r
    }

    /// For each fence, in submission order: its cmd_id and the cmd_ids of the
    /// non-fence commands submitted before it.
    pub fn get_fence_data(&self) -> (r: Vec<(u32, Vec<u32>)>)
        ensures
            r@.len() == fence_data_of(self@.submitted, self@.submitted).len(),
            forall|i: int|
                0 <= i < r@.len() ==> (#[trigger] r@[i]).0 == fence_data_of(
                    self@.submitted,
                    self@.submitted,
                )[i].0 && r@[i].1@ == fence_data_of(self@.submitted, self@.submitted)[i].1,
    {
        let mut result: Vec<(u32, Vec<u32>)> = Vec::new();
        let ghost all = self@.submitted;
        let n = self.submitted.len();
        let mut i: usize = 0;
        while i < n
            invariant
                n == all.len(),
                all == self@.submitted,
                i <= n,
                result@.len() == fence_data_of(all.take(i as int), all).len(),
                forall|k: int|
                    0 <= k < result@.len() ==> (#[trigger] result@[k]).0 == fence_data_of(
                        all.take(i as int),
                        all,
                    )[k].0 && result@[k].1@ == fence_data_of(all.take(i as int), all)[k].1,
            decreases n - i,
        {
            let p = self.submitted[i];
            proof {
                assert(all.take(i + 1).drop_last() =~= all.take(i as int));
            }
            if p.fence_id.is_some() {
                let before = self.plain_before(p.cmd_id);
                result.push((p.cmd_id, before));
            }
            i = i + 1;
        }
        assert(all.take(n as int) =~= all);
        result
    }
}

impl Default for NvmeLiteModel {
    fn default() -> (r: Self)
        ensures
            r.wf(),
            r@ == ModelView::initial(),
    {
        NvmeLiteModel::new()
    }
}

} // verus!
