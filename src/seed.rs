//! The workload: the commands of a seed, read-only during a run.

use vstd::prelude::*;

verus! {

/// One command of a workload.
#[allow(non_camel_case_types)]
#[derive(Debug, Clone, Copy, PartialEq, Eq, Structural)]
pub enum Command {
    /// Fills host storage `[lba, lba + len)` with `pattern`.
    WRITE { lba: u64, len: u32, pattern: u32 },
    /// Hashes device storage `[lba, lba + len)`.
    READ { lba: u64, len: u32 },
    /// Ordering barrier.
    FENCE,
    /// Copies host storage `[lba, lba + len)` to device storage.
    WRITE_VISIBLE { lba: u64, len: u32 },
}

/// The name under which a command appears in the log.
pub open spec fn type_text(c: Command) -> Seq<char> {
    match c {
        Command::WRITE { .. } => "WRITE"@,
        Command::READ { .. } => "READ"@,
        Command::FENCE => "FENCE"@,
        Command::WRITE_VISIBLE { .. } => "WRITE_VISIBLE"@,
    }
}

impl Command {
    pub fn type_label(&self) -> (r: &'static str)
        ensures
            r@ == type_text(*self),
    {
        match self {
            Command::WRITE { .. } => "WRITE",
            Command::READ { .. } => "READ",
            Command::FENCE => "FENCE",
            Command::WRITE_VISIBLE { .. } => "WRITE_VISIBLE",
        }
    }
}

/// A named workload.
#[derive(Debug, Clone)]
pub struct Seed {
    pub seed_id: String,
    pub commands: Vec<Command>,
}

} // verus!
