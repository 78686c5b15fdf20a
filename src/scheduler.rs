//! The completion scheduler: a reorder bound cuts the canonical pending list
//! down to a candidate window, and a policy picks one candidate.

use vstd::prelude::*;
use crate::prng::{SplitMix64, advance, draw};
use crate::text::{
    decimal, decimal_string, joined, lower_of, lowercase, parse_unsigned, same_text, unsigned_value,
    upper_of, uppercase,
};

verus! {

/// Rule that picks one command out of the candidate window.
#[derive(Debug, Clone, Copy, PartialEq, Eq, Structural)]
pub enum Policy {
    /// The oldest candidate.
    FIFO,
    /// A candidate drawn from the stream.
    RANDOM,
    /// The newest candidate.
    ADVERSARIAL,
    /// Drawn as RANDOM; the run engine completes in bursts.
    BATCHED,
}

pub open spec fn policy_text(p: Policy) -> Seq<char> {
    match p {
        Policy::FIFO => "FIFO"@,
        Policy::RANDOM => "RANDOM"@,
        Policy::ADVERSARIAL => "ADVERSARIAL"@,
        Policy::BATCHED => "BATCHED"@,
    }
}

/// The policy whose name is `t` (upper case).
pub open spec fn policy_named(t: Seq<char>) -> Option<Policy> {
    if t == "FIFO"@ {
        Some(Policy::FIFO)
    } else if t == "RANDOM"@ {
        Some(Policy::RANDOM)
    } else if t == "ADVERSARIAL"@ {
        Some(Policy::ADVERSARIAL)
    } else if t == "BATCHED"@ {
        Some(Policy::BATCHED)
    } else {
        None
    }
}

impl Policy {
    pub fn as_str(&self) -> (r: &'static str)
        ensures
            r@ == policy_text(*self),
    {
        match self {
            Policy::FIFO => "FIFO",
            Policy::RANDOM => "RANDOM",
            Policy::ADVERSARIAL => "ADVERSARIAL",
            Policy::BATCHED => "BATCHED",
        }
    }

    /// Reads a policy name, in any case.
    pub fn parse(s: &str) -> (r: Result<Policy, String>)
        ensures
            match policy_named(upper_of(s@)) {
                Some(p) => r == Ok::<Policy, String>(p),
                None => r matches Err(e) && e@ == "Unknown policy: "@ + s@,
            },
    {
        let upper = uppercase(s);
        Policy::from_folded(s, upper.as_str())
    }

    /// Reads a policy from `s` once `folded`, its upper-case form, is known.
    pub fn from_folded(s: &str, folded: &str) -> (r: Result<Policy, String>)
        ensures
            match policy_named(folded@) {
                Some(p) => r == Ok::<Policy, String>(p),
                None => r matches Err(e) && e@ == "Unknown policy: "@ + s@,
            },
    {
        if same_text(folded, "FIFO") {
            Ok(Policy::FIFO)
        } else if same_text(folded, "RANDOM") {
            Ok(Policy::RANDOM)
        } else if same_text(folded, "ADVERSARIAL") {
            Ok(Policy::ADVERSARIAL)
        } else if same_text(folded, "BATCHED") {
            Ok(Policy::BATCHED)
        } else {
            Err(joined("Unknown policy: ", s))
        }
    }
}

/// Reorder bound: the largest index into canonical pending that may complete.
#[derive(Debug, Clone, Copy, PartialEq, Eq, Structural)]
pub enum BoundK {
    Finite(u32),
    Infinite,
}

pub open spec fn bound_text(b: BoundK) -> Seq<char> {
    match b {
        BoundK::Finite(k) => decimal(k as nat),
        BoundK::Infinite => "inf"@,
    }
}

/// The bound that `s` spells, given `folded`, its lower-case form.
pub open spec fn bound_named(s: Seq<char>, folded: Seq<char>) -> Option<BoundK> {
    if folded == "inf"@ {
        Some(BoundK::Infinite)
    } else {
        match unsigned_value(s, u32::MAX as nat) {
            Some(v) => Some(BoundK::Finite(v as u32)),
            None => None,
        }
    }
}

/// Number of candidates that bound `b` leaves out of `n` pending commands.
pub open spec fn candidate_count(b: BoundK, n: nat) -> nat {
    if n == 0 {
        0
    } else {
        match b {
            BoundK::Finite(k) => if k + 1 < n {
                (k + 1) as nat
            } else {
                n
            },
            BoundK::Infinite => n,
        }
    }
}

impl BoundK {
    /// Reads `inf` (in any case) or a decimal `u32`.
    pub fn parse(s: &str) -> (r: Result<BoundK, String>)
        ensures
            match bound_named(s@, lower_of(s@)) {
                Some(b) => r == Ok::<BoundK, String>(b),
                None => r matches Err(e) && e@ == "Invalid bound_k: "@ + s@,
            },
    {
        let lower = lowercase(s);
        BoundK::from_folded(s, lower.as_str())
    }

    /// Reads a bound from `s` once `folded`, its lower-case form, is known.
    pub fn from_folded(s: &str, folded: &str) -> (r: Result<BoundK, String>)
        ensures
            match bound_named(s@, folded@) {
                Some(b) => r == Ok::<BoundK, String>(b),
                None => r matches Err(e) && e@ == "Invalid bound_k: "@ + s@,
            },
    {
        if same_text(folded, "inf") {
            Ok(BoundK::Infinite)
        } else {
            match parse_unsigned(s, u32::MAX as u64) {
                Some(v) => Ok(BoundK::Finite(v as u32)),
                None => Err(joined("Invalid bound_k: ", s)),
            }
        }
    }

    /// The bound as a number, `usize::MAX` standing for infinity.
    pub fn value(&self) -> (r: usize)
        ensures
            r == match *self {
                BoundK::Finite(k) => k as usize,
                BoundK::Infinite => usize::MAX,
            },
    {
        match self {
            BoundK::Finite(k) => *k as usize,
            BoundK::Infinite => usize::MAX,
        }
    }

    /// The bound as the log spells it.
    pub fn to_string(&self) -> (r: String)
        ensures
            r@ == bound_text(*self),
    {
        match self {
            BoundK::Finite(k) => decimal_string(*k as u64),
            BoundK::Infinite => String::from_str("inf"),
        }
    }
}

/// A scheduling decision.
#[derive(Debug, Clone, Copy)]
pub struct Decision {
    /// Index into the candidate window.
    pub pick_index: usize,
    /// The cmd_id picked.
    pub cmd_id: u32,
}

/// The decision taken on canonical pending list `pending` with the stream at
/// `rng`, and the stream's state afterwards.
pub open spec fn pick_spec(policy: Policy, bound: BoundK, rng: u64, pending: Seq<u32>) -> (
    Option<Decision>,
    u64,
) {
    let n = candidate_count(bound, pending.len());
    if n == 0 {
        (None, rng)
    } else {
        match policy {
            Policy::FIFO => (Some(Decision { pick_index: 0, cmd_id: pending[0] }), rng),
            Policy::ADVERSARIAL => (
                Some(Decision { pick_index: (n - 1) as usize, cmd_id: pending[n - 1] }),
                rng,
            ),
            _ => {
                let i = draw(rng) % (n as u64);
                (Some(Decision { pick_index: i as usize, cmd_id: pending[i as int] }), advance(rng))
            },
        }
    }
}

/// The scheduler: a policy, a reorder bound and its own stream.
pub struct Scheduler {
    policy: Policy,
    bound_k: BoundK,
    rng: SplitMix64,
    decisions: Vec<Decision>,
}

impl Scheduler {
    pub closed spec fn spec_policy(&self) -> Policy {
        self.policy
    }

    pub closed spec fn spec_bound_k(&self) -> BoundK {
        self.bound_k
    }

    /// State of the scheduler's stream.
    pub closed spec fn rng_state(&self) -> u64 {
        self.rng.state_of()
    }

    /// The decisions taken so far.
    pub closed spec fn decision_log(&self) -> Seq<Decision> {
        self.decisions@
    }

    pub fn new(policy: Policy, bound_k: BoundK, schedule_seed: u64) -> (r: Self)
        ensures
            r.spec_policy() == policy,
            r.spec_bound_k() == bound_k,
            r.rng_state() == schedule_seed,
            r.decision_log() == Seq::<Decision>::empty(),
    {
        Scheduler {
            policy,
            bound_k,
            rng: SplitMix64::seed_from_u64(schedule_seed),
            decisions: Vec::new(),
        }
    }

    /// One bit of the stream, for the engine's submit / complete choice.
    pub fn next_bit(&mut self) -> (r: u64)
        ensures
            r == draw(old(self).rng_state()) & 1,
            final(self).rng_state() == advance(old(self).rng_state()),
            final(self).spec_policy() == old(self).spec_policy(),
            final(self).spec_bound_k() == old(self).spec_bound_k(),
            final(self).decision_log() == old(self).decision_log(),
    {
        self.rng.next_bit()
    }

    /// The candidate window of canonical pending list `pending`.
    pub fn get_candidates<'a>(&self, pending: &'a [u32]) -> (r: &'a [u32])
        ensures
            r@ == pending@.take(candidate_count(self.spec_bound_k(), pending@.len() as nat) as int),
    {
        if pending.len() == 0 {
            assert(pending@.take(0) =~= pending@);
            return pending;
        }
        let max_idx = match self.bound_k {
            BoundK::Finite(k) => if (k as usize) < pending.len() - 1 {
                k as usize
            } else {
                pending.len() - 1
            },
            BoundK::Infinite => pending.len() - 1,
        };
        let r = &pending[0..max_idx + 1];
        assert(r@ =~= pending@.take(candidate_count(self.bound_k, pending@.len() as nat) as int));
        r
    }

    /// Picks the next command to complete out of canonical pending list `pending`.
    pub fn pick_next(&mut self, pending: &[u32]) -> (r: Option<Decision>)
        ensures
            (r, final(self).rng_state()) == pick_spec(
                old(self).spec_policy(),
                old(self).spec_bound_k(),
                old(self).rng_state(),
                pending@,
            ),
            final(self).spec_policy() == old(self).spec_policy(),
            final(self).spec_bound_k() == old(self).spec_bound_k(),
            final(self).decision_log() == match r {
                Some(d) => old(self).decision_log().push(d),
                None => old(self).decision_log(),
            },
    {
        let candidates = self.get_candidates(pending);
        if candidates.len() == 0 {
            return None;
        }
        let (pick_index, cmd_id) = match self.policy {
            Policy::FIFO => (0, candidates[0]),
            Policy::RANDOM => {
                let idx = self.rng.gen_index(candidates.len());
                (idx, candidates[idx])
            },
            Policy::ADVERSARIAL => {
                let idx = candidates.len() - 1;
                (idx, candidates[idx])
            },
            Policy::BATCHED => {
                let idx = self.rng.gen_index(candidates.len());
                (idx, candidates[idx])
            },
        };
        let decision = Decision { pick_index, cmd_id };
        self.decisions.push(decision);
        Some(decision)
    }

    /// The decisions taken so far.
    pub fn get_decisions(&self) -> (r: &[Decision])
        ensures
            r@ == self.decision_log(),
    {
        self.decisions.as_slice()
    }

    pub fn policy(&self) -> (r: Policy)
        ensures
            r == self.spec_policy(),
    {
        self.policy
    }

    pub fn bound_k(&self) -> (r: BoundK)
        ensures
            r == self.spec_bound_k(),
    {
        self.bound_k
    }
}

} // verus!
