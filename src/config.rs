//! The experiment matrix: which seeds, policies, bounds, faults and
//! schedule seeds to run.

use vstd::prelude::*;
use crate::logging::{FaultMode, fault_named};
use crate::scheduler::{BoundK, Policy, bound_named, policy_named};
use crate::text::{joined, lower_of, parse_unsigned, same_text, unsigned_value, upper_of};

verus! {

/// The matrix as it is written, every value still text.
#[derive(Debug)]
pub struct RawConfig {
    pub seeds: Vec<String>,
    pub policies: Vec<String>,
    pub bounds: Vec<String>,
    pub faults: Vec<String>,
    pub schedule_seeds: String,
    pub scheduler_version: String,
    pub git_commit: String,
}

/// The matrix with every value read.
#[derive(Debug)]
pub struct ExperimentConfig {
    pub seeds: Vec<String>,
    pub policies: Vec<Policy>,
    pub bounds: Vec<BoundK>,
    pub faults: Vec<FaultMode>,
    /// First and last schedule seed, both included.
    pub schedule_seed_range: (u64, u64),
    pub scheduler_version: String,
    pub git_commit: String,
}

/// Whether `k` is the position of the first `-` in `s`.
pub open spec fn first_dash_at(s: Seq<char>, k: int) -> bool {
    &&& 0 <= k < s.len()
    &&& s[k] == '-'
    &&& forall|j: int| 0 <= j < k ==> s[j] != '-'
}

/// The range that `s` spells (`A-B`, or `N` for `N-N`), or the error message.
pub open spec fn range_of(s: Seq<char>) -> Result<(u64, u64), Seq<char>> {
    if exists|k: int| first_dash_at(s, k) {
        let k = choose|k: int| first_dash_at(s, k);
        let a = s.take(k);
        let b = s.skip(k + 1);
        match unsigned_value(a, u64::MAX as nat) {
            None => Err("Invalid range start: "@ + a),
            Some(x) => match unsigned_value(b, u64::MAX as nat) {
                None => Err("Invalid range end: "@ + b),
                Some(y) => Ok((x as u64, y as u64)),
            },
        }
    } else {
        match unsigned_value(s, u64::MAX as nat) {
            None => Err("Invalid single value: "@ + s),
            Some(v) => Ok((v as u64, v as u64)),
        }
    }
}

/// Reads a range of schedule seeds: `A-B` or a single `N`.
pub fn parse_range(s: &str) -> (r: Result<(u64, u64), String>)
    ensures
        match range_of(s@) {
            Ok(p) => r == Ok::<(u64, u64), String>(p),
            Err(m) => r matches Err(e) && e@ == m,
        },
{
    let n = s.unicode_len();
    let mut k: usize = 0;
    while k < n && s.get_char(k) != '-'
        invariant
            n == s@.len(),
            k <= n,
            forall|j: int| 0 <= j < k ==> s@[j] != '-',
        decreases n - k,
    {
        k = k + 1;
    }
    if k < n {
        assert(first_dash_at(s@, k as int));
        assert forall|k2: int| first_dash_at(s@, k2) implies k2 == k by {
            if k2 < k {
            } else if k2 > k {
                assert(s@[k as int] == '-');
            }
        }
        let start = s.substring_char(0, k);
        let end = s.substring_char(k + 1, n);
        assert(start@ =~= s@.take(k as int));
        assert(end@ =~= s@.skip(k + 1));
        match parse_unsigned(start, u64::MAX) {
            None => Err(joined("Invalid range start: ", start)),
            Some(a) => match parse_unsigned(end, u64::MAX) {
                None => Err(joined("Invalid range end: ", end)),
                Some(b) => Ok((a, b)),
            },
        }
    } else {
        assert(!exists|k2: int| first_dash_at(s@, k2));
        match parse_unsigned(s, u64::MAX) {
            None => Err(joined("Invalid single value: ", s)),
            Some(v) => Ok((v, v)),
        }
    }
}

/// Whether `t` names a policy.
pub open spec fn policy_ok(t: String) -> bool {
    policy_named(upper_of(t@)) is Some
}

/// Whether `t` spells a reorder bound.
pub open spec fn bound_ok(t: String) -> bool {
    bound_named(t@, lower_of(t@)) is Some
}

/// Whether `t` names a fault mode.
pub open spec fn fault_ok(t: String) -> bool {
    fault_named(upper_of(t@)) is Some
}

/// Reads every policy name; on failure, the message for the first bad one.
fn read_policies(ts: &Vec<String>) -> (r: Result<Vec<Policy>, String>)
    ensures
        match r {
            Ok(v) => (forall|i: int| 0 <= i < ts@.len() ==> #[trigger] policy_ok(ts@[i])) && v@.len()
                == ts@.len() && forall|i: int|
                0 <= i < ts@.len() ==> v@[i] == policy_named(upper_of(ts@[i]@))->Some_0,
            Err(e) => exists|i: int|
                0 <= i < ts@.len() && !policy_ok(ts@[i]) && (forall|j: int|
                    0 <= j < i ==> #[trigger] policy_ok(ts@[j])) && e@ == "Invalid policy: "@
                    + "Unknown policy: "@ + ts@[i]@,
        },
{
    let mut v: Vec<Policy> = Vec::new();
    let mut i: usize = 0;
    while i < ts.len()
        invariant
            i <= ts@.len(),
            v@.len() == i,
            forall|j: int| 0 <= j < i ==> #[trigger] policy_ok(ts@[j]),
            forall|j: int| 0 <= j < i ==> v@[j] == policy_named(upper_of(ts@[j]@))->Some_0,
        decreases ts@.len() - i,
    {
        match Policy::parse(ts[i].as_str()) {
            Ok(p) => v.push(p),
            Err(e) => {
                let msg = joined("Invalid policy: ", e.as_str());
                assert(msg@ =~= "Invalid policy: "@ + "Unknown policy: "@ + ts@[i as int]@);
                return Err(msg);
            },
        }
        i = i + 1;
    }
    Ok(v)
}

/// Reads every bound; on failure, the message for the first bad one.
fn read_bounds(ts: &Vec<String>) -> (r: Result<Vec<BoundK>, String>)
    ensures
        match r {
            Ok(v) => (forall|i: int| 0 <= i < ts@.len() ==> #[trigger] bound_ok(ts@[i])) && v@.len()
                == ts@.len() && forall|i: int|
                0 <= i < ts@.len() ==> v@[i] == bound_named(ts@[i]@, lower_of(ts@[i]@))->Some_0,
            Err(e) => exists|i: int|
                0 <= i < ts@.len() && !bound_ok(ts@[i]) && (forall|j: int|
                    0 <= j < i ==> #[trigger] bound_ok(ts@[j])) && e@ == "Invalid bound: "@
                    + "Invalid bound_k: "@ + ts@[i]@,
        },
{
    let mut v: Vec<BoundK> = Vec::new();
    let mut i: usize = 0;
    while i < ts.len()
        invariant
            i <= ts@.len(),
            v@.len() == i,
            forall|j: int| 0 <= j < i ==> #[trigger] bound_ok(ts@[j]),
            forall|j: int| 0 <= j < i ==> v@[j] == bound_named(ts@[j]@, lower_of(ts@[j]@))->Some_0,
        decreases ts@.len() - i,
    {
        match BoundK::parse(ts[i].as_str()) {
            Ok(b) => v.push(b),
            Err(e) => {
                let msg = joined("Invalid bound: ", e.as_str());
                assert(msg@ =~= "Invalid bound: "@ + "Invalid bound_k: "@ + ts@[i as int]@);
                return Err(msg);
            },
        }
        i = i + 1;
    }
    Ok(v)
}

/// Reads every fault mode; on failure, the message for the first bad one.
fn read_faults(ts: &Vec<String>) -> (r: Result<Vec<FaultMode>, String>)
    ensures
        match r {
            Ok(v) => (forall|i: int| 0 <= i < ts@.len() ==> #[trigger] fault_ok(ts@[i])) && v@.len()
                == ts@.len() && forall|i: int|
                0 <= i < ts@.len() ==> v@[i] == fault_named(upper_of(ts@[i]@))->Some_0,
            Err(e) => exists|i: int|
                0 <= i < ts@.len() && !fault_ok(ts@[i]) && (forall|j: int|
                    0 <= j < i ==> #[trigger] fault_ok(ts@[j])) && e@ == "Invalid fault mode: "@
                    + "Unknown fault mode: "@ + ts@[i]@,
        },
{
    let mut v: Vec<FaultMode> = Vec::new();
    let mut i: usize = 0;
    while i < ts.len()
        invariant
            i <= ts@.len(),
            v@.len() == i,
            forall|j: int| 0 <= j < i ==> #[trigger] fault_ok(ts@[j]),
            forall|j: int| 0 <= j < i ==> v@[j] == fault_named(upper_of(ts@[j]@))->Some_0,
        decreases ts@.len() - i,
    {
        match FaultMode::parse(ts[i].as_str()) {
            Ok(f) => v.push(f),
            Err(e) => {
                let msg = joined("Invalid fault mode: ", e.as_str());
                assert(msg@ =~= "Invalid fault mode: "@ + "Unknown fault mode: "@ + ts@[i as int]@);
                return Err(msg);
            },
        }
        i = i + 1;
    }
    Ok(v)
}

impl ExperimentConfig {
    /// Reads a matrix as written. `discovered_commit` stands in for a
    /// `git_commit` of `auto`.
    pub fn from_raw(raw: RawConfig, discovered_commit: String) -> (r: Result<ExperimentConfig, String>)
        ensures
            r is Ok <==> (forall|i: int| 0 <= i < raw.policies@.len() ==> #[trigger] policy_ok(raw.policies@[i]))
                && (forall|i: int| 0 <= i < raw.bounds@.len() ==> #[trigger] bound_ok(raw.bounds@[i]))
                && (forall|i: int| 0 <= i < raw.faults@.len() ==> #[trigger] fault_ok(raw.faults@[i]))
                && range_of(raw.schedule_seeds@) is Ok,
            r matches Ok(c) ==> {
                &&& c.seeds@ == raw.seeds@
                &&& c.policies@.len() == raw.policies@.len()
                &&& (forall|i: int| 0 <= i < raw.policies@.len() ==> c.policies@[i] == policy_named(upper_of(raw.policies@[i]@))->Some_0)
                &&& c.bounds@.len() == raw.bounds@.len()
                &&& (forall|i: int| 0 <= i < raw.bounds@.len() ==> c.bounds@[i] == bound_named(raw.bounds@[i]@, lower_of(raw.bounds@[i]@))->Some_0)
                &&& c.faults@.len() == raw.faults@.len()
                &&& (forall|i: int| 0 <= i < raw.faults@.len() ==> c.faults@[i] == fault_named(upper_of(raw.faults@[i]@))->Some_0)
                &&& range_of(raw.schedule_seeds@) == Ok::<(u64, u64), Seq<char>>(c.schedule_seed_range)
                &&& c.scheduler_version == raw.scheduler_version
                &&& c.git_commit@ == if raw.git_commit@ == "auto"@ { discovered_commit@ } else { raw.git_commit@ }
            },
            r matches Err(e) ==> if !(forall|i: int| 0 <= i < raw.policies@.len() ==> #[trigger] policy_ok(raw.policies@[i])) {
                exists|i: int|
                    0 <= i < raw.policies@.len() && !policy_ok(raw.policies@[i]) && (forall|j: int|
                        0 <= j < i ==> #[trigger] policy_ok(raw.policies@[j])) && e@ == "Invalid policy: "@
                        + "Unknown policy: "@ + raw.policies@[i]@
            } else if !(forall|i: int| 0 <= i < raw.bounds@.len() ==> #[trigger] bound_ok(raw.bounds@[i])) {
                exists|i: int|
                    0 <= i < raw.bounds@.len() && !bound_ok(raw.bounds@[i]) && (forall|j: int|
                        0 <= j < i ==> #[trigger] bound_ok(raw.bounds@[j])) && e@ == "Invalid bound: "@
                        + "Invalid bound_k: "@ + raw.bounds@[i]@
            } else if !(forall|i: int| 0 <= i < raw.faults@.len() ==> #[trigger] fault_ok(raw.faults@[i])) {
                exists|i: int|
                    0 <= i < raw.faults@.len() && !fault_ok(raw.faults@[i]) && (forall|j: int|
                        0 <= j < i ==> #[trigger] fault_ok(raw.faults@[j])) && e@ == "Invalid fault mode: "@
                        + "Unknown fault mode: "@ + raw.faults@[i]@
            } else {
                range_of(raw.schedule_seeds@) matches Err(m) && e@ == m
            },
    {
        let policies = match read_policies(&raw.policies) {
            Ok(v) => v,
            Err(e) => return Err(e),
        };
        let bounds = match read_bounds(&raw.bounds) {
            Ok(v) => v,
            Err(e) => return Err(e),
        };
        let faults = match read_faults(&raw.faults) {
            Ok(v) => v,
            Err(e) => return Err(e),
        };
        let schedule_seed_range = match parse_range(raw.schedule_seeds.as_str()) {
            Ok(p) => p,
            Err(e) => return Err(e),
        };
        let git_commit = if same_text(raw.git_commit.as_str(), "auto") {
            discovered_commit
        } else {
            raw.git_commit
        };
        Ok(ExperimentConfig {
            seeds: raw.seeds,
            policies,
            bounds,
            faults,
            schedule_seed_range,
            scheduler_version: raw.scheduler_version,
            git_commit,
        })
    }

    /// Every schedule seed of the matrix, in order.
    pub fn schedule_seeds(&self) -> (r: std::ops::RangeInclusive<u64>)
        ensures
            r@.start == self.schedule_seed_range.0,
            r@.end == self.schedule_seed_range.1,
            !r@.exhausted,
    {
        std::ops::RangeInclusive::new(self.schedule_seed_range.0, self.schedule_seed_range.1)
    }

    /// Number of runs in the matrix.
    pub fn total_runs(&self) -> (r: usize)
        requires
            self.schedule_seed_range.0 <= self.schedule_seed_range.1,
            self.schedule_seed_range.1 - self.schedule_seed_range.0 + 1 <= usize::MAX,
            self.seeds@.len() * self.policies@.len() * self.bounds@.len() * self.faults@.len() * (
            self.schedule_seed_range.1 - self.schedule_seed_range.0 + 1) <= usize::MAX,
        ensures
            r == self.seeds@.len() * self.policies@.len() * self.bounds@.len() * self.faults@.len() * (
            self.schedule_seed_range.1 - self.schedule_seed_range.0 + 1),
    {
        let a = self.seeds.len();
        let b = self.policies.len();
        let c = self.bounds.len();
        let d = self.faults.len();
        let e = (self.schedule_seed_range.1 - self.schedule_seed_range.0 + 1) as usize;
        if a == 0 || b == 0 || c == 0 || d == 0 {
            assert(a * b * c * d * e == 0) by (nonlinear_arith)
                requires
                    a == 0 || b == 0 || c == 0 || d == 0,
            ;
            return 0;
        }
        assert(a * b <= a * b * c * d * e && a * b * c <= a * b * c * d * e && a * b * c * d <= a * b
            * c * d * e) by (nonlinear_arith)
            requires
                a >= 1,
                b >= 1,
                c >= 1,
                d >= 1,
                e >= 1,
        ;
        a * b * c * d * e
    }
}

} // verus!
