use nvme_lite_oracle::logging::{FaultMode, SubmitWindow};
use nvme_lite_oracle::runner::{execute_run, RunConfig};
use nvme_lite_oracle::scheduler::{BoundK, Policy};
use nvme_lite_oracle::seed::{Command, Seed};
use std::collections::BTreeSet;

fn mixed_seed(n: u32) -> Seed {
    let mut commands = Vec::new();
    for i in 0..n {
        let c = match i % 4 {
            0 => Command::WRITE { lba: (i as u64 * 7) % 1000, len: 5, pattern: i },
            1 => Command::READ { lba: (i as u64 * 3) % 1000, len: 6 },
            2 => Command::FENCE,
            _ => Command::WRITE_VISIBLE { lba: (i as u64 * 5) % 1000, len: 4 },
        };
        commands.push(c);
    }
    Seed { seed_id: format!("mixed{}", n), commands }
}

fn cfg(seed: &Seed, s: u64, policy: Policy, bound_k: BoundK, fault_mode: FaultMode, submit_window: SubmitWindow) -> RunConfig {
    RunConfig {
        seed_id: seed.seed_id.clone(),
        schedule_seed: s,
        policy,
        bound_k,
        fault_mode,
        submit_window,
        scheduler_version: "v1.0".to_string(),
        git_commit: String::new(),
        dump_schedule: true,
    }
}

fn field(line: &str, key: &str) -> u64 {
    let start = line.find(key).unwrap() + key.len();
    let rest = &line[start..];
    let end = rest.find(|c: char| !c.is_ascii_digit()).unwrap();
    rest[..end].parse().unwrap()
}

const POLICIES: [Policy; 4] = [Policy::FIFO, Policy::RANDOM, Policy::ADVERSARIAL, Policy::BATCHED];
const BOUNDS: [BoundK; 3] = [BoundK::Finite(0), BoundK::Finite(2), BoundK::Infinite];

#[test]
fn no_faults_complete_everything() {
    let seed = mixed_seed(13);
    for p in POLICIES {
        for b in BOUNDS {
            for s in 0..5 {
                let out = execute_run(&seed, &cfg(&seed, s, p, b, FaultMode::NONE, SubmitWindow::Infinite));
                let l = out.log.lines();
                assert_eq!(l.iter().filter(|x| x.starts_with("SUBMIT(")).count(), 13);
                assert_eq!(l.iter().filter(|x| x.starts_with("COMPLETE(")).count(), 13);
                assert!(l.last().unwrap().starts_with("RUN_END(pending_left=0,"));
            }
        }
    }
}

#[test]
fn peak_bounds_outstanding_and_fences_follow_submits() {
    let seed = mixed_seed(11);
    for p in POLICIES {
        for f in [FaultMode::NONE, FaultMode::TIMEOUT, FaultMode::RESET] {
            for s in 0..5 {
                let out = execute_run(&seed, &cfg(&seed, s, p, BoundK::Finite(1), f, SubmitWindow::Infinite));
                let l = out.log.lines();
                let peak = field(l.last().unwrap(), "pending_peak=") as i64;
                let mut outstanding: i64 = 0;
                for (i, x) in l.iter().enumerate() {
                    if x.starts_with("SUBMIT(") {
                        outstanding += 1;
                    } else if x.starts_with("COMPLETE(") {
                        outstanding -= 1;
                    } else if x.starts_with("RESET(") {
                        outstanding -= field(x, "pending_before=") as i64;
                    }
                    assert!(outstanding <= peak);
                    if x.starts_with("FENCE(") {
                        assert!(l[i - 1].starts_with("SUBMIT(") && l[i - 1].ends_with("cmd_type=FENCE)"));
                    }
                    if x.ends_with("cmd_type=FENCE)") {
                        assert!(l[i + 1].starts_with("FENCE("));
                    }
                }
            }
        }
    }
}

#[test]
fn runs_are_deterministic() {
    let seed = mixed_seed(17);
    for p in POLICIES {
        let c = cfg(&seed, 12345, p, BoundK::Finite(3), FaultMode::TIMEOUT, SubmitWindow::Finite(5));
        let a = execute_run(&seed, &c);
        let b = execute_run(&seed, &c);
        assert_eq!(a.log.to_string(), b.log.to_string());
        assert_eq!(format!("{:?}", a.schedule), format!("{:?}", b.schedule));
    }
}

#[test]
fn fifo_bound_zero_keeps_submission_order() {
    let seed = mixed_seed(12);
    for s in 0..10 {
        let out = execute_run(&seed, &cfg(&seed, s, Policy::FIFO, BoundK::Finite(0), FaultMode::NONE, SubmitWindow::Infinite));
        let done: Vec<u64> = out.log.lines().iter().filter(|x| x.starts_with("COMPLETE(")).map(|x| field(x, "cmd_id=")).collect();
        assert_eq!(done, (0..12).collect::<Vec<u64>>());
    }
}

#[test]
fn adversarial_unbounded_completes_newest() {
    let seed = mixed_seed(12);
    for s in 0..10 {
        let out = execute_run(&seed, &cfg(&seed, s, Policy::ADVERSARIAL, BoundK::Infinite, FaultMode::NONE, SubmitWindow::Infinite));
        let mut pending = BTreeSet::new();
        for x in out.log.lines() {
            if x.starts_with("SUBMIT(") {
                pending.insert(field(x, "cmd_id="));
            } else if x.starts_with("COMPLETE(") {
                let id = field(x, "cmd_id=");
                assert_eq!(Some(&id), pending.iter().next_back());
                pending.remove(&id);
            }
        }
    }
}

#[test]
fn window_bounds_peak() {
    let seed = mixed_seed(10);
    for w in [1usize, 2, 3] {
        for p in POLICIES {
            for s in 0..5 {
                let out = execute_run(&seed, &cfg(&seed, s, p, BoundK::Infinite, FaultMode::NONE, SubmitWindow::Finite(w)));
                assert!(out.result.pending_peak as usize <= w);
                assert!(field(out.log.lines().last().unwrap(), "pending_peak=") as usize <= w);
            }
        }
    }
}

#[test]
fn reset_appears_once_and_ends_run() {
    let seed = mixed_seed(9);
    for p in POLICIES {
        for s in 0..5 {
            let out = execute_run(&seed, &cfg(&seed, s, p, BoundK::Finite(2), FaultMode::RESET, SubmitWindow::Infinite));
            let l = out.log.lines();
            assert_eq!(l.iter().filter(|x| x.starts_with("RESET(")).count(), 1);
            let r = l.iter().position(|x| x.starts_with("RESET(")).unwrap();
            assert!(l[r + 1..].iter().all(|x| !x.starts_with("SUBMIT(") && !x.starts_with("COMPLETE(")));
            assert!(l.last().unwrap().starts_with("RUN_END(pending_left=0,"));
        }
    }
}

#[test]
fn timeout_fires_exactly_once() {
    for n in [1u32, 2, 5, 8] {
        let seed = mixed_seed(n);
        for p in POLICIES {
            for s in 0..5 {
                let out = execute_run(&seed, &cfg(&seed, s, p, BoundK::Infinite, FaultMode::TIMEOUT, SubmitWindow::Infinite));
                let l = out.log.lines();
                assert_eq!(l.iter().filter(|x| x.contains("status=TIMEOUT")).count(), 1);
                let t = l.iter().position(|x| x.contains("status=TIMEOUT")).unwrap();
                assert!(l[t + 1..].iter().all(|x| !x.starts_with("SUBMIT(")));
            }
        }
    }
}

#[test]
fn scenario_write_read_fence_visible() {
    let seed = Seed {
        seed_id: "a".to_string(),
        commands: vec![
            Command::WRITE { lba: 0, len: 4, pattern: 123 },
            Command::READ { lba: 0, len: 4 },
            Command::FENCE,
            Command::WRITE_VISIBLE { lba: 0, len: 4 },
            Command::READ { lba: 0, len: 4 },
        ],
    };
    let out = execute_run(&seed, &cfg(&seed, 0, Policy::FIFO, BoundK::Infinite, FaultMode::NONE, SubmitWindow::Infinite));
    let completes: Vec<&String> = out.log.lines().iter().filter(|x| x.starts_with("COMPLETE(")).collect();
    assert_eq!(completes.len(), 5);
    assert_eq!(completes[1], "COMPLETE(cmd_id=1, status=OK, out=0)");
    assert_eq!(completes[4], "COMPLETE(cmd_id=4, status=OK, out=3786432)");
    for (i, x) in completes.iter().enumerate() {
        assert_eq!(field(x, "cmd_id=") as usize, i);
    }
}
