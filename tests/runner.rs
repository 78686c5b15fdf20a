use nvme_lite_oracle::logging::{FaultMode, ScheduleStep, SubmitWindow};
use nvme_lite_oracle::runner::{execute_run, RunConfig, RunOutput};
use nvme_lite_oracle::scheduler::{BoundK, Policy};
use nvme_lite_oracle::seed::{Command, Seed};

fn test_seed() -> Seed {
    Seed {
        seed_id: "test".to_string(),
        commands: vec![
            Command::WRITE {
                lba: 0,
                len: 4,
                pattern: 42,
            },
            Command::READ { lba: 0, len: 4 },
            Command::FENCE,
            Command::WRITE {
                lba: 8,
                len: 2,
                pattern: 7,
            },
        ],
    }
}

fn config(schedule_seed: u64, policy: Policy, bound_k: BoundK, fault_mode: FaultMode, submit_window: SubmitWindow) -> RunConfig {
    RunConfig {
        seed_id: "test".to_string(),
        schedule_seed,
        policy,
        bound_k,
        fault_mode,
        submit_window,
        scheduler_version: "test".to_string(),
        git_commit: "none".to_string(),
        dump_schedule: false,
    }
}

fn lines(out: &RunOutput) -> Vec<String> {
    out.log.lines().to_vec()
}

#[test]
fn test_fifo_run() {
    let seed = test_seed();
    let config = config(0, Policy::FIFO, BoundK::Infinite, FaultMode::NONE, SubmitWindow::Infinite);

    let out = execute_run(&seed, &config);
    let result = &out.result;

    assert_eq!(result.pending_left, 0);
    assert!(result.pending_peak >= 1);

    let log = out.log.to_string();
    assert!(log.contains("RUN_HEADER("));
    assert!(log.contains("RUN_END(pending_left=0"));
}

#[test]
fn test_reset_run() {
    let seed = test_seed();
    let config = config(0, Policy::FIFO, BoundK::Infinite, FaultMode::RESET, SubmitWindow::Infinite);

    let out = execute_run(&seed, &config);

    assert!(out.result.had_reset);

    let log = out.log.to_string();
    assert!(log.contains("RESET(reason=INJECTED"));
}

#[test]
fn test_submit_window() {
    let seed = test_seed();
    let config = config(42, Policy::RANDOM, BoundK::Infinite, FaultMode::NONE, SubmitWindow::Finite(2));

    let out = execute_run(&seed, &config);

    assert_eq!(out.result.pending_left, 0);
    // With window=2, peak should be <= 2
    assert!(out.result.pending_peak <= 2);
}

#[test]
fn run_id_and_header() {
    let seed = test_seed();
    let c = config(42, Policy::ADVERSARIAL, BoundK::Finite(2), FaultMode::TIMEOUT, SubmitWindow::Finite(3));
    assert_eq!(c.run_id(), "test_ADVERSARIAL_2_42_TIMEOUT");
    let out = execute_run(&seed, &c);
    assert_eq!(out.result.run_id, "test_ADVERSARIAL_2_42_TIMEOUT");
    assert_eq!(
        lines(&out)[0],
        "RUN_HEADER(run_id=test_ADVERSARIAL_2_42_TIMEOUT, seed_id=test, schedule_seed=42, policy=ADVERSARIAL, bound_k=2, fault_mode=TIMEOUT, n_cmds=4, submit_window=3, scheduler_version=test, git_commit=none)"
    );
    assert_eq!(out.schedule.seed_id, "test");
    assert_eq!(out.schedule.policy, "ADVERSARIAL");
    assert_eq!(out.schedule.bound_k, "2");
    assert_eq!(out.schedule.fault_mode, "TIMEOUT");
}

#[test]
fn empty_workload_run() {
    let seed = Seed { seed_id: "empty".to_string(), commands: vec![] };
    for mode in [FaultMode::NONE, FaultMode::TIMEOUT, FaultMode::RESET] {
        let out = execute_run(&seed, &config(3, Policy::BATCHED, BoundK::Infinite, mode, SubmitWindow::Infinite));
        let l = lines(&out);
        assert_eq!(l.len(), 2);
        assert_eq!(l[1], "RUN_END(pending_left=0, pending_peak=0)");
        assert!(out.schedule.steps.is_empty());
    }
}

#[test]
fn zero_window_submits_nothing() {
    let out = execute_run(&test_seed(), &config(1, Policy::FIFO, BoundK::Infinite, FaultMode::NONE, SubmitWindow::Finite(0)));
    assert_eq!(lines(&out).len(), 2);
    assert_eq!(out.result.pending_peak, 0);
}

#[test]
fn fifo_run_exact_log() {
    let out = execute_run(&test_seed(), &config(0, Policy::FIFO, BoundK::Infinite, FaultMode::NONE, SubmitWindow::Finite(1)));
    let l = lines(&out);
    assert_eq!(
        l[1..].to_vec(),
        vec![
            "SUBMIT(cmd_id=0, cmd_type=WRITE)",
            "COMPLETE(cmd_id=0, status=OK, out=0)",
            "SUBMIT(cmd_id=1, cmd_type=READ)",
            "COMPLETE(cmd_id=1, status=OK, out=0)",
            "SUBMIT(cmd_id=2, cmd_type=FENCE)",
            "FENCE(fence_id=0)",
            "COMPLETE(cmd_id=2, status=OK, out=0)",
            "SUBMIT(cmd_id=3, cmd_type=WRITE)",
            "COMPLETE(cmd_id=3, status=OK, out=0)",
            "RUN_END(pending_left=0, pending_peak=1)",
        ]
    );
    assert_eq!(out.schedule.steps.len(), 4);
}

#[test]
fn timeout_run_scenario() {
    let out = execute_run(&test_seed(), &config(0, Policy::FIFO, BoundK::Infinite, FaultMode::TIMEOUT, SubmitWindow::Infinite));
    let l = lines(&out);
    let t = l.iter().position(|x| x.contains("status=TIMEOUT")).unwrap();
    assert_eq!(l.iter().filter(|x| x.contains("status=TIMEOUT")).count(), 1);
    assert!(l[t + 1..].iter().all(|x| !x.starts_with("SUBMIT(")));
    let completes_before = l[..t].iter().filter(|x| x.starts_with("COMPLETE(")).count();
    assert_eq!(completes_before, 2);
    let fault = out.schedule.steps.iter().find_map(|s| match s {
        ScheduleStep::FAULT { fault_type, at_step } => Some((fault_type.clone(), *at_step)),
        _ => None,
    });
    assert_eq!(fault, Some(("TIMEOUT".to_string(), 2)));
    let submitted = l.iter().filter(|x| x.starts_with("SUBMIT(")).count() as u32;
    let completed = l.iter().filter(|x| x.starts_with("COMPLETE(")).count() as u32;
    assert_eq!(out.result.pending_left, submitted - completed);
}

#[test]
fn reset_run_scenario() {
    for s in 0..20u64 {
        let out = execute_run(&test_seed(), &config(s, Policy::RANDOM, BoundK::Infinite, FaultMode::RESET, SubmitWindow::Infinite));
        let l = lines(&out);
        let r = l.iter().position(|x| x.starts_with("RESET(reason=INJECTED, pending_before=")).unwrap();
        assert_eq!(r, l.len() - 2);
        assert!(l[l.len() - 1].starts_with("RUN_END(pending_left=0, pending_peak="));
        assert_eq!(out.result.pending_left, 0);
        assert!(out.result.had_reset);
        let pending_before: u32 = l[r]["RESET(reason=INJECTED, pending_before=".len()..l[r].len() - 1].parse().unwrap();
        assert_eq!(out.result.commands_lost, pending_before);
        let completed = l.iter().filter(|x| x.starts_with("COMPLETE(")).count();
        assert_eq!(completed, 2);
    }
}
