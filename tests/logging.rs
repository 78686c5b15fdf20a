use nvme_lite_oracle::logging::{FaultMode, Logger, ScheduleStep, SerializedSchedule, SubmitWindow};
use nvme_lite_oracle::model::Status;
use nvme_lite_oracle::scheduler::{BoundK, Policy};

#[test]
fn test_log_format() {
    let mut logger = Logger::new();

    logger.write_header(
        "seed_001_FIFO_0_42_NONE",
        "seed_001",
        42,
        Policy::FIFO,
        BoundK::Finite(0),
        FaultMode::NONE,
        3,
        "v1.0",
        "abc123",
    );

    logger.log_submit(0, "WRITE");
    logger.log_submit(1, "READ");
    logger.log_submit(2, "FENCE");
    logger.log_fence(0);
    logger.log_complete(0, Status::OK, 0);
    logger.log_complete(1, Status::OK, 12345);
    logger.log_complete(2, Status::OK, 0);
    logger.log_run_end(0, 2);

    let log = logger.to_string();
    assert!(log.contains("RUN_HEADER("));
    assert!(log.contains("SUBMIT(cmd_id=0, cmd_type=WRITE)"));
    assert!(log.contains("FENCE(fence_id=0)"));
    assert!(log.contains("COMPLETE(cmd_id=0, status=OK, out=0)"));
    assert!(log.contains("RUN_END(pending_left=0, pending_peak=2)"));
}

#[test]
fn header_lines_exact() {
    let mut logger = Logger::new();
    logger.write_header("r", "s", 18446744073709551615, Policy::BATCHED, BoundK::Infinite, FaultMode::RESET, 0, "v1.0", "");
    logger.write_header_with_window(
        "seed_001_FIFO_0_42_NONE",
        "seed_001",
        42,
        Policy::FIFO,
        BoundK::Finite(0),
        FaultMode::NONE,
        3,
        "v1.0",
        "abc123",
        SubmitWindow::Finite(2),
    );
    let lines = logger.lines();
    assert_eq!(lines.len(), 2);
    assert_eq!(
        lines[0],
        "RUN_HEADER(run_id=r, seed_id=s, schedule_seed=18446744073709551615, policy=BATCHED, bound_k=inf, fault_mode=RESET, n_cmds=0, scheduler_version=v1.0, git_commit=)"
    );
    assert_eq!(
        lines[1],
        "RUN_HEADER(run_id=seed_001_FIFO_0_42_NONE, seed_id=seed_001, schedule_seed=42, policy=FIFO, bound_k=0, fault_mode=NONE, n_cmds=3, submit_window=2, scheduler_version=v1.0, git_commit=abc123)"
    );
}

#[test]
fn event_lines_exact() {
    let mut logger = Logger::new();
    logger.log_submit(4294967295, "WRITE_VISIBLE");
    logger.log_fence(10);
    logger.log_complete(3, Status::TIMEOUT, 0);
    logger.log_complete(4, Status::ERR, 0);
    logger.log_complete(5, Status::OK, 3786432);
    logger.log_reset("INJECTED", 3);
    logger.log_run_end(0, 7);
    assert_eq!(
        logger.to_string(),
        "SUBMIT(cmd_id=4294967295, cmd_type=WRITE_VISIBLE)\nFENCE(fence_id=10)\nCOMPLETE(cmd_id=3, status=TIMEOUT, out=0)\nCOMPLETE(cmd_id=4, status=ERR, out=0)\nCOMPLETE(cmd_id=5, status=OK, out=3786432)\nRESET(reason=INJECTED, pending_before=3)\nRUN_END(pending_left=0, pending_peak=7)"
    );
    assert_eq!(Logger::new().to_string(), "");
}

#[test]
fn submit_window_and_fault_mode_parse() {
    assert_eq!(SubmitWindow::parse("inf"), Ok(SubmitWindow::Infinite));
    assert_eq!(SubmitWindow::parse("Inf"), Ok(SubmitWindow::Infinite));
    assert_eq!(SubmitWindow::parse("2"), Ok(SubmitWindow::Finite(2)));
    assert_eq!(SubmitWindow::parse("two"), Err("Invalid submit_window: two".to_string()));
    assert_eq!(SubmitWindow::Finite(9).value(), 9);
    assert_eq!(SubmitWindow::Infinite.value(), usize::MAX);
    assert_eq!(SubmitWindow::Finite(0).to_string(), "0");
    assert_eq!(SubmitWindow::Infinite.to_string(), "inf");
    assert_eq!(FaultMode::parse("timeout"), Ok(FaultMode::TIMEOUT));
    assert_eq!(FaultMode::parse("Reset"), Ok(FaultMode::RESET));
    assert_eq!(FaultMode::parse("NONE"), Ok(FaultMode::NONE));
    assert_eq!(FaultMode::parse("crash"), Err("Unknown fault mode: crash".to_string()));
    assert_eq!(FaultMode::RESET.as_str(), "RESET");
}

#[test]
fn schedule_record_entries() {
    let mut s = SerializedSchedule::new("seed_x", 5, Policy::RANDOM, BoundK::Finite(3), FaultMode::TIMEOUT);
    assert_eq!(s.seed_id, "seed_x");
    assert_eq!(s.schedule_seed, 5);
    assert_eq!(s.policy, "RANDOM");
    assert_eq!(s.bound_k, "3");
    assert_eq!(s.fault_mode, "TIMEOUT");
    s.add_complete(2);
    s.add_fault("TIMEOUT", 4);
    assert_eq!(s.steps.len(), 2);
    match &s.steps[0] {
        ScheduleStep::CompletePick { pick_index } => assert_eq!(*pick_index, 2),
        _ => panic!("expected a pick"),
    }
    match &s.steps[1] {
        ScheduleStep::FAULT { fault_type, at_step } => {
            assert_eq!(fault_type, "TIMEOUT");
            assert_eq!(*at_step, 4);
        }
        _ => panic!("expected a fault"),
    }
}
