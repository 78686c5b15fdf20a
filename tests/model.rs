use nvme_lite_oracle::model::{NvmeLiteModel, Status};
use nvme_lite_oracle::seed::Command;

#[test]
fn test_submit_and_complete() {
    let mut model = NvmeLiteModel::new();

    let (id0, _, _) = model.submit(Command::WRITE {
        lba: 0,
        len: 4,
        pattern: 42,
    });
    let (id1, _, _) = model.submit(Command::READ { lba: 0, len: 4 });

    assert_eq!(model.pending_count(), 2);
    assert_eq!(model.get_pending_canonical(), vec![0, 1]);

    let result = model.complete(id0, None).unwrap();
    assert_eq!(result.status, Status::OK);
    assert_eq!(model.pending_count(), 1);

    let result = model.complete(id1, None).unwrap();
    assert_eq!(result.status, Status::OK);
    assert_eq!(model.pending_count(), 0);
}

#[test]
fn test_write_read_consistency() {
    let mut model = NvmeLiteModel::new();

    model.submit(Command::WRITE {
        lba: 0,
        len: 4,
        pattern: 123,
    });
    model.complete(0, None);

    // The write reached host storage only: the device still reads zeros.
    model.submit(Command::READ { lba: 0, len: 4 });
    let result = model.complete(1, None).unwrap();
    assert_eq!(result.output, 0);

    model.submit(Command::WRITE_VISIBLE { lba: 0, len: 4 });
    model.complete(2, None);
    model.submit(Command::READ { lba: 0, len: 4 });
    let result = model.complete(3, None).unwrap();

    // Hash of [123, 123, 123, 123]
    let expected_hash = 123_u32
        .wrapping_mul(31)
        .wrapping_add(123)
        .wrapping_mul(31)
        .wrapping_add(123)
        .wrapping_mul(31)
        .wrapping_add(123);
    assert_eq!(result.output, expected_hash);
    assert_eq!(result.output, 3786432);
}

#[test]
fn test_reset() {
    let mut model = NvmeLiteModel::new();

    model.submit(Command::WRITE {
        lba: 0,
        len: 4,
        pattern: 42,
    });
    model.submit(Command::READ { lba: 0, len: 4 });

    let lost = model.reset();
    assert_eq!(lost, 2);
    assert_eq!(model.pending_count(), 0);
    assert!(model.had_reset());
}

#[test]
fn reset_keeps_counters_and_records_loss() {
    let mut model = NvmeLiteModel::new();
    model.submit(Command::FENCE);
    model.submit(Command::READ { lba: 0, len: 1 });
    model.complete(0, None);
    assert_eq!(model.reset(), 1);
    assert_eq!(model.commands_lost(), 1);
    assert_eq!(model.pending_peak(), 2);
    let (id, _, _) = model.submit(Command::READ { lba: 0, len: 1 });
    assert_eq!(id, 2);
    assert_eq!(model.get_submit_order(), vec![0, 1, 2]);
    assert_eq!(model.get_complete_order(), vec![0]);
}

#[test]
fn out_of_range_access_is_err() {
    let mut model = NvmeLiteModel::new();
    model.submit(Command::WRITE { lba: 1020, len: 5, pattern: 1 });
    model.submit(Command::READ { lba: u64::MAX, len: u32::MAX });
    model.submit(Command::WRITE_VISIBLE { lba: 1024, len: 1 });
    model.submit(Command::READ { lba: 1020, len: 4 });
    assert_eq!(model.complete(0, None).unwrap().status, Status::ERR);
    assert_eq!(model.complete(1, None).unwrap().status, Status::ERR);
    assert_eq!(model.complete(2, None).unwrap().status, Status::ERR);
    let last = model.complete(3, None).unwrap();
    assert_eq!(last.status, Status::OK);
    assert_eq!(last.output, 0);
}

#[test]
fn forced_status_skips_execution() {
    let mut model = NvmeLiteModel::new();
    model.submit(Command::WRITE { lba: 0, len: 2, pattern: 9 });
    let r = model.complete(0, Some(Status::TIMEOUT)).unwrap();
    assert_eq!(r.status, Status::TIMEOUT);
    assert_eq!(r.output, 0);
    model.submit(Command::WRITE_VISIBLE { lba: 0, len: 2 });
    model.complete(1, None);
    model.submit(Command::READ { lba: 0, len: 2 });
    assert_eq!(model.complete(2, None).unwrap().output, 0);
}

#[test]
fn unknown_cmd_id_is_ignored() {
    let mut model = NvmeLiteModel::new();
    assert!(model.complete(0, None).is_none());
    model.submit(Command::FENCE);
    assert!(model.complete(0, None).is_some());
    assert!(model.complete(0, None).is_none());
    assert!(model.complete(7, None).is_none());
}

#[test]
fn fences_get_dense_ids_and_data() {
    let mut model = NvmeLiteModel::new();
    model.submit(Command::WRITE { lba: 0, len: 1, pattern: 1 });
    let (_, f0, id0) = model.submit(Command::FENCE);
    model.submit(Command::READ { lba: 0, len: 1 });
    let (_, f1, id1) = model.submit(Command::FENCE);
    let (_, f2, id2) = model.submit(Command::READ { lba: 0, len: 1 });
    assert!(f0 && f1 && !f2);
    assert_eq!(id0, Some(0));
    assert_eq!(id1, Some(1));
    assert_eq!(id2, None);
    let data = model.get_fence_data();
    assert_eq!(data.len(), 2);
    assert_eq!(data[0], (1, vec![0]));
    assert_eq!(data[1], (3, vec![0, 2]));
}

#[test]
fn pending_stays_in_submission_order() {
    let mut model = NvmeLiteModel::new();
    for _ in 0..5 {
        model.submit(Command::FENCE);
    }
    model.complete(2, None);
    model.complete(0, None);
    assert_eq!(model.get_pending_canonical(), vec![1, 3, 4]);
    assert_eq!(model.get_complete_order(), vec![2, 0]);
    assert_eq!(model.pending_peak(), 5);
}

#[test]
fn command_type_labels() {
    assert_eq!(Command::WRITE { lba: 0, len: 0, pattern: 0 }.type_label(), "WRITE");
    assert_eq!(Command::READ { lba: 0, len: 0 }.type_label(), "READ");
    assert_eq!(Command::FENCE.type_label(), "FENCE");
    assert_eq!(Command::WRITE_VISIBLE { lba: 0, len: 0 }.type_label(), "WRITE_VISIBLE");
    assert_eq!(Status::TIMEOUT.as_str(), "TIMEOUT");
}

#[test]
fn default_model_and_logger_are_fresh() {
    let model = NvmeLiteModel::default();
    assert_eq!(model.pending_count(), 0);
    assert_eq!(model.pending_peak(), 0);
    assert!(!model.had_reset());
    assert!(model.get_submit_order().is_empty());
    let logger = nvme_lite_oracle::logging::Logger::default();
    assert!(logger.lines().is_empty());
}
