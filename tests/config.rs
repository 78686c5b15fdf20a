use nvme_lite_oracle::config::{parse_range, ExperimentConfig, RawConfig};
use nvme_lite_oracle::logging::FaultMode;
use nvme_lite_oracle::scheduler::{BoundK, Policy};

#[test]
fn test_parse_range() {
    assert_eq!(parse_range("0-99").unwrap(), (0, 99));
    assert_eq!(parse_range("42").unwrap(), (42, 42));
    assert_eq!(parse_range("0-0").unwrap(), (0, 0));
}

#[test]
fn parse_range_errors() {
    assert_eq!(parse_range("a-5"), Err("Invalid range start: a".to_string()));
    assert_eq!(parse_range("5-"), Err("Invalid range end: ".to_string()));
    assert_eq!(parse_range("1-2-3"), Err("Invalid range end: 2-3".to_string()));
    assert_eq!(parse_range("x"), Err("Invalid single value: x".to_string()));
    assert_eq!(parse_range("18446744073709551616"), Err("Invalid single value: 18446744073709551616".to_string()));
    assert_eq!(parse_range("7-3").unwrap(), (7, 3));
}

fn raw(policies: &[&str], bounds: &[&str], faults: &[&str], seeds: &str, commit: &str) -> RawConfig {
    RawConfig {
        seeds: vec!["seeds/a.json".to_string(), "seeds/b.json".to_string()],
        policies: policies.iter().map(|s| s.to_string()).collect(),
        bounds: bounds.iter().map(|s| s.to_string()).collect(),
        faults: faults.iter().map(|s| s.to_string()).collect(),
        schedule_seeds: seeds.to_string(),
        scheduler_version: "v1.0".to_string(),
        git_commit: commit.to_string(),
    }
}

#[test]
fn matrix_from_raw() {
    let c = ExperimentConfig::from_raw(raw(&["FIFO", "random"], &["0", "inf"], &["NONE"], "0-9", ""), "deadbeef".to_string()).unwrap();
    assert_eq!(c.policies, vec![Policy::FIFO, Policy::RANDOM]);
    assert_eq!(c.bounds, vec![BoundK::Finite(0), BoundK::Infinite]);
    assert_eq!(c.faults, vec![FaultMode::NONE]);
    assert_eq!(c.schedule_seed_range, (0, 9));
    assert_eq!(c.git_commit, "");
    assert_eq!(c.total_runs(), 2 * 2 * 2 * 1 * 10);
    assert_eq!(c.schedule_seeds().collect::<Vec<u64>>(), (0..=9).collect::<Vec<u64>>());

    let c = ExperimentConfig::from_raw(raw(&[], &["1"], &["RESET"], "5", "auto"), "deadbeef".to_string()).unwrap();
    assert_eq!(c.git_commit, "deadbeef");
    assert_eq!(c.total_runs(), 0);
}

#[test]
fn matrix_errors_name_first_bad_value() {
    let e = ExperimentConfig::from_raw(raw(&["FIFO", "LIFO", "NOPE"], &["0"], &["NONE"], "0", ""), String::new()).unwrap_err();
    assert_eq!(e, "Invalid policy: Unknown policy: LIFO");
    let e = ExperimentConfig::from_raw(raw(&["FIFO"], &["x"], &["NONE"], "0", ""), String::new()).unwrap_err();
    assert_eq!(e, "Invalid bound: Invalid bound_k: x");
    let e = ExperimentConfig::from_raw(raw(&["FIFO"], &["0"], &["BOOM"], "0", ""), String::new()).unwrap_err();
    assert_eq!(e, "Invalid fault mode: Unknown fault mode: BOOM");
    let e = ExperimentConfig::from_raw(raw(&["FIFO"], &["0"], &["NONE"], "a-b", ""), String::new()).unwrap_err();
    assert_eq!(e, "Invalid range start: a");
}
