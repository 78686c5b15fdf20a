use nvme_lite_oracle::prng::SplitMix64;
use nvme_lite_oracle::scheduler::{BoundK, Policy, Scheduler};

#[test]
fn test_bound_k_candidates() {
    // bound_k = 0: only first element
    let sched = Scheduler::new(Policy::FIFO, BoundK::Finite(0), 0);
    let pending = vec![0, 1, 2, 3, 4];
    assert_eq!(sched.get_candidates(&pending), &[0]);

    // bound_k = 2: first 3 elements
    let sched = Scheduler::new(Policy::FIFO, BoundK::Finite(2), 0);
    assert_eq!(sched.get_candidates(&pending), &[0, 1, 2]);

    // bound_k = inf: all elements
    let sched = Scheduler::new(Policy::FIFO, BoundK::Infinite, 0);
    assert_eq!(sched.get_candidates(&pending), &[0, 1, 2, 3, 4]);
}

#[test]
fn test_fifo_policy() {
    let mut sched = Scheduler::new(Policy::FIFO, BoundK::Infinite, 0);
    let pending = vec![2, 5, 7];
    let decision = sched.pick_next(&pending).unwrap();
    assert_eq!(decision.cmd_id, 2);
    assert_eq!(decision.pick_index, 0);
}

#[test]
fn test_adversarial_policy() {
    let mut sched = Scheduler::new(Policy::ADVERSARIAL, BoundK::Infinite, 0);
    let pending = vec![2, 5, 7];
    let decision = sched.pick_next(&pending).unwrap();
    assert_eq!(decision.cmd_id, 7);
    assert_eq!(decision.pick_index, 2);
}

#[test]
fn test_random_determinism() {
    let mut sched1 = Scheduler::new(Policy::RANDOM, BoundK::Infinite, 42);
    let mut sched2 = Scheduler::new(Policy::RANDOM, BoundK::Infinite, 42);
    let pending = vec![0, 1, 2, 3, 4];

    // Same seed should give same results
    for _ in 0..10 {
        let d1 = sched1.pick_next(&pending).unwrap();
        let d2 = sched2.pick_next(&pending).unwrap();
        assert_eq!(d1.cmd_id, d2.cmd_id);
    }
}

#[test]
fn test_bound_k_with_adversarial() {
    // With bound_k=1 and adversarial, should pick index 1 (second element)
    let mut sched = Scheduler::new(Policy::ADVERSARIAL, BoundK::Finite(1), 0);
    let pending = vec![0, 5, 10, 15];
    let decision = sched.pick_next(&pending).unwrap();
    assert_eq!(decision.cmd_id, 5); // candidates are [0, 5], adversarial picks 5
    assert_eq!(decision.pick_index, 1);
}

#[test]
fn splitmix64_known_stream() {
    let mut rng = SplitMix64::seed_from_u64(0);
    assert_eq!(rng.next_u64(), 0xE220A8397B1DCDAF);
    assert_eq!(rng.next_u64(), 0x6E789E6AA1B965F4);
    let mut rng = SplitMix64::seed_from_u64(0);
    assert_eq!(rng.next_bit(), 0xE220A8397B1DCDAF & 1);
    let mut rng = SplitMix64::seed_from_u64(0);
    assert_eq!(rng.gen_index(10), (0xE220A8397B1DCDAFu64 % 10) as usize);
}

#[test]
fn random_pick_follows_stream() {
    let mut sched = Scheduler::new(Policy::RANDOM, BoundK::Infinite, 7);
    let mut rng = SplitMix64::seed_from_u64(7);
    let pending = vec![10, 11, 12];
    for _ in 0..5 {
        let d = sched.pick_next(&pending).unwrap();
        let expect = (rng.next_u64() % 3) as usize;
        assert_eq!(d.pick_index, expect);
        assert_eq!(d.cmd_id, pending[expect]);
    }
    assert_eq!(sched.get_decisions().len(), 5);
}

#[test]
fn batched_draws_like_random_and_bit_shares_stream() {
    let mut a = Scheduler::new(Policy::BATCHED, BoundK::Finite(3), 99);
    let mut b = Scheduler::new(Policy::RANDOM, BoundK::Finite(3), 99);
    let pending = vec![1, 2, 3, 4, 5, 6];
    assert_eq!(a.next_bit(), b.next_bit());
    for _ in 0..4 {
        assert_eq!(a.pick_next(&pending).unwrap().pick_index, b.pick_next(&pending).unwrap().pick_index);
    }
    let mut rng = SplitMix64::seed_from_u64(5);
    let mut f = Scheduler::new(Policy::FIFO, BoundK::Infinite, 5);
    f.pick_next(&pending);
    assert_eq!(f.next_bit(), rng.next_bit());
}

#[test]
fn empty_pending_gives_no_decision() {
    let mut sched = Scheduler::new(Policy::RANDOM, BoundK::Infinite, 1);
    let empty: Vec<u32> = Vec::new();
    assert!(sched.pick_next(&empty).is_none());
    assert!(sched.get_candidates(&empty).is_empty());
    assert_eq!(sched.policy(), Policy::RANDOM);
    assert_eq!(sched.bound_k(), BoundK::Infinite);
}

#[test]
fn adversarial_bound_two_walks_the_window() {
    let mut sched = Scheduler::new(Policy::ADVERSARIAL, BoundK::Finite(2), 0);
    let mut pending: Vec<u32> = vec![0, 1, 2, 3, 4, 5];
    let mut picked = Vec::new();
    while !pending.is_empty() {
        let d = sched.pick_next(&pending).unwrap();
        picked.push(d.cmd_id);
        pending.retain(|&x| x != d.cmd_id);
    }
    assert_eq!(picked, vec![2, 3, 4, 5, 1, 0]);
}

#[test]
fn parse_bound_and_policy() {
    assert_eq!(BoundK::parse("INF"), Ok(BoundK::Infinite));
    assert_eq!(BoundK::parse("inf"), Ok(BoundK::Infinite));
    assert_eq!(BoundK::parse("7"), Ok(BoundK::Finite(7)));
    assert_eq!(BoundK::parse("+3"), Ok(BoundK::Finite(3)));
    assert_eq!(BoundK::parse("4294967295"), Ok(BoundK::Finite(u32::MAX)));
    assert_eq!(BoundK::parse("4294967296"), Err("Invalid bound_k: 4294967296".to_string()));
    assert_eq!(BoundK::parse("-1"), Err("Invalid bound_k: -1".to_string()));
    assert_eq!(BoundK::parse(""), Err("Invalid bound_k: ".to_string()));
    assert_eq!(BoundK::Finite(12).value(), 12);
    assert_eq!(BoundK::Infinite.value(), usize::MAX);
    assert_eq!(BoundK::Finite(305).to_string(), "305");
    assert_eq!(BoundK::Infinite.to_string(), "inf");
    assert_eq!(Policy::parse("fifo"), Ok(Policy::FIFO));
    assert_eq!(Policy::parse("Adversarial"), Ok(Policy::ADVERSARIAL));
    assert_eq!(Policy::parse("batched"), Ok(Policy::BATCHED));
    assert_eq!(Policy::parse("RANDOM"), Ok(Policy::RANDOM));
    assert_eq!(Policy::parse("lifo"), Err("Unknown policy: lifo".to_string()));
    assert_eq!(Policy::from_folded("x", "FIFO"), Ok(Policy::FIFO));
    assert_eq!(BoundK::from_folded("INF", "inf"), Ok(BoundK::Infinite));
    assert_eq!(Policy::ADVERSARIAL.as_str(), "ADVERSARIAL");
}
