use rusty_fume::markov::{ByteStream, ReadOutcome, WriteOutcome};
use rusty_fume::packet_queue::PacketQueue;
use rusty_fume::packets::Packets;
use rusty_fume::runtime::{
    Progress, RateTracker, Retry, Worker, REPORT_INTERVAL, RETRY_DELAY_MS, UNBOUNDED,
};
use rusty_fume::SeedAndIterations;
use std::cell::RefCell;
use std::rc::Rc;

/// A broker that answers with the first byte it was sent and the number of
/// bytes modulo seven, and notes each answer it gave.
struct Noting {
    last: Vec<u8>,
    answers: Rc<RefCell<Vec<Vec<u8>>>>,
}

impl ByteStream for Noting {
    fn write_all(&mut self, bytes: &[u8], _timeout_ms: u16) -> WriteOutcome {
        self.last = bytes.to_vec();
        WriteOutcome::Written
    }

    fn read(&mut self, _limit: usize, _timeout_ms: u16) -> ReadOutcome {
        let answer = vec![self.last[0], (self.last.len() % 7) as u8];
        self.answers.borrow_mut().push(answer.clone());
        ReadOutcome::Received(answer)
    }
}

#[test]
fn a_new_worker_has_run_nothing() {
    let worker = Worker::new(7, 3);
    assert_eq!(worker.iterations(), 0);
    assert!(worker.wants_session());
    assert!(worker.last_packets().is_empty());
    assert!(!Worker::new(7, 0).wants_session());
}

#[test]
fn the_worker_constants() {
    assert_eq!(REPORT_INTERVAL, 5000);
    assert_eq!(RETRY_DELAY_MS, 100);
    assert_eq!(UNBOUNDED, u64::MAX);
}

#[test]
fn a_failed_connect_is_tried_again_unless_the_broker_died() {
    let worker = Worker::new(1, UNBOUNDED);
    assert_eq!(worker.connect_failed(false), Retry::After(100));
    assert_eq!(worker.connect_failed(true), Retry::Stop);
    assert_eq!(worker.iterations(), 0);
}

#[test]
fn a_session_counts_unless_the_broker_died() {
    let mut worker = Worker::new(1, 3);
    assert_eq!(
        worker.session_done(Vec::new(), false),
        Progress { report: None, go_on: true }
    );
    assert_eq!(worker.iterations(), 1);
    assert_eq!(
        worker.session_done(Vec::new(), true),
        Progress { report: None, go_on: false }
    );
    assert_eq!(worker.iterations(), 1);
}

#[test]
fn a_worker_stops_at_its_cap() {
    let mut worker = Worker::new(1, 3);
    assert!(worker.session_done(Vec::new(), false).go_on);
    assert!(worker.session_done(Vec::new(), false).go_on);
    assert!(!worker.session_done(Vec::new(), false).go_on);
    assert_eq!(worker.iterations(), 3);
    assert!(!worker.wants_session());
}

#[test]
fn a_report_is_due_every_five_thousand_sessions() {
    let mut worker = Worker::new(1, UNBOUNDED);
    for session in 1..=10001u64 {
        let progress = worker.session_done(Vec::new(), false);
        assert!(progress.go_on);
        if session % 5000 == 0 {
            assert_eq!(progress.report, Some(session));
        } else {
            assert_eq!(progress.report, None);
        }
    }
    assert_eq!(worker.iterations(), 10001);
}

#[test]
fn the_broker_dies_in_session_seventeen() {
    let seed = 123456789;
    let mut worker = Worker::new(seed, UNBOUNDED);
    let mut last = Packets::new();
    last.append(&[16, 60]);
    for _ in 0..17 {
        assert!(worker.wants_session());
        assert!(worker.session_done(vec![Packets::new()], false).go_on);
    }
    assert!(worker.wants_session());
    let progress = worker.session_done(vec![last.clone()], true);
    assert!(!progress.go_on);
    assert_eq!(progress.report, None);
    assert_eq!(worker.iterations(), 17);
    assert!(worker.keeps_record());
    assert_eq!(
        worker.record(),
        SeedAndIterations { seed: "123456789".to_string(), iterations: "17".to_string() }
    );
    assert_eq!(worker.record_file(), "threads/fuzzing_123456789.txt");
    assert_eq!(worker.crash_file(), "crashes/crash_123456789.txt");
    assert_eq!(worker.last_packets(), &vec![last]);
}

#[test]
fn a_replaying_worker_keeps_no_record() {
    assert!(!Worker::new(1, 17).keeps_record());
    assert!(!Worker::new(1, u64::MAX - 1).keeps_record());
    assert!(Worker::new(1, u64::MAX).keeps_record());
}

#[test]
fn file_names_hold_the_seed() {
    assert_eq!(Worker::new(0, 1).record_file(), "threads/fuzzing_0.txt");
    assert_eq!(Worker::new(0, 1).crash_file(), "crashes/crash_0.txt");
    assert_eq!(
        Worker::new(u64::MAX, 1).record_file(),
        "threads/fuzzing_18446744073709551615.txt"
    );
    assert_eq!(
        Worker::new(u64::MAX, 1).crash_file(),
        "crashes/crash_18446744073709551615.txt"
    );
}

#[test]
fn run_session_keeps_what_was_sent() {
    let answers = Rc::new(RefCell::new(Vec::new()));
    let mut worker = Worker::new(9, 1);
    let mut queue = PacketQueue::new();
    let stream = Noting { last: Vec::new(), answers: answers.clone() };
    let (steps, transport) = worker.run_session(stream, &mut queue, 200);
    assert_eq!(transport.into_stream().last.is_empty(), false);
    assert!(steps >= 5 && steps < usize::MAX);
    assert!(!worker.last_packets().is_empty());
    assert_eq!(worker.iterations(), 0);
    assert!(!answers.borrow().is_empty());
    for answer in answers.borrow().iter() {
        assert!(queue.contains_key(answer));
    }
}

#[test]
fn workers_with_the_same_seed_repeat_each_other() {
    let mut runs = Vec::new();
    for _ in 0..2 {
        let mut worker = Worker::new(77, 25);
        let mut queue = PacketQueue::new();
        let mut sent = Vec::new();
        while worker.wants_session() {
            let stream = Noting { last: Vec::new(), answers: Rc::new(RefCell::new(Vec::new())) };
            worker.run_session(stream, &mut queue, 200);
            sent.push(worker.last_packets().clone());
            let last = worker.last_packets().clone();
            worker.session_done(last, false);
        }
        assert_eq!(worker.iterations(), 25);
        runs.push((sent, queue));
    }
    assert_eq!(runs[0], runs[1]);
}

#[test]
fn a_hundred_workers_lose_no_observation() {
    let answers = Rc::new(RefCell::new(Vec::new()));
    let mut queue = PacketQueue::new();
    let mut workers: Vec<Worker> = (0..100u64).map(|seed| Worker::new(seed, 10)).collect();
    let mut sessions = 0;
    for _ in 0..10 {
        for worker in workers.iter_mut() {
            let before = queue.len();
            let stream = Noting { last: Vec::new(), answers: answers.clone() };
            worker.run_session(stream, &mut queue, 200);
            assert!(queue.len() >= before);
            let last = worker.last_packets().clone();
            worker.session_done(last, false);
            sessions += 1;
        }
    }
    assert_eq!(sessions, 1000);
    let mut observed: Vec<Vec<u8>> = answers.borrow().clone();
    observed.sort();
    observed.dedup();
    let keys: Vec<Vec<u8>> = (0..queue.len()).map(|i| queue.key_at(i).clone()).collect();
    assert_eq!(keys, observed);
    for worker in &workers {
        assert_eq!(worker.iterations(), 10);
        assert!(!worker.wants_session());
    }
}

#[test]
fn the_rate_tracker_reads_one_report_fewer_than_workers() {
    assert_eq!(RateTracker::new(100).reports_per_reading(), 99);
    assert_eq!(RateTracker::new(1).reports_per_reading(), 0);
    assert_eq!(RateTracker::new(0).reports_per_reading(), 0);
}

#[test]
fn the_rate_tracker_returns_the_gain() {
    let mut tracker = RateTracker::new(4);
    assert_eq!(tracker.reading(&vec![0, 5000, 5000, 10000]), 20000);
    assert_eq!(tracker.reading(&vec![0, 10000, 10000, 15000]), 15000);
    assert_eq!(tracker.reading(&vec![0, 10000, 10000, 15000]), 0);
    assert_eq!(tracker.reading(&vec![0, 5000]), 0);
    assert_eq!(tracker.reading(&vec![]), 0);
    assert_eq!(tracker.reading(&vec![7]), 7);
}

#[test]
fn the_rate_tracker_caps_the_sum() {
    let mut tracker = RateTracker::new(3);
    assert_eq!(tracker.reading(&vec![u64::MAX, 1, 2]), u64::MAX);
    assert_eq!(tracker.reading(&vec![u64::MAX - 1, 1]), 0);
    assert_eq!(tracker.reading(&vec![3]), 0);
    assert_eq!(tracker.reading(&vec![u64::MAX - 1, 2]), u64::MAX - 3);
}
