use rusty_fume::decimal::{from_decimal, to_decimal};
use rusty_fume::replay::{after_worker, is_thread_file, ReplayStep};
use rusty_fume::SeedAndIterations;

#[test]
fn to_decimal_writes_numbers() {
    assert_eq!(to_decimal(0), "0");
    assert_eq!(to_decimal(7), "7");
    assert_eq!(to_decimal(10), "10");
    assert_eq!(to_decimal(5000), "5000");
    assert_eq!(to_decimal(1234567890), "1234567890");
    assert_eq!(to_decimal(u64::MAX), "18446744073709551615");
}

#[test]
fn to_decimal_agrees_with_std() {
    for n in (0..100000u64).step_by(97) {
        assert_eq!(to_decimal(n), n.to_string());
    }
    for shift in 0..64 {
        let n = 1u64 << shift;
        assert_eq!(to_decimal(n), n.to_string());
        assert_eq!(to_decimal(n - 1), (n - 1).to_string());
    }
}

#[test]
fn from_decimal_reads_numbers() {
    assert_eq!(from_decimal("0"), Some(0));
    assert_eq!(from_decimal("17"), Some(17));
    assert_eq!(from_decimal("007"), Some(7));
    assert_eq!(from_decimal("+42"), Some(42));
    assert_eq!(from_decimal("18446744073709551615"), Some(u64::MAX));
    assert_eq!(from_decimal("000018446744073709551615"), Some(u64::MAX));
}

#[test]
fn from_decimal_refuses_what_is_no_number() {
    assert_eq!(from_decimal(""), None);
    assert_eq!(from_decimal("+"), None);
    assert_eq!(from_decimal("-1"), None);
    assert_eq!(from_decimal("++1"), None);
    assert_eq!(from_decimal("1+"), None);
    assert_eq!(from_decimal(" 1"), None);
    assert_eq!(from_decimal("1 "), None);
    assert_eq!(from_decimal("12a"), None);
    assert_eq!(from_decimal("0x10"), None);
    assert_eq!(from_decimal("1.5"), None);
    assert_eq!(from_decimal("٣"), None);
}

#[test]
fn from_decimal_refuses_what_does_not_fit() {
    assert_eq!(from_decimal("18446744073709551616"), None);
    assert_eq!(from_decimal("18446744073709551620"), None);
    assert_eq!(from_decimal("99999999999999999999"), None);
    assert_eq!(from_decimal("184467440737095516150"), None);
    assert_eq!(from_decimal("18446744073709551616x"), None);
}

#[test]
fn from_decimal_agrees_with_std() {
    for text in [
        "0", "1", "+1", "-0", "", "+", "00", "123456", "18446744073709551615",
        "18446744073709551616", "1e3", "１２", "12 ", "+-1",
    ] {
        assert_eq!(from_decimal(text), text.parse::<u64>().ok());
    }
}

#[test]
fn what_is_written_is_read_back() {
    for n in [0, 1, 9, 10, 99, 100, 4999, 5000, 1 << 32, u64::MAX - 1, u64::MAX] {
        assert_eq!(from_decimal(&to_decimal(n)), Some(n));
    }
}

#[test]
fn a_record_holds_decimal_text() {
    let record = SeedAndIterations::new(42, 17);
    assert_eq!(record.seed, "42");
    assert_eq!(record.iterations, "17");
    assert_eq!(record.numbers(), Some((42, 17)));
    let record = SeedAndIterations::new(u64::MAX, 0);
    assert_eq!(record.seed, "18446744073709551615");
    assert_eq!(record.iterations, "0");
    assert_eq!(record.numbers(), Some((u64::MAX, 0)));
}

#[test]
fn a_record_with_other_text_gives_no_numbers() {
    let record = SeedAndIterations { seed: "42".to_string(), iterations: "many".to_string() };
    assert_eq!(record.numbers(), None);
    let record = SeedAndIterations { seed: "".to_string(), iterations: "1".to_string() };
    assert_eq!(record.numbers(), None);
    let record = SeedAndIterations {
        seed: "18446744073709551616".to_string(),
        iterations: "1".to_string(),
    };
    assert_eq!(record.numbers(), None);
}

#[test]
fn record_files_are_told_by_their_names() {
    assert!(is_thread_file("./threads/fuzzing_42.txt"));
    assert!(is_thread_file("./threads/fuzzing_18446744073709551615.txt"));
    assert!(is_thread_file("./threads/fuzzing_.txt"));
    assert!(is_thread_file("./threads/fuzzing_a/b.txt"));
    assert!(!is_thread_file("./threads/fuzzing_42.toml"));
    assert!(!is_thread_file("threads/fuzzing_42.txt"));
    assert!(!is_thread_file("./threads/crash_42.txt"));
    assert!(!is_thread_file("./threads/fuzzing_42.txt~"));
    assert!(!is_thread_file("./threads/fuzzing_"));
    assert!(!is_thread_file(".txt"));
    assert!(!is_thread_file(""));
    assert!(!is_thread_file("./threads/fuzzing.txt"));
}

#[test]
fn a_replay_in_sequence_stops_at_the_crashing_seed() {
    assert_eq!(after_worker(0, 3, false), ReplayStep::Next(1));
    assert_eq!(after_worker(1, 3, false), ReplayStep::Next(2));
    assert_eq!(after_worker(2, 3, false), ReplayStep::NoCrash);
    assert_eq!(after_worker(0, 3, true), ReplayStep::CrashFound(0));
    assert_eq!(after_worker(2, 3, true), ReplayStep::CrashFound(2));
    assert_eq!(after_worker(0, 1, false), ReplayStep::NoCrash);
    assert_eq!(after_worker(usize::MAX, usize::MAX, false), ReplayStep::NoCrash);
}
