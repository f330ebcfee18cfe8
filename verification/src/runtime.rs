//! The worker and the rate tracker.
//!
//! A worker runs sessions, one connection each, until it has run as many as
//! it was asked to or the broker is reported dead. What it does between two
//! sessions is decided here; opening the connection, listening for the
//! report and writing files is left to the caller.

use crate::decimal::{decimal, to_decimal};
use crate::markov::model::{ran, sequences, Draws, Session};
use crate::markov::{default_chances, ByteStream, Mode, State, StateMachine};
use crate::packet_queue::PacketQueue;
use crate::packets::{empty_slots, Packets};
use crate::random::seeded_generator;
use crate::record::SeedAndIterations;
use crate::transport::Transport;
use rand_xoshiro::Xoshiro256PlusPlus;
use vstd::prelude::*;
use vstd::string::*;

verus! {

/// A worker reports its count each time it has run this many sessions
/// more.
pub const REPORT_INTERVAL: u64 = 5000;

/// The time, in milliseconds, that a worker waits before it tries again to
/// connect.
pub const RETRY_DELAY_MS: u64 = 100;

/// The number of sessions asked of a worker that is to run until the
/// broker dies.
pub const UNBOUNDED: u64 = u64::MAX;

/// What a worker does after a connection could not be opened.
#[derive(Debug, Clone, Copy, PartialEq, Eq, Structural)]
pub enum Retry {
    /// The broker is dead: stop.
    Stop,
    /// Wait this many milliseconds, then try again.
    After(u64),
}

/// What a worker does after a session.
#[derive(Debug, Clone, Copy, PartialEq, Eq)]
pub struct Progress {
    /// The count to report to the rate tracker, if one is due.
    pub report: Option<u64>,
    /// Whether another session is to be run.
    pub go_on: bool,
}

/// The count after one more session.
pub open spec fn counted(counter: u64) -> u64 {
    if counter < u64::MAX {
        (counter + 1) as u64
    } else {
        counter
    }
}

/// What follows a session of a worker that had run `counter` of `cap`
/// sessions before it: nothing more once the broker is dead; else the
/// session counts, a report is due at every multiple of
/// [`REPORT_INTERVAL`], and the worker goes on while sessions are left.
pub open spec fn progress_of(counter: u64, cap: u64, broker_died: bool) -> Progress {
    if broker_died {
        Progress { report: None, go_on: false }
    } else {
        Progress {
            report: if counted(counter) % REPORT_INTERVAL == 0 {
                Some(counted(counter))
            } else {
                None
            },
            go_on: counted(counter) < cap,
        }
    }
}

/// The name of the file that keeps the record of the worker with the seed
/// `seed`.
pub open spec fn seed_file(seed: u64) -> Seq<char> {
    "threads/fuzzing_"@ + decimal(seed as nat) + ".txt"@
}

/// The name of the file that keeps the last sequences of the worker with
/// the seed `seed`.
pub open spec fn crash_file(seed: u64) -> Seq<char> {
    "crashes/crash_"@ + decimal(seed as nat) + ".txt"@
}

/// A worker: its seed, its generator, and its count of sessions.
pub struct Worker {
    seed: u64,
    cap: u64,
    counter: u64,
    last_packets: Vec<Packets>,
    rng: Xoshiro256PlusPlus,
}

impl Worker {
    /// The worker's seed.
    pub closed spec fn seed(&self) -> u64 {
        self.seed
    }

    /// The number of sessions asked of the worker.
    pub closed spec fn cap(&self) -> u64 {
        self.cap
    }

    /// The number of sessions the worker has run.
    pub closed spec fn counter(&self) -> u64 {
        self.counter
    }

    /// The sequences that the worker's last session sent.
    pub closed spec fn last(&self) -> Seq<Seq<Seq<u8>>> {
        sequences(self.last_packets@)
    }

    /// The worker's generator, as it stands.
    pub closed spec fn generator(&self) -> Xoshiro256PlusPlus {
        self.rng
    }

    /// A worker that is to run `iterations` sessions, with a generator
    /// seeded with `seed`.
    pub fn new(seed: u64, iterations: u64) -> (r: Self)
        ensures
            r.seed() == seed,
            r.cap() == iterations,
            r.counter() == 0,
            r.last() == Seq::<Seq<Seq<u8>>>::empty(),
    {
        let r = Worker {
            seed,
            cap: iterations,
            counter: 0,
            last_packets: Vec::new(),
            rng: seeded_generator(seed),
        };
        assert(sequences(r.last_packets@) =~= Seq::empty());
        r
    }

    /// The number of sessions run so far.
    pub fn iterations(&self) -> (r: u64)
        ensures
            r == self.counter(),
    {
        self.counter
    }

    /// The sequences that the last session sent, oldest first.
    pub fn last_packets(&self) -> (r: &Vec<Packets>)
        ensures
            sequences(r@) == self.last(),
    {
        &self.last_packets
    }

    /// Mutable access to the worker's generator: what is drawn through the
    /// reference is drawn from the worker's generator, and moves it on.
    /// Nothing else of the worker changes.
    pub fn rng(&mut self) -> (r: &mut Xoshiro256PlusPlus)
        ensures
            *r == old(self).generator(),
            final(self).generator() == *final(r),
            final(self).seed() == old(self).seed(),
            final(self).cap() == old(self).cap(),
            final(self).counter() == old(self).counter(),
            final(self).last() == old(self).last(),
    {
        &mut self.rng
    }

    /// Whether sessions are left to run.
    pub fn wants_session(&self) -> (r: bool)
        ensures
            r == (self.counter() < self.cap()),
    {
        self.counter < self.cap
    }

    /// What to do after a connection could not be opened: stop if the
    /// broker is dead, else try again after [`RETRY_DELAY_MS`].
    pub fn connect_failed(&self, broker_died: bool) -> (r: Retry)
        ensures
            r == if broker_died {
                Retry::Stop
            } else {
                Retry::After(RETRY_DELAY_MS)
            },
    {
        if broker_died {
            Retry::Stop
        } else {
            Retry::After(RETRY_DELAY_MS)
        }
    }

    /// Runs one session over `stream`, in a mode drawn uniformly, and keeps
    /// the sequences it sent. Returns the number of steps the session took
    /// and the transport, whose log holds what the session asked of the
    /// stream.
    pub fn run_session<B: ByteStream>(
        &mut self,
        stream: B,
        packet_queue: &mut PacketQueue,
        timeout_ms: u16,
    ) -> (r: (usize, Transport<B>))
        ensures
            exists|mode: Mode, ds: Seq<Draws>, end: Session| #[trigger]
                ran(
                    Session { state: State::S0, packets: empty_slots(), previous: Seq::empty() },
                    mode,
                    default_chances(),
                    old(packet_queue)@,
                    timeout_ms,
                    Seq::empty(),
                    ds,
                    end,
                    final(packet_queue)@,
                    r.1.log(),
                ) && ds.len() == r.0 && final(self).last() == end.previous && (r.0 < usize::MAX
                    ==> end.state == State::Sf),
            final(self).seed() == old(self).seed(),
            final(self).cap() == old(self).cap(),
            final(self).counter() == old(self).counter(),
    {
        let mut machine = StateMachine::new(stream).with_timeout(timeout_ms);
        let mode = Mode::sample(&mut self.rng);
        let ghost start = machine@;
        let ghost log = machine.log();
        let steps = machine.execute(mode, &mut self.rng, packet_queue);
        let ghost end = machine@;
        let ghost end_log = machine.log();
        let ghost ds = choose|ds: Seq<Draws>| #[trigger]
            ran(
                start,
                mode,
                default_chances(),
                old(packet_queue)@,
                timeout_ms,
                log,
                ds,
                end,
                packet_queue@,
                end_log,
            ) && ds.len() == steps;
        let (sent, transport) = machine.into_parts();
        self.last_packets = sent;
        let r = (steps, transport);
        assert(ran(
            Session { state: State::S0, packets: empty_slots(), previous: Seq::empty() },
            mode,
            default_chances(),
            old(packet_queue)@,
            timeout_ms,
            Seq::empty(),
            ds,
            end,
            packet_queue@,
            r.1.log(),
        ) && ds.len() == r.0 && self.last() == end.previous && (r.0 < usize::MAX ==> end.state
            == State::Sf));
        r
    }

    /// Takes note of a session that has ended: keeps the sequences it
    /// sent, and, unless the broker is dead, counts it.
    pub fn session_done(&mut self, previous_packets: Vec<Packets>, broker_died: bool) -> (r: Progress)
        ensures
            r == progress_of(old(self).counter(), old(self).cap(), broker_died),
            final(self).counter() == if broker_died {
                old(self).counter()
            } else {
                counted(old(self).counter())
            },
            final(self).last() == sequences(previous_packets@),
            final(self).seed() == old(self).seed(),
            final(self).cap() == old(self).cap(),
    {
        self.last_packets = previous_packets;
        if broker_died {
            return Progress { report: None, go_on: false };
        }
        if self.counter < u64::MAX {
            self.counter += 1;
        }
        let report = if self.counter % REPORT_INTERVAL == 0 {
            Some(self.counter)
        } else {
            None
        };
        Progress { report, go_on: self.counter < self.cap }
    }

    /// Whether the worker leaves a record when it stops: one that was to
    /// run until the broker dies does, one that repeats a record does not.
    pub fn keeps_record(&self) -> (r: bool)
        ensures
            r == (self.cap() == UNBOUNDED),
    {
        self.cap == UNBOUNDED
    }

    /// The worker's record: its seed and the sessions it has run.
    pub fn record(&self) -> (r: SeedAndIterations)
        ensures
            r.seed@ == decimal(self.seed() as nat),
            r.iterations@ == decimal(self.counter() as nat),
    {
        SeedAndIterations::new(self.seed, self.counter)
    }

    /// The name of the file for the worker's record.
    pub fn record_file(&self) -> (r: String)
        ensures
            r@ == seed_file(self.seed()),
    {
        let mut name = "threads/fuzzing_".to_owned();
        name.append(to_decimal(self.seed).as_str());
        name.append(".txt");
        name
    }

    /// The name of the file for the sequences of the worker's last
    /// session.
    pub fn crash_file(&self) -> (r: String)
        ensures
            r@ == crash_file(self.seed()),
    {
        let mut name = "crashes/crash_".to_owned();
        name.append(to_decimal(self.seed).as_str());
        name.append(".txt");
        name
    }
}

/// The sum of `counts`, or `u64::MAX` where the sum is larger.
pub open spec fn capped_sum(counts: Seq<u64>) -> u64
    decreases counts.len(),
{
    if counts.len() == 0 {
        0
    } else if capped_sum(counts.drop_last()) + counts.last() > u64::MAX {
        u64::MAX
    } else {
        (capped_sum(counts.drop_last()) + counts.last()) as u64
    }
}

/// The sessions run since the total was `last`, where it is `total` now;
/// zero where the total fell.
pub open spec fn gained(total: u64, last: u64) -> u64 {
    if total >= last {
        (total - last) as u64
    } else {
        0
    }
}

/// The rate tracker: it takes the counts that the workers report and says
/// how many sessions were run since it last did.
pub struct RateTracker {
    threads: usize,
    last_iterations: u64,
}

impl RateTracker {
    /// The number of workers.
    pub closed spec fn threads(&self) -> usize {
        self.threads
    }

    /// The total at the last reading.
    pub closed spec fn last_total(&self) -> u64 {
        self.last_iterations
    }

    /// A tracker for `threads` workers, with a total of zero.
    pub fn new(threads: usize) -> (r: Self)
        ensures
            r.threads() == threads,
            r.last_total() == 0,
    {
        RateTracker { threads, last_iterations: 0 }
    }

    /// The most reports that one reading takes: one fewer than there are
    /// workers.
    pub fn reports_per_reading(&self) -> (r: usize)
        ensures
            r == if self.threads() == 0 {
                0
            } else {
                self.threads() - 1
            },
    {
        if self.threads == 0 {
            0
        } else {
            self.threads - 1
        }
    }

    /// Takes one reading: the sum of `counts` is the new total, and the
    /// sessions gained over the last total are returned.
    pub fn reading(&mut self, counts: &Vec<u64>) -> (r: u64)
        ensures
            r == gained(capped_sum(counts@), old(self).last_total()),
            final(self).last_total() == capped_sum(counts@),
            final(self).threads() == old(self).threads(),
    {
        let mut sum: u64 = 0;
        let mut i: usize = 0;
        proof {
            assert(counts@.take(0) =~= Seq::<u64>::empty());
        }
        while i < counts.len()
            invariant
                i <= counts@.len(),
                sum == capped_sum(counts@.take(i as int)),
            decreases counts@.len() - i,
        {
            proof {
                assert(counts@.take(i + 1).drop_last() =~= counts@.take(i as int));
                assert(counts@.take(i + 1).last() == counts@[i as int]);
            }
            let count = counts[i];
            if sum > u64::MAX - count {
                sum = u64::MAX;
            } else {
                sum = sum + count;
            }
            i += 1;
        }
        assert(counts@.take(counts@.len() as int) =~= counts@);
        let gain = if sum >= self.last_iterations {
            sum - self.last_iterations
        } else {
            0
        };
        self.last_iterations = sum;
        gain
    }
}

} // verus!
