//! A stateful, coverage-guided fuzzing engine for MQTT brokers.
//!
//! The engine explores a broker by sessions. A session builds a sequence of
//! MQTT packets, mutates it byte by byte, sends it, and reads what the
//! broker answers. An answer that was never read before is new coverage:
//! the sequence that drew it is kept, and later sessions start from it.
//!
//! - [`packets`]: the packet sequence, a fixed number of slots.
//! - [`mqtt`]: the packet templates, and the adapter that sends a sequence
//!   over a byte stream and records the answers.
//! - [`transport`]: a byte stream with the log of what was asked of it.
//! - [`packet_queue`]: the coverage table, from answers to the sequences that
//!   first drew them.
//! - [`packet_pool`]: sequences that brought brokers down before.
//! - [`markov`]: the session as a Markov chain, its model and its laws, and
//!   the mutation operators.
//! - [`runtime`]: what a worker does between sessions, and the rate tracker.
//! - [`record`], [`decimal`]: the record a worker leaves behind.
//! - [`replay`]: the replay of recorded workers.
//! - [`random`], [`hexdump`]: the calls into the `rand`, `rand_xoshiro` and
//!   `hex` crates. What is stated of them there is taken on trust.
//!
//! Everything else is proved. The engine opens no connection, starts no
//! process and touches no file: the stream to the broker is a
//! [`markov::ByteStream`] that the caller brings.

pub mod decimal;
pub mod hexdump;
pub mod markov;
pub mod mqtt;
pub mod packet_pool;
pub mod packet_queue;
pub mod packets;
pub mod random;
pub mod record;
pub mod replay;
pub mod runtime;
pub mod transport;

pub use crate::record::SeedAndIterations;
