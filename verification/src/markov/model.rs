//! The model of a session: what one step of the chain does, as a function.
//!
//! A step reads the session, the coverage table, and the values that the
//! generator and the transport supplied, which [`Draws`] collects, and gives
//! the session and the table that follow. [`run`] takes steps in turn.

use crate::markov::mutations::{applied, fits, Choice};
use crate::markov::{is_emitted, template_of, Chances, Mode, Mutations, PacketType, State, PERCENT};
use crate::mqtt::{failure_of, fitting, packets_of, responses_of, transcript, Reply};
use crate::transport::Event;
use crate::packet_queue::{observed_all, Entries};
use crate::packets::{all_nonempty, appended, count_nonempty, Packets};
use vstd::prelude::*;

verus! {

/// The state after `S0`.
pub open spec fn start_state(mode: Mode, chances: Chances, roll: int, full: bool) -> State {
    match mode {
        Mode::MutationGuided => if roll < chances.sel_from_queue && !full {
            State::ADD(PacketType::CONNECT)
        } else {
            State::SelectFromQueue
        },
        Mode::GenerationGuided => State::ADD(PacketType::CONNECT),
    }
}

/// The state after `ADDING`.
pub open spec fn adding_state(chances: Chances, roll: int, kind: PacketType) -> State {
    if roll < chances.packet_append {
        State::ADD(kind)
    } else {
        State::MUTATION
    }
}

/// The state after `MUTATION`.
pub open spec fn mutation_state(chances: Chances, roll: int, op: Mutations) -> State {
    if roll < chances.send {
        State::SEND
    } else {
        State::Mutate(op)
    }
}

/// The state after `SEND`.
pub open spec fn send_state(chances: Chances, roll: int, failed: bool, op: Mutations) -> State {
    if roll >= chances.mut_after_send || failed {
        State::Sf
    } else {
        State::Mutate(op)
    }
}

/// The model of a machine: what a step reads and changes.
pub struct Session {
    /// The vertex the machine stands on.
    pub state: State,
    /// The sequence being built.
    pub packets: Seq<Seq<u8>>,
    /// The sequences sent so far, oldest first.
    pub previous: Seq<Seq<Seq<u8>>>,
}

/// What the generator and the transport supply to one step. A step reads
/// the fields that its state calls for and no others.
pub struct Draws {
    /// The percentage roll.
    pub roll: int,
    /// `SelectFromQueue`: the index of the entry taken from the table.
    pub index: int,
    /// `ADDING`: the packet type to append.
    pub kind: PacketType,
    /// `MUTATION` and `SEND`: the operator to apply next.
    pub op: Mutations,
    /// `Mutate`: the packet, the offset and the bytes that the operator
    /// drew.
    pub choice: Choice,
    /// `SEND`: what the stream supplied, one reply for each packet that was
    /// sent.
    pub replies: Seq<Reply>,
}

/// The draws are ones that a step from `s` over `table` can meet.
pub open spec fn admissible(s: Session, table: Entries, d: Draws) -> bool {
    &&& 0 <= d.roll < PERCENT
    &&& is_emitted(d.kind)
    &&& s.state == State::SelectFromQueue && table.len() > 0 ==> 0 <= d.index < table.len()
    &&& s.state matches State::Mutate(op) ==> count_nonempty(s.packets) > 0 ==> fits(
        op,
        s.packets,
        d.choice,
    )
    &&& s.state == State::SEND ==> fitting(s.packets, d.replies)
}

/// One step of the chain: the session and the table that follow from `s`
/// and `table` under the draws `d`.
pub open spec fn step(s: Session, mode: Mode, chances: Chances, table: Entries, d: Draws) -> (
    Session,
    Entries,
) {
    match s.state {
        State::S0 => (
            Session {
                state: start_state(mode, chances, d.roll, all_nonempty(s.packets)),
                packets: s.packets,
                previous: s.previous,
            },
            table,
        ),
        State::SelectFromQueue => if table.len() == 0 {
            (
                Session {
                    state: State::ADD(PacketType::CONNECT),
                    packets: s.packets,
                    previous: s.previous,
                },
                table,
            )
        } else {
            (
                Session { state: State::MUTATION, packets: table[d.index].1, previous: s.previous },
                table,
            )
        },
        State::ADD(kind) => (
            Session {
                state: State::ADDING,
                packets: appended(s.packets, template_of(kind)),
                previous: s.previous,
            },
            table,
        ),
        State::ADDING => (
            Session {
                state: adding_state(chances, d.roll, d.kind),
                packets: s.packets,
                previous: s.previous,
            },
            table,
        ),
        State::MUTATION => (
            Session {
                state: mutation_state(chances, d.roll, d.op),
                packets: s.packets,
                previous: s.previous,
            },
            table,
        ),
        State::Mutate(op) => (
            Session {
                state: State::MUTATION,
                packets: if count_nonempty(s.packets) > 0 {
                    applied(op, s.packets, d.choice)
                } else {
                    s.packets
                },
                previous: s.previous,
            },
            table,
        ),
        State::SEND => (
            Session {
                state: send_state(chances, d.roll, failure_of(d.replies) is Some, d.op),
                packets: s.packets,
                previous: s.previous.push(s.packets),
            },
            observed_all(table, responses_of(d.replies), s.packets),
        ),
        State::Sf => (s, table),
    }
}

/// What one step from `s` under `d` asks of the stream: in `SEND` the
/// packets of the sequence, in slot order, each in one exchange, up to the
/// first that fails; in every other state nothing.
pub open spec fn wire(s: Session, timeout_ms: u16, d: Draws) -> Seq<Event> {
    if s.state == State::SEND {
        transcript(packets_of(s.packets), timeout_ms, d.replies)
    } else {
        Seq::empty()
    }
}

/// `s` and `table` become `next` and `next_table` in one step under `d`,
/// and the stream is asked for what the step sends, and for nothing else.
pub open spec fn stepped(
    s: Session,
    mode: Mode,
    chances: Chances,
    table: Entries,
    timeout_ms: u16,
    log: Seq<Event>,
    d: Draws,
    next: Session,
    next_table: Entries,
    next_log: Seq<Event>,
) -> bool {
    &&& admissible(s, table, d)
    &&& step(s, mode, chances, table, d) == (next, next_table)
    &&& next_log == log + wire(s, timeout_ms, d)
}

/// The session and the table after the steps that `ds` supplies, taken in
/// turn from `s` and `table`.
pub open spec fn run(
    s: Session,
    mode: Mode,
    chances: Chances,
    table: Entries,
    ds: Seq<Draws>,
) -> (Session, Entries)
    decreases ds.len(),
{
    if ds.len() == 0 {
        (s, table)
    } else {
        let before = run(s, mode, chances, table, ds.drop_last());
        step(before.0, mode, chances, before.1, ds.last())
    }
}

/// What the steps that `ds` supplies ask of the stream, one after the
/// other.
pub open spec fn run_wire(
    s: Session,
    mode: Mode,
    chances: Chances,
    table: Entries,
    timeout_ms: u16,
    ds: Seq<Draws>,
) -> Seq<Event>
    decreases ds.len(),
{
    if ds.len() == 0 {
        Seq::empty()
    } else {
        run_wire(s, mode, chances, table, timeout_ms, ds.drop_last()) + wire(
            run(s, mode, chances, table, ds.drop_last()).0,
            timeout_ms,
            ds.last(),
        )
    }
}

/// Each of the steps that `ds` supplies starts short of `Sf` and has
/// draws that it can meet.
pub open spec fn runnable(
    s: Session,
    mode: Mode,
    chances: Chances,
    table: Entries,
    ds: Seq<Draws>,
) -> bool
    decreases ds.len(),
{
    if ds.len() == 0 {
        true
    } else {
        let before = run(s, mode, chances, table, ds.drop_last());
        &&& runnable(s, mode, chances, table, ds.drop_last())
        &&& before.0.state != State::Sf
        &&& admissible(before.0, before.1, ds.last())
    }
}

/// `s` and `table` become `last` and `last_table` by the steps that `ds`
/// supplies, and the stream is asked for what these steps send, in their
/// order, and for nothing else.
pub open spec fn ran(
    s: Session,
    mode: Mode,
    chances: Chances,
    table: Entries,
    timeout_ms: u16,
    log: Seq<Event>,
    ds: Seq<Draws>,
    last: Session,
    last_table: Entries,
    last_log: Seq<Event>,
) -> bool {
    &&& runnable(s, mode, chances, table, ds)
    &&& run(s, mode, chances, table, ds) == (last, last_table)
    &&& last_log == log + run_wire(s, mode, chances, table, timeout_ms, ds)
}

/// The contents of a vector of sequences.
pub open spec fn sequences(list: Seq<Packets>) -> Seq<Seq<Seq<u8>>> {
    Seq::new(list.len(), |i: int| list[i]@)
}

/// Draws that ask nothing: any step but a mutation or a send can meet
/// them, whatever it reads of them.
pub open spec fn idle_draws() -> Draws {
    Draws {
        roll: 0,
        index: 0,
        kind: PacketType::CONNECT,
        op: Mutations::Delete,
        choice: Choice { slot: 0, offset: 0, bytes: Seq::empty() },
        replies: Seq::empty(),
    }
}

} // verus!
