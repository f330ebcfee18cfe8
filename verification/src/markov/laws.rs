//! What holds of every session: laws of the model's `step` and `run`.

use crate::markov::model::{
    admissible, idle_draws, run, run_wire, runnable, step, wire, Draws, Session,
};
use crate::transport::Event;
use crate::markov::mutations::{
    applied, drawn_length, fits, lemma_applied_size, mutated, Choice,
};
use crate::markov::{Chances, Mode, Mutations, ReadOutcome, State, WriteOutcome, PERCENT};
use crate::mqtt::{failure_of, responses_of, Reply};
use crate::packet_queue::{
    ascending, has_entry, keeps_entries, lemma_keeps_entries, lemma_merge_apart,
    lemma_observed_all,
    lemma_observed_all_holds, merged, Entries,
};
use crate::packets::{
    all_nonempty, count_nonempty, lemma_count_bounded, lemma_lowest_empty_exists, MAX_PACKETS,
};
use vstd::prelude::*;

verus! {

/// An insertion or a substitution leaves the number of packets as it is,
/// and so does a deletion from a packet of two bytes or more. A deletion
/// from a packet of one byte leaves an empty slot behind, and one packet
/// fewer.
pub proof fn lemma_mutation_size(op: Mutations, before: Seq<Seq<u8>>, after: Seq<Seq<u8>>)
    requires
        mutated(op, before, after),
        op == Mutations::Delete ==> forall|slot: int|
            0 <= slot < before.len() ==> (#[trigger] before[slot]).len() != 1,
    ensures
        count_nonempty(after) == count_nonempty(before),
{
    let choice = choose|choice: Choice| #[trigger]
        fits(op, before, choice) && after == applied(op, before, choice);
    lemma_applied_size(op, before, choice);
}

/// Every sequence in sight has as many slots as a sequence has: the one
/// being built, and the ones in the table.
pub open spec fn well_sized(s: Session, table: Entries) -> bool {
    &&& s.packets.len() == MAX_PACKETS
    &&& forall|i: int| 0 <= i < table.len() ==> (#[trigger] table[i]).1.len() == MAX_PACKETS
}

/// A step keeps every sequence at its number of slots, so the sequence
/// being built never holds more than [`MAX_PACKETS`] packets.
pub proof fn lemma_step_size(s: Session, mode: Mode, chances: Chances, table: Entries, d: Draws)
    requires
        well_sized(s, table),
        admissible(s, table, d),
    ensures
        well_sized(step(s, mode, chances, table, d).0, step(s, mode, chances, table, d).1),
        count_nonempty(step(s, mode, chances, table, d).0.packets) <= MAX_PACKETS,
{
    let next = step(s, mode, chances, table, d);
    lemma_count_bounded(next.0.packets);
    match s.state {
        State::ADD(_) => {
            if !all_nonempty(s.packets) {
                lemma_lowest_empty_exists(s.packets);
            }
        },
        State::Mutate(op) => {
            if count_nonempty(s.packets) > 0 {
                lemma_applied_size(op, s.packets, d.choice);
            }
        },
        State::SEND => {
            assert forall|i: int| 0 <= i < next.1.len() implies (#[trigger] next.1[i]).1.len()
                == MAX_PACKETS by {
                lemma_observed_all_holds(table, responses_of(d.replies), s.packets, next.1[i]);
                assert(has_entry(next.1, next.1[i]));
                if has_entry(table, next.1[i]) {
                    let j = choose|j: int| 0 <= j < table.len() && #[trigger] table[j] == next.1[i];
                    assert(table[j].1.len() == MAX_PACKETS);
                }
            }
        },
        _ => {},
    }
}

/// Over a whole run every sequence stays at its number of slots: in every
/// state that a session reaches, the sequence being built holds at most
/// [`MAX_PACKETS`] packets.
pub proof fn lemma_run_size(s: Session, mode: Mode, chances: Chances, table: Entries, ds: Seq<Draws>)
    requires
        well_sized(s, table),
        runnable(s, mode, chances, table, ds),
    ensures
        well_sized(run(s, mode, chances, table, ds).0, run(s, mode, chances, table, ds).1),
        count_nonempty(run(s, mode, chances, table, ds).0.packets) <= MAX_PACKETS,
    decreases ds.len(),
{
    if ds.len() == 0 {
        lemma_count_bounded(s.packets);
    } else {
        lemma_run_size(s, mode, chances, table, ds.drop_last());
        let before = run(s, mode, chances, table, ds.drop_last());
        lemma_step_size(before.0, mode, chances, before.1, ds.last());
    }
}

/// A step never removes or changes an entry of the table, keeps the table
/// in order, and never shrinks it; it changes the table in `SEND` only.
pub proof fn lemma_step_table(s: Session, mode: Mode, chances: Chances, table: Entries, d: Draws)
    requires
        ascending(table),
    ensures
        ascending(step(s, mode, chances, table, d).1),
        keeps_entries(table, step(s, mode, chances, table, d).1),
        table.len() <= step(s, mode, chances, table, d).1.len(),
        s.state != State::SEND ==> step(s, mode, chances, table, d).1 == table,
{
    lemma_observed_all(table, responses_of(d.replies), s.packets);
    lemma_observed_all(table, Seq::empty(), s.packets);
}

/// Only `SelectFromQueue` reads the table, and only `SEND` writes to it.
/// So a step from any other state than `SelectFromQueue` can be taken on an
/// empty table of its own: the session ends up the same, and merging that
/// table into `table` gives the table that the step would have left.
pub proof fn lemma_step_apart(s: Session, mode: Mode, chances: Chances, table: Entries, d: Draws)
    requires
        ascending(table),
        s.state != State::SelectFromQueue,
    ensures
        admissible(s, table, d) == admissible(s, Entries::empty(), d),
        step(s, mode, chances, table, d).0 == step(s, mode, chances, Entries::empty(), d).0,
        step(s, mode, chances, table, d).1 == merged(
            table,
            step(s, mode, chances, Entries::empty(), d).1,
        ),
{
    if s.state == State::SEND {
        lemma_merge_apart(table, responses_of(d.replies), s.packets);
    }
}

/// A step keeps every sequence that was sent, and adds the current one in
/// `SEND` and nowhere else.
pub proof fn lemma_step_previous(s: Session, mode: Mode, chances: Chances, table: Entries, d: Draws)
    ensures
        step(s, mode, chances, table, d).0.previous == if s.state == State::SEND {
            s.previous.push(s.packets)
        } else {
            s.previous
        },
{
}

/// Over a whole run the table keeps its order and its entries and never
/// shrinks, and the sequences sent before the run stay, in their order, at
/// the front of those sent.
pub proof fn lemma_run_keeps(s: Session, mode: Mode, chances: Chances, table: Entries, ds: Seq<Draws>)
    requires
        ascending(table),
    ensures
        ascending(run(s, mode, chances, table, ds).1),
        keeps_entries(table, run(s, mode, chances, table, ds).1),
        table.len() <= run(s, mode, chances, table, ds).1.len(),
        s.previous.len() <= run(s, mode, chances, table, ds).0.previous.len(),
        run(s, mode, chances, table, ds).0.previous.take(s.previous.len() as int) == s.previous,
    decreases ds.len(),
{
    if ds.len() == 0 {
        lemma_observed_all(table, Seq::empty(), s.packets);
        assert(s.previous.take(s.previous.len() as int) =~= s.previous);
    } else {
        lemma_run_keeps(s, mode, chances, table, ds.drop_last());
        let before = run(s, mode, chances, table, ds.drop_last());
        let after = step(before.0, mode, chances, before.1, ds.last());
        lemma_step_table(before.0, mode, chances, before.1, ds.last());
        lemma_step_previous(before.0, mode, chances, before.1, ds.last());
        lemma_keeps_entries(table, before.1, after.1);
        assert(after.0.previous.take(s.previous.len() as int) =~= before.0.previous.take(
            s.previous.len() as int,
        ));
    }
}

/// The draws of two steps agree in what a step from `s` reads of them.
pub open spec fn same_reading(
    s: Session,
    mode: Mode,
    chances: Chances,
    table: Entries,
    a: Draws,
    b: Draws,
) -> bool {
    match s.state {
        State::S0 => mode == Mode::MutationGuided ==> a.roll == b.roll,
        State::SelectFromQueue => table.len() > 0 ==> a.index == b.index,
        State::ADD(_) => true,
        State::ADDING => a.roll == b.roll && (a.roll < chances.packet_append ==> a.kind == b.kind),
        State::MUTATION => a.roll == b.roll && (a.roll >= chances.send ==> a.op == b.op),
        State::Mutate(_) => count_nonempty(s.packets) > 0 ==> a.choice == b.choice,
        State::SEND => {
            &&& a.roll == b.roll
            &&& a.replies == b.replies
            &&& a.roll < chances.mut_after_send && failure_of(a.replies) is None ==> a.op == b.op
        },
        State::Sf => true,
    }
}

/// A step is determined by what it reads: two steps from the same session
/// and table, under draws that agree in what is read of them, end in the
/// same session and table, and ask the same of the stream.
pub proof fn lemma_step_deterministic(
    s: Session,
    mode: Mode,
    chances: Chances,
    table: Entries,
    timeout_ms: u16,
    a: Draws,
    b: Draws,
)
    requires
        same_reading(s, mode, chances, table, a, b),
    ensures
        step(s, mode, chances, table, a) == step(s, mode, chances, table, b),
        wire(s, timeout_ms, a) == wire(s, timeout_ms, b),
{
}

/// A step asks nothing of the stream unless it is a send.
pub proof fn lemma_step_wire(s: Session, timeout_ms: u16, d: Draws)
    requires
        s.state != State::SEND,
    ensures
        wire(s, timeout_ms, d) == Seq::<Event>::empty(),
{
}

/// The draws of two runs agree, step by step, in what the steps of the
/// first run read of them.
pub open spec fn same_readings(
    s: Session,
    mode: Mode,
    chances: Chances,
    table: Entries,
    a: Seq<Draws>,
    b: Seq<Draws>,
) -> bool
    decreases a.len(),
{
    if a.len() == 0 {
        b.len() == 0
    } else {
        let before = run(s, mode, chances, table, a.drop_last());
        &&& b.len() == a.len()
        &&& same_readings(s, mode, chances, table, a.drop_last(), b.drop_last())
        &&& same_reading(before.0, mode, chances, before.1, a.last(), b.last())
    }
}

/// A session is determined by its start, the draws of the generator and
/// the answers of the transport: two runs from the same session and table
/// that read the same draws and answers send the same sequences, ask the
/// same of the stream, and end in the same session and table.
pub proof fn lemma_run_deterministic(
    s: Session,
    mode: Mode,
    chances: Chances,
    table: Entries,
    timeout_ms: u16,
    a: Seq<Draws>,
    b: Seq<Draws>,
)
    requires
        same_readings(s, mode, chances, table, a, b),
    ensures
        run(s, mode, chances, table, a) == run(s, mode, chances, table, b),
        run(s, mode, chances, table, a).0.previous == run(s, mode, chances, table, b).0.previous,
        run_wire(s, mode, chances, table, timeout_ms, a) == run_wire(
            s,
            mode,
            chances,
            table,
            timeout_ms,
            b,
        ),
    decreases a.len(),
{
    if a.len() > 0 {
        lemma_run_deterministic(s, mode, chances, table, timeout_ms, a.drop_last(), b.drop_last());
        let before = run(s, mode, chances, table, a.drop_last());
        lemma_step_deterministic(before.0, mode, chances, before.1, timeout_ms, a.last(), b.last());
    }
}

/// The number of steps that the shortest way from `state` to `Sf` takes.
pub open spec fn distance(state: State) -> nat {
    match state {
        State::Sf => 0,
        State::SEND => 1,
        State::MUTATION => 2,
        State::Mutate(_) => 3,
        State::ADDING => 3,
        State::ADD(_) => 4,
        State::SelectFromQueue => 5,
        State::S0 => 6,
    }
}

/// The chances leave every way to `Sf` open: a send can happen, and
/// neither appending nor going on after a send is certain.
pub open spec fn can_end(chances: Chances) -> bool {
    &&& chances.send > 0
    &&& chances.packet_append < PERCENT
    &&& chances.mut_after_send < PERCENT
}

/// Where `slots` holds a packet, some slot is not empty.
pub proof fn lemma_some_packet(slots: Seq<Seq<u8>>) -> (slot: int)
    requires
        count_nonempty(slots) > 0,
    ensures
        0 <= slot < slots.len(),
        slots[slot].len() > 0,
    decreases slots.len(),
{
    if slots.last().len() > 0 {
        slots.len() - 1
    } else {
        let slot = lemma_some_packet(slots.drop_last());
        assert(slots.drop_last()[slot] == slots[slot]);
        slot
    }
}

/// Every operator has a choice to draw on a sequence that holds a packet.
pub proof fn lemma_choice_exists(op: Mutations, before: Seq<Seq<u8>>) -> (choice: Choice)
    requires
        count_nonempty(before) > 0,
    ensures
        fits(op, before, choice),
{
    let slot = lemma_some_packet(before);
    let count = drawn_length(op, before[slot].len() as int);
    Choice { slot, offset: 0, bytes: Seq::new(count as nat, |i: int| 0u8) }
}

/// From every state but `Sf` some step that the draws can meet leads
/// nearer to `Sf`.
pub proof fn lemma_progress(s: Session, mode: Mode, chances: Chances, table: Entries) -> (d: Draws)
    requires
        can_end(chances),
        s.state != State::Sf,
    ensures
        admissible(s, table, d),
        distance(step(s, mode, chances, table, d).0.state) < distance(s.state),
{
    let idle = idle_draws();
    match s.state {
        State::S0 => idle,
        State::SelectFromQueue => idle,
        State::ADD(_) => idle,
        State::ADDING => Draws { roll: PERCENT - 1, ..idle },
        State::MUTATION => idle,
        State::Mutate(op) => {
            if count_nonempty(s.packets) > 0 {
                let choice = lemma_choice_exists(op, s.packets);
                Draws { choice: choice, ..idle }
            } else {
                idle
            }
        },
        State::SEND => {
            if count_nonempty(s.packets) > 0 {
                let refused = Reply { written: WriteOutcome::Failed, read: ReadOutcome::Failed };
                Draws { roll: PERCENT - 1, replies: seq![refused], ..idle }
            } else {
                Draws { roll: PERCENT - 1, ..idle }
            }
        },
        State::Sf => idle,
    }
}

/// Running `ds` and then one more step `d` is running `ds` with `d` at its
/// end.
pub proof fn lemma_run_push(
    s: Session,
    mode: Mode,
    chances: Chances,
    table: Entries,
    ds: Seq<Draws>,
    d: Draws,
)
    ensures
        run(s, mode, chances, table, ds.push(d)) == step(
            run(s, mode, chances, table, ds).0,
            mode,
            chances,
            run(s, mode, chances, table, ds).1,
            d,
        ),
        runnable(s, mode, chances, table, ds.push(d)) == (runnable(s, mode, chances, table, ds)
            && run(s, mode, chances, table, ds).0.state != State::Sf && admissible(
            run(s, mode, chances, table, ds).0,
            run(s, mode, chances, table, ds).1,
            d,
        )),
{
    assert(ds.push(d).drop_last() =~= ds);
    assert(ds.push(d).last() == d);
}

/// A session can always end: from every state there are at most six steps,
/// each with draws that it can meet, that lead to `Sf`. With chances that
/// leave the way open each of these steps has a chance above zero, so no
/// session is bound to go on for ever.
pub proof fn lemma_final_reachable(s: Session, mode: Mode, chances: Chances, table: Entries) -> (ds:
    Seq<Draws>)
    requires
        can_end(chances),
    ensures
        ds.len() <= distance(s.state) <= 6,
        runnable(s, mode, chances, table, ds),
        run(s, mode, chances, table, ds).0.state == State::Sf,
{
    lemma_reach_from(s, mode, chances, table, Seq::empty())
}

proof fn lemma_reach_from(
    s: Session,
    mode: Mode,
    chances: Chances,
    table: Entries,
    done: Seq<Draws>,
) -> (ds: Seq<Draws>)
    requires
        can_end(chances),
        runnable(s, mode, chances, table, done),
        done.len() + distance(run(s, mode, chances, table, done).0.state) <= distance(s.state),
    ensures
        ds.len() <= distance(s.state) <= 6,
        runnable(s, mode, chances, table, ds),
        run(s, mode, chances, table, ds).0.state == State::Sf,
    decreases distance(run(s, mode, chances, table, done).0.state),
{
    let now = run(s, mode, chances, table, done);
    if now.0.state == State::Sf {
        done
    } else {
        let d = lemma_progress(now.0, mode, chances, now.1);
        lemma_run_push(s, mode, chances, table, done, d);
        lemma_reach_from(s, mode, chances, table, done.push(d))
    }
}

} // verus!
