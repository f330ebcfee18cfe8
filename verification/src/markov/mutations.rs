//! The mutation operators: byte-level changes to one packet of a sequence.
//!
//! Every operator picks a packet uniformly among the non-empty slots and an
//! offset uniformly among the packet's bytes. What an operator does is a
//! function, [`applied`], of the sequence and of what was drawn, a
//! [`Choice`]. Which choice is drawn is open, so each contract states what
//! holds of every choice that can be.

use crate::markov::Mutations;
use crate::packets::{count_nonempty, lemma_count_update, Packets};
use crate::random::{draw_below, draw_byte, fill_random};
use rand_xoshiro::Xoshiro256PlusPlus;
use vstd::prelude::*;

verus! {

/// The numerator of the burst length: a burst into a packet of `n` bytes
/// inserts `BURST_BUDGET / n` bytes.
pub const BURST_BUDGET: usize = 10000;

/// How many bytes an insertion adds.
#[derive(Debug, Clone, Copy, PartialEq, Eq, Hash, Structural)]
pub enum InjectType {
    /// One byte.
    Single,
    /// A burst whose length shrinks as the packet grows.
    BOF,
}

/// The kind of insertion that the draw `draw` stands for.
pub open spec fn inject_type_of(draw: int) -> InjectType {
    if draw == 0 {
        InjectType::Single
    } else {
        InjectType::BOF
    }
}

impl InjectType {
    /// The kind of insertion for a draw below two: the first is a single
    /// byte, the second a burst.
    pub fn from_draw(draw: usize) -> (r: InjectType)
        requires
            draw < 2,
        ensures
            r == inject_type_of(draw as int),
    {
        if draw == 0 {
            InjectType::Single
        } else {
            InjectType::BOF
        }
    }

    /// Draws one of the two kinds of insertion uniformly.
    pub fn sample(rng: &mut Xoshiro256PlusPlus) -> (r: InjectType)
        ensures
            exists|draw: int| 0 <= draw < 2 && r == #[trigger] inject_type_of(draw),
    {
        InjectType::from_draw(draw_below(rng, 2))
    }
}

/// The number of bytes that a burst inserts into a packet of `len` bytes.
pub open spec fn burst_length(len: int) -> int
    recommends
        len > 0,
{
    BURST_BUDGET as int / len
}

/// The number of bytes that an insertion of kind `kind` adds to a packet of
/// `len` bytes.
pub open spec fn inject_length(kind: InjectType, len: int) -> int {
    match kind {
        InjectType::Single => 1,
        InjectType::BOF => burst_length(len),
    }
}

/// `packet` with `bytes` put in before the byte at `offset`.
pub open spec fn inserted(packet: Seq<u8>, offset: int, bytes: Seq<u8>) -> Seq<u8> {
    packet.subrange(0, offset) + bytes + packet.subrange(offset, packet.len() as int)
}

/// What one mutation draws: one of the slots that hold a packet, an offset
/// into the packet, and the bytes that go in, if any do.
pub struct Choice {
    /// The slot of the packet.
    pub slot: int,
    /// The offset of one of the packet's bytes.
    pub offset: int,
    /// The bytes drawn: those to insert, or the one to write.
    pub bytes: Seq<u8>,
}

/// The number of bytes that the operator `op` draws for a packet of `len`
/// bytes.
pub open spec fn drawn_length(op: Mutations, len: int) -> int {
    match op {
        Mutations::Inject(kind) => inject_length(kind, len),
        Mutations::Delete => 0,
        Mutations::Swap => 1,
    }
}

/// `packet` as `op` leaves it, given the offset and the bytes drawn.
pub open spec fn rewritten(op: Mutations, packet: Seq<u8>, offset: int, bytes: Seq<u8>) -> Seq<u8> {
    match op {
        Mutations::Inject(_) => inserted(packet, offset, bytes),
        Mutations::Delete => packet.remove(offset),
        Mutations::Swap => packet.update(offset, bytes[0]),
    }
}

/// The choice is one that `op` can draw on `before`: the slot holds a
/// packet, the offset is that of one of its bytes, and the bytes are as
/// many as `op` draws.
pub open spec fn fits(op: Mutations, before: Seq<Seq<u8>>, choice: Choice) -> bool {
    &&& 0 <= choice.slot < before.len()
    &&& before[choice.slot].len() > 0
    &&& 0 <= choice.offset < before[choice.slot].len()
    &&& choice.bytes.len() == drawn_length(op, before[choice.slot].len() as int)
}

/// `before` as `op` leaves it under `choice`: the chosen packet is
/// rewritten, the other slots stay.
pub open spec fn applied(op: Mutations, before: Seq<Seq<u8>>, choice: Choice) -> Seq<Seq<u8>> {
    before.update(
        choice.slot,
        rewritten(op, before[choice.slot], choice.offset, choice.bytes),
    )
}

/// `after` is `before` as `op` may leave it: as it does under one of the
/// choices that it can draw.
pub open spec fn mutated(op: Mutations, before: Seq<Seq<u8>>, after: Seq<Seq<u8>>) -> bool {
    exists|choice: Choice| #[trigger] fits(op, before, choice) && after == applied(op, before, choice)
}

/// An insertion or a substitution leaves the number of packets as it is,
/// and so does a deletion from a packet of two bytes or more. A deletion
/// from a packet of one byte leaves an empty slot, and one packet fewer.
pub proof fn lemma_applied_size(op: Mutations, before: Seq<Seq<u8>>, choice: Choice)
    requires
        fits(op, before, choice),
    ensures
        applied(op, before, choice).len() == before.len(),
        count_nonempty(applied(op, before, choice)) == if op == Mutations::Delete
            && before[choice.slot].len() == 1 {
            count_nonempty(before) - 1
        } else {
            count_nonempty(before) as int
        },
{
    lemma_count_update(
        before,
        choice.slot,
        rewritten(op, before[choice.slot], choice.offset, choice.bytes),
    );
}

/// No operator adds a packet or a slot, and only a deletion takes a packet
/// away, and then one.
pub proof fn lemma_mutated_size(op: Mutations, before: Seq<Seq<u8>>, after: Seq<Seq<u8>>)
    requires
        mutated(op, before, after),
    ensures
        after.len() == before.len(),
        count_nonempty(after) <= count_nonempty(before) <= count_nonempty(after) + 1,
        op != Mutations::Delete ==> count_nonempty(after) == count_nonempty(before),
{
    let choice = choose|choice: Choice| #[trigger]
        fits(op, before, choice) && after == applied(op, before, choice);
    lemma_applied_size(op, before, choice);
}

/// Draws what `op` needs for a mutation of `packets`: the slot of a packet,
/// an offset into the packet, and the bytes.
///
/// The packet is drawn among the packets and the offset among the packet's
/// bytes, both uniformly. An insertion of one byte and a substitution draw
/// one byte; a burst draws `BURST_BUDGET / len` bytes for a packet of `len`
/// bytes, so large packets grow slowly; a deletion draws none.
pub fn draw_choice(packets: &Packets, rng: &mut Xoshiro256PlusPlus, op: Mutations) -> (r: (
    usize,
    usize,
    Vec<u8>,
))
    requires
        count_nonempty(packets@) > 0,
    ensures
        fits(op, packets@, Choice { slot: r.0 as int, offset: r.1 as int, bytes: r.2@ }),
{
    let packets_size = packets.size();
    let slot = packets.nth_slot(draw_below(rng, packets_size));
    let len = packets.slot(slot).len();
    let offset = draw_below(rng, len);
    let bytes = match op {
        Mutations::Inject(InjectType::Single) => vec![draw_byte(rng)],
        Mutations::Inject(InjectType::BOF) => {
            let mut burst: Vec<u8> = vec![0u8; BURST_BUDGET / len];
            fill_random(rng, &mut burst);
            burst
        },
        Mutations::Delete => Vec::new(),
        Mutations::Swap => vec![draw_byte(rng)],
    };
    proof {
        packets.lemma_slot_count();
    }
    (slot, offset, bytes)
}

/// Applies `op` to the packet in slot `slot`, at `offset`, with `bytes`:
/// an insertion puts `bytes` in before the byte at `offset`, a deletion
/// removes that byte, a substitution overwrites it with the first of
/// `bytes`.
pub fn apply(packets: &mut Packets, op: Mutations, slot: usize, offset: usize, bytes: Vec<u8>)
    requires
        fits(op, old(packets)@, Choice { slot: slot as int, offset: offset as int, bytes: bytes@ }),
    ensures
        final(packets)@ == applied(
            op,
            old(packets)@,
            Choice { slot: slot as int, offset: offset as int, bytes: bytes@ },
        ),
        count_nonempty(final(packets)@) == if op == Mutations::Delete && old(packets)@[slot as int].len()
            == 1 {
            count_nonempty(old(packets)@) - 1
        } else {
            count_nonempty(old(packets)@) as int
        },
{
    proof {
        packets.lemma_slot_count();
        lemma_applied_size(
            op,
            packets@,
            Choice { slot: slot as int, offset: offset as int, bytes: bytes@ },
        );
    }
    let packet = packets.slot_mut(slot);
    match op {
        Mutations::Inject(_) => {
            let mut bytes = bytes;
            let mut tail = packet.split_off(offset);
            packet.append(&mut bytes);
            packet.append(&mut tail);
        },
        Mutations::Delete => {
            packet.remove(offset);
        },
        Mutations::Swap => {
            packet.set(offset, bytes[0]);
        },
    }
}

/// Draws a choice for `op` and applies it.
fn draw_and_apply(packets: &mut Packets, rng: &mut Xoshiro256PlusPlus, op: Mutations)
    requires
        count_nonempty(old(packets)@) > 0,
    ensures
        mutated(op, old(packets)@, final(packets)@),
{
    let (slot, offset, bytes) = draw_choice(packets, rng, op);
    let ghost choice = Choice { slot: slot as int, offset: offset as int, bytes: bytes@ };
    apply(packets, op, slot, offset, bytes);
    assert(fits(op, old(packets)@, choice) && packets@ == applied(op, old(packets)@, choice));
}

/// Insert: draws a packet of `packets` and puts one byte or a burst into it.
pub fn inject(packets: &mut Packets, rng: &mut Xoshiro256PlusPlus, inject_type: &InjectType)
    requires
        count_nonempty(old(packets)@) > 0,
    ensures
        mutated(Mutations::Inject(*inject_type), old(packets)@, final(packets)@),
        count_nonempty(final(packets)@) == count_nonempty(old(packets)@),
{
    draw_and_apply(packets, rng, Mutations::Inject(*inject_type));
    proof {
        lemma_mutated_size(Mutations::Inject(*inject_type), old(packets)@, packets@);
    }
}

/// Delete: draws a packet of `packets` and removes one of its bytes. A
/// packet of one byte becomes an empty slot.
pub fn delete(packets: &mut Packets, rng: &mut Xoshiro256PlusPlus)
    requires
        count_nonempty(old(packets)@) > 0,
    ensures
        mutated(Mutations::Delete, old(packets)@, final(packets)@),
        count_nonempty(final(packets)@) <= count_nonempty(old(packets)@),
        count_nonempty(old(packets)@) <= count_nonempty(final(packets)@) + 1,
{
    draw_and_apply(packets, rng, Mutations::Delete);
    proof {
        lemma_mutated_size(Mutations::Delete, old(packets)@, packets@);
    }
}

/// Substitute: draws a packet of `packets` and overwrites one of its bytes
/// with a drawn byte.
pub fn swap(packets: &mut Packets, rng: &mut Xoshiro256PlusPlus)
    requires
        count_nonempty(old(packets)@) > 0,
    ensures
        mutated(Mutations::Swap, old(packets)@, final(packets)@),
        count_nonempty(final(packets)@) == count_nonempty(old(packets)@),
{
    draw_and_apply(packets, rng, Mutations::Swap);
    proof {
        lemma_mutated_size(Mutations::Swap, old(packets)@, packets@);
    }
}

} // verus!
