//! The session state machine.
//!
//! A session is one walk through a Markov chain. It starts in `S0`, builds
//! a packet sequence from templates or takes one from the coverage table,
//! mutates it, sends it, and either mutates and sends again or ends in
//! `Sf`:
//!
//! - `S0`: go on to `ADD(CONNECT)`, or, when guided by mutation, to
//!   `SelectFromQueue`.
//! - `SelectFromQueue`: take a sequence from the table and go on to
//!   `MUTATION`; with an empty table go on to `ADD(CONNECT)`.
//! - `ADD(kind)`: append the template of `kind`, go on to `ADDING`.
//! - `ADDING`: go on to `ADD` of a drawn kind, or to `MUTATION`.
//! - `MUTATION`: go on to `SEND`, or to `Mutate` of a drawn operator.
//! - `Mutate(op)`: apply `op`, go back to `MUTATION`.
//! - `SEND`: send the sequence; then end in `Sf`, or go on to `Mutate`.
//!
//! Every chance is a percentage, and every draw of the generator is a whole
//! number. What a step does is a function of the session, the table, and
//! the values that the generator and the transport supplied; the module
//! [`model`] defines it, and the module [`laws`] states what follows.

pub mod laws;
pub mod model;
pub mod mutations;

use crate::markov::model::{
    idle_draws, ran, run_wire, sequences, start_state, stepped, wire, Draws, Session,
};
use crate::markov::mutations::{
    applied, delete, fits, inject, inject_type_of, mutated, swap, Choice, InjectType,
};
use crate::mqtt::{
    connect_packet, delivered, disconnect_packet, generate_connect_packet,
    generate_disconnect_packet, generate_pingreq_packet, generate_publish_packet,
    generate_subscribe_packet, generate_unsubscribe_packet, pingreq_packet, publish_packet,
    send_packets, subscribe_packet, unsubscribe_packet, Reply,
};
use crate::transport::{Event, Transport};
use crate::packet_queue::PacketQueue;
use crate::packets::{appended, count_nonempty, empty_slots, Packets};
use crate::random::draw_below;
use rand_xoshiro::Xoshiro256PlusPlus;
use vstd::prelude::*;

verus! {

/// The bound of a percentage roll: rolls lie in `0..PERCENT`.
pub const PERCENT: usize = 100;

/// The chance, in percent, that a session guided by mutation builds its
/// sequence from templates instead of taking one from the table.
pub const SEL_FROM_QUEUE: u8 = 70;

/// The chance, in percent, that another packet is appended.
pub const PACKET_APPEND_CHANCE: u8 = 20;

/// The chance, in percent, that the sequence is sent instead of mutated.
pub const SEND_CHANCE: u8 = 20;

/// The chance, in percent, that the session goes on after a send.
pub const MUT_AFTER_SEND: u8 = 70;

/// The time, in milliseconds, that one write or read may take unless the
/// machine is told otherwise.
pub const DEFAULT_TIMEOUT_MS: u16 = 200;

/// The MQTT packet types.
#[derive(Debug, Clone, Copy, PartialEq, Eq, Hash, Structural)]
pub enum PacketType {
    AUTH,
    CONNACK,
    CONNECT,
    DISCONNECT,
    PINGREQ,
    PINGRESP,
    PUBACK,
    PUBCOMP,
    PUBLISH,
    PUBREC,
    PUBREL,
    RESERVED,
    SUBACK,
    SUBSCRIBE,
    UNSUBACK,
    UNSUBSCRIBE,
}

/// A mutation operator.
#[derive(Debug, Clone, Copy, PartialEq, Eq, Hash, Structural)]
pub enum Mutations {
    /// Inserts bytes into a packet.
    Inject(InjectType),
    /// Deletes a byte from a packet.
    Delete,
    /// Overwrites a byte of a packet.
    Swap,
}

/// A vertex of the chain.
#[derive(Debug, Clone, Copy, PartialEq, Eq, Hash, Structural)]
pub enum State {
    S0,
    ADD(PacketType),
    ADDING,
    SelectFromQueue,
    MUTATION,
    Mutate(Mutations),
    SEND,
    Sf,
}

impl Default for State {
    fn default() -> (r: Self)
        ensures
            r == State::S0,
    {
        State::S0
    }
}

/// How a session comes by its first sequence.
#[derive(Debug, Clone, Copy, PartialEq, Eq, Hash, Structural)]
pub enum Mode {
    /// It may take a sequence from the coverage table.
    MutationGuided,
    /// It always builds one from templates.
    GenerationGuided,
}

/// The packet types that have a template: the ones a session emits.
pub open spec fn is_emitted(kind: PacketType) -> bool {
    kind == PacketType::CONNECT || kind == PacketType::PUBLISH || kind == PacketType::SUBSCRIBE
        || kind == PacketType::UNSUBSCRIBE || kind == PacketType::PINGREQ || kind
        == PacketType::DISCONNECT
}

/// The packet type that the draw `draw` stands for.
pub open spec fn packet_type_of(draw: int) -> PacketType {
    if draw == 0 {
        PacketType::CONNECT
    } else if draw == 1 {
        PacketType::PUBLISH
    } else if draw == 2 {
        PacketType::SUBSCRIBE
    } else if draw == 3 {
        PacketType::UNSUBSCRIBE
    } else if draw == 4 {
        PacketType::PINGREQ
    } else {
        PacketType::DISCONNECT
    }
}

/// The template of `kind`; a type that is not emitted has none, which the
/// empty byte string stands for.
pub open spec fn template_of(kind: PacketType) -> Seq<u8> {
    match kind {
        PacketType::CONNECT => connect_packet(),
        PacketType::PUBLISH => publish_packet(),
        PacketType::SUBSCRIBE => subscribe_packet(),
        PacketType::UNSUBSCRIBE => unsubscribe_packet(),
        PacketType::PINGREQ => pingreq_packet(),
        PacketType::DISCONNECT => disconnect_packet(),
        _ => Seq::empty(),
    }
}

impl PacketType {
    /// The emitted packet type for a draw below six.
    pub fn from_draw(draw: usize) -> (r: PacketType)
        requires
            draw < 6,
        ensures
            r == packet_type_of(draw as int),
            is_emitted(r),
    {
        if draw == 0 {
            PacketType::CONNECT
        } else if draw == 1 {
            PacketType::PUBLISH
        } else if draw == 2 {
            PacketType::SUBSCRIBE
        } else if draw == 3 {
            PacketType::UNSUBSCRIBE
        } else if draw == 4 {
            PacketType::PINGREQ
        } else {
            PacketType::DISCONNECT
        }
    }

    /// Draws one of the six emitted packet types uniformly.
    pub fn sample(rng: &mut Xoshiro256PlusPlus) -> (r: PacketType)
        ensures
            exists|draw: int| 0 <= draw < 6 && r == #[trigger] packet_type_of(draw),
            is_emitted(r),
    {
        PacketType::from_draw(draw_below(rng, 6))
    }
}

/// The operator that the draw `draw` stands for; `inject_type` says which
/// insertion it is where it is one.
pub open spec fn mutation_of(draw: int, inject_type: InjectType) -> Mutations {
    if draw == 0 {
        Mutations::Inject(inject_type)
    } else if draw == 1 {
        Mutations::Delete
    } else {
        Mutations::Swap
    }
}

impl Mutations {
    /// The operator for a draw below three.
    pub fn from_draw(draw: usize, inject_type: InjectType) -> (r: Mutations)
        requires
            draw < 3,
        ensures
            r == mutation_of(draw as int, inject_type),
    {
        if draw == 0 {
            Mutations::Inject(inject_type)
        } else if draw == 1 {
            Mutations::Delete
        } else {
            Mutations::Swap
        }
    }

    /// Draws one of insert, delete and substitute uniformly, and for an
    /// insert one of its two kinds uniformly.
    pub fn sample(rng: &mut Xoshiro256PlusPlus) -> (r: Mutations)
        ensures
            exists|draw: int, kind: int|
                0 <= draw < 3 && 0 <= kind < 2 && r == #[trigger] mutation_of(
                    draw,
                    inject_type_of(kind),
                ),
    {
        let draw = draw_below(rng, 3);
        if draw == 0 {
            let inject_type = InjectType::sample(rng);
            let ghost kind = choose|kind: int| 0 <= kind < 2 && inject_type == #[trigger] inject_type_of(kind);
            let r = Mutations::from_draw(draw, inject_type);
            assert(r == mutation_of(0, inject_type_of(kind)));
            r
        } else {
            let r = Mutations::from_draw(draw, InjectType::Single);
            assert(r == mutation_of(draw as int, inject_type_of(0)));
            r
        }
    }
}

/// The mode that the draw `draw` stands for.
pub open spec fn mode_of(draw: int) -> Mode {
    if draw < 5 {
        Mode::MutationGuided
    } else {
        Mode::GenerationGuided
    }
}

impl Mode {
    /// The mode for a draw below ten: the lower half is guided by
    /// mutation, the upper half by generation.
    pub fn from_draw(draw: usize) -> (r: Mode)
        requires
            draw < 10,
        ensures
            r == mode_of(draw as int),
    {
        if draw < 5 {
            Mode::MutationGuided
        } else {
            Mode::GenerationGuided
        }
    }

    /// Draws one of the two modes uniformly.
    pub fn sample(rng: &mut Xoshiro256PlusPlus) -> (r: Mode)
        ensures
            exists|draw: int| 0 <= draw < 10 && r == #[trigger] mode_of(draw),
    {
        Mode::from_draw(draw_below(rng, 10))
    }

    /// The mode's name.
    pub fn to_string(&self) -> (r: String)
        ensures
            r@ == match *self {
                Mode::MutationGuided => "Mutation Guided"@,
                Mode::GenerationGuided => "Generation Guided"@,
            },
    {
        match self {
            Mode::MutationGuided => "Mutation Guided".to_owned(),
            Mode::GenerationGuided => "Generation Guided".to_owned(),
        }
    }
}

/// What a write came to.
#[derive(Debug, Clone, Copy, PartialEq, Eq, Hash, Structural)]
pub enum WriteOutcome {
    /// All bytes were written.
    Written,
    /// The write did not end in time.
    TimedOut,
    /// The write failed.
    Failed,
}

/// What a read came to.
#[derive(Debug, PartialEq, Eq, Hash)]
pub enum ReadOutcome {
    /// These bytes were read.
    Received(Vec<u8>),
    /// Nothing came in time.
    TimedOut,
    /// The read failed.
    Failed,
}

/// A two-way byte stream to the broker, each operation bounded in time.
///
/// Nothing is assumed of an implementation: what the adapter does is stated
/// for every outcome of either operation. The library reaches a stream
/// through a [`Transport`] only, which keeps the log of what was asked.
pub trait ByteStream {
    /// Writes all of `bytes`, giving up after `timeout_ms` milliseconds.
    fn write_all(&mut self, bytes: &[u8], timeout_ms: u16) -> WriteOutcome;

    /// Reads once, at most `limit` bytes, giving up after `timeout_ms`
    /// milliseconds.
    fn read(&mut self, limit: usize, timeout_ms: u16) -> ReadOutcome;
}

/// The chances of the chain, each in percent. A chance of 100 or more is a
/// certainty.
#[derive(Debug, Clone, Copy, PartialEq, Eq, Hash, Structural)]
pub struct Chances {
    /// That a session guided by mutation starts from templates.
    pub sel_from_queue: u8,
    /// That another packet is appended.
    pub packet_append: u8,
    /// That the sequence is sent instead of mutated.
    pub send: u8,
    /// That the session goes on after a send.
    pub mut_after_send: u8,
}

impl Default for Chances {
    fn default() -> (r: Self)
        ensures
            r == default_chances(),
    {
        Chances {
            sel_from_queue: SEL_FROM_QUEUE,
            packet_append: PACKET_APPEND_CHANCE,
            send: SEND_CHANCE,
            mut_after_send: MUT_AFTER_SEND,
        }
    }
}

/// The chances that a machine has unless it is given others.
pub open spec fn default_chances() -> Chances {
    Chances {
        sel_from_queue: SEL_FROM_QUEUE,
        packet_append: PACKET_APPEND_CHANCE,
        send: SEND_CHANCE,
        mut_after_send: MUT_AFTER_SEND,
    }
}

impl Chances {
    /// Whether a session leaves `S0` for `ADD(CONNECT)`, given the roll and
    /// whether its sequence is full.
    pub fn starts_with_connect(&self, mode: Mode, roll: usize, full: bool) -> (r: bool)
        ensures
            r == (start_state(mode, *self, roll as int, full) == State::ADD(PacketType::CONNECT)),
            !r == (start_state(mode, *self, roll as int, full) == State::SelectFromQueue),
    {
        match mode {
            Mode::MutationGuided => roll < self.sel_from_queue as usize && !full,
            Mode::GenerationGuided => true,
        }
    }

    /// Whether `ADDING` appends another packet, given the roll.
    pub fn appends_packet(&self, roll: usize) -> (r: bool)
        ensures
            r == (roll < self.packet_append),
    {
        roll < self.packet_append as usize
    }

    /// Whether `MUTATION` sends, given the roll.
    pub fn sends_now(&self, roll: usize) -> (r: bool)
        ensures
            r == (roll < self.send),
    {
        roll < self.send as usize
    }

    /// Whether the session ends after a send, given the roll and whether
    /// the send failed.
    pub fn ends_session(&self, roll: usize, failed: bool) -> (r: bool)
        ensures
            r == (roll >= self.mut_after_send || failed),
    {
        roll >= self.mut_after_send as usize || failed
    }
}

/// Appends the template of `kind` to `packets`; a type without a template
/// appends nothing.
pub fn add_packet(packets: &mut Packets, kind: PacketType)
    ensures
        final(packets)@ == appended(old(packets)@, template_of(kind)),
{
    match kind {
        PacketType::CONNECT => packets.append(generate_connect_packet().as_slice()),
        PacketType::PUBLISH => packets.append(generate_publish_packet().as_slice()),
        PacketType::SUBSCRIBE => packets.append(generate_subscribe_packet().as_slice()),
        PacketType::UNSUBSCRIBE => packets.append(generate_unsubscribe_packet().as_slice()),
        PacketType::PINGREQ => packets.append(generate_pingreq_packet().as_slice()),
        PacketType::DISCONNECT => packets.append(generate_disconnect_packet().as_slice()),
        _ => {
            let nothing: Vec<u8> = Vec::new();
            packets.append(nothing.as_slice());
        },
    }
}

/// Applies the operator `op` to a drawn packet of `packets`.
pub fn mutate(packets: &mut Packets, rng: &mut Xoshiro256PlusPlus, op: Mutations)
    requires
        count_nonempty(old(packets)@) > 0,
    ensures
        mutated(op, old(packets)@, final(packets)@),
{
    match op {
        Mutations::Inject(t) => inject(packets, rng, &t),
        Mutations::Delete => delete(packets, rng),
        Mutations::Swap => swap(packets, rng),
    }
}

/// The machine of one session over the stream `B`.
pub struct StateMachine<B> where B: ByteStream {
    /// The vertex the machine stands on.
    pub(crate) state: State,
    /// The sequence being built.
    packets: Packets,
    /// Every sequence that was sent, oldest first.
    pub previous_packets: Vec<Packets>,
    /// The stream to the broker, with the log of what was asked of it.
    stream: Transport<B>,
    /// The chances of the chain.
    chances: Chances,
    /// The bound on each write and read, in milliseconds.
    timeout_ms: u16,
}

impl<B: ByteStream> View for StateMachine<B> {
    type V = Session;

    closed spec fn view(&self) -> Session {
        Session {
            state: self.state,
            packets: self.packets@,
            previous: sequences(self.previous_packets@),
        }
    }
}

impl<B: ByteStream> StateMachine<B> {
    /// The chances that the machine steps by.
    pub closed spec fn chances(&self) -> Chances {
        self.chances
    }

    /// The bound on each write and read, in milliseconds.
    pub closed spec fn timeout_ms(&self) -> u16 {
        self.timeout_ms
    }

    /// The operations that the machine asked of its stream so far, oldest
    /// first.
    pub closed spec fn log(&self) -> Seq<Event> {
        self.stream.log()
    }

    /// The machine's stream, as it stands.
    pub closed spec fn inner(&self) -> B {
        self.stream.inner()
    }

    /// A machine in `S0` with an empty sequence, the default chances and
    /// the default bound on writes and reads. It holds `stream`, of which
    /// it has asked nothing.
    pub fn new(stream: B) -> (r: Self)
        ensures
            r@ == (Session { state: State::S0, packets: empty_slots(), previous: Seq::empty() }),
            r.chances() == default_chances(),
            r.timeout_ms() == DEFAULT_TIMEOUT_MS,
            r.log() == Seq::<Event>::empty(),
            r.inner() == stream,
    {
        let r = StateMachine {
            stream: Transport::new(stream),
            state: State::S0,
            packets: Packets::new(),
            previous_packets: Vec::new(),
            chances: Chances::default(),
            timeout_ms: DEFAULT_TIMEOUT_MS,
        };
        assert(sequences(r.previous_packets@) =~= Seq::empty());
        r
    }

    /// The same machine with the bound `timeout_ms` on writes and reads.
    pub fn with_timeout(self, timeout_ms: u16) -> (r: Self)
        ensures
            r@ == self@,
            r.chances() == self.chances(),
            r.timeout_ms() == timeout_ms,
            r.log() == self.log(),
            r.inner() == self.inner(),
    {
        let mut r = self;
        r.timeout_ms = timeout_ms;
        r
    }

    /// The same machine with the chances `chances`.
    pub fn with_chances(self, chances: Chances) -> (r: Self)
        ensures
            r@ == self@,
            r.chances() == chances,
            r.timeout_ms() == self.timeout_ms(),
            r.log() == self.log(),
            r.inner() == self.inner(),
    {
        let mut r = self;
        r.chances = chances;
        r
    }

    /// The vertex the machine stands on.
    pub fn state(&self) -> (r: State)
        ensures
            r == self@.state,
    {
        self.state
    }

    /// Whether the session has ended.
    pub fn is_final(&self) -> (r: bool)
        ensures
            r == (self@.state == State::Sf),
    {
        self.state == State::Sf
    }

    /// Gives up the machine for the sequences it sent, oldest first.
    pub fn into_previous_packets(self) -> (r: Vec<Packets>)
        ensures
            sequences(r@) == self@.previous,
    {
        self.previous_packets
    }

    /// Gives up the machine for the sequences it sent, oldest first, and
    /// for its transport.
    pub fn into_parts(self) -> (r: (Vec<Packets>, Transport<B>))
        ensures
            sequences(r.0@) == self@.previous,
            r.1.log() == self.log(),
            r.1.inner() == self.inner(),
    {
        (self.previous_packets, self.stream)
    }

    /// The machine's stream.
    pub fn stream(&self) -> (r: &B)
        ensures
            *r == self.inner(),
    {
        self.stream.stream()
    }

    /// The sequence being built.
    pub fn packets(&self) -> (r: &Packets)
        ensures
            r@ == self@.packets,
    {
        &self.packets
    }

    /// Takes one step of the chain, drawing from `rng` and, in `SEND`,
    /// sending over the stream. In `Sf` nothing happens.
    ///
    /// A mutation of a sequence that holds no packet is skipped. A send
    /// notes the sequence among those sent before it writes the first
    /// packet.
    pub fn next(&mut self, mode: Mode, rng: &mut Xoshiro256PlusPlus, packet_queue: &mut PacketQueue)
        ensures
            exists|d: Draws| #[trigger]
                stepped(
                    old(self)@,
                    mode,
                    old(self).chances(),
                    old(packet_queue)@,
                    old(self).timeout_ms(),
                    old(self).log(),
                    d,
                    final(self)@,
                    final(packet_queue)@,
                    final(self).log(),
                ),
            final(self).chances() == old(self).chances(),
            final(self).timeout_ms() == old(self).timeout_ms(),
    {
        let ghost mut d = idle_draws();
        match self.state {
            State::S0 => {
                let full = self.packets.is_full();
                let roll = match mode {
                    Mode::MutationGuided => draw_below(rng, PERCENT),
                    Mode::GenerationGuided => 0,
                };
                if self.chances.starts_with_connect(mode, roll, full) {
                    self.state = State::ADD(PacketType::CONNECT);
                } else {
                    self.state = State::SelectFromQueue;
                }
                proof {
                    d = Draws { roll: roll as int, ..d };
                }
            },
            State::SelectFromQueue => {
                if packet_queue.is_empty() {
                    self.state = State::ADD(PacketType::CONNECT);
                } else {
                    let index = draw_below(rng, packet_queue.len());
                    self.packets = packet_queue.value_at(index).clone();
                    self.state = State::MUTATION;
                    proof {
                        d = Draws { index: index as int, ..d };
                    }
                }
            },
            State::ADD(kind) => {
                add_packet(&mut self.packets, kind);
                self.state = State::ADDING;
            },
            State::ADDING => {
                let roll = draw_below(rng, PERCENT);
                if self.chances.appends_packet(roll) {
                    let kind = PacketType::sample(rng);
                    self.state = State::ADD(kind);
                    proof {
                        d = Draws { kind: kind, ..d };
                    }
                } else {
                    self.state = State::MUTATION;
                }
                proof {
                    d = Draws { roll: roll as int, ..d };
                }
            },
            State::MUTATION => {
                let roll = draw_below(rng, PERCENT);
                if self.chances.sends_now(roll) {
                    self.state = State::SEND;
                } else {
                    let op = Mutations::sample(rng);
                    self.state = State::Mutate(op);
                    proof {
                        d = Draws { op: op, ..d };
                    }
                }
                proof {
                    d = Draws { roll: roll as int, ..d };
                }
            },
            State::Mutate(op) => {
                if self.packets.size() > 0 {
                    mutate(&mut self.packets, rng, op);
                    proof {
                        let choice = choose|choice: Choice| #[trigger]
                            fits(op, old(self)@.packets, choice) && self.packets@ == applied(
                                op,
                                old(self)@.packets,
                                choice,
                            );
                        d = Draws { choice: choice, ..d };
                    }
                }
                self.state = State::MUTATION;
            },
            State::SEND => {
                let sent = self.packets.clone();
                self.previous_packets.push(sent);
                assert(sequences(self.previous_packets@) =~= sequences(old(self).previous_packets@).push(
                    self.packets@,
                ));
                let res = send_packets(&mut self.stream, &self.packets, packet_queue, self.timeout_ms);
                proof {
                    let replies = choose|replies: Seq<Reply>| #[trigger]
                        delivered(
                            old(self).log(),
                            old(packet_queue)@,
                            self.packets@,
                            self.timeout_ms,
                            replies,
                            res,
                            self.log(),
                            packet_queue@,
                        );
                    d = Draws { replies: replies, ..d };
                }
                let roll = draw_below(rng, PERCENT);
                if self.chances.ends_session(roll, res.is_err()) {
                    self.state = State::Sf;
                } else {
                    let op = Mutations::sample(rng);
                    self.state = State::Mutate(op);
                    proof {
                        d = Draws { op: op, ..d };
                    }
                }
                proof {
                    d = Draws { roll: roll as int, ..d };
                }
            },
            State::Sf => {},
        }
        assert(self.log() =~= old(self).log() + wire(old(self)@, old(self).timeout_ms(), d));
        assert(stepped(
            old(self)@,
            mode,
            old(self).chances(),
            old(packet_queue)@,
            old(self).timeout_ms(),
            old(self).log(),
            d,
            self@,
            packet_queue@,
            self.log(),
        ));
    }

    /// Runs the session: steps until the machine stands on `Sf`, and
    /// returns the number of steps taken. The session has ended unless
    /// that number is `usize::MAX`, the most steps one call takes.
    pub fn execute(
        &mut self,
        mode: Mode,
        rng: &mut Xoshiro256PlusPlus,
        packet_queue: &mut PacketQueue,
    ) -> (steps: usize)
        ensures
            exists|ds: Seq<Draws>| #[trigger]
                ran(
                    old(self)@,
                    mode,
                    old(self).chances(),
                    old(packet_queue)@,
                    old(self).timeout_ms(),
                    old(self).log(),
                    ds,
                    final(self)@,
                    final(packet_queue)@,
                    final(self).log(),
                ) && ds.len() == steps,
            steps < usize::MAX ==> final(self)@.state == State::Sf,
            final(self).chances() == old(self).chances(),
            final(self).timeout_ms() == old(self).timeout_ms(),
    {
        let mut steps: usize = 0;
        let ghost mut ds: Seq<Draws> = Seq::empty();
        assert(self.log() =~= old(self).log() + Seq::<Event>::empty());
        while self.state != State::Sf && steps < usize::MAX
            invariant
                ds.len() == steps,
                ran(
                    old(self)@,
                    mode,
                    old(self).chances(),
                    old(packet_queue)@,
                    old(self).timeout_ms(),
                    old(self).log(),
                    ds,
                    self@,
                    packet_queue@,
                    self.log(),
                ),
                self.chances() == old(self).chances(),
                self.timeout_ms() == old(self).timeout_ms(),
            decreases usize::MAX - steps,
        {
            let ghost before = self@;
            let ghost table = packet_queue@;
            let ghost log = self.log();
            self.next(mode, rng, packet_queue);
            proof {
                let d = choose|d: Draws| #[trigger]
                    stepped(
                        before,
                        mode,
                        old(self).chances(),
                        table,
                        old(self).timeout_ms(),
                        log,
                        d,
                        self@,
                        packet_queue@,
                        self.log(),
                    );
                let longer = ds.push(d);
                assert(longer.drop_last() =~= ds);
                assert(longer.last() == d);
                assert(self.log() =~= old(self).log() + run_wire(
                    old(self)@,
                    mode,
                    old(self).chances(),
                    old(packet_queue)@,
                    old(self).timeout_ms(),
                    longer,
                ));
                ds = longer;
            }
            steps += 1;
        }
        steps
    }
}

} // verus!
