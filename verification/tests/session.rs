use rand::SeedableRng;
use rand_xoshiro::Xoshiro256PlusPlus;
use rusty_fume::markov::mutations::InjectType;
use rusty_fume::markov::{
    add_packet, ByteStream, Chances, Mode, Mutations, PacketType, ReadOutcome, State,
    StateMachine, WriteOutcome, DEFAULT_TIMEOUT_MS, MUT_AFTER_SEND, PACKET_APPEND_CHANCE,
    PERCENT, SEL_FROM_QUEUE, SEND_CHANCE,
};
use rusty_fume::mqtt::{
    generate_connect_packet, generate_disconnect_packet, generate_pingreq_packet,
    generate_publish_packet, generate_subscribe_packet, generate_unsubscribe_packet,
};
use rusty_fume::packet_queue::PacketQueue;
use rusty_fume::packets::Packets;

/// A broker that gives the same answer to every read and counts what it was
/// sent.
struct Steady {
    answer: Option<Vec<u8>>,
    writes: usize,
    timeouts: Vec<u16>,
}

impl Steady {
    fn silent() -> Self {
        Steady { answer: None, writes: 0, timeouts: Vec::new() }
    }

    fn answering(answer: &[u8]) -> Self {
        Steady { answer: Some(answer.to_vec()), writes: 0, timeouts: Vec::new() }
    }
}

impl ByteStream for Steady {
    fn write_all(&mut self, _bytes: &[u8], timeout_ms: u16) -> WriteOutcome {
        self.writes += 1;
        self.timeouts.push(timeout_ms);
        WriteOutcome::Written
    }

    fn read(&mut self, _limit: usize, _timeout_ms: u16) -> ReadOutcome {
        match &self.answer {
            Some(answer) => ReadOutcome::Received(answer.clone()),
            None => ReadOutcome::TimedOut,
        }
    }
}

/// A broker whose answer is the first byte of what it was last sent, and the
/// number of bytes modulo five.
struct Echo {
    last: Vec<u8>,
}

impl ByteStream for Echo {
    fn write_all(&mut self, bytes: &[u8], _timeout_ms: u16) -> WriteOutcome {
        self.last = bytes.to_vec();
        WriteOutcome::Written
    }

    fn read(&mut self, _limit: usize, _timeout_ms: u16) -> ReadOutcome {
        ReadOutcome::Received(vec![self.last[0], (self.last.len() % 5) as u8])
    }
}

fn sequence_of(packets: &[&[u8]]) -> Packets {
    let mut sequence = Packets::new();
    for packet in packets {
        sequence.append(packet);
    }
    sequence
}

#[test]
fn the_default_chances() {
    assert_eq!(SEL_FROM_QUEUE, 70);
    assert_eq!(PACKET_APPEND_CHANCE, 20);
    assert_eq!(SEND_CHANCE, 20);
    assert_eq!(MUT_AFTER_SEND, 70);
    assert_eq!(PERCENT, 100);
    assert_eq!(DEFAULT_TIMEOUT_MS, 200);
    assert_eq!(
        Chances::default(),
        Chances { sel_from_queue: 70, packet_append: 20, send: 20, mut_after_send: 70 }
    );
}

#[test]
fn the_start_depends_on_mode_roll_and_fullness() {
    let chances = Chances::default();
    assert!(chances.starts_with_connect(Mode::MutationGuided, 0, false));
    assert!(chances.starts_with_connect(Mode::MutationGuided, 69, false));
    assert!(!chances.starts_with_connect(Mode::MutationGuided, 70, false));
    assert!(!chances.starts_with_connect(Mode::MutationGuided, 99, false));
    assert!(!chances.starts_with_connect(Mode::MutationGuided, 0, true));
    assert!(chances.starts_with_connect(Mode::GenerationGuided, 99, false));
    assert!(chances.starts_with_connect(Mode::GenerationGuided, 99, true));
}

#[test]
fn the_rolls_decide_as_the_chances_say() {
    let chances = Chances::default();
    assert!(chances.appends_packet(19));
    assert!(!chances.appends_packet(20));
    assert!(chances.sends_now(19));
    assert!(!chances.sends_now(20));
    assert!(!chances.ends_session(69, false));
    assert!(chances.ends_session(70, false));
    assert!(chances.ends_session(0, true));
    let never = Chances { sel_from_queue: 0, packet_append: 0, send: 0, mut_after_send: 0 };
    assert!(!never.appends_packet(0));
    assert!(!never.sends_now(0));
    assert!(never.ends_session(0, false));
    let always = Chances { sel_from_queue: 100, packet_append: 100, send: 100, mut_after_send: 100 };
    assert!(always.appends_packet(99));
    assert!(always.sends_now(99));
    assert!(!always.ends_session(99, false));
}

#[test]
fn draws_stand_for_modes_kinds_and_operators() {
    for draw in 0..5 {
        assert_eq!(Mode::from_draw(draw), Mode::MutationGuided);
    }
    for draw in 5..10 {
        assert_eq!(Mode::from_draw(draw), Mode::GenerationGuided);
    }
    assert_eq!(PacketType::from_draw(0), PacketType::CONNECT);
    assert_eq!(PacketType::from_draw(1), PacketType::PUBLISH);
    assert_eq!(PacketType::from_draw(2), PacketType::SUBSCRIBE);
    assert_eq!(PacketType::from_draw(3), PacketType::UNSUBSCRIBE);
    assert_eq!(PacketType::from_draw(4), PacketType::PINGREQ);
    assert_eq!(PacketType::from_draw(5), PacketType::DISCONNECT);
    assert_eq!(
        Mutations::from_draw(0, InjectType::BOF),
        Mutations::Inject(InjectType::BOF)
    );
    assert_eq!(Mutations::from_draw(1, InjectType::BOF), Mutations::Delete);
    assert_eq!(Mutations::from_draw(2, InjectType::Single), Mutations::Swap);
}

#[test]
fn samples_cover_what_can_be_drawn() {
    let mut rng = Xoshiro256PlusPlus::seed_from_u64(31);
    let mut modes = [0usize; 2];
    let mut kinds = Vec::new();
    let mut ops = Vec::new();
    for _ in 0..600 {
        match Mode::sample(&mut rng) {
            Mode::MutationGuided => modes[0] += 1,
            Mode::GenerationGuided => modes[1] += 1,
        }
        let kind = PacketType::sample(&mut rng);
        if !kinds.contains(&kind) {
            kinds.push(kind);
        }
        let op = Mutations::sample(&mut rng);
        if !ops.contains(&op) {
            ops.push(op);
        }
    }
    assert!(modes[0] > 200 && modes[1] > 200);
    assert_eq!(kinds.len(), 6);
    for kind in [
        PacketType::CONNECT,
        PacketType::PUBLISH,
        PacketType::SUBSCRIBE,
        PacketType::UNSUBSCRIBE,
        PacketType::PINGREQ,
        PacketType::DISCONNECT,
    ] {
        assert!(kinds.contains(&kind));
    }
    assert_eq!(ops.len(), 4);
}

#[test]
fn mode_names() {
    assert_eq!(Mode::MutationGuided.to_string(), "Mutation Guided");
    assert_eq!(Mode::GenerationGuided.to_string(), "Generation Guided");
}

#[test]
fn add_packet_appends_the_template() {
    let mut packets = Packets::new();
    add_packet(&mut packets, PacketType::CONNECT);
    add_packet(&mut packets, PacketType::PUBLISH);
    add_packet(&mut packets, PacketType::SUBSCRIBE);
    add_packet(&mut packets, PacketType::UNSUBSCRIBE);
    add_packet(&mut packets, PacketType::PINGREQ);
    add_packet(&mut packets, PacketType::DISCONNECT);
    assert_eq!(
        packets,
        sequence_of(&[
            &generate_connect_packet(),
            &generate_publish_packet(),
            &generate_subscribe_packet(),
            &generate_unsubscribe_packet(),
            &generate_pingreq_packet(),
            &generate_disconnect_packet(),
        ])
    );
    let before = packets.clone();
    add_packet(&mut packets, PacketType::CONNACK);
    add_packet(&mut packets, PacketType::AUTH);
    assert_eq!(packets, before);
}

#[test]
fn add_to_a_full_sequence_changes_nothing() {
    let mut packets = Packets::new();
    for _ in 0..10 {
        add_packet(&mut packets, PacketType::PINGREQ);
    }
    assert!(packets.is_full());
    let before = packets.clone();
    add_packet(&mut packets, PacketType::CONNECT);
    assert_eq!(packets, before);
}

#[test]
fn a_new_machine_stands_on_s0() {
    let machine = StateMachine::new(Steady::silent());
    assert_eq!(machine.state(), State::S0);
    assert_eq!(State::default(), State::S0);
    assert!(!machine.is_final());
    assert_eq!(machine.packets(), &Packets::new());
    assert!(machine.previous_packets.is_empty());
}

#[test]
fn generation_starts_with_connect() {
    for seed in 0..20u64 {
        let mut rng = Xoshiro256PlusPlus::seed_from_u64(seed);
        let mut queue = PacketQueue::new();
        queue.observe(&[1], &sequence_of(&[&[9, 9]]));
        let mut machine = StateMachine::new(Steady::silent());
        machine.next(Mode::GenerationGuided, &mut rng, &mut queue);
        assert_eq!(machine.state(), State::ADD(PacketType::CONNECT));
        machine.next(Mode::GenerationGuided, &mut rng, &mut queue);
        assert_eq!(machine.state(), State::ADDING);
        assert_eq!(
            machine.packets(),
            &sequence_of(&[&generate_connect_packet()])
        );
        machine.next(Mode::GenerationGuided, &mut rng, &mut queue);
        assert!(matches!(machine.state(), State::MUTATION | State::ADD(_)));
    }
}

#[test]
fn select_from_an_empty_table_goes_on_to_connect() {
    let chances = Chances { sel_from_queue: 0, ..Chances::default() };
    let mut rng = Xoshiro256PlusPlus::seed_from_u64(32);
    let mut queue = PacketQueue::new();
    let mut machine = StateMachine::new(Steady::silent()).with_chances(chances);
    machine.next(Mode::MutationGuided, &mut rng, &mut queue);
    assert_eq!(machine.state(), State::SelectFromQueue);
    machine.next(Mode::MutationGuided, &mut rng, &mut queue);
    assert_eq!(machine.state(), State::ADD(PacketType::CONNECT));
}

#[test]
fn select_takes_a_sequence_of_the_table() {
    let chances = Chances { sel_from_queue: 0, ..Chances::default() };
    let mut queue = PacketQueue::new();
    let values = [sequence_of(&[&[1, 1]]), sequence_of(&[&[2, 2], &[3]])];
    queue.observe(&[10], &values[0]);
    queue.observe(&[20], &values[1]);
    let mut taken = [false; 2];
    for seed in 0..40u64 {
        let mut rng = Xoshiro256PlusPlus::seed_from_u64(seed);
        let mut machine = StateMachine::new(Steady::silent()).with_chances(chances);
        machine.next(Mode::MutationGuided, &mut rng, &mut queue);
        machine.next(Mode::MutationGuided, &mut rng, &mut queue);
        assert_eq!(machine.state(), State::MUTATION);
        let index = values.iter().position(|v| v == machine.packets()).unwrap();
        taken[index] = true;
    }
    assert_eq!(taken, [true, true]);
    assert_eq!(queue.len(), 2);
}

#[test]
fn a_certain_start_from_templates_never_selects() {
    let chances = Chances { sel_from_queue: 100, ..Chances::default() };
    for seed in 0..40u64 {
        let mut rng = Xoshiro256PlusPlus::seed_from_u64(seed);
        let mut queue = PacketQueue::new();
        let mut machine = StateMachine::new(Steady::silent()).with_chances(chances);
        machine.next(Mode::MutationGuided, &mut rng, &mut queue);
        assert_eq!(machine.state(), State::ADD(PacketType::CONNECT));
    }
}

#[test]
fn a_step_from_sf_changes_nothing() {
    let mut rng = Xoshiro256PlusPlus::seed_from_u64(33);
    let mut queue = PacketQueue::new();
    let mut machine = StateMachine::new(Steady::silent());
    machine.execute(Mode::GenerationGuided, &mut rng, &mut queue);
    assert!(machine.is_final());
    let packets = machine.packets().clone();
    let sent = machine.previous_packets.len();
    machine.next(Mode::GenerationGuided, &mut rng, &mut queue);
    assert_eq!(machine.state(), State::Sf);
    assert_eq!(machine.packets(), &packets);
    assert_eq!(machine.previous_packets.len(), sent);
    assert_eq!(machine.execute(Mode::GenerationGuided, &mut rng, &mut queue), 0);
}

#[test]
fn a_session_against_a_silent_broker_ends_after_one_send() {
    let mut rng = Xoshiro256PlusPlus::from_seed([5; 32]);
    let mut queue = PacketQueue::new();
    let mut machine = StateMachine::new(Steady::silent());
    let steps = machine.execute(Mode::GenerationGuided, &mut rng, &mut queue);
    assert!(steps >= 5);
    assert_eq!(machine.state(), State::Sf);
    assert_eq!(machine.previous_packets.len(), 1);
    assert_eq!(&machine.previous_packets[0], machine.packets());
    assert!(queue.is_empty());
}

#[test]
fn a_silent_broker_leaves_a_filled_table_alone() {
    for seed in 0..30u64 {
        let mut rng = Xoshiro256PlusPlus::seed_from_u64(seed);
        let mut queue = PacketQueue::new();
        queue.observe(&[32, 2, 0, 0], &sequence_of(&[&generate_connect_packet()]));
        let before = queue.clone();
        let mut machine = StateMachine::new(Steady::silent());
        machine.execute(Mode::MutationGuided, &mut rng, &mut queue);
        assert!(machine.is_final());
        assert_eq!(queue, before);
    }
}

#[test]
fn every_session_ends() {
    for seed in 0..200u64 {
        let mut rng = Xoshiro256PlusPlus::seed_from_u64(seed);
        let mut queue = PacketQueue::new();
        let mode = if seed % 2 == 0 { Mode::MutationGuided } else { Mode::GenerationGuided };
        let mut machine = StateMachine::new(Steady::answering(&[32, 2, 0, 0]));
        let steps = machine.execute(mode, &mut rng, &mut queue);
        assert!(steps < usize::MAX);
        assert!(machine.is_final());
        assert!(!machine.previous_packets.is_empty());
        assert!(machine.packets().size() <= 10);
        for sent in &machine.previous_packets {
            assert!(sent.size() <= 10);
        }
    }
}

#[test]
fn a_session_records_what_the_broker_answers() {
    let mut rng = Xoshiro256PlusPlus::seed_from_u64(34);
    let mut queue = PacketQueue::new();
    let mut machine = StateMachine::new(Steady::answering(&[32, 2, 0, 0]));
    machine.execute(Mode::GenerationGuided, &mut rng, &mut queue);
    assert_eq!(queue.len(), 1);
    assert_eq!(queue.key_at(0), &vec![32, 2, 0, 0]);
    assert_eq!(queue.value_at(0), &machine.previous_packets[0]);
}

#[test]
fn the_machine_sends_with_its_timeout() {
    let chances = Chances { send: 100, mut_after_send: 0, ..Chances::default() };
    let mut rng = Xoshiro256PlusPlus::seed_from_u64(35);
    let mut queue = PacketQueue::new();
    let mut machine = StateMachine::new(Echo { last: Vec::new() })
        .with_timeout(750)
        .with_chances(chances);
    machine.execute(Mode::GenerationGuided, &mut rng, &mut queue);
    assert!(machine.is_final());
    assert_eq!(machine.previous_packets.len(), 1);
    assert!(!queue.is_empty());
}

#[test]
fn the_same_seed_and_answers_give_the_same_session() {
    for seed in [0u8, 5, 42, 200] {
        let mut sent = Vec::new();
        let mut tables = Vec::new();
        for _ in 0..2 {
            let mut rng = Xoshiro256PlusPlus::from_seed([seed; 32]);
            let mut queue = PacketQueue::new();
            let mut previous = Vec::new();
            for _ in 0..20 {
                let mode = Mode::sample(&mut rng);
                let mut machine = StateMachine::new(Echo { last: Vec::new() });
                machine.execute(mode, &mut rng, &mut queue);
                previous.push(machine.into_previous_packets());
            }
            sent.push(previous);
            tables.push(queue);
        }
        assert_eq!(sent[0], sent[1]);
        assert_eq!(tables[0], tables[1]);
    }
}

#[test]
fn different_seeds_give_different_sessions() {
    let mut runs = Vec::new();
    for seed in [1u64, 2] {
        let mut rng = Xoshiro256PlusPlus::seed_from_u64(seed);
        let mut queue = PacketQueue::new();
        let mut previous = Vec::new();
        for _ in 0..20 {
            let mut machine = StateMachine::new(Echo { last: Vec::new() });
            machine.execute(Mode::GenerationGuided, &mut rng, &mut queue);
            previous.push(machine.into_previous_packets());
        }
        runs.push(previous);
    }
    assert_ne!(runs[0], runs[1]);
}

#[test]
fn a_response_is_recorded_only_if_it_is_new() {
    let stored = sequence_of(&[&generate_connect_packet(), &generate_pingreq_packet()]);
    for response in [vec![32u8, 2, 0, 0], vec![99u8]] {
        let mut rng = Xoshiro256PlusPlus::seed_from_u64(42);
        let mut queue = PacketQueue::new();
        queue.observe(&[32, 2, 0, 0], &stored);
        let chances = Chances { sel_from_queue: 0, send: 0, ..Chances::default() };
        let mut machine =
            StateMachine::new(Steady::answering(&response)).with_chances(chances);
        machine.next(Mode::MutationGuided, &mut rng, &mut queue);
        assert_eq!(machine.state(), State::SelectFromQueue);
        machine.next(Mode::MutationGuided, &mut rng, &mut queue);
        assert_eq!(machine.state(), State::MUTATION);
        assert_eq!(machine.packets(), &stored);
        for _ in 0..3 {
            machine.next(Mode::MutationGuided, &mut rng, &mut queue);
            assert!(matches!(machine.state(), State::Mutate(_)));
            machine.next(Mode::MutationGuided, &mut rng, &mut queue);
            assert_eq!(machine.state(), State::MUTATION);
        }
        let mutated = machine.packets().clone();
        assert_ne!(mutated, stored);
        let mut machine = machine.with_chances(Chances { send: 100, ..chances });
        machine.next(Mode::MutationGuided, &mut rng, &mut queue);
        assert_eq!(machine.state(), State::SEND);
        machine.next(Mode::MutationGuided, &mut rng, &mut queue);
        assert_eq!(machine.previous_packets, vec![mutated.clone()]);
        assert_eq!(queue.get(&[32, 2, 0, 0]), Some(&stored));
        if response == vec![32, 2, 0, 0] {
            assert_eq!(queue.len(), 1);
        } else {
            assert_eq!(queue.len(), 2);
            assert_eq!(queue.get(&response), Some(&mutated));
        }
    }
}

#[test]
fn a_mutation_of_no_packets_is_skipped() {
    let chances = Chances { sel_from_queue: 0, send: 0, ..Chances::default() };
    let mut rng = Xoshiro256PlusPlus::seed_from_u64(36);
    let mut queue = PacketQueue::new();
    queue.observe(&[1], &Packets::new());
    let mut machine = StateMachine::new(Steady::silent()).with_chances(chances);
    machine.next(Mode::MutationGuided, &mut rng, &mut queue);
    machine.next(Mode::MutationGuided, &mut rng, &mut queue);
    assert_eq!(machine.state(), State::MUTATION);
    assert_eq!(machine.packets().size(), 0);
    for _ in 0..10 {
        machine.next(Mode::MutationGuided, &mut rng, &mut queue);
        assert_eq!(machine.packets(), &Packets::new());
    }
}

#[test]
fn stepping_apart_and_merging_gives_the_same_session() {
    for seed in 0..40u64 {
        let stored = sequence_of(&[&generate_connect_packet(), &generate_publish_packet()]);
        let mut together = PacketQueue::new();
        together.observe(&[16, 2], &stored);
        let mut shared = together.clone();
        let mode = if seed % 2 == 0 { Mode::MutationGuided } else { Mode::GenerationGuided };

        let mut rng = Xoshiro256PlusPlus::seed_from_u64(seed);
        let mut machine = StateMachine::new(Echo { last: Vec::new() });
        machine.execute(mode, &mut rng, &mut together);

        let mut rng = Xoshiro256PlusPlus::seed_from_u64(seed);
        let mut apart = StateMachine::new(Echo { last: Vec::new() });
        while !apart.is_final() {
            if apart.state() == State::SelectFromQueue {
                apart.next(mode, &mut rng, &mut shared);
            } else {
                let mut seen = PacketQueue::new();
                apart.next(mode, &mut rng, &mut seen);
                shared.merge(&seen);
            }
        }
        assert_eq!(apart.previous_packets, machine.previous_packets);
        assert_eq!(apart.packets(), machine.packets());
        assert_eq!(shared, together);
    }
}
