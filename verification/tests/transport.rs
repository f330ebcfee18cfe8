use rusty_fume::markov::{ByteStream, ReadOutcome, WriteOutcome};
use rusty_fume::mqtt::{
    generate_connect_packet, generate_disconnect_packet, generate_publish_packet,
    record_response, send_packet, send_packets, write_verdict, SendError, READ_LIMIT,
};
use rusty_fume::packet_queue::PacketQueue;
use rusty_fume::packets::Packets;
use rusty_fume::transport::Transport;
use std::collections::VecDeque;

/// A broker that answers from a script and keeps what it was sent.
struct Scripted {
    writes: VecDeque<WriteOutcome>,
    reads: VecDeque<ReadOutcome>,
    written: Vec<Vec<u8>>,
    limits: Vec<usize>,
    timeouts: Vec<u16>,
}

impl Scripted {
    fn new(writes: Vec<WriteOutcome>, reads: Vec<ReadOutcome>) -> Transport<Scripted> {
        Transport::new(Scripted {
            writes: writes.into(),
            reads: reads.into(),
            written: Vec::new(),
            limits: Vec::new(),
            timeouts: Vec::new(),
        })
    }

    fn answering(reads: Vec<ReadOutcome>) -> Transport<Scripted> {
        Scripted::new(Vec::new(), reads)
    }
}

impl ByteStream for Scripted {
    fn write_all(&mut self, bytes: &[u8], timeout_ms: u16) -> WriteOutcome {
        self.written.push(bytes.to_vec());
        self.timeouts.push(timeout_ms);
        self.writes.pop_front().unwrap_or(WriteOutcome::Written)
    }

    fn read(&mut self, limit: usize, timeout_ms: u16) -> ReadOutcome {
        self.limits.push(limit);
        self.timeouts.push(timeout_ms);
        self.reads.pop_front().unwrap_or(ReadOutcome::TimedOut)
    }
}

fn sequence_of(packets: &[&[u8]]) -> Packets {
    let mut sequence = Packets::new();
    for packet in packets {
        sequence.append(packet);
    }
    sequence
}

fn keys_of(queue: &PacketQueue) -> Vec<Vec<u8>> {
    (0..queue.len()).map(|i| queue.key_at(i).clone()).collect()
}

#[test]
fn connect_is_written_and_connack_recorded() {
    let mut stream = Scripted::answering(vec![ReadOutcome::Received(vec![32, 2, 0, 0])]);
    let mut queue = PacketQueue::new();
    let connect = generate_connect_packet();
    let input = sequence_of(&[&connect]);
    let result = send_packet(&mut stream, &connect, &input, &mut queue, 200);
    assert_eq!(result, Ok(()));
    assert_eq!(
        stream.stream().written,
        vec![vec![
            16, 60, 0, 4, 77, 81, 84, 84, 4, 4, 0, 0, 0, 17, 72, 101, 108, 108, 111, 32, 77, 81,
            84, 84, 32, 66, 114, 111, 107, 101, 114, 0, 5, 116, 111, 112, 105, 99, 0, 22, 1, 2, 3,
            4, 5, 6, 7, 8, 9, 10, 11, 12, 13, 14, 15, 16, 72, 255, 50, 0, 0, 0,
        ]]
    );
    assert_eq!(queue.len(), 1);
    assert_eq!(keys_of(&queue), vec![vec![32, 2, 0, 0]]);
    assert_eq!(queue.get(&[32, 2, 0, 0]), Some(&input));
}

#[test]
fn each_operation_gets_the_timeout_and_the_read_limit() {
    let mut stream = Scripted::answering(vec![ReadOutcome::Received(vec![1])]);
    let mut queue = PacketQueue::new();
    let input = sequence_of(&[&[192, 0]]);
    send_packet(&mut stream, &[192, 0], &input, &mut queue, 350).unwrap();
    assert_eq!(stream.stream().timeouts, vec![350, 350]);
    assert_eq!(stream.stream().limits, vec![1024]);
    assert_eq!(READ_LIMIT, 1024);
}

#[test]
fn a_failed_write_is_a_send_error_and_nothing_is_read() {
    let mut stream = Scripted::new(
        vec![WriteOutcome::Failed],
        vec![ReadOutcome::Received(vec![32, 2, 0, 0])],
    );
    let mut queue = PacketQueue::new();
    let input = sequence_of(&[&[16, 0]]);
    let result = send_packet(&mut stream, &[16, 0], &input, &mut queue, 200);
    assert_eq!(result, Err(SendError::SendErr));
    assert!(stream.stream().limits.is_empty());
    assert!(queue.is_empty());
}

#[test]
fn a_write_that_times_out_is_tolerated() {
    let mut stream = Scripted::new(
        vec![WriteOutcome::TimedOut],
        vec![ReadOutcome::Received(vec![208, 0])],
    );
    let mut queue = PacketQueue::new();
    let input = sequence_of(&[&[192, 0]]);
    let result = send_packet(&mut stream, &[192, 0], &input, &mut queue, 200);
    assert_eq!(result, Ok(()));
    assert_eq!(keys_of(&queue), vec![vec![208, 0]]);
}

#[test]
fn a_read_that_times_out_is_a_timeout_and_records_nothing() {
    let mut stream = Scripted::answering(vec![ReadOutcome::TimedOut]);
    let mut queue = PacketQueue::new();
    queue.observe(&[1], &Packets::new());
    let before = queue.clone();
    let input = sequence_of(&[&[16, 0]]);
    let result = send_packet(&mut stream, &[16, 0], &input, &mut queue, 200);
    assert_eq!(result, Err(SendError::Timeout));
    assert_eq!(queue, before);
}

#[test]
fn a_failed_read_is_a_receive_error_and_records_nothing() {
    let mut stream = Scripted::answering(vec![ReadOutcome::Failed]);
    let mut queue = PacketQueue::new();
    let input = sequence_of(&[&[16, 0]]);
    let result = send_packet(&mut stream, &[16, 0], &input, &mut queue, 200);
    assert_eq!(result, Err(SendError::ReceiveErr));
    assert!(queue.is_empty());
}

#[test]
fn an_empty_response_is_recorded() {
    let mut stream = Scripted::answering(vec![ReadOutcome::Received(Vec::new())]);
    let mut queue = PacketQueue::new();
    let input = sequence_of(&[&[224, 0]]);
    let result = send_packet(&mut stream, &[224, 0], &input, &mut queue, 200);
    assert_eq!(result, Ok(()));
    assert_eq!(keys_of(&queue), vec![Vec::<u8>::new()]);
}

#[test]
fn a_response_is_cut_at_the_read_limit() {
    let long: Vec<u8> = (0..2000u32).map(|i| (i % 251) as u8).collect();
    let mut stream = Scripted::answering(vec![ReadOutcome::Received(long.clone())]);
    let mut queue = PacketQueue::new();
    let input = sequence_of(&[&[16, 0]]);
    send_packet(&mut stream, &[16, 0], &input, &mut queue, 200).unwrap();
    assert_eq!(keys_of(&queue), vec![long[..1024].to_vec()]);
    let exact: Vec<u8> = vec![7; 1024];
    let mut stream = Scripted::answering(vec![ReadOutcome::Received(exact.clone())]);
    send_packet(&mut stream, &[16, 0], &input, &mut queue, 200).unwrap();
    assert!(queue.contains_key(&exact));
}

#[test]
fn a_known_response_keeps_its_first_input() {
    let mut stream = Scripted::answering(vec![
        ReadOutcome::Received(vec![32, 2, 0, 0]),
        ReadOutcome::Received(vec![32, 2, 0, 0]),
    ]);
    let mut queue = PacketQueue::new();
    let first = sequence_of(&[&[16, 0]]);
    let second = sequence_of(&[&[16, 1]]);
    send_packet(&mut stream, &[16, 0], &first, &mut queue, 200).unwrap();
    send_packet(&mut stream, &[16, 1], &second, &mut queue, 200).unwrap();
    assert_eq!(queue.len(), 1);
    assert_eq!(queue.get(&[32, 2, 0, 0]), Some(&first));
}

#[test]
fn write_verdict_fails_on_a_failed_write_only() {
    assert_eq!(write_verdict(WriteOutcome::Written), Ok(()));
    assert_eq!(write_verdict(WriteOutcome::TimedOut), Ok(()));
    assert_eq!(write_verdict(WriteOutcome::Failed), Err(SendError::SendErr));
}

#[test]
fn record_response_observes_received_bytes_only() {
    let input = sequence_of(&[&[1, 2]]);
    let mut queue = PacketQueue::new();
    assert_eq!(
        record_response(ReadOutcome::TimedOut, &input, &mut queue),
        Err(SendError::Timeout)
    );
    assert_eq!(
        record_response(ReadOutcome::Failed, &input, &mut queue),
        Err(SendError::ReceiveErr)
    );
    assert!(queue.is_empty());
    assert_eq!(
        record_response(ReadOutcome::Received(vec![5, 5]), &input, &mut queue),
        Ok(())
    );
    assert_eq!(queue.get(&[5, 5]), Some(&input));
}

#[test]
fn send_packets_sends_every_packet_in_order() {
    let connect = generate_connect_packet();
    let publish = generate_publish_packet();
    let disconnect = generate_disconnect_packet();
    let input = sequence_of(&[&connect, &publish, &disconnect]);
    let mut stream = Scripted::answering(vec![
        ReadOutcome::Received(vec![32, 2, 0, 0]),
        ReadOutcome::Received(vec![]),
        ReadOutcome::Received(vec![9]),
    ]);
    let mut queue = PacketQueue::new();
    let result = send_packets(&mut stream, &input, &mut queue, 200);
    assert_eq!(result, Ok(()));
    assert_eq!(
        stream.stream().written,
        vec![connect.to_vec(), publish.to_vec(), disconnect.to_vec()]
    );
    assert_eq!(keys_of(&queue), vec![vec![], vec![9], vec![32, 2, 0, 0]]);
    for index in 0..3 {
        assert_eq!(queue.value_at(index), &input);
    }
}

#[test]
fn send_packets_stops_at_the_first_error() {
    let input = sequence_of(&[&[1], &[2], &[3], &[4]]);
    let mut stream = Scripted::answering(vec![
        ReadOutcome::Received(vec![10]),
        ReadOutcome::Failed,
        ReadOutcome::Received(vec![30]),
    ]);
    let mut queue = PacketQueue::new();
    let result = send_packets(&mut stream, &input, &mut queue, 200);
    assert_eq!(result, Err(SendError::ReceiveErr));
    assert_eq!(stream.stream().written, vec![vec![1], vec![2]]);
    assert_eq!(keys_of(&queue), vec![vec![10]]);
}

#[test]
fn send_packets_reports_the_error_of_the_failing_packet() {
    let input = sequence_of(&[&[1], &[2]]);
    let mut stream = Scripted::new(
        vec![WriteOutcome::Written, WriteOutcome::Failed],
        vec![ReadOutcome::Received(vec![10])],
    );
    let mut queue = PacketQueue::new();
    assert_eq!(
        send_packets(&mut stream, &input, &mut queue, 200),
        Err(SendError::SendErr)
    );
    let mut stream = Scripted::answering(vec![ReadOutcome::TimedOut]);
    assert_eq!(
        send_packets(&mut stream, &input, &mut queue, 200),
        Err(SendError::Timeout)
    );
    assert_eq!(queue.len(), 1);
}

#[test]
fn send_packets_skips_empty_slots() {
    let mut input = sequence_of(&[&[1], &[2], &[3]]);
    input.nth_mut(1).clear();
    let mut stream = Scripted::answering(vec![
        ReadOutcome::Received(vec![10]),
        ReadOutcome::Received(vec![30]),
    ]);
    let mut queue = PacketQueue::new();
    assert_eq!(send_packets(&mut stream, &input, &mut queue, 200), Ok(()));
    assert_eq!(stream.stream().written, vec![vec![1], vec![3]]);
    assert_eq!(queue.len(), 2);
}

#[test]
fn send_packets_of_nothing_sends_nothing() {
    let mut stream = Scripted::answering(Vec::new());
    let mut queue = PacketQueue::new();
    assert_eq!(
        send_packets(&mut stream, &Packets::new(), &mut queue, 200),
        Ok(())
    );
    assert!(stream.stream().written.is_empty());
    assert!(stream.stream().limits.is_empty());
    assert!(queue.is_empty());
}

#[test]
fn send_packets_sends_a_full_sequence() {
    let mut input = Packets::new();
    for byte in 0..10u8 {
        input.append(&[byte]);
    }
    let reads = (0..10u8).map(|byte| ReadOutcome::Received(vec![byte % 4])).collect();
    let mut stream = Scripted::answering(reads);
    let mut queue = PacketQueue::new();
    assert_eq!(send_packets(&mut stream, &input, &mut queue, 200), Ok(()));
    assert_eq!(stream.stream().written.len(), 10);
    assert_eq!(queue.len(), 4);
}

#[test]
fn a_transport_hands_the_stream_back() {
    let mut stream = Scripted::answering(vec![ReadOutcome::Received(vec![1, 2, 3])]);
    assert_eq!(stream.write_all(&[9, 9], 50), WriteOutcome::Written);
    assert_eq!(stream.read(16, 60), ReadOutcome::Received(vec![1, 2, 3]));
    assert_eq!(stream.read(16, 70), ReadOutcome::TimedOut);
    assert_eq!(stream.stream().written, vec![vec![9, 9]]);
    let inner = stream.into_stream();
    assert_eq!(inner.limits, vec![16, 16]);
    assert_eq!(inner.timeouts, vec![50, 60, 70]);
}

#[test]
fn after_a_failing_packet_nothing_more_is_written_or_read() {
    let input = sequence_of(&[&[192, 0], &[224, 0], &[1], &[2]]);
    let mut stream = Scripted::answering(vec![
        ReadOutcome::Received(vec![208, 0]),
        ReadOutcome::Failed,
        ReadOutcome::Received(vec![7]),
    ]);
    let mut queue = PacketQueue::new();
    let result = send_packets(&mut stream, &input, &mut queue, 200);
    assert_eq!(result, Err(SendError::ReceiveErr));
    assert_eq!(stream.stream().written, vec![vec![192, 0], vec![224, 0]]);
    assert_eq!(stream.stream().limits, vec![1024, 1024]);
    assert_eq!(queue.len(), 1);
    assert_eq!(queue.get(&[208, 0]), Some(&input));
}
