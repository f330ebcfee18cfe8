//! The packet templates and the transport adapter.
//!
//! The adapter sends the packets of a sequence over a [`Transport`], one
//! write and one read per packet, and records each response in the coverage
//! table. A read that yields nothing, be it by time-out or by error, ends
//! the send and leaves the table alone. What is asked of the stream is
//! stated over the transport's log.

use crate::markov::{ByteStream, ReadOutcome, WriteOutcome};
use crate::packet_queue::{observed, observed_all, Entries, PacketQueue};
use crate::packets::{count_nonempty, lemma_count_prefix, Packets, MAX_PACKETS};
use crate::transport::{Event, Transport};
use vstd::prelude::*;

verus! {

/// The most bytes of one response that are read and recorded.
pub const READ_LIMIT: usize = 1024;

/// The bytes of the CONNECT packet.
pub open spec fn connect_packet() -> Seq<u8> {
    seq![
        16u8, 60, 0, 4, 77, 81, 84, 84, 4, 4, 0, 0, 0, 17, 72, 101, 108, 108, 111, 32, 77, 81, 84,
        84, 32, 66, 114, 111, 107, 101, 114, 0, 5, 116, 111, 112, 105, 99, 0, 22, 1, 2, 3, 4, 5, 6,
        7, 8, 9, 10, 11, 12, 13, 14, 15, 16, 72, 255, 50, 0, 0, 0,
    ]
}

/// The bytes of the PUBLISH packet.
pub open spec fn publish_packet() -> Seq<u8> {
    seq![
        49u8, 25, 0, 5, 116, 111, 112, 105, 99, 1, 2, 3, 4, 5, 6, 7, 8, 9, 10, 11, 12, 72, 255, 50,
        0, 0, 0,
    ]
}

/// The bytes of the SUBSCRIBE packet.
pub open spec fn subscribe_packet() -> Seq<u8> {
    seq![130u8, 10, 0, 100, 0, 5, 116, 111, 112, 105, 99, 0]
}

/// The bytes of the UNSUBSCRIBE packet.
pub open spec fn unsubscribe_packet() -> Seq<u8> {
    seq![162u8, 9, 0, 10, 0, 5, 116, 111, 112, 105, 99]
}

/// The bytes of the DISCONNECT packet.
pub open spec fn disconnect_packet() -> Seq<u8> {
    seq![224u8, 0]
}

/// The bytes of the PINGREQ packet.
pub open spec fn pingreq_packet() -> Seq<u8> {
    seq![192u8, 0]
}

/// The CONNECT packet: protocol level 4, client identifier
/// "Hello MQTT Broker", and a will on the topic "topic".
pub fn generate_connect_packet() -> (r: [u8; 62])
    ensures
        r@ == connect_packet(),
{
    let r = [
        16, 60, 0, 4, 77, 81, 84, 84, 4, 4, 0, 0, 0, 17, 72, 101, 108, 108, 111, 32, 77, 81, 84,
        84, 32, 66, 114, 111, 107, 101, 114, 0, 5, 116, 111, 112, 105, 99, 0, 22, 1, 2, 3, 4, 5, 6,
        7, 8, 9, 10, 11, 12, 13, 14, 15, 16, 72, 255, 50, 0, 0, 0,
    ];
    assert(r@ =~= connect_packet());
    r
}

/// The PUBLISH packet: retained, at most once, on the topic "topic".
pub fn generate_publish_packet() -> (r: [u8; 27])
    ensures
        r@ == publish_packet(),
{
    let r = [
        49, 25, 0, 5, 116, 111, 112, 105, 99, 1, 2, 3, 4, 5, 6, 7, 8, 9, 10, 11, 12, 72, 255, 50,
        0, 0, 0,
    ];
    assert(r@ =~= publish_packet());
    r
}

/// The SUBSCRIBE packet: packet identifier 100, the topic filter "topic".
pub fn generate_subscribe_packet() -> (r: [u8; 12])
    ensures
        r@ == subscribe_packet(),
{
    let r = [130, 10, 0, 100, 0, 5, 116, 111, 112, 105, 99, 0];
    assert(r@ =~= subscribe_packet());
    r
}

/// The UNSUBSCRIBE packet: packet identifier 10, the topic filter "topic".
pub fn generate_unsubscribe_packet() -> (r: [u8; 11])
    ensures
        r@ == unsubscribe_packet(),
{
    let r = [162, 9, 0, 10, 0, 5, 116, 111, 112, 105, 99];
    assert(r@ =~= unsubscribe_packet());
    r
}

/// The DISCONNECT packet.
pub fn generate_disconnect_packet() -> (r: [u8; 2])
    ensures
        r@ == disconnect_packet(),
{
    let r = [224, 0];
    assert(r@ =~= disconnect_packet());
    r
}

/// The PINGREQ packet.
pub fn generate_pingreq_packet() -> (r: [u8; 2])
    ensures
        r@ == pingreq_packet(),
{
    let r = [192, 0];
    assert(r@ =~= pingreq_packet());
    r
}

/// Why a send ended early.
#[derive(Debug, Clone, Copy, PartialEq, Eq, Hash, Structural)]
pub enum SendError {
    /// The broker did not answer in time.
    Timeout,
    /// Reading the answer failed: the connection is gone.
    ReceiveErr,
    /// Writing the packet failed: an earlier packet may have brought the
    /// broker down.
    SendErr,
}

/// What a write means for the send: only a failed write ends it. A write
/// that timed out is taken as slow, not as lost.
pub fn write_verdict(outcome: WriteOutcome) -> (r: Result<(), SendError>)
    ensures
        r == match outcome {
            WriteOutcome::Written => Ok::<(), SendError>(()),
            WriteOutcome::TimedOut => Ok::<(), SendError>(()),
            WriteOutcome::Failed => Err::<(), SendError>(SendError::SendErr),
        },
{
    match outcome {
        WriteOutcome::Written => Ok(()),
        WriteOutcome::TimedOut => Ok(()),
        WriteOutcome::Failed => Err(SendError::SendErr),
    }
}

/// The part of `bytes` that counts as the response: its first
/// [`READ_LIMIT`] bytes.
pub open spec fn response_of(bytes: Seq<u8>) -> Seq<u8> {
    if bytes.len() <= READ_LIMIT {
        bytes
    } else {
        bytes.take(READ_LIMIT as int)
    }
}

/// What a read yields: the response, or the error that ends the send.
pub open spec fn read_verdict(outcome: ReadOutcome) -> Result<Seq<u8>, SendError> {
    match outcome {
        ReadOutcome::Received(bytes) => Ok(response_of(bytes@)),
        ReadOutcome::TimedOut => Err(SendError::Timeout),
        ReadOutcome::Failed => Err(SendError::ReceiveErr),
    }
}

/// Takes what a read yielded after `input` was written. Bytes that were
/// received are recorded in the table as the response to `input`; a read
/// that timed out or failed is reported and leaves the table as it is.
pub fn record_response(outcome: ReadOutcome, input: &Packets, packet_queue: &mut PacketQueue) -> (r:
    Result<(), SendError>)
    ensures
        match read_verdict(outcome) {
            Ok(response) => r is Ok && final(packet_queue)@ == observed(
                old(packet_queue)@,
                response,
                input@,
            ),
            Err(e) => r == Err::<(), SendError>(e) && final(packet_queue)@ == old(packet_queue)@,
        },
{
    match outcome {
        ReadOutcome::Received(bytes) => {
            let received = bytes.as_slice();
            if received.len() <= READ_LIMIT {
                packet_queue.observe(received, input);
            } else {
                let response = vstd::slice::slice_subrange(received, 0, READ_LIMIT);
                assert(response@ =~= bytes@.take(READ_LIMIT as int));
                packet_queue.observe(response, input);
            }
            Ok(())
        },
        ReadOutcome::TimedOut => Err(SendError::Timeout),
        ReadOutcome::Failed => Err(SendError::ReceiveErr),
    }
}

/// What the stream supplied for one packet: what the write came to, and
/// what the read came to. After a failed write no read is made, and `read`
/// stands for nothing.
pub struct Reply {
    /// The outcome of the write.
    pub written: WriteOutcome,
    /// The outcome of the read.
    pub read: ReadOutcome,
}

/// What a reply means for the send: the response to record, or the error
/// that ends the send.
pub open spec fn answer_of(reply: Reply) -> Result<Seq<u8>, SendError> {
    if reply.written == WriteOutcome::Failed {
        Err(SendError::SendErr)
    } else {
        read_verdict(reply.read)
    }
}

/// The operations that sending `packet` asks of the stream, given the
/// reply: one write of the whole packet, and, unless the write failed, one
/// read of at most [`READ_LIMIT`] bytes.
pub open spec fn exchange(packet: Seq<u8>, timeout_ms: u16, reply: Reply) -> Seq<Event> {
    if reply.written == WriteOutcome::Failed {
        seq![Event::Write { bytes: packet, timeout_ms, written: reply.written }]
    } else {
        seq![
            Event::Write { bytes: packet, timeout_ms, written: reply.written },
            Event::Read { limit: READ_LIMIT, timeout_ms, read: reply.read },
        ]
    }
}

/// How one packet fared under `reply`: the stream was asked for the
/// exchange and nothing else; the table took the response, or the send
/// failed with the reply's error and the table stayed.
pub open spec fn exchanged(
    log: Seq<Event>,
    table: Entries,
    packet: Seq<u8>,
    input: Seq<Seq<u8>>,
    timeout_ms: u16,
    reply: Reply,
    result: Result<(), SendError>,
    next_log: Seq<Event>,
    next_table: Entries,
) -> bool {
    &&& next_log == log + exchange(packet, timeout_ms, reply)
    &&& match answer_of(reply) {
        Ok(response) => result is Ok && next_table == observed(table, response, input),
        Err(e) => result == Err::<(), SendError>(e) && next_table == table,
    }
}

/// Sends one packet and records the response.
///
/// The packet is written in one write bounded by `timeout_ms`; a write that
/// fails ends the send with `SendErr`, one that times out does not. Then
/// one response of at most [`READ_LIMIT`] bytes is read, bounded by
/// `timeout_ms`, and recorded as drawn by `packets`. A read that times out
/// gives `Timeout`, one that fails `ReceiveErr`; the table changes on a
/// successful read only.
pub fn send_packet<B: ByteStream>(
    stream: &mut Transport<B>,
    packet: &[u8],
    packets: &Packets,
    packet_queue: &mut PacketQueue,
    timeout_ms: u16,
) -> (r: Result<(), SendError>)
    ensures
        exists|reply: Reply| #[trigger]
            exchanged(
                old(stream).log(),
                old(packet_queue)@,
                packet@,
                packets@,
                timeout_ms,
                reply,
                r,
                final(stream).log(),
                final(packet_queue)@,
            ),
{
    let written = stream.write_all(packet, timeout_ms);
    match write_verdict(written) {
        Ok(()) => {},
        Err(e) => {
            proof {
                let reply = Reply { written, read: ReadOutcome::Failed };
                assert(stream.log() =~= old(stream).log() + exchange(packet@, timeout_ms, reply));
                assert(exchanged(
                    old(stream).log(),
                    old(packet_queue)@,
                    packet@,
                    packets@,
                    timeout_ms,
                    reply,
                    Err::<(), SendError>(e),
                    stream.log(),
                    packet_queue@,
                ));
            }
            return Err(e);
        },
    }
    let read = stream.read(READ_LIMIT, timeout_ms);
    let ghost reply = Reply { written, read };
    let r = record_response(read, packets, packet_queue);
    proof {
        assert(stream.log() =~= old(stream).log() + exchange(packet@, timeout_ms, reply));
        assert(exchanged(
            old(stream).log(),
            old(packet_queue)@,
            packet@,
            packets@,
            timeout_ms,
            reply,
            r,
            stream.log(),
            packet_queue@,
        ));
    }
    r
}

/// The packets of `slots`: the non-empty buffers, in slot order.
pub open spec fn packets_of(slots: Seq<Seq<u8>>) -> Seq<Seq<u8>>
    decreases slots.len(),
{
    if slots.len() == 0 {
        Seq::empty()
    } else if slots.last().len() > 0 {
        packets_of(slots.drop_last()).push(slots.last())
    } else {
        packets_of(slots.drop_last())
    }
}

/// The operations that sending `packets` asks of the stream, given the
/// replies: the exchange of the first packet under the first reply, then
/// that of the second under the second, and so on for as many packets as
/// there are replies.
pub open spec fn transcript(packets: Seq<Seq<u8>>, timeout_ms: u16, replies: Seq<Reply>) -> Seq<
    Event,
>
    decreases replies.len(),
{
    if replies.len() == 0 {
        Seq::empty()
    } else {
        transcript(packets, timeout_ms, replies.drop_last()) + exchange(
            packets[replies.len() - 1],
            timeout_ms,
            replies.last(),
        )
    }
}

/// The responses among the replies, in order.
pub open spec fn responses_of(replies: Seq<Reply>) -> Seq<Seq<u8>>
    decreases replies.len(),
{
    if replies.len() == 0 {
        Seq::empty()
    } else {
        match answer_of(replies.last()) {
            Ok(response) => responses_of(replies.drop_last()).push(response),
            Err(_) => responses_of(replies.drop_last()),
        }
    }
}

/// The error of the last reply, if it is one.
pub open spec fn failure_of(replies: Seq<Reply>) -> Option<SendError> {
    if replies.len() == 0 {
        None
    } else {
        match answer_of(replies.last()) {
            Ok(_) => None,
            Err(e) => Some(e),
        }
    }
}

/// The replies are such as a send of `slots` can meet: one for each packet
/// in turn, up to the first that is an error, after which no packet is
/// sent.
pub open spec fn fitting(slots: Seq<Seq<u8>>, replies: Seq<Reply>) -> bool {
    &&& replies.len() <= count_nonempty(slots)
    &&& forall|i: int| 0 <= i < replies.len() - 1 ==> answer_of(#[trigger] replies[i]) is Ok
    &&& replies.len() < count_nonempty(slots) ==> failure_of(replies) is Some
}

/// How a whole sequence fared under `replies`: the packets were sent in
/// slot order, each in one exchange, up to the first that failed; every
/// response was recorded as drawn by the sequence; the result is the error
/// of the packet that failed, or `Ok` if none did.
pub open spec fn delivered(
    log: Seq<Event>,
    table: Entries,
    slots: Seq<Seq<u8>>,
    timeout_ms: u16,
    replies: Seq<Reply>,
    result: Result<(), SendError>,
    next_log: Seq<Event>,
    next_table: Entries,
) -> bool {
    &&& fitting(slots, replies)
    &&& next_log == log + transcript(packets_of(slots), timeout_ms, replies)
    &&& next_table == observed_all(table, responses_of(replies), slots)
    &&& result == match failure_of(replies) {
        None => Ok::<(), SendError>(()),
        Some(e) => Err::<(), SendError>(e),
    }
}

/// The byte strings that the writes of `log` were handed, in order.
pub open spec fn writes_of(log: Seq<Event>) -> Seq<Seq<u8>>
    decreases log.len(),
{
    if log.len() == 0 {
        Seq::empty()
    } else {
        match log.last() {
            Event::Write { bytes, .. } => writes_of(log.drop_last()).push(bytes),
            Event::Read { .. } => writes_of(log.drop_last()),
        }
    }
}

/// The number of reads in `log`.
pub open spec fn reads_in(log: Seq<Event>) -> nat
    decreases log.len(),
{
    if log.len() == 0 {
        0
    } else {
        match log.last() {
            Event::Write { .. } => reads_in(log.drop_last()),
            Event::Read { .. } => reads_in(log.drop_last()) + 1,
        }
    }
}

/// The writes and reads of two logs, one after the other, are those of the
/// first and then those of the second.
pub proof fn lemma_log_concat(first: Seq<Event>, second: Seq<Event>)
    ensures
        writes_of(first + second) == writes_of(first) + writes_of(second),
        reads_in(first + second) == reads_in(first) + reads_in(second),
    decreases second.len(),
{
    if second.len() == 0 {
        assert(first + second =~= first);
        assert(writes_of(first) + writes_of(second) =~= writes_of(first));
    } else {
        let whole = first + second;
        assert(whole.drop_last() =~= first + second.drop_last());
        assert(whole.last() == second.last());
        lemma_log_concat(first, second.drop_last());
        match second.last() {
            Event::Write { bytes, .. } => {
                assert(writes_of(first) + writes_of(second) =~= (writes_of(first) + writes_of(
                    second.drop_last(),
                )).push(bytes));
            },
            Event::Read { .. } => {},
        }
    }
}

/// What a send writes and reads: the packets, whole and in their order,
/// one write each, as many as there are replies; and one read for each
/// reply whose write did not fail. So where no packet fails, every packet
/// is written once and read for once, and where one fails, nothing is
/// written or read after it.
pub proof fn lemma_transcript(packets: Seq<Seq<u8>>, timeout_ms: u16, replies: Seq<Reply>)
    requires
        replies.len() <= packets.len(),
    ensures
        writes_of(transcript(packets, timeout_ms, replies)) == packets.take(replies.len() as int),
        reads_in(transcript(packets, timeout_ms, replies)) <= replies.len(),
        failure_of(replies) != Some(SendError::SendErr) && (forall|i: int|
            0 <= i < replies.len() - 1 ==> answer_of(#[trigger] replies[i]) is Ok) ==> reads_in(
            transcript(packets, timeout_ms, replies),
        ) == replies.len(),
    decreases replies.len(),
{
    if replies.len() == 0 {
        assert(packets.take(0) =~= Seq::<Seq<u8>>::empty());
    } else {
        let front = replies.drop_last();
        let n = replies.len() - 1;
        let head = transcript(packets, timeout_ms, front);
        let tail = exchange(packets[n], timeout_ms, replies.last());
        lemma_transcript(packets, timeout_ms, front);
        lemma_log_concat(head, tail);
        assert(writes_of(tail) =~= seq![packets[n]]) by {
            reveal_with_fuel(writes_of, 3);
            if replies.last().written == WriteOutcome::Failed {
                assert(tail.drop_last() =~= Seq::<Event>::empty());
            } else {
                assert(tail.drop_last() =~= seq![tail[0]]);
                assert(tail.drop_last().drop_last() =~= Seq::<Event>::empty());
            }
        }
        assert(reads_in(tail) == if replies.last().written == WriteOutcome::Failed {
            0nat
        } else {
            1nat
        }) by {
            reveal_with_fuel(reads_in, 3);
            if replies.last().written == WriteOutcome::Failed {
                assert(tail.drop_last() =~= Seq::<Event>::empty());
            } else {
                assert(tail.drop_last() =~= seq![tail[0]]);
                assert(tail.drop_last().drop_last() =~= Seq::<Event>::empty());
            }
        }
        assert(packets.take(replies.len() as int) =~= packets.take(n).push(packets[n]));
        if failure_of(replies) != Some(SendError::SendErr) && (forall|i: int|
            0 <= i < replies.len() - 1 ==> answer_of(#[trigger] replies[i]) is Ok) {
            assert(replies.last().written != WriteOutcome::Failed);
            assert forall|i: int| 0 <= i < front.len() - 1 implies answer_of(
                #[trigger] front[i],
            ) is Ok by {
                assert(front[i] == replies[i]);
            }
            if front.len() > 0 {
                assert(front.last() == replies[n - 1]);
                assert(answer_of(replies[n - 1]) is Ok);
            }
        }
    }
}

/// The packets of a prefix of the slots are the first of the packets, as
/// many as the prefix holds; so there are as many packets as non-empty
/// slots.
pub proof fn lemma_packets_prefix(slots: Seq<Seq<u8>>, i: int)
    requires
        0 <= i <= slots.len(),
    ensures
        packets_of(slots).len() == count_nonempty(slots),
        packets_of(slots.take(i)) == packets_of(slots).take(count_nonempty(slots.take(i)) as int),
        count_nonempty(slots.take(i)) <= count_nonempty(slots),
    decreases slots.len() - i,
{
    lemma_packets_len(slots);
    lemma_packets_len(slots.take(i));
    lemma_count_prefix(slots, i);
    if i == slots.len() {
        assert(slots.take(i) =~= slots);
        assert(packets_of(slots).take(packets_of(slots).len() as int) =~= packets_of(slots));
    } else {
        lemma_packets_prefix(slots, i + 1);
        lemma_packets_len(slots.take(i + 1));
        assert(slots.take(i + 1).drop_last() =~= slots.take(i));
        assert(slots.take(i + 1).last() == slots[i]);
        let longer = packets_of(slots.take(i + 1));
        let n = count_nonempty(slots.take(i)) as int;
        assert(packets_of(slots.take(i)) =~= longer.take(n));
        assert(longer.take(n) =~= packets_of(slots).take(n));
    }
}

proof fn lemma_packets_len(slots: Seq<Seq<u8>>)
    ensures
        packets_of(slots).len() == count_nonempty(slots),
    decreases slots.len(),
{
    if slots.len() > 0 {
        lemma_packets_len(slots.drop_last());
    }
}

/// Sends every packet of `packets`, in slot order, and records each
/// response. The first packet that fails ends the send with its error; the
/// responses read until then stay recorded, and no later packet is sent.
pub fn send_packets<B: ByteStream>(
    stream: &mut Transport<B>,
    packets: &Packets,
    packet_queue: &mut PacketQueue,
    timeout: u16,
) -> (r: Result<(), SendError>)
    ensures
        exists|replies: Seq<Reply>| #[trigger]
            delivered(
                old(stream).log(),
                old(packet_queue)@,
                packets@,
                timeout,
                replies,
                r,
                final(stream).log(),
                final(packet_queue)@,
            ),
{
    let ghost mut replies: Seq<Reply> = Seq::empty();
    let mut i: usize = 0;
    proof {
        packets.lemma_slot_count();
        assert(packets@.take(0) =~= Seq::<Seq<u8>>::empty());
        assert(stream.log() =~= old(stream).log() + transcript(
            packets_of(packets@),
            timeout,
            replies,
        ));
    }
    while i < MAX_PACKETS
        invariant
            i <= MAX_PACKETS,
            packets@.len() == MAX_PACKETS,
            replies.len() == count_nonempty(packets@.take(i as int)),
            forall|j: int| 0 <= j < replies.len() ==> answer_of(#[trigger] replies[j]) is Ok,
            stream.log() == old(stream).log() + transcript(packets_of(packets@), timeout, replies),
            packet_queue@ == observed_all(old(packet_queue)@, responses_of(replies), packets@),
        decreases MAX_PACKETS - i,
    {
        proof {
            lemma_count_prefix(packets@, i as int);
            lemma_packets_prefix(packets@, i as int + 1);
        }
        let packet = packets.slot(i);
        if packet.len() > 0 {
            let ghost log = stream.log();
            let ghost table = packet_queue@;
            let sent = send_packet(stream, packet.as_slice(), packets, packet_queue, timeout);
            proof {
                let reply = choose|reply: Reply| #[trigger]
                    exchanged(
                        log,
                        table,
                        packet@,
                        packets@,
                        timeout,
                        reply,
                        sent,
                        stream.log(),
                        packet_queue@,
                    );
                let longer = replies.push(reply);
                assert(longer.drop_last() =~= replies);
                assert(longer.last() == reply);
                match answer_of(reply) {
                    Ok(response) => {
                        let grown = responses_of(replies).push(response);
                        assert(grown.drop_last() =~= responses_of(replies));
                        assert(grown.last() == response);
                        assert(responses_of(longer) == grown);
                    },
                    Err(_) => {
                        assert(responses_of(longer) == responses_of(replies));
                    },
                }
                assert(packets@.take(i + 1).drop_last() =~= packets@.take(i as int));
                assert(packets@.take(i + 1).last() == packet@);
                assert(packets_of(packets@)[replies.len() as int] == packet@) by {
                    assert(packets_of(packets@.take(i + 1)).last() == packet@);
                }
                assert(stream.log() =~= old(stream).log() + transcript(
                    packets_of(packets@),
                    timeout,
                    longer,
                ));
                replies = longer;
            }
            match sent {
                Ok(()) => {},
                Err(e) => {
                    proof {
                        lemma_packets_prefix(packets@, i as int + 1);
                        assert(delivered(
                            old(stream).log(),
                            old(packet_queue)@,
                            packets@,
                            timeout,
                            replies,
                            Err::<(), SendError>(e),
                            stream.log(),
                            packet_queue@,
                        ));
                    }
                    return Err(e);
                },
            }
        }
        i += 1;
    }
    proof {
        assert(packets@.take(MAX_PACKETS as int) =~= packets@);
        assert(delivered(
            old(stream).log(),
            old(packet_queue)@,
            packets@,
            timeout,
            replies,
            Ok::<(), SendError>(()),
            stream.log(),
            packet_queue@,
        ));
    }
    Ok(())
}

} // verus!
