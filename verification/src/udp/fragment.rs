//! How a packet is cut into datagrams, and how one datagram is read.
use vstd::prelude::*;

use crate::wire::{
    deserialize_header, header_layout, le_bytes, le_value, lemma_le_canonical, lemma_le_limits,
    lemma_le_round_trip, lemma_unsigned_injective, serialize_header, unsigned,
};

verus! {

/// The largest datagram.
pub const MAX_MESSAGE_SIZE: usize = 65507;

/// The encoded size of a [`MessageHeader`].
pub const MESSAGE_HEADER_SIZE: usize = 16;

/// The largest part of a packet that one datagram carries.
pub const MAX_MESSAGE_BODY_SIZE: usize = MAX_MESSAGE_SIZE - MESSAGE_HEADER_SIZE;

/// The number of messages whose ids fit in a header.
pub const MAX_MESSAGES_IN_PACKET: usize = 65536;

/// What stands in front of every part of a packet.
#[derive(Debug, Clone, Copy, PartialEq, Eq, Structural)]
pub struct MessageHeader {
    /// When the message was sent, in milliseconds since the UNIX epoch.
    pub timestamp: i64,
    /// The packet that the message is a part of.
    pub packet_id: u32,
    /// The position of the message in its packet.
    pub message_id: u16,
    /// The position of the last message of the packet.
    pub last_message_in_packet: u16,
}

impl MessageHeader {
    /// The header as it stands at the start of a datagram.
    pub open spec fn layout(self) -> Seq<u8> {
        header_layout(
            self.timestamp,
            self.packet_id,
            self.message_id,
            self.last_message_in_packet,
        )
    }
}

/// The number of messages that carry `len` bytes.
pub open spec fn message_count(len: nat) -> nat {
    (len + MAX_MESSAGE_BODY_SIZE as nat - 1) as nat / MAX_MESSAGE_BODY_SIZE as nat
}

/// The part of `data` that message `id` carries: the `id`-th run of `MAX_MESSAGE_BODY_SIZE`
/// bytes, or what is left of it at the end.
pub open spec fn message_body(data: Seq<u8>, id: int) -> Seq<u8> {
    data.subrange(
        id * MAX_MESSAGE_BODY_SIZE,
        if (id + 1) * MAX_MESSAGE_BODY_SIZE <= data.len() {
            (id + 1) * MAX_MESSAGE_BODY_SIZE
        } else {
            data.len() as int
        },
    )
}

/// The header of message `id` of a packet of `len` bytes.
pub open spec fn message_header(
    len: nat,
    id: int,
    packet_id: u32,
    timestamp: i64,
) -> MessageHeader {
    MessageHeader {
        timestamp,
        packet_id,
        message_id: id as u16,
        last_message_in_packet: (message_count(len) - 1) as u16,
    }
}

/// Whether a packet can be sent: it holds something, and its messages can be numbered.
pub open spec fn sendable(len: nat) -> bool {
    0 < len && message_count(len) <= MAX_MESSAGES_IN_PACKET
}

/// The number of messages that a packet of `data_len` bytes is sent in.
pub fn num_messages(data_len: usize) -> (n: usize)
    ensures
        n == message_count(data_len as nat),
        data_len <= n * 65491,
        n > 0 ==> (n - 1) * 65491 < data_len,
{
    proof {
        law_message_count(data_len as nat);
    }
    if data_len == 0 {
        0
    } else {
        (data_len - 1) / MAX_MESSAGE_BODY_SIZE + 1
    }
}

/// A packet is sent in as few messages as can carry it, each of which carries 65491 bytes at most:
/// the messages have room for the packet, and one message less has not.
pub proof fn law_message_count(len: nat)
    ensures
        len <= message_count(len) * 65491,
        message_count(len) > 0 ==> (message_count(len) - 1) * 65491 < len,
{
}

/// The parts of a packet follow one another without a gap: part `id` starts where `id` full parts
/// end, is full or ends with the packet, and holds the bytes of the packet in their order.
pub proof fn law_message_body(data: Seq<u8>, id: int, j: int)
    requires
        0 <= id < message_count(data.len()),
    ensures
        ({
            let body = message_body(data, id);
            &&& 0 < body.len() <= 65491
            &&& body.len() == 65491 || id * 65491 + body.len() == data.len()
            &&& 0 <= j < body.len() ==> body[j] == data[id * 65491 + j]
        }),
{
    law_message_count(data.len());
    lemma_message_bounds(data.len(), id);
    assert((id + 1) * MAX_MESSAGE_BODY_SIZE == id * MAX_MESSAGE_BODY_SIZE + MAX_MESSAGE_BODY_SIZE)
        by (nonlinear_arith);
}

/// A message says which packet it belongs to, when it was sent, which of the messages of the packet
/// it is, and which is the last one.
pub proof fn law_message_header(len: nat, id: int, packet_id: u32, timestamp: i64)
    requires
        0 <= id < message_count(len) <= 65536,
    ensures
        ({
            let header = message_header(len, id, packet_id, timestamp);
            &&& header.packet_id == packet_id
            &&& header.timestamp == timestamp
            &&& header.message_id == id
            &&& header.last_message_in_packet + 1 == message_count(len)
        }),
{
}

/// Every packet can be sent that holds something and fits in 65536 messages, and no other.
pub proof fn law_sendable(len: nat)
    ensures
        sendable(len) <==> 0 < len <= 65536 * 65491,
{
}

/// Where the parts of a packet lie: they follow one another without a gap, each but the last is
/// full, and the last is not empty.
pub proof fn lemma_message_bounds(len: nat, id: int)
    requires
        0 < len,
        0 <= id < message_count(len),
    ensures
        0 <= id * MAX_MESSAGE_BODY_SIZE < len,
        id < message_count(len) - 1 ==> (id + 1) * MAX_MESSAGE_BODY_SIZE < len,
        id == message_count(len) - 1 ==> len <= (id + 1) * MAX_MESSAGE_BODY_SIZE,
{
    let n = message_count(len) as int;
    let m = MAX_MESSAGE_BODY_SIZE as int;
    assert(n * m <= len + m - 1 < (n + 1) * m) by (nonlinear_arith)
        requires
            n == (len + m - 1) / m,
            m == 65491,
            len > 0,
    ;
    assert(id * m <= (n - 1) * m) by (nonlinear_arith)
        requires
            id <= n - 1,
            m == 65491,
    ;
    if id < n - 1 {
        assert((id + 1) * m <= (n - 1) * m) by (nonlinear_arith)
            requires
                id + 1 <= n - 1,
                m == 65491,
        ;
    }
    assert((n - 1) * m == n * m - m) by (nonlinear_arith);
    assert((n + 1) * m == n * m + m) by (nonlinear_arith);
    assert(0 <= id * m) by (nonlinear_arith)
        requires
            0 <= id,
            m == 65491,
    ;
}

/// One message of a packet: the header, then the part of `data` at position `id`.
pub fn encode_message(data: &[u8], id: usize, packet_id: u32, timestamp: i64) -> (message: Vec<u8>)
    requires
        sendable(data@.len()),
        id < message_count(data@.len()),
    ensures
        message@ == message_header(data@.len(), id as int, packet_id, timestamp).layout()
            + message_body(data@, id as int),
        message@.len() <= MAX_MESSAGE_SIZE,
{
    proof {
        lemma_message_bounds(data@.len(), id as int);
        lemma_header_length(message_header(data@.len(), id as int, packet_id, timestamp));
        let m = MAX_MESSAGE_BODY_SIZE as int;
        assert((id + 1) * m == id * m + m) by (nonlinear_arith);
    }
    let count: usize = num_messages(data.len());
    let start: usize = id * MAX_MESSAGE_BODY_SIZE;
    let end: usize = if data.len() - start <= MAX_MESSAGE_BODY_SIZE {
        data.len()
    } else {
        start + MAX_MESSAGE_BODY_SIZE
    };
    let mut message = serialize_header(timestamp, packet_id, id as u16, (count - 1) as u16);
    let body = &data[start..end];
    let ghost header = message@;
    message.extend_from_slice(body);
    assert(message@ =~= header + body@);
    message
}

/// A header takes up `MESSAGE_HEADER_SIZE` bytes.
pub proof fn lemma_header_length(header: MessageHeader)
    ensures
        header.layout().len() == MESSAGE_HEADER_SIZE,
{
    lemma_le_limits();
    lemma_le_round_trip(unsigned(header.timestamp), 8);
    lemma_le_round_trip(header.packet_id as nat, 4);
    lemma_le_round_trip(header.message_id as nat, 2);
    lemma_le_round_trip(header.last_message_in_packet as nat, 2);
}

/// What a header holds at its four places: eight bytes of time stamp, four bytes of packet id, and
/// two bytes each for the positions of the message and of the last message.
pub proof fn lemma_header_fields(header: MessageHeader)
    ensures
        header.layout().len() == MESSAGE_HEADER_SIZE,
        le_value(header.layout().subrange(0, 8)) == unsigned(header.timestamp),
        le_value(header.layout().subrange(8, 12)) == header.packet_id,
        le_value(header.layout().subrange(12, 14)) == header.message_id,
        le_value(header.layout().subrange(14, 16)) == header.last_message_in_packet,
{
    lemma_header_length(header);
    lemma_le_limits();
    lemma_le_round_trip(unsigned(header.timestamp), 8);
    lemma_le_round_trip(header.packet_id as nat, 4);
    lemma_le_round_trip(header.message_id as nat, 2);
    lemma_le_round_trip(header.last_message_in_packet as nat, 2);
    let s = header.layout();
    assert(s.subrange(0, 8) =~= le_bytes(unsigned(header.timestamp), 8));
    assert(s.subrange(8, 12) =~= le_bytes(header.packet_id as nat, 4));
    assert(s.subrange(12, 14) =~= le_bytes(header.message_id as nat, 2));
    assert(s.subrange(14, 16) =~= le_bytes(header.last_message_in_packet as nat, 2));
}

/// Two headers with the same bytes are the same header.
pub proof fn lemma_header_injective(a: MessageHeader, b: MessageHeader)
    requires
        a.layout() == b.layout(),
    ensures
        a == b,
{
    lemma_header_fields(a);
    lemma_header_fields(b);
    lemma_unsigned_injective(a.timestamp, b.timestamp);
}

/// Splits a datagram into its header and the part of the packet that it carries.
pub fn split_message(message: &[u8]) -> (r: (MessageHeader, &[u8]))
    requires
        message@.len() >= MESSAGE_HEADER_SIZE,
    ensures
        r.0.layout() == message@.take(MESSAGE_HEADER_SIZE as int),
        r.1@ == message@.skip(MESSAGE_HEADER_SIZE as int),
{
    let prefix = &message[0..MESSAGE_HEADER_SIZE];
    let body = &message[MESSAGE_HEADER_SIZE..message.len()];
    match deserialize_header(prefix) {
        Ok((timestamp, packet_id, message_id, last_message_in_packet)) => {
            let header = MessageHeader {
                timestamp,
                packet_id,
                message_id,
                last_message_in_packet,
            };
            proof {
                let s = prefix@;
                lemma_le_canonical(s.subrange(0, 8));
                lemma_le_canonical(s.subrange(8, 12));
                lemma_le_canonical(s.subrange(12, 14));
                lemma_le_canonical(s.subrange(14, 16));
                assert(header.layout() =~= s.subrange(0, 8) + s.subrange(8, 12) + s.subrange(12, 14)
                    + s.subrange(14, 16));
                assert(header.layout() =~= message@.take(16));
                assert(body@ =~= message@.skip(16));
            }
            (header, body)
        },
        Err(_) => {
            assert(false);
            (
                MessageHeader {
                    timestamp: 0,
                    packet_id: 0,
                    message_id: 0,
                    last_message_in_packet: 0,
                },
                body,
            )
        },
    }
}

/// How far `packet_id` lies ahead of `last_received_packet_id` on the circle of packet ids.
pub open spec fn packet_distance(packet_id: u32, last_received_packet_id: u32) -> int {
    (packet_id - last_received_packet_id) % 0x1_0000_0000
}

/// Whether a packet lies behind the last one received: more than half of the circle ahead.
pub open spec fn out_of_order(packet_id: u32, last_received_packet_id: u32) -> bool {
    packet_distance(packet_id, last_received_packet_id) > 0x7fff_ffff
}

/// Essentially `packet_id < last_received_packet_id`, except that packet ids wrap around.
pub fn is_out_of_order(packet_id: u32, last_received_packet_id: u32) -> (r: bool)
    ensures
        r == out_of_order(packet_id, last_received_packet_id),
        packet_id < 0x8000_0000 && last_received_packet_id < 0x8000_0000 ==> r == (packet_id
            < last_received_packet_id),
{
    packet_id.wrapping_sub(last_received_packet_id) > (u32::MAX / 2)
}

/// The packets that come after the last one received are the 2^31 - 1 with the next ids, and the
/// 2^31 packets with the ids before it lie behind it, around the circle of packet ids.
pub proof fn law_half_of_the_packets_is_ahead(last: u32, d: int)
    ensures
        0 <= d <= 0x7fff_ffff ==> !out_of_order(((last + d) % 0x1_0000_0000) as u32, last),
        1 <= d <= 0x8000_0000 ==> out_of_order(((last - d) % 0x1_0000_0000) as u32, last),
{
}

/// As long as the packet ids do not wrap around, a packet lies behind another one exactly if it has
/// the smaller id. Counting both ids up by the same number changes nothing.
pub proof fn law_packets_are_ordered_by_id(a: u32, b: u32, n: int)
    ensures
        a < 0x8000_0000 && b < 0x8000_0000 ==> (out_of_order(a, b) <==> a < b),
        out_of_order(((a + n) % 0x1_0000_0000) as u32, ((b + n) % 0x1_0000_0000) as u32)
            == out_of_order(a, b),
{
    let x = (a + n) % 0x1_0000_0000;
    let y = (b + n) % 0x1_0000_0000;
    vstd::arithmetic::div_mod::lemma_fundamental_div_mod(a + n, 0x1_0000_0000);
    vstd::arithmetic::div_mod::lemma_fundamental_div_mod(b + n, 0x1_0000_0000);
    assert((x - y) % 0x1_0000_0000 == (a - b) % 0x1_0000_0000);
}

/// The distance from one packet id to another is how often the one has to be counted up to reach
/// the other.
pub proof fn law_packet_distance(packet_id: u32, last: u32)
    ensures
        0 <= packet_distance(packet_id, last) < 0x1_0000_0000,
        (last + packet_distance(packet_id, last)) % 0x1_0000_0000 == packet_id,
{
}

} // verus!
