//! Packets over UDP: a packet of any size is sent as numbered messages, each of which fits in one
//! datagram, and put together again at the other end.
//!
//! Messages can be lost, repeated or overtaken. The receiving side keeps a bounded buffer of
//! messages, sorted by the time at which they were sent, takes the newest first, drops what is too
//! old, and hands out a packet once all of its messages have been found.
use rustc_hash::FxHashMap;
use std::collections::VecDeque;
use vstd::prelude::*;

pub mod fragment;
pub mod laws;
pub mod reassembly;

use crate::common::Key;
use crate::timestamp::{clock_shows_millis, now_millis, MAX_SECS};
use crate::udp::fragment::{
    encode_message, is_out_of_order, law_message_body, lemma_header_length, message_body,
    message_count, message_header, num_messages, out_of_order, packet_distance, sendable,
    split_message, MessageHeader, MAX_MESSAGE_BODY_SIZE, MAX_MESSAGE_SIZE, MESSAGE_HEADER_SIZE,
};
use crate::udp::reassembly::{
    count_found, map_get, map_insert, map_remove, PacketInfo, Partial,
};

verus! {

/// Messages that have been on their way for longer are dropped.
pub const MAX_LATENCY_MS: i64 = 100;

/// The number of messages that wait in the receive buffer at most.
pub const RECV_BUFFER_CAP: usize = 100;

/// What is sent over a stream.
pub enum Packet {
    /// Keyboard input
    Input(Key),
    /// YUV video frame
    Yuv {
        timestamp: i64,
        width: u32,
        height: u32,
        y_stride: u32,
        u_stride: u32,
        v_stride: u32,
        y_plane: Vec<u8>,
        u_plane: Vec<u8>,
        v_plane: Vec<u8>,
    },
}

/// What a stream of packets consists of.
#[verifier::ext_equal]
pub struct StreamState {
    /// The messages that wait to be looked at, in the order of the times at which they were sent.
    pub queue: Seq<(MessageHeader, Seq<u8>)>,
    /// The packets of which some messages have been found.
    pub pending: Map<u32, Partial>,
    pub next_packet_id: u32,
    pub last_received_packet_id: u32,
}

/// What became of a message.
#[verifier::ext_equal]
pub enum Outcome {
    /// There was no message.
    Empty,
    /// A newer packet has been received before.
    OutOfOrder,
    /// The message was on its way for too long.
    Late,
    /// The message had been found before.
    Duplicate,
    /// The message was stored, and others of the packet are still missing.
    Stored,
    /// The message was the last one missing from the packet.
    Complete { packet_id: u32, bytes: Seq<u8> },
}

/// Whether the messages are sorted by the time at which they were sent.
pub open spec fn sorted(queue: Seq<(MessageHeader, Seq<u8>)>) -> bool {
    forall|i: int, j: int|
        0 <= i <= j < queue.len() ==> #[trigger] queue[i].0.timestamp <= #[trigger] queue[j].0.timestamp
}

/// Whether a message was sent more than `MAX_LATENCY_MS` ago.
pub open spec fn is_late(now: i64, timestamp: i64) -> bool {
    now - timestamp > MAX_LATENCY_MS
}

impl StreamState {
    /// A stream on which nothing has happened.
    pub open spec fn start() -> StreamState {
        StreamState {
            queue: Seq::empty(),
            pending: Map::empty(),
            next_packet_id: 0,
            last_received_packet_id: 0,
        }
    }

    /// What every operation keeps: the buffer is sorted and bounded, no message is larger than a
    /// datagram, and every incomplete packet is sound.
    pub open spec fn valid(self) -> bool {
        &&& sorted(self.queue)
        &&& self.queue.len() <= RECV_BUFFER_CAP
        &&& forall|i: int|
            0 <= i < self.queue.len() ==> (#[trigger] self.queue[i]).1.len() <= MAX_MESSAGE_BODY_SIZE
        &&& forall|id: u32|
            self.pending.dom().contains(id) ==> (#[trigger] self.pending[id]).valid()
    }

    /// The buffer with room for one more message: if it was full, the oldest message is gone.
    pub open spec fn queue_with_room(self) -> Seq<(MessageHeader, Seq<u8>)> {
        if self.queue.len() >= RECV_BUFFER_CAP {
            self.queue.skip(1)
        } else {
            self.queue
        }
    }

    /// What is known of the packet that a message belongs to.
    pub open spec fn partial_of(self, header: MessageHeader) -> Partial {
        if self.pending.dom().contains(header.packet_id) {
            self.pending[header.packet_id]
        } else {
            Partial::fresh(header.last_message_in_packet)
        }
    }

    /// Whether the newest message can be looked at: its age can be computed, and, unless it is
    /// dropped, its part has a place in its packet.
    pub open spec fn deliverable(self, now: i64) -> bool {
        self.queue.len() > 0 ==> {
            let (header, body) = self.queue.last();
            !out_of_order(header.packet_id, self.last_received_packet_id) ==> {
                &&& i64::MIN <= now - header.timestamp <= i64::MAX
                &&& !is_late(now, header.timestamp) ==> self.partial_of(header).fits(header, body)
            }
        }
    }

    /// What becomes of the newest message.
    pub open spec fn outcome(self, now: i64) -> Outcome {
        if self.queue.len() == 0 {
            Outcome::Empty
        } else {
            let (header, body) = self.queue.last();
            let partial = self.partial_of(header);
            let grown = partial.with_message(header, body);
            if out_of_order(header.packet_id, self.last_received_packet_id) {
                Outcome::OutOfOrder
            } else if is_late(now, header.timestamp) {
                Outcome::Late
            } else if partial.found[header.message_id as int] {
                Outcome::Duplicate
            } else if grown.complete() {
                Outcome::Complete { packet_id: header.packet_id, bytes: grown.bytes }
            } else {
                Outcome::Stored
            }
        }
    }

    /// The stream after the newest message has been looked at: the message is gone, its packet is
    /// updated if the message is neither out of order nor late, and a complete packet is no longer
    /// pending.
    pub open spec fn after_delivery(self, now: i64) -> StreamState {
        if self.queue.len() == 0 {
            self
        } else {
            let (header, body) = self.queue.last();
            let grown = self.partial_of(header).with_message(header, body);
            StreamState {
                queue: self.queue.drop_last(),
                pending: match self.outcome(now) {
                    Outcome::Duplicate | Outcome::Stored => self.pending.insert(
                        header.packet_id,
                        grown,
                    ),
                    Outcome::Complete { .. } => self.pending.remove(header.packet_id),
                    _ => self.pending,
                },
                ..self
            }
        }
    }

    /// The stream after a complete packet has been decoded.
    pub open spec fn after_decoding(self, packet_id: u32, decoded: bool) -> StreamState {
        if decoded {
            StreamState { last_received_packet_id: packet_id, ..self }
        } else {
            self
        }
    }

    /// The stream after a packet has been taken up for sending: the next packet gets the next id.
    pub open spec fn after_send(self) -> StreamState {
        StreamState {
            next_packet_id: ((self.next_packet_id + 1) % 0x1_0000_0000) as u32,
            ..self
        }
    }
}

/// A packet that is being sent.
#[verifier::ext_equal]
pub struct Sending {
    pub data: Seq<u8>,
    pub packet_id: u32,
    /// The position of the message that comes next.
    pub position: nat,
}

impl Sending {
    /// Whether a message is left.
    pub open spec fn has_next(self) -> bool {
        self.position < message_count(self.data.len())
    }

    /// The message that comes next, if it is sent at `timestamp`.
    pub open spec fn message(self, timestamp: i64) -> Seq<u8> {
        message_header(self.data.len(), self.position as int, self.packet_id, timestamp).layout()
            + message_body(self.data, self.position as int)
    }

    /// What is left after the next message has been sent.
    pub open spec fn after_message(self) -> Sending {
        if self.has_next() {
            Sending { position: self.position + 1, ..self }
        } else {
            self
        }
    }
}

/// What became of a message.
pub enum Delivery {
    /// There was no message.
    Empty,
    /// A newer packet has been received before.
    OutOfOrder,
    /// The message was on its way for too long.
    Late,
    /// The message had been found before.
    Duplicate,
    /// The message was stored, and others of the packet are still missing.
    Stored,
    /// The message was the last one missing from the packet.
    Complete { packet_id: u32, bytes: Vec<u8> },
}

impl View for Delivery {
    type V = Outcome;

    open spec fn view(&self) -> Outcome {
        match *self {
            Delivery::Empty => Outcome::Empty,
            Delivery::OutOfOrder => Outcome::OutOfOrder,
            Delivery::Late => Outcome::Late,
            Delivery::Duplicate => Outcome::Duplicate,
            Delivery::Stored => Outcome::Stored,
            Delivery::Complete { packet_id, bytes } => Outcome::Complete {
                packet_id,
                bytes: bytes@,
            },
        }
    }
}

/// Whether a message counts as survived: `None` if there was none.
pub open spec fn survival(outcome: Outcome) -> Option<bool> {
    match outcome {
        Outcome::Empty => None,
        Outcome::OutOfOrder | Outcome::Late => Some(false),
        _ => Some(true),
    }
}

impl Delivery {
    /// Whether a message survived the network, if there was one.
    pub fn survived(&self) -> (r: Option<bool>)
        ensures
            r == survival(self@),
    {
        match self {
            Delivery::Empty => None,
            Delivery::OutOfOrder | Delivery::Late => Some(false),
            Delivery::Duplicate | Delivery::Stored | Delivery::Complete { .. } => Some(true),
        }
    }
}

/// The result of looking for a packet.
pub struct Received<P, E> {
    /// Whether a message survived the network, if there was one.
    pub survived: Option<bool>,
    /// The packet, if one is complete.
    pub packet: Result<Option<P>, E>,
}

/// `VecDeque::binary_search_by_key` on the times at which the messages were sent: the position of
/// a message that was sent at `timestamp`, or else the position that keeps the buffer sorted.
/// Which one of several messages with that time is found is not stated.
#[verifier::external_body]
fn search_by_timestamp(
    recv_buf: &VecDeque<(MessageHeader, Vec<u8>)>,
    timestamp: i64,
) -> (r: Result<usize, usize>)
    requires
        forall|i: int, j: int|
            0 <= i <= j < recv_buf@.len() ==> #[trigger] recv_buf@[i].0.timestamp
                <= #[trigger] recv_buf@[j].0.timestamp,
    ensures
        r matches Ok(at) ==> at < recv_buf@.len() && recv_buf@[at as int].0.timestamp == timestamp,
        r matches Err(at) ==> {
            &&& at <= recv_buf@.len()
            &&& forall|i: int| 0 <= i < at ==> (#[trigger] recv_buf@[i]).0.timestamp < timestamp
            &&& forall|i: int|
                at <= i < recv_buf@.len() ==> (#[trigger] recv_buf@[i]).0.timestamp > timestamp
        },
{
    recv_buf.binary_search_by_key(&timestamp, |(header, _)| header.timestamp)
}

/// A stream of packets, without the socket that carries the messages.
pub struct PacketStreamSync {
    /// Fixed-size buffer of received messages, sorted by timestamp
    recv_buf: VecDeque<(MessageHeader, Vec<u8>)>,
    /// Map from packet ID to packet information
    packet_map: FxHashMap<u32, PacketInfo>,
    /// ID of the next packet to send
    next_packet_id: u32,
    /// ID of the last complete packet received
    last_received_packet_id: u32,
}

impl View for PacketStreamSync {
    type V = StreamState;

    closed spec fn view(&self) -> StreamState {
        StreamState {
            queue: self.recv_buf@.map_values(|m: (MessageHeader, Vec<u8>)| (m.0, m.1@)),
            pending: self.packet_map@.map_values(|info: PacketInfo| info@),
            next_packet_id: self.next_packet_id,
            last_received_packet_id: self.last_received_packet_id,
        }
    }
}

impl PacketStreamSync {
    /// The stream is valid, and the counters of the incomplete packets are right.
    pub closed spec fn wf(&self) -> bool {
        &&& self@.valid()
        &&& forall|id: u32|
            self.packet_map@.dom().contains(id) ==> (#[trigger] self.packet_map@[id]).wf()
    }

    /// A well-formed stream is valid.
    pub proof fn lemma_valid(&self)
        requires
            self.wf(),
        ensures
            self@.valid(),
    {
    }

    /// A stream on which nothing has happened.
    pub fn new() -> (stream: Self)
        ensures
            stream.wf(),
            stream@ == StreamState::start(),
            stream@.queue.len() == 0,
            stream@.pending == Map::<u32, Partial>::empty(),
            stream@.next_packet_id == 0,
            stream@.last_received_packet_id == 0,
    {
        let mut packet_map: FxHashMap<u32, PacketInfo> = FxHashMap::default();
        packet_map.reserve(1000);
        let stream = PacketStreamSync {
            recv_buf: VecDeque::with_capacity(RECV_BUFFER_CAP),
            packet_map,
            next_packet_id: 0,
            last_received_packet_id: 0,
        };
        proof {
            assert(stream@.queue =~= Seq::empty());
            assert(stream@.pending =~= Map::empty());
        }
        stream
    }

    /// Takes up a packet with these bytes for sending. The next packet gets the next id.
    pub fn send<'a>(&mut self, data: &'a [u8]) -> (messages: PacketMessages<'a>)
        requires
            old(self).wf(),
            sendable(data@.len()),
        ensures
            final(self).wf(),
            final(self)@ == old(self)@.after_send(),
            messages@ == (Sending {
                data: data@,
                packet_id: old(self)@.next_packet_id,
                position: 0,
            }),
    {
        let messages = PacketMessages { data, packet_id: self.next_packet_id, position: 0 };
        self.next_packet_id = self.next_packet_id.wrapping_add(1);
        assert(self@.queue =~= old(self)@.queue);
        assert(self@.pending =~= old(self)@.pending);
        messages
    }

    /// Puts a received message into the buffer, in the order of the times at which messages were
    /// sent. If the buffer is full, the oldest message is dropped first. Returns whether one was.
    pub fn receive(&mut self, message: &[u8]) -> (dropped: bool)
        requires
            old(self).wf(),
            MESSAGE_HEADER_SIZE <= message@.len() <= MAX_MESSAGE_SIZE,
        ensures
            final(self).wf(),
            sorted(final(self)@.queue),
            forall|i: int, j: int|
                0 <= i <= j < final(self)@.queue.len()
                    ==> (#[trigger] final(self)@.queue[i]).0.timestamp <= (
                #[trigger] final(self)@.queue[j]).0.timestamp,
            dropped <==> old(self)@.queue.len() == 100,
            dropped == (old(self)@.queue.len() >= RECV_BUFFER_CAP),
            exists|header: MessageHeader, at: int|
                0 <= at <= old(self)@.queue_with_room().len() && header.layout() == message@.take(
                    MESSAGE_HEADER_SIZE as int,
                ) && final(self)@ == (StreamState {
                    queue: #[trigger] old(self)@.queue_with_room().insert(
                        at,
                        (header, message@.skip(MESSAGE_HEADER_SIZE as int)),
                    ),
                    ..old(self)@
                }),
    {
        let ghost before = self@;
        let (header, body) = split_message(message);
        let mut dropped = false;
        if self.recv_buf.len() >= RECV_BUFFER_CAP {
            // remove oldest message
            let _oldest = self.recv_buf.pop_front();
            dropped = true;
        }
        let ghost kept = self.recv_buf@;
        proof {
            assert(self@.queue =~= before.queue_with_room());
            assert forall|i: int, j: int| 0 <= i <= j < kept.len() implies #[trigger] kept[i].0.timestamp
                <= #[trigger] kept[j].0.timestamp by {
                assert(self@.queue[i].0.timestamp <= self@.queue[j].0.timestamp);
            }
        }
        let index: usize = match search_by_timestamp(&self.recv_buf, header.timestamp) {
            Ok(i) => i,
            Err(i) => i,
        };
        let mut bytes: Vec<u8> = Vec::new();
        bytes.extend_from_slice(body);
        assert(bytes@ =~= body@);
        self.recv_buf.insert(index, (header, bytes));
        proof {
            let at = index as int;
            assert(self@.queue =~= before.queue_with_room().insert(at, (header, body@)));
            assert(self@.pending =~= before.pending);
            assert forall|i: int| 0 <= i < self@.queue.len() implies (#[trigger] self@.queue[i]).1.len()
                <= MAX_MESSAGE_BODY_SIZE by {
                if i != at {
                    let i0 = if i < at { i } else { i - 1 };
                    assert(before.queue_with_room()[i0] == self@.queue[i]);
                }
            }
            assert(sorted(self@.queue)) by {
                assert forall|i: int, j: int| 0 <= i <= j < self@.queue.len() implies #[trigger] self@.queue[i].0.timestamp
                    <= #[trigger] self@.queue[j].0.timestamp by {
                    let i0 = if i < at { i } else { i - 1 };
                    let j0 = if j < at { j } else { j - 1 };
                    if i != at && j != at {
                        assert(kept[i0].0.timestamp <= kept[j0].0.timestamp);
                    } else if i == at && j != at {
                        assert(kept[j0].0.timestamp >= header.timestamp) by {
                            if at < kept.len() {
                                assert(kept[at].0.timestamp <= kept[j0].0.timestamp);
                            }
                        }
                    } else if i != at && j == at {
                        assert(kept[i0].0.timestamp <= header.timestamp) by {
                            if at < kept.len() {
                                assert(kept[i0].0.timestamp <= kept[at].0.timestamp);
                            }
                        }
                    }
                }
            }
        }
        dropped
    }

    /// Whether the newest message can be looked at `now`.
    pub fn can_deliver(&self, now: i64) -> (r: bool)
        requires
            self.wf(),
        ensures
            r == self@.deliverable(now),
    {
        if self.recv_buf.len() == 0 {
            return true;
        }
        let newest = &self.recv_buf[self.recv_buf.len() - 1];
        assert((newest.0, newest.1@) == self@.queue.last());
        let header = &newest.0;
        if is_out_of_order(header.packet_id, self.last_received_packet_id) {
            return true;
        }
        let latency: i128 = now as i128 - header.timestamp as i128;
        if latency < i64::MIN as i128 || latency > i64::MAX as i128 {
            return false;
        }
        if latency > MAX_LATENCY_MS as i128 {
            return true;
        }
        match map_get(&self.packet_map, header.packet_id) {
            Some(info) => info.accepts(header, newest.1.len()),
            None => {
                let id: usize = header.message_id as usize;
                let last: usize = header.last_message_in_packet as usize;
                proof {
                    let fresh = Partial::fresh(header.last_message_in_packet);
                    if id <= last {
                        assert(!fresh.found[id as int]);
                        assert(id * MAX_MESSAGE_BODY_SIZE <= last * MAX_MESSAGE_BODY_SIZE)
                            by (nonlinear_arith)
                            requires
                                id <= last,
                                MAX_MESSAGE_BODY_SIZE == 65491,
                        ;
                    }
                }
                id <= last
            },
        }
    }

    /// Looks at the newest message, `now`.
    pub fn take_message(&mut self, now: i64) -> (delivery: Delivery)
        requires
            old(self).wf(),
            old(self)@.deliverable(now),
        ensures
            final(self).wf(),
            delivery@ == old(self)@.outcome(now),
            final(self)@ == old(self)@.after_delivery(now),
    {
        let ghost before = self@;
        let newest = self.recv_buf.pop_back();
        assert(newest is Some ==> self@.queue =~= before.queue.drop_last());
        assert(self@.pending =~= before.pending);
        let (header, body) = match newest {
            Some(message) => message,
            None => {
                assert(self@.queue =~= before.queue);
                return Delivery::Empty;
            },
        };
        assert((header, body@) == before.queue.last());
        if is_out_of_order(header.packet_id, self.last_received_packet_id) {
            return Delivery::OutOfOrder;
        }
        let latency: i64 = now - header.timestamp;
        if latency > MAX_LATENCY_MS {
            return Delivery::Late;
        }
        let ghost infos = self.packet_map@;
        let mut info = match map_remove(&mut self.packet_map, header.packet_id) {
            Some(info) => info,
            None => PacketInfo::new(header.last_message_in_packet),
        };
        assert(info@ == before.partial_of(header));
        let is_new = info.add_message(&header, body.as_slice());
        if is_new && info.is_complete() {
            assert(self@.pending =~= before.pending.remove(header.packet_id));
            return Delivery::Complete { packet_id: header.packet_id, bytes: info.into_bytes() };
        }
        let ghost grown = info@;
        map_insert(&mut self.packet_map, header.packet_id, info);
        assert(self@.pending =~= before.pending.insert(header.packet_id, grown));
        if is_new {
            Delivery::Stored
        } else {
            Delivery::Duplicate
        }
    }

    /// Takes note of what decoding a complete packet gave: only a packet that could be decoded
    /// counts as received.
    pub fn finish_packet<P, E>(&mut self, packet_id: u32, decoded: Result<P, E>) -> (r: Result<
        Option<P>,
        E,
    >)
        requires
            old(self).wf(),
        ensures
            final(self).wf(),
            final(self)@ == old(self)@.after_decoding(packet_id, decoded is Ok),
            r == match decoded {
                Ok(packet) => Ok::<Option<P>, E>(Some(packet)),
                Err(err) => Err(err),
            },
    {
        match decoded {
            Ok(packet) => {
                self.last_received_packet_id = packet_id;
                assert(self@.queue =~= old(self)@.queue);
                assert(self@.pending =~= old(self)@.pending);
                Ok(Some(packet))
            },
            Err(err) => Err(err),
        }
    }

    /// Looks at the newest message, `now`, and decodes the packet if it is complete.
    ///
    /// A packet that cannot be decoded is gone, and does not count as received.
    pub fn recv_at<P, E, D: FnOnce(Vec<u8>) -> Result<P, E>>(&mut self, now: i64, decode: D) -> (r:
        Received<P, E>)
        requires
            old(self).wf(),
            old(self)@.deliverable(now),
            forall|bytes: Vec<u8>| #[trigger] call_requires(decode, (bytes,)),
        ensures
            final(self).wf(),
            r.survived == survival(old(self)@.outcome(now)),
            match old(self)@.outcome(now) {
                Outcome::Complete { packet_id, bytes } => {
                    &&& final(self)@ == old(self)@.after_delivery(now).after_decoding(
                        packet_id,
                        r.packet is Ok,
                    )
                    &&& exists|input: Vec<u8>, output: Result<P, E>|
                        {
                            &&& input@ == bytes
                            &&& #[trigger] call_ensures(decode, (input,), output)
                            &&& r.packet == match output {
                                Ok(packet) => Ok::<Option<P>, E>(Some(packet)),
                                Err(err) => Err(err),
                            }
                        }
                },
                _ => {
                    &&& final(self)@ == old(self)@.after_delivery(now)
                    &&& r.packet == Ok::<Option<P>, E>(None)
                },
            },
    {
        let delivery = self.take_message(now);
        let survived = delivery.survived();
        let packet = match delivery {
            Delivery::Complete { packet_id, bytes } => {
                let decoded = decode(bytes);
                self.finish_packet(packet_id, decoded)
            },
            _ => Ok(None),
        };
        Received { survived, packet }
    }

    /// Looks at the newest message and decodes the packet if it is complete. The packet is
    /// `Ok(None)` if no (complete) packet has been read.
    ///
    /// What becomes of the message depends on what the clock shows. If it cannot be looked at then,
    /// there is no result, and nothing changes.
    pub fn recv_non_blocking<P, E, D: FnOnce(Vec<u8>) -> Result<P, E>>(&mut self, decode: D) -> (r:
        Option<Received<P, E>>)
        requires
            old(self).wf(),
            forall|bytes: Vec<u8>| #[trigger] call_requires(decode, (bytes,)),
        ensures
            final(self).wf(),
            exists|now: i64|
                {
                    &&& clock_shows_millis(now)
                    &&& 0 <= now <= MAX_SECS * 1000 + 999
                    &&& r is Some <==> #[trigger] old(self)@.deliverable(now)
                    &&& r is None ==> final(self)@ == old(self)@
                    &&& r matches Some(received) ==> {
                        &&& received.survived == survival(old(self)@.outcome(now))
                        &&& match old(self)@.outcome(now) {
                            Outcome::Complete { packet_id, bytes } => {
                                &&& final(self)@ == old(self)@.after_delivery(now).after_decoding(
                                    packet_id,
                                    received.packet is Ok,
                                )
                                &&& exists|input: Vec<u8>, output: Result<P, E>|
                                    {
                                        &&& input@ == bytes
                                        &&& #[trigger] call_ensures(decode, (input,), output)
                                        &&& received.packet == match output {
                                            Ok(packet) => Ok::<Option<P>, E>(Some(packet)),
                                            Err(err) => Err(err),
                                        }
                                    }
                            },
                            _ => {
                                &&& final(self)@ == old(self)@.after_delivery(now)
                                &&& received.packet == Ok::<Option<P>, E>(None)
                            },
                        }
                    }
                },
    {
        let now: i64 = now_millis();
        if self.can_deliver(now) {
            Some(self.recv_at(now, decode))
        } else {
            None
        }
    }

    /// The id of the last packet that has been received.
    pub fn last_received_packet_id(&self) -> (packet_id: u32)
        ensures
            packet_id == self@.last_received_packet_id,
    {
        self.last_received_packet_id
    }

    /// How many messages of a pending packet have been found, and how many it has.
    pub fn progress(&self, packet_id: u32) -> (r: Option<(usize, usize)>)
        requires
            self.wf(),
        ensures
            r is Some <==> self@.pending.dom().contains(packet_id),
            r matches Some(progress) ==> {
                let partial = self@.pending[packet_id];
                progress.0 == count_found(partial.found) && progress.1 == partial.found.len()
            },
    {
        match map_get(&self.packet_map, packet_id) {
            Some(info) => {
                assert(info@ == self@.pending[packet_id]);
                Some(info.progress())
            },
            None => None,
        }
    }
}

/// The messages of a packet that is being sent.
pub struct PacketMessages<'a> {
    data: &'a [u8],
    packet_id: u32,
    position: usize,
}

impl<'a> View for PacketMessages<'a> {
    type V = Sending;

    closed spec fn view(&self) -> Sending {
        Sending {
            data: self.data@,
            packet_id: self.packet_id,
            position: self.position as nat,
        }
    }
}

impl<'a> PacketMessages<'a> {
    #[verifier::type_invariant]
    closed spec fn is_sendable(self) -> bool {
        sendable(self.data@.len()) && self.position <= message_count(self.data@.len())
    }

    /// The next message of the packet, sent at `timestamp`, until all have been sent.
    pub fn next_message_at(&mut self, timestamp: i64) -> (message: Option<Vec<u8>>)
        ensures
            final(self)@ == old(self)@.after_message(),
            message is Some <==> old(self)@.has_next(),
            message matches Some(message) ==> {
                &&& message@ == old(self)@.message(timestamp)
                &&& MESSAGE_HEADER_SIZE < message@.len() <= MAX_MESSAGE_SIZE
            },
    {
        proof {
            use_type_invariant(&*self);
        }
        let id: usize = self.position;
        if id >= num_messages(self.data.len()) {
            return None;
        }
        proof {
            law_message_body(self.data@, id as int, 0);
            lemma_header_length(
                message_header(self.data@.len(), id as int, self.packet_id, timestamp),
            );
        }
        let message = encode_message(self.data, id, self.packet_id, timestamp);
        self.position = id + 1;
        Some(message)
    }

    /// The next message of the packet, sent now, until all have been sent.
    pub fn next_message(&mut self) -> (message: Option<Vec<u8>>)
        ensures
            final(self)@ == old(self)@.after_message(),
            message is Some <==> old(self)@.has_next(),
            message matches Some(message) ==> {
                &&& exists|timestamp: i64|
                    {
                        &&& clock_shows_millis(timestamp)
                        &&& 0 <= timestamp <= MAX_SECS * 1000 + 999
                        &&& message@ == #[trigger] old(self)@.message(timestamp)
                    }
                &&& MESSAGE_HEADER_SIZE < message@.len() <= MAX_MESSAGE_SIZE
            },
    {
        let timestamp: i64 = now_millis();
        self.next_message_at(timestamp)
    }
}

/// The number of packets between the last one received and `packet_id`.
pub fn count_skipped(packet_id: u32, last_received_packet_id: u32) -> (n: u32)
    ensures
        n == if packet_id == last_received_packet_id {
            0
        } else {
            packet_distance(packet_id, last_received_packet_id) - 1
        },
{
    packet_id.wrapping_sub(last_received_packet_id).saturating_sub(1)
}

/// The id of the `i`-th packet after the last one received.
pub fn skipped_id(last_received_packet_id: u32, i: u32) -> (id: u32)
    ensures
        packet_distance(id, last_received_packet_id) == i,
{
    last_received_packet_id.wrapping_add(i)
}

/// The first and the last of the packets between the last one received and `packet_id`, if there
/// are more than five.
pub fn skipped_range(packet_id: u32, last_received_packet_id: u32) -> (r: Option<(u32, u32)>)
    ensures
        r is Some <==> packet_distance(packet_id, last_received_packet_id) > 6,
        r matches Some(range) ==> {
            &&& packet_distance(range.0, last_received_packet_id) == 1
            &&& packet_distance(packet_id, range.1) == 1
        },
{
    if count_skipped(packet_id, last_received_packet_id) > 5 {
        Some((last_received_packet_id.wrapping_add(1), packet_id.wrapping_sub(1)))
    } else {
        None
    }
}

} // verus!
