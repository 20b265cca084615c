//! What holds of a stream of packets as a whole.
use vstd::prelude::*;

use crate::udp::fragment::{
    lemma_header_injective, lemma_header_length, lemma_message_bounds, message_body, message_count,
    message_header, out_of_order, packet_distance, sendable, MessageHeader, MAX_MESSAGE_BODY_SIZE,
    MESSAGE_HEADER_SIZE,
};
use crate::udp::reassembly::{law_fresh_packet, overwrite, truncated, Partial};
use crate::udp::{survival, Outcome, Sending, StreamState, RECV_BUFFER_CAP};

verus! {

/// A message survives the network: whatever header and body a receiver splits it into are the
/// ones that the sender put together.
pub proof fn law_message_round_trip(
    data: Seq<u8>,
    id: int,
    packet_id: u32,
    timestamp: i64,
    header: MessageHeader,
    body: Seq<u8>,
)
    requires
        sendable(data.len()),
        0 <= id < message_count(data.len()),
        ({
            let message = message_header(data.len(), id, packet_id, timestamp).layout()
                + message_body(data, id);
            &&& header.layout() == message.take(MESSAGE_HEADER_SIZE as int)
            &&& body == message.skip(MESSAGE_HEADER_SIZE as int)
        }),
    ensures
        header == message_header(data.len(), id, packet_id, timestamp),
        header.message_id == id,
        header.last_message_in_packet == message_count(data.len()) - 1,
        body == message_body(data, id),
{
    let sent = message_header(data.len(), id, packet_id, timestamp);
    let message = sent.layout() + message_body(data, id);
    lemma_header_length(sent);
    assert(message.take(MESSAGE_HEADER_SIZE as int) =~= sent.layout());
    assert(message.skip(MESSAGE_HEADER_SIZE as int) =~= message_body(data, id));
    lemma_header_injective(header, sent);
}

/// The parts of a packet, one after the other, are the packet.
pub proof fn law_bodies_cover_packet(data: Seq<u8>, k: int)
    requires
        0 <= k < data.len(),
    ensures
        ({
            let id = k / MAX_MESSAGE_BODY_SIZE as int;
            let at = k % MAX_MESSAGE_BODY_SIZE as int;
            &&& 0 <= id < message_count(data.len())
            &&& at < message_body(data, id).len()
            &&& message_body(data, id)[at] == data[k]
        }),
{
    let m = MAX_MESSAGE_BODY_SIZE as int;
    let id = k / m;
    let n = message_count(data.len()) as int;
    assert(n * m >= data.len()) by (nonlinear_arith)
        requires
            n == (data.len() + m - 1) / m,
            m == 65491,
    ;
    assert(id < n) by (nonlinear_arith)
        requires
            id == k / m,
            m == 65491,
            k < data.len(),
            n * m >= data.len(),
    ;
    assert((id + 1) * m == id * m + m) by (nonlinear_arith);
}

/// Whether an incomplete packet is on its way to `data`: where a message has been found, the bytes
/// are those of `data`, and the last message has fixed the size. With `exact`, the size is that of
/// `data`; else there may be bytes after it.
pub open spec fn agrees(partial: Partial, data: Seq<u8>, exact: bool) -> bool {
    let n = message_count(data.len()) as int;
    &&& partial.found.len() == n
    &&& if partial.found[n - 1] {
        &&& data.len() <= partial.bytes.len() <= n * MAX_MESSAGE_BODY_SIZE
        &&& exact ==> partial.bytes.len() == data.len()
    } else {
        partial.bytes.len() == n * MAX_MESSAGE_BODY_SIZE
    }
    &&& forall|k: int|
        0 <= k < data.len() && partial.found[k / MAX_MESSAGE_BODY_SIZE as int]
            ==> #[trigger] partial.bytes[k] == data[k]
}

/// Whether a received message is message `arrival.0.message_id` of the packet. What follows the
/// part in the datagram is not looked at, unless `exact` asks that nothing does.
pub open spec fn is_message_of(
    arrival: (MessageHeader, Seq<u8>),
    data: Seq<u8>,
    packet_id: u32,
    exact: bool,
) -> bool {
    let id = arrival.0.message_id as int;
    &&& id < message_count(data.len())
    &&& arrival.0 == message_header(data.len(), id, packet_id, arrival.0.timestamp)
    &&& message_body(data, id).is_prefix_of(arrival.1)
    &&& arrival.1.len() <= MAX_MESSAGE_BODY_SIZE
    &&& exact ==> arrival.1 == message_body(data, id)
}

/// A packet of which nothing has been found is on its way to any packet of the same size.
proof fn lemma_fresh_agrees(data: Seq<u8>, exact: bool)
    requires
        sendable(data.len()),
    ensures
        agrees(Partial::fresh((message_count(data.len()) - 1) as u16), data, exact),
{
    let fresh = Partial::fresh((message_count(data.len()) - 1) as u16);
    lemma_message_bounds(data.len(), message_count(data.len()) - 1);
    assert forall|k: int|
        0 <= k < data.len() && fresh.found[k / MAX_MESSAGE_BODY_SIZE as int] implies #[trigger] fresh.bytes[k]
        == data[k] by {
        law_bodies_cover_packet(data, k);
    }
}

/// One more message of the packet has its place, and brings the packet closer.
#[verifier::spinoff_prover]
proof fn lemma_message_agrees(
    partial: Partial,
    data: Seq<u8>,
    arrival: (MessageHeader, Seq<u8>),
    packet_id: u32,
    exact: bool,
)
    requires
        sendable(data.len()),
        agrees(partial, data, exact),
        is_message_of(arrival, data, packet_id, exact),
    ensures
        partial.fits(arrival.0, arrival.1),
        agrees(partial.with_message(arrival.0, arrival.1), data, exact),
        partial.with_message(arrival.0, arrival.1).found == partial.found.update(
            arrival.0.message_id as int,
            true,
        ),
{
    let (header, body) = arrival;
    let m = MAX_MESSAGE_BODY_SIZE as int;
    let n = message_count(data.len()) as int;
    let id = header.message_id as int;
    let grown = partial.with_message(header, body);
    lemma_message_bounds(data.len(), id);
    lemma_message_bounds(data.len(), n - 1);
    assert((id + 1) * m == id * m + m) by (nonlinear_arith);
    assert((n - 1 + 1) * m == n * m && (n - 1) * m == n * m - m) by (nonlinear_arith);
    if partial.found[id] {
        assert(partial.found.update(id, true) =~= partial.found);
    } else {
        let part = message_body(data, id);
        if id < n - 1 {
            assert(body.len() == m);
            assert(body =~= part);
        }
        let sized = if id == n - 1 {
            truncated(partial.bytes, id * m + body.len())
        } else {
            partial.bytes
        };
        assert(id * m + body.len() <= sized.len());
        assert(grown.bytes == overwrite(sized, id * m, body));
        assert(grown.bytes.len() == sized.len());
        assert forall|k: int|
            0 <= k < data.len() && grown.found[k / m] implies #[trigger] grown.bytes[k]
            == data[k] by {
            law_bodies_cover_packet(data, k);
            let j = k / m;
            if j == id {
                assert(grown.bytes[k] == body[k - id * m]);
                assert(body[k - id * m] == part[k - id * m]);
            } else {
                assert(partial.found[j]);
                assert(partial.bytes[k] == data[k]);
                assert(k < id * m || k >= id * m + m) by (nonlinear_arith)
                    requires
                        j == k / m,
                        j != id,
                        m == 65491,
                ;
                if id == n - 1 {
                    assert(k < id * m);
                }
                assert(grown.bytes[k] == sized[k]);
            }
        }
    }
}

/// A complete packet that is on its way to `data` has arrived there.
proof fn lemma_complete_agrees(partial: Partial, data: Seq<u8>, exact: bool)
    requires
        sendable(data.len()),
        agrees(partial, data, exact),
        partial.complete(),
    ensures
        data.is_prefix_of(partial.bytes),
        exact ==> partial.bytes == data,
{
    let n = message_count(data.len()) as int;
    assert(partial.found[n - 1]);
    assert forall|k: int| 0 <= k < data.len() implies partial.bytes[k] == data[k] by {
        law_bodies_cover_packet(data, k);
        assert(partial.found[k / MAX_MESSAGE_BODY_SIZE as int]);
    }
    assert(data =~= partial.bytes.take(data.len() as int));
    if exact {
        assert(partial.bytes =~= data);
    }
}

/// Whether message `id` is among the arrivals.
pub open spec fn has_arrived(arrivals: Seq<(MessageHeader, Seq<u8>)>, id: int) -> bool {
    exists|k: int| 0 <= k < arrivals.len() && (#[trigger] arrivals[k]).0.message_id == id
}

/// One thing that happens to a stream.
pub enum Step {
    /// A message is received, and finds its place in the buffer.
    Receive { at: int, message: (MessageHeader, Seq<u8>) },
    /// The newest message is looked at, and a packet that it completes is decoded or found to be
    /// no packet.
    Look { now: i64, decoded: bool },
}

/// The stream after one thing has happened.
pub open spec fn after_step(s: StreamState, step: Step) -> StreamState {
    match step {
        Step::Receive { at, message } => StreamState {
            queue: s.queue_with_room().insert(at, message),
            ..s
        },
        Step::Look { now, decoded } => match s.outcome(now) {
            Outcome::Complete { packet_id, .. } => s.after_delivery(now).after_decoding(
                packet_id,
                decoded,
            ),
            _ => s.after_delivery(now),
        },
    }
}

/// The stream after several things have happened.
pub open spec fn after_steps(s: StreamState, steps: Seq<Step>) -> StreamState
    decreases steps.len(),
{
    if steps.len() == 0 {
        s
    } else {
        after_step(after_steps(s, steps.drop_last()), steps.last())
    }
}

/// Whether a message of the packet is looked at next.
pub open spec fn is_next(queue: Seq<(MessageHeader, Seq<u8>)>, packet_id: u32) -> bool {
    queue.len() > 0 && queue.last().0.packet_id == packet_id
}

/// The messages of the packet that have been looked at.
pub open spec fn looked_at(s: StreamState, steps: Seq<Step>, packet_id: u32) -> Seq<
    (MessageHeader, Seq<u8>),
>
    decreases steps.len(),
{
    if steps.len() == 0 {
        Seq::empty()
    } else {
        let earlier = looked_at(s, steps.drop_last(), packet_id);
        let queue = after_steps(s, steps.drop_last()).queue;
        if steps.last() is Look && is_next(queue, packet_id) {
            earlier.push(queue.last())
        } else {
            earlier
        }
    }
}

/// Whether a message that has the id of the packet is a message of the packet. It may belong to
/// another packet, unless the packet is `alone`.
pub open spec fn belongs(
    message: (MessageHeader, Seq<u8>),
    data: Seq<u8>,
    packet_id: u32,
    exact: bool,
    alone: bool,
) -> bool {
    if message.0.packet_id == packet_id {
        is_message_of(message, data, packet_id, exact)
    } else {
        !alone
    }
}

/// Whether the messages that have the id of the packet are messages of the packet, in any order and
/// any number of times. There may be messages of other packets among them, unless the packet is
/// `alone`.
pub open spec fn messages_of(
    queue: Seq<(MessageHeader, Seq<u8>)>,
    data: Seq<u8>,
    packet_id: u32,
    exact: bool,
    alone: bool,
) -> bool {
    forall|i: int|
        0 <= i < queue.len() ==> belongs(#[trigger] queue[i], data, packet_id, exact, alone)
}

/// Whether a message is not too old when it is looked at.
pub open spec fn is_timely(now: i64, timestamp: i64) -> bool {
    i64::MIN <= now - timestamp <= 100
}

/// Whether a look goes well for the packet: no message of the packet is too old when it is looked
/// at, and no message of another packet completes one that the packet is behind.
pub open spec fn is_good_look(s: StreamState, now: i64, decoded: bool, packet_id: u32) -> bool {
    if is_next(s.queue, packet_id) {
        is_timely(now, s.queue.last().0.timestamp)
    } else {
        s.outcome(now) matches Outcome::Complete { packet_id: other, .. } ==> decoded
            ==> !out_of_order(packet_id, other)
    }
}

/// Whether whatever is received with the id of the packet is a message of the packet, and every
/// look goes well for the packet.
pub open spec fn steps_of(
    s: StreamState,
    steps: Seq<Step>,
    data: Seq<u8>,
    packet_id: u32,
    exact: bool,
    alone: bool,
) -> bool
    decreases steps.len(),
{
    steps.len() > 0 ==> {
        let t = after_steps(s, steps.drop_last());
        &&& steps_of(s, steps.drop_last(), data, packet_id, exact, alone)
        &&& match steps.last() {
            Step::Receive { at, message } => {
                &&& belongs(message, data, packet_id, exact, alone)
                &&& 0 <= at <= t.queue_with_room().len()
            },
            Step::Look { now, decoded } => is_good_look(t, now, decoded, packet_id),
        }
    }
}

/// Whether the stream waits for a packet: whatever in its buffer has the id of the packet is a
/// message of the packet, nothing of the packet has been found, and the packet is not behind the
/// last one received.
pub open spec fn awaits(
    s: StreamState,
    data: Seq<u8>,
    packet_id: u32,
    exact: bool,
    alone: bool,
) -> bool {
    &&& messages_of(s.queue, data, packet_id, exact, alone)
    &&& !s.pending.dom().contains(packet_id)
    &&& !out_of_order(packet_id, s.last_received_packet_id)
}

/// What happens to the buffer leaves only messages in it that can be there.
proof fn lemma_messages_of(
    s: StreamState,
    data: Seq<u8>,
    packet_id: u32,
    steps: Seq<Step>,
    exact: bool,
    alone: bool,
)
    requires
        messages_of(s.queue, data, packet_id, exact, alone),
        steps_of(s, steps, data, packet_id, exact, alone),
    ensures
        messages_of(after_steps(s, steps).queue, data, packet_id, exact, alone),
        after_steps(s, steps).next_packet_id == s.next_packet_id,
    decreases steps.len(),
{
    if steps.len() > 0 {
        let t = after_steps(s, steps.drop_last());
        let queue = after_steps(s, steps).queue;
        lemma_messages_of(s, data, packet_id, steps.drop_last(), exact, alone);
        let dropped: int = if t.queue.len() >= RECV_BUFFER_CAP {
            1
        } else {
            0
        };
        assert forall|i: int| 0 <= i < queue.len() implies belongs(
            #[trigger] queue[i],
            data,
            packet_id,
            exact,
            alone,
        ) by {
            match steps.last() {
                Step::Receive { at, message } => {
                    if i != at {
                        let j = if i < at {
                            i
                        } else {
                            i - 1
                        };
                        assert(queue[i] == t.queue_with_room()[j]);
                        assert(queue[i] == t.queue[j + dropped]);
                    }
                },
                Step::Look { .. } => {
                    assert(queue[i] == t.queue[i]);
                },
            }
        }
    }
}

/// One more message does not make another one arrive.
proof fn lemma_has_arrived_push(
    arrivals: Seq<(MessageHeader, Seq<u8>)>,
    arrival: (MessageHeader, Seq<u8>),
    id: int,
)
    ensures
        has_arrived(arrivals.push(arrival), id) <==> (has_arrived(arrivals, id)
            || arrival.0.message_id == id),
{
    let all = arrivals.push(arrival);
    if has_arrived(arrivals, id) {
        let k = choose|k: int|
            0 <= k < arrivals.len() && (#[trigger] arrivals[k]).0.message_id == id;
        assert(all[k].0.message_id == id);
    }
    if arrival.0.message_id == id {
        assert(all[arrivals.len() as int].0.message_id == id);
    }
    if has_arrived(all, id) && arrival.0.message_id != id {
        let k = choose|k: int| 0 <= k < all.len() && (#[trigger] all[k]).0.message_id == id;
        assert(arrivals[k].0.message_id == id);
    }
}

/// Whether just the messages in `seen` have been found of the packet, and what is known of it
/// agrees with it.
pub open spec fn knows(
    s: StreamState,
    seen: Seq<(MessageHeader, Seq<u8>)>,
    data: Seq<u8>,
    packet_id: u32,
    exact: bool,
) -> bool {
    let partial = s.partial_of(message_header(data.len(), 0, packet_id, 0));
    &&& agrees(partial, data, exact)
    &&& forall|id: int|
        0 <= id < message_count(data.len()) ==> (#[trigger] partial.found[id] <==> has_arrived(
            seen,
            id,
        ))
}

/// What one look at a message of the packet does, when the messages in `seen` have been looked at
/// before.
#[verifier::spinoff_prover]
proof fn lemma_look(
    t: StreamState,
    seen: Seq<(MessageHeader, Seq<u8>)>,
    data: Seq<u8>,
    packet_id: u32,
    exact: bool,
    now: i64,
)
    requires
        sendable(data.len()),
        is_next(t.queue, packet_id),
        is_message_of(t.queue.last(), data, packet_id, exact),
        !out_of_order(packet_id, t.last_received_packet_id),
        is_timely(now, t.queue.last().0.timestamp),
        knows(t, seen, data, packet_id, exact),
    ensures
        ({
            let arrival = t.queue.last();
            let header = message_header(data.len(), 0, packet_id, 0);
            let grown = t.partial_of(header).with_message(arrival.0, arrival.1);
            let after = t.after_delivery(now);
            &&& t.deliverable(now)
            &&& agrees(grown, data, exact)
            &&& forall|id: int|
                0 <= id < message_count(data.len()) ==> (#[trigger] grown.found[id]
                    <==> has_arrived(seen.push(arrival), id))
            &&& t.outcome(now) == if has_arrived(seen, arrival.0.message_id as int) {
                Outcome::Duplicate
            } else if grown.complete() {
                Outcome::Complete { packet_id, bytes: grown.bytes }
            } else {
                Outcome::Stored
            }
            &&& after.pending.remove(packet_id) == t.pending.remove(packet_id)
            &&& !(t.outcome(now) is Complete) ==> knows(
                after,
                seen.push(arrival),
                data,
                packet_id,
                exact,
            )
            &&& t.outcome(now) is Complete ==> after.pending == t.pending.remove(packet_id)
        }),
{
    let arrival = t.queue.last();
    let first = message_header(data.len(), 0, packet_id, 0);
    let partial = t.partial_of(first);
    assert(t.partial_of(arrival.0) == partial);
    lemma_message_agrees(partial, data, arrival, packet_id, exact);
    let grown = partial.with_message(arrival.0, arrival.1);
    let after = t.after_delivery(now);
    assert forall|id: int| 0 <= id < message_count(data.len()) implies (#[trigger] grown.found[id]
        <==> has_arrived(seen.push(arrival), id)) by {
        lemma_has_arrived_push(seen, arrival, id);
        assert(partial.found[id] <==> has_arrived(seen, id));
    }
    assert(partial.found[arrival.0.message_id as int] <==> has_arrived(
        seen,
        arrival.0.message_id as int,
    ));
    assert(after.pending.remove(packet_id) =~= t.pending.remove(packet_id));
    if !(t.outcome(now) is Complete) {
        assert(after.partial_of(first) == grown);
    }
}

/// A packet waits for its messages: however they come in and wait in the buffer, whatever comes in
/// of other packets, as long as one of them has not been looked at, every message of the packet can
/// be looked at and is stored, nothing of the packet is handed out, and no other packet is touched.
pub proof fn law_incomplete_packet_waits(
    s: StreamState,
    data: Seq<u8>,
    packet_id: u32,
    steps: Seq<Step>,
    exact: bool,
    alone: bool,
    missing: int,
)
    requires
        sendable(data.len()),
        awaits(s, data, packet_id, exact, alone),
        steps_of(s, steps, data, packet_id, exact, alone),
        0 <= missing < message_count(data.len()),
        !has_arrived(looked_at(s, steps, packet_id), missing),
    ensures
        ({
            let t = after_steps(s, steps);
            &&& messages_of(t.queue, data, packet_id, exact, alone)
            &&& t.next_packet_id == s.next_packet_id
            &&& !out_of_order(packet_id, t.last_received_packet_id)
            &&& knows(t, looked_at(s, steps, packet_id), data, packet_id, exact)
            &&& alone ==> t.last_received_packet_id == s.last_received_packet_id
            &&& alone ==> t.pending.remove(packet_id) == s.pending
        }),
        steps.len() > 0 ==> (steps.last() matches Step::Look { now, decoded } ==> {
            let before = after_steps(s, steps.drop_last());
            let after = after_steps(s, steps);
            is_next(before.queue, packet_id) ==> {
                &&& before.deliverable(now)
                &&& before.outcome(now) is Stored || before.outcome(now) is Duplicate
                &&& after.pending.remove(packet_id) == before.pending.remove(packet_id)
                &&& after.last_received_packet_id == before.last_received_packet_id
            }
        }),
    decreases steps.len(),
{
    let first = message_header(data.len(), 0, packet_id, 0);
    lemma_messages_of(s, data, packet_id, steps, exact, alone);
    if steps.len() == 0 {
        lemma_fresh_agrees(data, exact);
        assert(s.pending.remove(packet_id) =~= s.pending);
    } else {
        let earlier = steps.drop_last();
        let t = after_steps(s, earlier);
        let seen = looked_at(s, earlier, packet_id);
        let after = after_steps(s, steps);
        if t.queue.len() > 0 {
            lemma_has_arrived_push(seen, t.queue.last(), missing);
        }
        law_incomplete_packet_waits(s, data, packet_id, earlier, exact, alone, missing);
        match steps.last() {
            Step::Receive { at, message } => {
                assert(after.partial_of(first) == t.partial_of(first));
            },
            Step::Look { now, decoded } => {
                if is_next(t.queue, packet_id) {
                    assert(belongs(
                        t.queue[t.queue.len() - 1],
                        data,
                        packet_id,
                        exact,
                        alone,
                    ));
                    lemma_look(t, seen, data, packet_id, exact, now);
                    let arrival = t.queue.last();
                    let grown = t.partial_of(first).with_message(arrival.0, arrival.1);
                    assert(!grown.found[missing]);
                } else {
                    if t.queue.len() > 0 {
                        assert(belongs(
                            t.queue[t.queue.len() - 1],
                            data,
                            packet_id,
                            exact,
                            alone,
                        ));
                    }
                    assert(after.partial_of(first) == t.partial_of(first));
                }
            },
        }
    }
}

/// A packet survives the network: however its messages are ordered and repeated, whether they wait
/// in the buffer together or not, and whatever comes in of other packets, the look at the message
/// that was still missing completes the packet, and the bytes handed out start with the bytes sent.
/// They are the bytes sent if the datagrams carry nothing after the parts of the packet. No other
/// packet is touched.
pub proof fn law_packet_round_trip(
    s: StreamState,
    data: Seq<u8>,
    packet_id: u32,
    steps: Seq<Step>,
    now: i64,
    exact: bool,
    alone: bool,
)
    requires
        sendable(data.len()),
        awaits(s, data, packet_id, exact, alone),
        steps_of(s, steps, data, packet_id, exact, alone),
        ({
            let t = after_steps(s, steps);
            let seen = looked_at(s, steps, packet_id);
            &&& is_next(t.queue, packet_id)
            &&& is_timely(now, t.queue.last().0.timestamp)
            &&& !has_arrived(seen, t.queue.last().0.message_id as int)
            &&& forall|id: int|
                0 <= id < message_count(data.len()) ==> #[trigger] has_arrived(
                    seen.push(t.queue.last()),
                    id,
                )
        }),
    ensures
        ({
            let t = after_steps(s, steps);
            &&& t.deliverable(now)
            &&& t.outcome(now) matches Outcome::Complete { packet_id: id, bytes }
            &&& id == packet_id
            &&& data.is_prefix_of(bytes)
            &&& exact ==> bytes == data
            &&& t.after_delivery(now) == (StreamState {
                queue: t.queue.drop_last(),
                pending: t.pending.remove(packet_id),
                ..t
            })
            &&& t.next_packet_id == s.next_packet_id
            &&& alone ==> t.after_delivery(now) == (StreamState { queue: t.queue.drop_last(), ..s })
        }),
{
    let t = after_steps(s, steps);
    let seen = looked_at(s, steps, packet_id);
    let arrival = t.queue.last();
    let missing = arrival.0.message_id as int;
    lemma_messages_of(s, data, packet_id, steps, exact, alone);
    assert(belongs(t.queue[t.queue.len() - 1], data, packet_id, exact, alone));
    law_incomplete_packet_waits(s, data, packet_id, steps, exact, alone, missing);
    lemma_look(t, seen, data, packet_id, exact, now);
    let first = message_header(data.len(), 0, packet_id, 0);
    let grown = t.partial_of(first).with_message(arrival.0, arrival.1);
    assert forall|id: int| 0 <= id < grown.found.len() implies #[trigger] grown.found[id] by {
        assert(has_arrived(seen.push(arrival), id));
    }
    lemma_complete_agrees(grown, data, exact);
    assert(t.after_delivery(now).queue == t.queue.drop_last());
}

/// Whether the buffer holds message `id` of the packet.
pub open spec fn holds(queue: Seq<(MessageHeader, Seq<u8>)>, packet_id: u32, id: int) -> bool {
    exists|k: int|
        0 <= k < queue.len() && (#[trigger] queue[k]).0.packet_id == packet_id
            && queue[k].0.message_id == id
}

/// What is left in the buffer after `k` looks, and what has been looked at: the newest messages.
proof fn lemma_looks(
    s: StreamState,
    steps: Seq<Step>,
    k: int,
    data: Seq<u8>,
    packet_id: u32,
    exact: bool,
    alone: bool,
)
    requires
        steps.len() <= s.queue.len(),
        0 <= k <= steps.len(),
        forall|i: int| 0 <= i < steps.len() ==> (#[trigger] steps[i]) is Look,
        steps_of(s, steps, data, packet_id, exact, alone),
    ensures
        after_steps(s, steps.take(k)).queue == s.queue.take(s.queue.len() - k),
        forall|id: int| #[trigger]
            has_arrived(looked_at(s, steps.take(k), packet_id), id) <==> holds(
                s.queue.skip(s.queue.len() - k),
                packet_id,
                id,
            ),
        steps_of(s, steps.take(k), data, packet_id, exact, alone),
    decreases steps.len(), k,
{
    let n = s.queue.len() as int;
    let seen = looked_at(s, steps.take(k), packet_id);
    let newest = s.queue.skip(n - k);
    if k < steps.len() {
        assert forall|i: int| 0 <= i < steps.drop_last().len() implies (
        #[trigger] steps.drop_last()[i]) is Look by {
            assert(steps[i] is Look);
        }
        lemma_looks(s, steps.drop_last(), k, data, packet_id, exact, alone);
        assert(steps.drop_last().take(k) =~= steps.take(k));
    } else if k == 0 {
        assert(s.queue.take(n) =~= s.queue);
        assert(steps.take(0) =~= Seq::empty());
    } else {
        assert(steps.take(k) =~= steps);
        let earlier = steps.drop_last();
        assert(steps.take(k - 1) =~= earlier);
        assert forall|i: int| 0 <= i < earlier.len() implies (#[trigger] earlier[i]) is Look by {
            assert(steps[i] is Look);
        }
        lemma_looks(s, earlier, k - 1, data, packet_id, exact, alone);
        assert(earlier.take(k - 1) =~= earlier);
        assert(steps[k - 1] is Look);
        let t = after_steps(s, earlier);
        let before = s.queue.skip(n - (k - 1));
        assert(t.queue.last() == s.queue[n - k]);
        assert(t.queue.drop_last() =~= s.queue.take(n - k));
        assert forall|id: int| #[trigger] has_arrived(seen, id) <==> holds(newest, packet_id, id) by {
            lemma_has_arrived_push(looked_at(s, earlier, packet_id), t.queue.last(), id);
            assert(has_arrived(looked_at(s, earlier, packet_id), id) <==> holds(
                before,
                packet_id,
                id,
            ));
            assert(newest[0] == t.queue.last());
            if holds(before, packet_id, id) {
                let i = choose|i: int|
                    0 <= i < before.len() && (#[trigger] before[i]).0.packet_id == packet_id
                        && before[i].0.message_id == id;
                assert(newest[i + 1] == before[i]);
            }
            if holds(newest, packet_id, id) {
                let i = choose|i: int|
                    0 <= i < newest.len() && (#[trigger] newest[i]).0.packet_id == packet_id
                        && newest[i].0.message_id == id;
                if i > 0 {
                    assert(before[i - 1] == newest[i]);
                }
            }
        }
    }
}

/// A packet whose messages wait together in the buffer, each of them once and in any order, with
/// messages of other packets between them, is handed out when its oldest message is looked at: the
/// looks before at a message of the packet store it, and this one completes the packet. Once it has
/// been decoded, nothing of it is left in the stream, and it is the last packet received.
pub proof fn law_waiting_packet_round_trip(
    s: StreamState,
    data: Seq<u8>,
    packet_id: u32,
    oldest: int,
    steps: Seq<Step>,
    now: i64,
    exact: bool,
    alone: bool,
)
    requires
        sendable(data.len()),
        awaits(s, data, packet_id, exact, alone),
        0 <= oldest < s.queue.len(),
        s.queue[oldest].0.packet_id == packet_id,
        forall|i: int| 0 <= i < oldest ==> (#[trigger] s.queue[i]).0.packet_id != packet_id,
        forall|id: int|
            0 <= id < message_count(data.len()) ==> #[trigger] holds(s.queue, packet_id, id),
        forall|i: int, j: int|
            0 <= i < j < s.queue.len() && (#[trigger] s.queue[i]).0.packet_id == packet_id && (
            #[trigger] s.queue[j]).0.packet_id == packet_id ==> s.queue[i].0.message_id
                != s.queue[j].0.message_id,
        steps.len() == s.queue.len() - 1 - oldest,
        forall|i: int| 0 <= i < steps.len() ==> (#[trigger] steps[i]) is Look,
        steps_of(s, steps, data, packet_id, exact, alone),
        is_timely(now, s.queue[oldest].0.timestamp),
    ensures
        forall|k: int|
            0 <= k < steps.len() && is_next(
                (#[trigger] after_steps(s, steps.take(k))).queue,
                packet_id,
            ) ==> {
                let t = after_steps(s, steps.take(k));
                &&& t.deliverable(steps[k]->now)
                &&& t.outcome(steps[k]->now) is Stored
            },
        ({
            let t = after_steps(s, steps);
            &&& t.queue == s.queue.take(oldest + 1)
            &&& t.deliverable(now)
            &&& t.outcome(now) matches Outcome::Complete { packet_id: id, bytes }
            &&& id == packet_id
            &&& data.is_prefix_of(bytes)
            &&& exact ==> bytes == data
            &&& t.after_delivery(now).after_decoding(packet_id, true) == (StreamState {
                queue: s.queue.take(oldest),
                pending: t.pending.remove(packet_id),
                next_packet_id: s.next_packet_id,
                last_received_packet_id: packet_id,
            })
            &&& alone ==> t.pending.remove(packet_id) == s.pending
        }),
{
    let n = s.queue.len() as int;
    assert(belongs(s.queue[oldest], data, packet_id, exact, alone));
    let missing = s.queue[oldest].0.message_id as int;
    assert forall|k: int| 0 <= k <= steps.len() implies ({
        let t = #[trigger] after_steps(s, steps.take(k));
        let seen = looked_at(s, steps.take(k), packet_id);
        &&& t.queue == s.queue.take(n - k)
        &&& steps_of(s, steps.take(k), data, packet_id, exact, alone)
        &&& !has_arrived(seen, missing)
        &&& is_next(t.queue, packet_id) ==> !has_arrived(seen, t.queue.last().0.message_id as int)
    }) by {
        let t = after_steps(s, steps.take(k));
        let seen = looked_at(s, steps.take(k), packet_id);
        let newest = s.queue.skip(n - k);
        lemma_looks(s, steps, k, data, packet_id, exact, alone);
        assert(t.queue.last() == s.queue[n - k - 1]);
        assert forall|id: int|
            id == missing || (is_next(t.queue, packet_id) && id
                == t.queue.last().0.message_id) implies !#[trigger] has_arrived(seen, id) by {
            if holds(newest, packet_id, id) {
                let i = choose|i: int|
                    0 <= i < newest.len() && (#[trigger] newest[i]).0.packet_id == packet_id
                        && newest[i].0.message_id == id;
                assert(s.queue[n - k + i] == newest[i]);
                assert(s.queue[oldest].0.packet_id == packet_id);
            }
        }
    }
    assert forall|k: int|
        0 <= k < steps.len() && is_next(
            (#[trigger] after_steps(s, steps.take(k))).queue,
            packet_id,
        ) implies {
        let t = after_steps(s, steps.take(k));
        &&& t.deliverable(steps[k]->now)
        &&& t.outcome(steps[k]->now) is Stored
    } by {
        let t = after_steps(s, steps.take(k));
        let seen = looked_at(s, steps.take(k), packet_id);
        let next = steps.take(k + 1);
        assert(next.drop_last() =~= steps.take(k));
        assert(steps[k] is Look);
        assert(!has_arrived(seen, missing));
        assert(after_steps(s, next).queue == s.queue.take(n - (k + 1)));
        assert(!has_arrived(looked_at(s, next, packet_id), missing));
        law_incomplete_packet_waits(s, data, packet_id, next, exact, alone, missing);
        law_incomplete_packet_waits(s, data, packet_id, steps.take(k), exact, alone, missing);
        assert(belongs(t.queue[t.queue.len() - 1], data, packet_id, exact, alone));
        lemma_look(t, seen, data, packet_id, exact, steps[k]->now);
    }
    assert(steps.take(steps.len() as int) =~= steps);
    let t = after_steps(s, steps);
    let seen = looked_at(s, steps, packet_id);
    assert(t.queue == s.queue.take(oldest + 1));
    assert(t.queue.last() == s.queue[oldest]);
    lemma_looks(s, steps, steps.len() as int, data, packet_id, exact, alone);
    assert forall|id: int| 0 <= id < message_count(data.len()) implies #[trigger] has_arrived(
        seen.push(t.queue.last()),
        id,
    ) by {
        lemma_has_arrived_push(seen, t.queue.last(), id);
        assert(holds(s.queue, packet_id, id));
        let i = choose|i: int|
            0 <= i < n && (#[trigger] s.queue[i]).0.packet_id == packet_id
                && s.queue[i].0.message_id == id;
        if i > oldest {
            let newest = s.queue.skip(oldest + 1);
            assert(newest[i - oldest - 1] == s.queue[i]);
            assert(holds(newest, packet_id, id));
        }
    }
    law_packet_round_trip(s, data, packet_id, steps, now, exact, alone);
    law_incomplete_packet_waits(s, data, packet_id, steps, exact, alone, missing);
    assert(t.queue.drop_last() =~= s.queue.take(oldest));
}

/// A message that has been on its way for more than 100 milliseconds is dropped, whatever it is, and
/// nothing else changes. No other message is dropped for its age.
pub proof fn law_late_messages_are_dropped(s: StreamState, now: i64)
    requires
        s.queue.len() > 0,
    ensures
        ({
            let timestamp = s.queue.last().0.timestamp;
            let ordered = !out_of_order(
                s.queue.last().0.packet_id,
                s.last_received_packet_id,
            );
            &&& s.outcome(now) is Late <==> ordered && now - timestamp > 100
            &&& s.outcome(now) is OutOfOrder <==> !ordered
            &&& s.outcome(now) is Late || s.outcome(now) is OutOfOrder ==> s.after_delivery(now)
                == (StreamState { queue: s.queue.drop_last(), ..s })
        }),
{
}

/// The newest message is looked at first: none in the buffer was sent after it. It leaves the
/// buffer, the others stay in their order, and the ids of the stream do not change.
pub proof fn law_newest_message_first(s: StreamState, now: i64, i: int)
    requires
        s.valid(),
        0 <= i < s.queue.len(),
    ensures
        s.queue[i].0.timestamp <= s.queue.last().0.timestamp,
        s.after_delivery(now).queue.len() == s.queue.len() - 1,
        i < s.queue.len() - 1 ==> s.after_delivery(now).queue[i] == s.queue[i],
        s.after_delivery(now).next_packet_id == s.next_packet_id,
        s.after_delivery(now).last_received_packet_id == s.last_received_packet_id,
        !(s.outcome(now) is Empty),
{
}

/// The buffer holds 100 messages: one more takes the place of the oldest, and only of the oldest.
pub proof fn law_full_buffer_drops_the_oldest(s: StreamState, i: int)
    requires
        s.valid(),
        0 <= i < s.queue.len(),
    ensures
        s.queue.len() <= 100,
        s.queue.len() < 100 ==> s.queue_with_room() == s.queue,
        s.queue.len() == 100 ==> {
            &&& s.queue_with_room().len() == 99
            &&& s.queue[0].0.timestamp <= s.queue[i].0.timestamp
            &&& i > 0 ==> s.queue_with_room()[i - 1] == s.queue[i]
        },
{
}

/// Without a message nothing happens.
pub proof fn law_no_message(s: StreamState, now: i64)
    ensures
        s.outcome(now) is Empty <==> s.queue.len() == 0,
        s.queue.len() == 0 ==> s.after_delivery(now) == s && s.deliverable(now),
{
}

/// Which newest messages can be looked at: a message behind the last packet received, or one that is
/// late and whose age can be computed, always; any other only if it has a place in its packet.
pub proof fn law_deliverable(s: StreamState, now: i64)
    requires
        s.queue.len() > 0,
    ensures
        ({
            let (header, body) = s.queue.last();
            let age = now - header.timestamp;
            &&& out_of_order(header.packet_id, s.last_received_packet_id) ==> s.deliverable(now)
            &&& !out_of_order(header.packet_id, s.last_received_packet_id) ==> {
                &&& age > i64::MAX || age < i64::MIN ==> !s.deliverable(now)
                &&& 100 < age <= i64::MAX ==> s.deliverable(now)
                &&& i64::MIN <= age <= 100 && !s.pending.dom().contains(header.packet_id)
                    && body.len() <= 65491 ==> (s.deliverable(now) <==> header.message_id
                    <= header.last_message_in_packet)
            }
        }),
{
    let (header, body) = s.queue.last();
    let id = header.message_id as int;
    let last = header.last_message_in_packet as int;
    law_fresh_packet(header.last_message_in_packet, id);
    assert(s.queue.last() == (header, body));
    assert(id <= last ==> id * 65491 + 65491 <= (last + 1) * 65491);
}

/// A message that is neither late nor behind counts as survived, and a message that is does not.
pub proof fn law_survival(s: StreamState, now: i64)
    ensures
        s.queue.len() == 0 ==> survival(s.outcome(now)) is None,
        s.queue.len() > 0 ==> survival(s.outcome(now)) == Some(
            !out_of_order(s.queue.last().0.packet_id, s.last_received_packet_id) && now
                - s.queue.last().0.timestamp <= 100,
        ),
{
}

/// A message that has been found before changes nothing but the buffer.
pub proof fn law_duplicates_change_nothing(s: StreamState, now: i64)
    requires
        s.queue.len() > 0,
        ({
            let header = s.queue.last().0;
            &&& s.pending.dom().contains(header.packet_id)
            &&& header.message_id < s.pending[header.packet_id].found.len()
            &&& s.pending[header.packet_id].found[header.message_id as int]
        }),
    ensures
        s.after_delivery(now) == (StreamState { queue: s.queue.drop_last(), ..s }),
        !(s.outcome(now) is Complete) && !(s.outcome(now) is Stored),
{
    let header = s.queue.last().0;
    assert(s.pending.insert(header.packet_id, s.pending[header.packet_id]) =~= s.pending);
}

/// Only a packet that could be decoded counts as received.
pub proof fn law_decoded_packets_are_received(s: StreamState, packet_id: u32)
    ensures
        s.after_decoding(packet_id, false) == s,
        s.after_decoding(packet_id, true) == (StreamState {
            last_received_packet_id: packet_id,
            ..s
        }),
{
}

/// The message of a packet that comes next is the part at its position, behind a header that says
/// so.
pub proof fn law_sent_message(sending: Sending, timestamp: i64)
    requires
        sendable(sending.data.len()),
    ensures
        sending.has_next() <==> sending.position < message_count(sending.data.len()),
        sending.message(timestamp).take(16) == message_header(
            sending.data.len(),
            sending.position as int,
            sending.packet_id,
            timestamp,
        ).layout(),
        sending.message(timestamp).skip(16) == message_body(
            sending.data,
            sending.position as int,
        ),
{
    let header = message_header(
        sending.data.len(),
        sending.position as int,
        sending.packet_id,
        timestamp,
    );
    lemma_header_length(header);
    assert(sending.message(timestamp).take(16) =~= header.layout());
    assert(sending.message(timestamp).skip(16) =~= message_body(
        sending.data,
        sending.position as int,
    ));
}

/// A stream stays valid: looking at the newest message, decoding a packet and sending one keep the
/// buffer sorted and bounded, and the incomplete packets sound.
pub proof fn law_stream_stays_valid(
    s: StreamState,
    now: i64,
    packet_id: u32,
    decoded: bool,
)
    requires
        s.valid(),
        s.deliverable(now),
    ensures
        StreamState::start().valid(),
        s.after_delivery(now).valid(),
        s.after_decoding(packet_id, decoded).valid(),
        s.after_send().valid(),
{
    if s.queue.len() > 0 {
        let t = s.after_delivery(now);
        let (header, body) = s.queue.last();
        let partial = s.partial_of(header);
        let grown = partial.with_message(header, body);
        assert forall|i: int, j: int| 0 <= i <= j < t.queue.len() implies #[trigger] t.queue[i].0.timestamp
            <= #[trigger] t.queue[j].0.timestamp by {
            assert(s.queue[i].0.timestamp <= s.queue[j].0.timestamp);
        }
        assert forall|i: int| 0 <= i < t.queue.len() implies (#[trigger] t.queue[i]).1.len()
            <= MAX_MESSAGE_BODY_SIZE by {
            assert(t.queue[i] == s.queue[i]);
        }
        assert forall|k: u32| t.pending.dom().contains(k) implies (#[trigger] t.pending[k]).valid() by {
            if k != header.packet_id || !(s.outcome(now) is Stored || s.outcome(now) is Duplicate) {
                assert(s.pending[k].valid());
            } else {
                assert(partial.valid());
                assert(grown.valid());
            }
        }
    }
}

/// Packet ids form a circle: a packet is never behind itself, the next one never behind the last,
/// and of two different packets one is behind the other. Both are behind each other only when
/// they lie opposite.
pub proof fn law_packet_order(a: u32, b: u32)
    ensures
        !out_of_order(a, a),
        !out_of_order(((a + 1) % 0x1_0000_0000) as u32, a),
        a != b ==> out_of_order(a, b) || out_of_order(b, a),
        (out_of_order(a, b) && out_of_order(b, a)) <==> packet_distance(a, b) == 0x8000_0000,
{
}

/// Once a packet has been received, no message of a packet behind it is looked at: it is dropped,
/// and what is known of the pending packets stays as it is.
pub proof fn law_older_packets_are_dropped(s: StreamState, received: u32, now: i64)
    requires
        s.queue.len() > 0,
        out_of_order(s.queue.last().0.packet_id, received),
    ensures
        ({
            let t = s.after_decoding(received, true);
            &&& t.deliverable(now)
            &&& t.outcome(now) is OutOfOrder
            &&& t.after_delivery(now) == StreamState { queue: s.queue.drop_last(), ..t }
        }),
{
}

/// The stream after `k` packets have been taken up for sending.
pub open spec fn after_sends(s: StreamState, k: nat) -> StreamState
    decreases k,
{
    if k == 0 {
        s
    } else {
        after_sends(s, (k - 1) as nat).after_send()
    }
}

/// Packets are numbered one after the other, around the circle of packet ids.
pub proof fn law_packet_ids(s: StreamState, k: nat)
    ensures
        after_sends(s, k) == (StreamState {
            next_packet_id: ((s.next_packet_id + k) % 0x1_0000_0000) as u32,
            ..s
        }),
    decreases k,
{
    if k > 0 {
        law_packet_ids(s, (k - 1) as nat);
    }
}

/// What is left of a packet after `k` more messages.
pub open spec fn after_messages(sending: Sending, k: nat) -> Sending
    decreases k,
{
    if k == 0 {
        sending
    } else {
        after_messages(sending, (k - 1) as nat).after_message()
    }
}

/// The messages of a packet are sent in order, each of them once, with the id of the packet: after
/// `k` messages, message `k` comes next, and after the last one none.
pub proof fn law_messages_in_order(data: Seq<u8>, packet_id: u32, k: nat)
    ensures
        ({
            let sending = after_messages(Sending { data, packet_id, position: 0 }, k);
            let n = message_count(data.len());
            &&& sending == (Sending {
                data,
                packet_id,
                position: if k < n {
                    k
                } else {
                    n
                },
            })
            &&& sending.has_next() <==> k < n
        }),
    decreases k,
{
    if k > 0 {
        law_messages_in_order(data, packet_id, (k - 1) as nat);
    }
}

} // verus!
