//! How the parts of a packet are put together again.
use rustc_hash::FxHashMap;
use vstd::prelude::*;

use crate::udp::fragment::{MessageHeader, MAX_MESSAGE_BODY_SIZE};

verus! {

/// The hasher of the map of incomplete packets.
#[verifier::external_type_specification]
#[verifier::external_body]
pub struct ExFxBuildHasher(rustc_hash::FxBuildHasher);

/// What is known of an incomplete packet: its bytes, as far as they have arrived, and which of
/// its messages have been found.
#[verifier::ext_equal]
pub struct Partial {
    pub bytes: Seq<u8>,
    pub found: Seq<bool>,
}

/// The number of flags that are set.
pub open spec fn count_found(found: Seq<bool>) -> nat
    decreases found.len(),
{
    if found.len() == 0 {
        0
    } else {
        count_found(found.drop_last()) + if found.last() {
            1nat
        } else {
            0nat
        }
    }
}

/// `s` with `part` written over the bytes that start at `at`.
pub open spec fn overwrite(s: Seq<u8>, at: int, part: Seq<u8>) -> Seq<u8> {
    s.take(at) + part + s.skip(at + part.len())
}

/// `s` cut to at most `len` bytes.
pub open spec fn truncated(s: Seq<u8>, len: int) -> Seq<u8> {
    if len < s.len() {
        s.take(len)
    } else {
        s
    }
}

impl Partial {
    /// A packet of which only the position of the last message is known: room for full messages,
    /// none of them found.
    pub open spec fn fresh(last_message: u16) -> Partial {
        Partial {
            bytes: Seq::new(((last_message + 1) * MAX_MESSAGE_BODY_SIZE) as nat, |i: int| 0u8),
            found: Seq::new((last_message + 1) as nat, |i: int| false),
        }
    }

    /// Whether the message has a place in the packet, and its part lies within the packet's bytes
    /// unless it has been found before.
    pub open spec fn fits(self, header: MessageHeader, body: Seq<u8>) -> bool {
        &&& header.message_id < self.found.len()
        &&& self.found[header.message_id as int] || header.message_id * MAX_MESSAGE_BODY_SIZE
            + body.len() <= self.bytes.len()
    }

    /// The packet with one more message: the message is marked as found, the last message fixes
    /// the size of the packet, and the part is written in its place. A message that has been
    /// found before changes nothing.
    pub open spec fn with_message(self, header: MessageHeader, body: Seq<u8>) -> Partial {
        let id = header.message_id as int;
        if self.found[id] {
            self
        } else {
            let sized = if header.message_id == header.last_message_in_packet {
                truncated(self.bytes, id * MAX_MESSAGE_BODY_SIZE + body.len())
            } else {
                self.bytes
            };
            Partial {
                bytes: overwrite(sized, id * MAX_MESSAGE_BODY_SIZE, body),
                found: self.found.update(id, true),
            }
        }
    }

    /// Whether every message of the packet has been found.
    pub open spec fn complete(self) -> bool {
        forall|i: int| 0 <= i < self.found.len() ==> #[trigger] self.found[i]
    }

    /// A packet has at least one message, and no more bytes than its messages can carry.
    pub open spec fn valid(self) -> bool {
        &&& 0 < self.found.len() <= 65536
        &&& self.bytes.len() <= self.found.len() * MAX_MESSAGE_BODY_SIZE
    }
}

/// A packet of which nothing is known has room for full messages, none of which has been found.
pub proof fn law_fresh_packet(last_message: u16, i: int)
    ensures
        Partial::fresh(last_message).bytes.len() == (last_message + 1) * 65491,
        Partial::fresh(last_message).found.len() == last_message + 1,
        0 <= i <= last_message ==> !Partial::fresh(last_message).found[i],
        Partial::fresh(last_message).valid(),
{
}

/// A message is stored in its place: its part stands where as many full parts end as there are
/// messages before it, the bytes around it stay, the last message cuts off what lies behind it, and
/// only this message becomes found.
pub proof fn law_message_is_stored(
    partial: Partial,
    header: MessageHeader,
    body: Seq<u8>,
    i: int,
    m: int,
)
    requires
        partial.fits(header, body),
        !partial.found[header.message_id as int],
    ensures
        ({
            let after = partial.with_message(header, body);
            let start = header.message_id * 65491;
            &&& after.bytes.len() == if header.message_id == header.last_message_in_packet {
                start + body.len()
            } else {
                partial.bytes.len() as int
            }
            &&& after.bytes.subrange(start, start + body.len()) == body
            &&& 0 <= i < after.bytes.len() && !(start <= i < start + body.len()) ==> after.bytes[i]
                == partial.bytes[i]
            &&& after.found.len() == partial.found.len()
            &&& 0 <= m < partial.found.len() ==> after.found[m] == (partial.found[m] || m
                == header.message_id)
        }),
{
    let after = partial.with_message(header, body);
    let start = header.message_id * 65491;
    assert(after.bytes.subrange(start, start + body.len()) =~= body);
}

/// A message that has been found before leaves the packet as it is.
pub proof fn law_repeated_message(partial: Partial, header: MessageHeader, body: Seq<u8>)
    requires
        partial.found[header.message_id as int],
    ensures
        partial.with_message(header, body) == partial,
{
}

/// A packet is complete once no message of it is missing.
pub proof fn law_complete(partial: Partial)
    ensures
        partial.complete() <==> !partial.found.contains(false),
        partial.complete() <==> count_found(partial.found) == partial.found.len(),
{
    lemma_count_complete(partial.found);
    if partial.complete() && partial.found.contains(false) {
        let i = choose|i: int| 0 <= i < partial.found.len() && partial.found[i] == false;
        assert(partial.found[i]);
    }
    if !partial.complete() {
        let i = choose|i: int| 0 <= i < partial.found.len() && !#[trigger] partial.found[i];
        assert(partial.found[i] == false);
        assert(partial.found.contains(false));
    }
}

/// Messages are counted one by one: without a flag the count is zero, a flag that is set adds one,
/// and one that is not set adds nothing.
pub proof fn law_count_found(found: Seq<bool>)
    ensures
        count_found(Seq::<bool>::empty()) == 0,
        count_found(found.push(true)) == count_found(found) + 1,
        count_found(found.push(false)) == count_found(found),
{
    assert(found.push(true).drop_last() =~= found);
    assert(found.push(false).drop_last() =~= found);
}

pub proof fn lemma_count_bound(found: Seq<bool>)
    ensures
        count_found(found) <= found.len(),
    decreases found.len(),
{
    if found.len() > 0 {
        lemma_count_bound(found.drop_last());
    }
}

/// All flags are set exactly when as many are set as there are.
pub proof fn lemma_count_complete(found: Seq<bool>)
    ensures
        count_found(found) == found.len() <==> (forall|i: int|
            0 <= i < found.len() ==> #[trigger] found[i]),
    decreases found.len(),
{
    if found.len() > 0 {
        let rest = found.drop_last();
        lemma_count_bound(rest);
        lemma_count_complete(rest);
        if count_found(found) == found.len() {
            assert forall|i: int| 0 <= i < found.len() implies #[trigger] found[i] by {
                if i < rest.len() {
                    assert(rest[i]);
                }
            }
        }
        if forall|i: int| 0 <= i < found.len() ==> #[trigger] found[i] {
            assert forall|i: int| 0 <= i < rest.len() implies #[trigger] rest[i] by {
                assert(found[i]);
            }
            assert(found[found.len() - 1]);
        }
    }
}

/// Setting a flag that was not set adds one.
pub proof fn lemma_count_update(found: Seq<bool>, i: int)
    requires
        0 <= i < found.len(),
        !found[i],
    ensures
        count_found(found.update(i, true)) == count_found(found) + 1,
    decreases found.len(),
{
    let updated = found.update(i, true);
    if i == found.len() - 1 {
        assert(updated.drop_last() =~= found.drop_last());
    } else {
        lemma_count_update(found.drop_last(), i);
        assert(updated.drop_last() =~= found.drop_last().update(i, true));
    }
}

pub proof fn lemma_count_none(found: Seq<bool>)
    requires
        forall|i: int| 0 <= i < found.len() ==> !#[trigger] found[i],
    ensures
        count_found(found) == 0,
    decreases found.len(),
{
    if found.len() > 0 {
        let rest = found.drop_last();
        assert forall|i: int| 0 <= i < rest.len() implies !#[trigger] rest[i] by {
            assert(!found[i]);
        }
        lemma_count_none(rest);
        assert(!found[found.len() - 1]);
    }
}

/// An incomplete packet.
pub struct PacketInfo {
    bytes: Vec<u8>,
    found: Vec<bool>,
    num_found: usize,
}

impl View for PacketInfo {
    type V = Partial;

    closed spec fn view(&self) -> Partial {
        Partial { bytes: self.bytes@, found: self.found@ }
    }
}

impl PacketInfo {
    /// The number of messages found agrees with the flags.
    pub closed spec fn wf(&self) -> bool {
        &&& self@.valid()
        &&& self.num_found == count_found(self.found@)
    }

    /// A packet of which no message has been found.
    pub fn new(last_message_in_packet: u16) -> (info: Self)
        ensures
            info.wf(),
            info@ == Partial::fresh(last_message_in_packet),
    {
        let num_messages_in_packet: usize = last_message_in_packet as usize + 1;
        let bytes = vec![0u8; num_messages_in_packet * MAX_MESSAGE_BODY_SIZE];
        let found = vec![false; num_messages_in_packet];
        let info = PacketInfo { bytes, found, num_found: 0 };
        proof {
            lemma_count_none(found@);
            assert(bytes@ =~= Partial::fresh(last_message_in_packet).bytes);
            assert(found@ =~= Partial::fresh(last_message_in_packet).found);
        }
        info
    }

    /// The number of messages found, and the number of messages in the packet.
    pub fn progress(&self) -> (r: (usize, usize))
        requires
            self.wf(),
        ensures
            r.0 == count_found(self@.found),
            r.1 == self@.found.len(),
    {
        (self.num_found, self.found.len())
    }

    /// Whether the message has a place in the packet.
    pub fn accepts(&self, header: &MessageHeader, body_len: usize) -> (r: bool)
        requires
            self.wf(),
            body_len <= MAX_MESSAGE_BODY_SIZE,
        ensures
            forall|body: Seq<u8>|
                body.len() == body_len ==> r == #[trigger] self@.fits(*header, body),
    {
        let id: usize = header.message_id as usize;
        id < self.found.len() && (self.found[id] || id * MAX_MESSAGE_BODY_SIZE + body_len
            <= self.bytes.len())
    }

    /// Puts a message in its place, and says whether it had not been found before.
    pub fn add_message(&mut self, header: &MessageHeader, body: &[u8]) -> (is_new: bool)
        requires
            old(self).wf(),
            old(self)@.fits(*header, body@),
            body@.len() <= MAX_MESSAGE_BODY_SIZE,
        ensures
            final(self).wf(),
            final(self)@ == old(self)@.with_message(*header, body@),
            is_new == !old(self)@.found[header.message_id as int],
    {
        let id: usize = header.message_id as usize;
        if self.found[id] {
            return false;
        }
        let ghost before = self@;
        proof {
            lemma_count_update(self.found@, id as int);
            lemma_count_bound(self.found@.update(id as int, true));
        }
        self.found.set(id, true);
        self.num_found = self.num_found + 1;
        let start: usize = id * MAX_MESSAGE_BODY_SIZE;
        if header.message_id == header.last_message_in_packet {
            // the last message fixes the size of the packet
            self.bytes.truncate(start + body.len());
        }
        let ghost sized = self.bytes@;
        let mut i: usize = 0;
        while i < body.len()
            invariant
                i <= body@.len(),
                body@.len() <= MAX_MESSAGE_BODY_SIZE,
                start + body@.len() <= sized.len(),
                start + body@.len() <= usize::MAX,
                self.bytes@.len() == sized.len(),
                forall|j: int|
                    0 <= j < sized.len() ==> #[trigger] self.bytes@[j] == if start <= j < start + i {
                        body@[j - start]
                    } else {
                        sized[j]
                    },
                self.found@ == before.found.update(id as int, true),
                self.num_found == count_found(self.found@),
            decreases body@.len() - i,
        {
            self.bytes.set(start + i, body[i]);
            i = i + 1;
        }
        assert(self.bytes@ =~= overwrite(sized, start as int, body@));
        true
    }

    /// Whether every message of the packet has been found.
    pub fn is_complete(&self) -> (r: bool)
        requires
            self.wf(),
        ensures
            r == self@.complete(),
    {
        proof {
            lemma_count_bound(self.found@);
            lemma_count_complete(self.found@);
        }
        self.num_found >= self.found.len()
    }

    /// The bytes of the packet.
    pub fn into_bytes(self) -> (bytes: Vec<u8>)
        ensures
            bytes@ == self@.bytes,
    {
        self.bytes
    }
}

/// `FxHashMap::get`: the entry of the id, if there is one.
#[verifier::external_body]
pub(crate) fn map_get(pending: &FxHashMap<u32, PacketInfo>, id: u32) -> (r: Option<&PacketInfo>)
    ensures
        r is Some <==> pending@.dom().contains(id),
        r matches Some(info) ==> *info == pending@[id],
{
    pending.get(&id)
}

/// `FxHashMap::insert`: the entry of the id becomes `info`, and no other entry changes.
#[verifier::external_body]
pub(crate) fn map_insert(pending: &mut FxHashMap<u32, PacketInfo>, id: u32, info: PacketInfo)
    ensures
        final(pending)@ == old(pending)@.insert(id, info),
{
    pending.insert(id, info);
}

/// `FxHashMap::remove`: takes the entry of the id out, if there is one, and changes no other.
#[verifier::external_body]
pub(crate) fn map_remove(pending: &mut FxHashMap<u32, PacketInfo>, id: u32) -> (r: Option<PacketInfo>)
    ensures
        final(pending)@ == old(pending)@.remove(id),
        r is Some <==> old(pending)@.dom().contains(id),
        r matches Some(info) ==> info == old(pending)@[id],
{
    pending.remove(&id)
}

} // verus!
