//! Packets over TCP: every packet is sent behind its size.
use vstd::prelude::*;

use crate::wire::{le_bytes, le_value, lemma_le_limits, lemma_le_round_trip};

verus! {

/// A packet, which says nothing but that it was sent.
pub struct Packet {}

/// What an operation on a socket that does not block came to.
#[derive(Debug, PartialEq, Eq)]
pub enum Attempt<T, E> {
    Done(T),
    /// There is nothing yet.
    WouldBlock,
    Failed(E),
}

impl<T, E> Attempt<T, E> {
    /// `Ok(None)` if there is nothing yet.
    pub fn into_result(self) -> (r: Result<Option<T>, E>)
        ensures
            r == match self {
                Attempt::Done(value) => Ok::<Option<T>, E>(Some(value)),
                Attempt::WouldBlock => Ok(None),
                Attempt::Failed(err) => Err(err),
            },
    {
        match self {
            Attempt::Done(value) => Ok(Some(value)),
            Attempt::WouldBlock => Ok(None),
            Attempt::Failed(err) => Err(err),
        }
    }

    /// `Ok(None)` says that there is nothing yet.
    pub fn from_result(result: Result<Option<T>, E>) -> (attempt: Self)
        ensures
            attempt == match result {
                Ok(Some(value)) => Attempt::<T, E>::Done(value),
                Ok(None) => Attempt::WouldBlock,
                Err(err) => Attempt::Failed(err),
            },
    {
        match result {
            Ok(Some(value)) => Attempt::Done(value),
            Ok(None) => Attempt::WouldBlock,
            Err(err) => Attempt::Failed(err),
        }
    }
}

/// What a loop does that waits for something.
#[derive(Debug, PartialEq, Eq)]
pub enum PollStep<T, E> {
    /// Stop waiting.
    Stop,
    /// There it is.
    Done(T),
    /// Try again.
    Again,
    /// Give up with the error.
    Failed(E),
}

/// What a loop does that waits for something, once it has tried: it stops if it has been told to,
/// tries again if there is nothing yet, and ends otherwise.
pub fn poll_step<T, E>(stopped: bool, attempt: Attempt<T, E>) -> (step: PollStep<T, E>)
    ensures
        step == if stopped {
            PollStep::<T, E>::Stop
        } else {
            match attempt {
                Attempt::Done(value) => PollStep::Done(value),
                Attempt::WouldBlock => PollStep::Again,
                Attempt::Failed(err) => PollStep::Failed(err),
            }
        },
{
    if stopped {
        return PollStep::Stop;
    }
    match attempt {
        Attempt::Done(value) => PollStep::Done(value),
        Attempt::WouldBlock => PollStep::Again,
        Attempt::Failed(err) => PollStep::Failed(err),
    }
}

/// The size that is sent for `len` bytes: what fits in four bytes.
pub open spec fn sent_size(len: nat) -> nat {
    len % 0x1_0000_0000
}

/// What is sent in front of a packet of `len` bytes.
pub fn size_bytes(len: usize) -> (bytes: [u8; 4])
    ensures
        bytes@ == le_bytes(sent_size(len as nat), 4),
        bytes@[0] + 0x100 * bytes@[1] + 0x1_0000 * bytes@[2] + 0x100_0000 * bytes@[3] == len as int
            % 0x1_0000_0000,
{
    let n: u64 = len as u64 % 0x1_0000_0000;
    let bytes: [u8; 4] = [
        (n % 256) as u8,
        (n / 256 % 256) as u8,
        (n / 0x1_0000 % 256) as u8,
        (n / 0x100_0000 % 256) as u8,
    ];
    proof {
        reveal_with_fuel(le_bytes, 5);
        assert(n / 256 / 256 == n / 0x1_0000 && n / 256 / 256 / 256 == n / 0x100_0000);
        assert(bytes@ =~= le_bytes(n as nat, 4));
    }
    bytes
}

/// The size of the packet behind these bytes.
pub fn packet_size(bytes: [u8; 4]) -> (size: u32)
    ensures
        size as nat == le_value(bytes@),
        size == bytes@[0] + 0x100 * bytes@[1] + 0x1_0000 * bytes@[2] + 0x100_0000 * bytes@[3],
{
    proof {
        reveal_with_fuel(le_value, 5);
        let s = bytes@;
        assert(s.skip(1)[0] == s[1]);
        assert(s.skip(1).skip(1)[0] == s[2]);
        assert(s.skip(1).skip(1).skip(1)[0] == s[3]);
    }
    bytes[0] as u32 + 0x100 * bytes[1] as u32 + 0x1_0000 * bytes[2] as u32 + 0x100_0000 * bytes[3] as u32
}

/// A packet survives the network: the receiver reads as many bytes as were sent behind the size,
/// whatever follows them, for every packet whose size fits in four bytes.
pub proof fn law_packet_round_trip(data: Seq<u8>, rest: Seq<u8>)
    requires
        data.len() < 0x1_0000_0000,
    ensures
        ({
            let sent = le_bytes(sent_size(data.len()), 4) + data + rest;
            let size = le_value(sent.take(4)) as int;
            &&& size == data.len()
            &&& sent.subrange(4, 4 + size) == data
        }),
{
    let sent = le_bytes(sent_size(data.len()), 4) + data + rest;
    lemma_le_limits();
    lemma_le_round_trip(data.len(), 4);
    assert(sent.take(4) =~= le_bytes(data.len(), 4));
    assert(sent.subrange(4, 4 + data.len() as int) =~= data);
}

} // verus!
