//! An encoder of audio, and what it has been asked to encode.
//!
//! An encoder has a state: what it makes of a chunk depends on all the chunks that it has encoded
//! before. So every call counts, also one whose result is thrown away, and [`ChunkEncoder`] keeps
//! account of them.
use vstd::prelude::*;

verus! {

/// One call of an encoder.
#[verifier::ext_equal]
pub struct EncoderCall<T> {
    /// The chunk that was encoded.
    pub chunk: Seq<T>,
    /// What the encoder's buffer held before and after.
    pub before: Seq<u8>,
    pub after: Seq<u8>,
    /// The number of bytes that the encoded chunk takes up.
    pub size: usize,
}

impl<T> EncoderCall<T> {
    /// What the chunk was encoded to.
    pub open spec fn encoded(self) -> Seq<u8> {
        self.after.take(self.size as int)
    }
}

/// An encoder that can be called only through [`ChunkEncoder::encode_chunk`].
pub struct ChunkEncoder<T, E> {
    encoder: E,
    calls: Ghost<Seq<EncoderCall<T>>>,
}

impl<T, E: FnMut(&[T], &mut [u8]) -> usize> ChunkEncoder<T, E> {
    /// The encoder.
    pub closed spec fn encoder(&self) -> E {
        self.encoder
    }

    /// All calls of the encoder, in their order.
    pub closed spec fn calls(&self) -> Seq<EncoderCall<T>> {
        self.calls@
    }

    /// An encoder that has not been called.
    pub fn new(encoder: E) -> (r: Self)
        ensures
            r.encoder() == encoder,
            r.calls() == Seq::<EncoderCall<T>>::empty(),
    {
        ChunkEncoder { encoder, calls: Ghost(Seq::empty()) }
    }

    /// Encodes a chunk, and returns the number of bytes that it takes up in the buffer. This is the
    /// only place where the encoder is called.
    pub fn encode_chunk(&mut self, chunk: &[T], buffer: &mut [u8]) -> (size: usize)
        requires
            forall|c: &[T], out: &mut [u8]|
                c@ == chunk@ && out@ == old(buffer)@ ==> #[trigger] call_requires(
                    old(self).encoder(),
                    (c, out),
                ),
        ensures
            final(self).encoder() == old(self).encoder(),
            final(self).calls() == old(self).calls().push(
                EncoderCall {
                    chunk: chunk@,
                    before: old(buffer)@,
                    after: final(buffer)@,
                    size,
                },
            ),
            exists|c: &[T], out: &mut [u8]|
                {
                    &&& #[trigger] call_ensures(old(self).encoder(), (c, out), size)
                    &&& c@ == chunk@
                    &&& out@ == old(buffer)@
                    &&& final(out)@ == final(buffer)@
                },
    {
        let ghost before = buffer@;
        assert(self.encoder() == self.encoder);
        let size: usize = (self.encoder)(chunk, buffer);
        proof {
            self.calls@ = self.calls@.push(
                EncoderCall { chunk: chunk@, before, after: buffer@, size },
            );
        }
        size
    }
}

} // verus!
