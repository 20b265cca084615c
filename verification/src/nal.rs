//! Where encoded video can be cut.
//!
//! Encoded video is a sequence of NAL units, each of which starts with a start code.
use vstd::prelude::*;

verus! {

/// Whether a NAL unit starts at position `i`.
pub open spec fn start_code_at(bytes: Seq<u8>, i: int) -> bool {
    &&& 0 <= i <= bytes.len() - 4
    &&& bytes[i] == 0
    &&& bytes[i + 1] == 0
    &&& bytes[i + 2] == 0
    &&& bytes[i + 3] == 1
}

/// Whether a NAL unit starts at position `i`.
pub fn is_start_code(bytes: &[u8], i: usize) -> (r: bool)
    requires
        i <= bytes@.len(),
    ensures
        r == start_code_at(bytes@, i as int),
        r <==> i + 4 <= bytes@.len() && bytes@.subrange(i as int, i + 4) == seq![0u8, 0, 0, 1],
{
    proof {
        law_start_code(bytes@, i as int);
    }
    bytes.len() - i >= 4 && bytes[i] == 0 && bytes[i + 1] == 0 && bytes[i + 2] == 0 && bytes[i + 3]
        == 1
}

/// A start code is the four bytes 0, 0, 0 and 1, wherever they stand together.
pub proof fn law_start_code(bytes: Seq<u8>, i: int)
    ensures
        start_code_at(bytes, i) <==> {
            &&& 0 <= i <= bytes.len() - 4
            &&& bytes.subrange(i, i + 4) == seq![0u8, 0, 0, 1]
        },
{
    let code = seq![0u8, 0, 0, 1];
    if 0 <= i <= bytes.len() - 4 {
        let found = bytes.subrange(i, i + 4);
        assert(found[0] == bytes[i] && found[1] == bytes[i + 1] && found[2] == bytes[i + 2]
            && found[3] == bytes[i + 3]);
        if start_code_at(bytes, i) {
            assert(found =~= code);
        }
    }
}

/// The contents of slices.
pub open spec fn contents(pieces: Seq<&[u8]>) -> Seq<Seq<u8>> {
    pieces.map_values(|piece: &[u8]| piece@)
}

/// The contents of slices stand in the order of the slices.
pub proof fn law_contents(pieces: Seq<&[u8]>, i: int)
    ensures
        contents(pieces).len() == pieces.len(),
        0 <= i < pieces.len() ==> contents(pieces)[i] == pieces[i]@,
{
}

/// Joining a piece and what follows it.
pub proof fn lemma_flatten_cons(piece: Seq<u8>, rest: Seq<Seq<u8>>)
    ensures
        (seq![piece] + rest).flatten() == piece + rest.flatten(),
{
    let all = seq![piece] + rest;
    assert(all.drop_first() =~= rest);
    assert(all.first() == piece);
}

} // verus!
