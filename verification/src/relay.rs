//! Relay engine, per-chunk step: once a CONNECT succeeded, each direction
//! repeatedly reads a chunk and forwards exactly those bytes, until a read
//! of zero bytes (end of stream) ends that direction. The step neither
//! interprets nor alters the bytes; the loop around it performs the reads
//! and writes and runs once per direction.
#![allow(unused_imports)]
use vstd::prelude::*;

verus! {

/// What one relay step decides for one read result.
pub enum RelayStep {
    /// Forward exactly these bytes to the other side.
    Forward(Vec<u8>),
    /// The source reached end of stream: this direction is finished.
    Done,
}

/// Decides one relay step: a read of `n` bytes into `buf` forwards exactly
/// the first `n` bytes unchanged; a read of zero ends the direction.
pub fn relay_step(buf: &Vec<u8>, n: usize) -> (r: RelayStep)
    requires
        n <= buf@.len(),
    ensures
        n == 0 ==> r is Done,
        n > 0 ==> (r matches RelayStep::Forward(out) && out@ == buf@.subrange(0, n as int)),
{
    if n == 0 {
        return RelayStep::Done;
    }
    let mut out: Vec<u8> = Vec::new();
    let mut i: usize = 0;
    while i < n
        invariant
            n <= buf@.len(),
            i <= n,
            out@ == buf@.subrange(0, i as int),
        decreases n - i,
    {
        out.push(buf[i]);
        proof {
            assert(buf@.subrange(0, i as int).push(buf@[i as int]) =~= buf@.subrange(
                0,
                i as int + 1,
            ));
        }
        i = i + 1;
    }
    proof {
        assert(buf@.subrange(0, 0) =~= Seq::<u8>::empty());
    }
    RelayStep::Forward(out)
}

/// The bytes a whole relay direction delivers: the concatenation of the
/// chunks its reads produced, in order.
pub open spec fn delivered(chunks: Seq<Seq<u8>>) -> Seq<u8>
    decreases chunks.len(),
{
    if chunks.len() == 0 {
        Seq::empty()
    } else {
        delivered(chunks.drop_last()) + chunks.last()
    }
}

/// Law (relay exactness): forwarding every chunk unchanged delivers exactly
/// the bytes read, no more and no fewer; in particular the delivered length
/// is the sum of the chunk lengths.
pub proof fn lemma_relay_delivers_exactly(chunks: Seq<Seq<u8>>, tail: Seq<u8>)
    ensures
        delivered(chunks.push(tail)) == delivered(chunks) + tail,
        delivered(chunks.push(tail)).len() == delivered(chunks).len() + tail.len(),
{
    assert(chunks.push(tail).drop_last() =~= chunks);
    assert(chunks.push(tail).last() == tail);
}

} // verus!
