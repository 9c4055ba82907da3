//! Framing of a text message into fixed-size chunks for a line that answers
//! each chunk with a two-byte reply.

use vstd::prelude::*;

verus! {

/// Number of bytes in a chunk.
pub const CHUNK_SIZE: usize = 32;

/// The chunk that carries `part`: the bytes of `part` followed by zeros.
pub open spec fn padded(part: Seq<u8>) -> Seq<u8> {
    Seq::new(32, |i: int| if i < part.len() { part[i] } else { 0u8 })
}

/// The `k`-th chunk of a message: its next thirty-two bytes, or what is left
/// of it filled up with zeros.
pub open spec fn frame(message: Seq<u8>, k: int) -> Seq<u8> {
    Seq::new(32, |i: int| if 32 * k + i < message.len() { message[32 * k + i] } else { 0u8 })
}

/// Whether a chunk ends a message: it holds a zero byte.
pub open spec fn ends_message(chunk: Seq<u8>) -> bool {
    exists|i: int| 0 <= i < chunk.len() && chunk[i] == 0
}

/// Fills a part of at most `CHUNK_SIZE` bytes up to a whole chunk; a longer
/// part cannot be sent.
pub fn pad_chunk(part: &[u8]) -> (chunk: Option<Vec<u8>>)
    ensures
        chunk is Some <==> part.len() <= CHUNK_SIZE,
        chunk matches Some(bytes) ==> bytes@ == padded(part@),
{
    if part.len() > CHUNK_SIZE {
        return None;
    }
    let mut bytes: Vec<u8> = Vec::with_capacity(CHUNK_SIZE);
    let mut i: usize = 0;
    while i < CHUNK_SIZE
        invariant
            i <= 32,
            part.len() <= 32,
            bytes.len() == i,
            forall|j: int| 0 <= j < i ==> #[trigger] bytes[j] == padded(part@)[j],
        decreases 32 - i,
    {
        if i < part.len() {
            bytes.push(part[i]);
        } else {
            bytes.push(0);
        }
        i = i + 1;
    }
    assert(bytes@ =~= padded(part@));
    Some(bytes)
}

/// Splits a message into the chunks that carry it: one for each full
/// thirty-two bytes, and a last one with the rest, which may be empty.
pub fn frames(message: &[u8]) -> (chunks: Vec<Vec<u8>>)
    ensures
        chunks.len() == message.len() / 32 + 1,
        forall|k: int| 0 <= k < chunks.len() ==> (#[trigger] chunks[k])@ == frame(message@, k),
{
    let count: usize = message.len() / CHUNK_SIZE + 1;
    let mut chunks: Vec<Vec<u8>> = Vec::with_capacity(count);
    let mut k: usize = 0;
    while k < count
        invariant
            k <= count,
            count == message.len() / 32 + 1,
            chunks.len() == k,
            forall|j: int| 0 <= j < k ==> (#[trigger] chunks[j])@ == frame(message@, j),
        decreases count - k,
    {
        let mut bytes: Vec<u8> = Vec::with_capacity(CHUNK_SIZE);
        let mut i: usize = 0;
        while i < CHUNK_SIZE
            invariant
                i <= 32,
                k < count,
                count == message.len() / 32 + 1,
                bytes.len() == i,
                forall|j: int| 0 <= j < i ==> #[trigger] bytes[j] == frame(message@, k as int)[j],
            decreases 32 - i,
        {
            let at: usize = CHUNK_SIZE * k + i;
            if at < message.len() {
                bytes.push(message[at]);
            } else {
                bytes.push(0);
            }
            i = i + 1;
        }
        assert(bytes@ =~= frame(message@, k as int));
        chunks.push(bytes);
        k = k + 1;
    }
    chunks
}

/// Whether a reply is the two bytes `ok`.
pub fn reply_is_ok(reply: &[u8]) -> (ok: bool)
    ensures
        ok <==> reply@ == seq![111u8, 107u8],
{
    let ok: bool = reply.len() == 2 && reply[0] == 111 && reply[1] == 107;
    proof {
        if ok {
            assert(reply@ =~= seq![111u8, 107u8]);
        } else if reply@ == seq![111u8, 107u8] {
            assert(seq![111u8, 107u8].len() == 2);
            assert(seq![111u8, 107u8][0] == 111u8);
            assert(seq![111u8, 107u8][1] == 107u8);
        }
    }
    ok
}

/// Whether a received chunk ends a message.
pub fn chunk_ends_message(chunk: &[u8]) -> (b: bool)
    ensures
        b == ends_message(chunk@),
{
    let mut i: usize = 0;
    while i < chunk.len()
        invariant
            i <= chunk.len(),
            forall|j: int| 0 <= j < i ==> chunk@[j] != 0,
        decreases chunk.len() - i,
    {
        if chunk[i] == 0 {
            return true;
        }
        i = i + 1;
    }
    false
}

} // verus!
