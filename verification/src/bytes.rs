//! Samples as little-endian bytes, and the reads and writes of a stream that carries them.
use vstd::prelude::*;

use crate::buffer::AudioBuf;

verus! {

/// Bytes of one sample.
pub const SAMPLE_BYTES: usize = 4;

/// The pattern whose little-endian bytes stand at `i`.
pub open spec fn word_at(bytes: Seq<u8>, i: int) -> u32 {
    (bytes[i] + 0x100 * bytes[i + 1] + 0x1_0000 * bytes[i + 2] + 0x100_0000 * bytes[i + 3]) as u32
}

/// The patterns that `bytes` holds; an incomplete last one is left out.
pub open spec fn words(bytes: Seq<u8>) -> Seq<u32> {
    Seq::new(bytes.len() / 4, |i: int| word_at(bytes, 4 * i))
}

/// Byte `k` of a pattern, the least significant one first.
pub open spec fn byte_of(word: u32, k: int) -> u8 {
    if k == 0 {
        (word % 0x100) as u8
    } else if k == 1 {
        (word / 0x100 % 0x100) as u8
    } else if k == 2 {
        (word / 0x1_0000 % 0x100) as u8
    } else {
        (word / 0x100_0000) as u8
    }
}

/// The little-endian bytes of patterns.
pub open spec fn bytes_of(words: Seq<u32>) -> Seq<u8> {
    Seq::new(4 * words.len(), |i: int| byte_of(words[i / 4], i % 4))
}

/// Reads the patterns that `bytes` holds.
pub fn decode_samples(bytes: &[u8]) -> (samples: Vec<u32>)
    ensures
        samples@ == words(bytes@),
{
    let n: usize = bytes.len() / SAMPLE_BYTES;
    let mut samples: Vec<u32> = Vec::with_capacity(n);
    let mut i: usize = 0;
    while i < n
        invariant
            i <= n == bytes@.len() / 4,
            samples@ == words(bytes@).take(i as int),
        decreases n - i,
    {
        assert(4 * i + 3 < bytes@.len() && bytes@.len() == bytes.len());
        let k: usize = i * SAMPLE_BYTES;
        let word: u32 = bytes[k] as u32 + 0x100 * bytes[k + 1] as u32 + 0x1_0000 * bytes[k
            + 2] as u32 + 0x100_0000 * bytes[k + 3] as u32;
        samples.push(word);
        i += 1;
        assert(samples@ =~= words(bytes@).take(i as int));
    }
    assert(samples@ =~= words(bytes@));
    samples
}

/// Writes patterns as little-endian bytes.
pub fn encode_samples(samples: &[u32]) -> (bytes: Vec<u8>)
    ensures
        bytes@ == bytes_of(samples@),
{
    let mut bytes: Vec<u8> = Vec::new();
    let mut i: usize = 0;
    while i < samples.len()
        invariant
            i <= samples@.len(),
            bytes@ == bytes_of(samples@.take(i as int)),
        decreases samples@.len() - i,
    {
        let word: u32 = samples[i];
        bytes.push((word % 0x100) as u8);
        bytes.push((word / 0x100 % 0x100) as u8);
        bytes.push((word / 0x1_0000 % 0x100) as u8);
        bytes.push((word / 0x100_0000) as u8);
        i += 1;
        assert(bytes@ =~= bytes_of(samples@.take(i as int)));
    }
    assert(samples@.take(i as int) =~= samples@);
    bytes
}

/// Samples survive the way through their bytes.
pub proof fn lemma_encode_then_decode(samples: Seq<u32>)
    ensures
        words(bytes_of(samples)) == samples,
{
    let bytes = bytes_of(samples);
    assert forall|i: int| 0 <= i < samples.len() implies words(bytes)[i] == samples[i] by {
        assert((4 * i) / 4 == i && (4 * i + 1) / 4 == i && (4 * i + 2) / 4 == i && (4 * i + 3) / 4
            == i);
        assert(bytes[4 * i] == byte_of(samples[i], 0));
        assert(bytes[4 * i + 1] == byte_of(samples[i], 1));
        assert(bytes[4 * i + 2] == byte_of(samples[i], 2));
        assert(bytes[4 * i + 3] == byte_of(samples[i], 3));
    }
    assert(words(bytes) =~= samples);
}

/// The bytes of the pattern at `i` are the bytes there.
proof fn lemma_bytes_of_word(bytes: Seq<u8>, i: int)
    ensures
        byte_of(word_at(bytes, i), 0) == bytes[i],
        byte_of(word_at(bytes, i), 1) == bytes[i + 1],
        byte_of(word_at(bytes, i), 2) == bytes[i + 2],
        byte_of(word_at(bytes, i), 3) == bytes[i + 3],
{
    let b0 = bytes[i] as int;
    let b1 = bytes[i + 1] as int;
    let b2 = bytes[i + 2] as int;
    let b3 = bytes[i + 3] as int;
    let w = b0 + 0x100 * b1 + 0x1_0000 * b2 + 0x100_0000 * b3;
    assert(w % 0x100 == b0 && w / 0x100 == b1 + 0x100 * b2 + 0x1_0000 * b3);
    assert((b1 + 0x100 * b2 + 0x1_0000 * b3) % 0x100 == b1);
    assert(w / 0x1_0000 == b2 + 0x100 * b3);
    assert((b2 + 0x100 * b3) % 0x100 == b2);
    assert(w / 0x100_0000 == b3);
}

/// Bytes that hold whole samples survive the way through the samples.
pub proof fn lemma_decode_then_encode(bytes: Seq<u8>)
    requires
        bytes.len() % 4 == 0,
    ensures
        bytes_of(words(bytes)) == bytes,
{
    let ws = words(bytes);
    let back = bytes_of(ws);
    assert(back.len() == bytes.len());
    assert forall|i: int| 0 <= i < bytes.len() implies back[i] == bytes[i] by {
        let k = i / 4;
        assert(0 <= k < ws.len());
        assert(ws[k] == word_at(bytes, 4 * k));
        lemma_bytes_of_word(bytes, 4 * k);
        assert(back[i] == byte_of(ws[k], i % 4));
        assert(i == 4 * k + i % 4);
        assert(i % 4 == 0 || i % 4 == 1 || i % 4 == 2 || i % 4 == 3);
    }
    assert(back =~= bytes);
}

/// What a capture stream had to offer.
pub enum Peek {
    /// Captured bytes.
    Data(Vec<u8>),
    /// A gap in the recording.
    Hole,
    /// Nothing, or an error.
    Nothing,
}

/// Whether `readable` bytes are worth looking at.
pub fn worth_peeking(readable: usize) -> (worth: bool)
    ensures
        worth == (readable >= SAMPLE_BYTES),
{
    readable >= SAMPLE_BYTES
}

/// Appends what a capture stream had to offer. Returns whether the stream is to discard it, which
/// is so of data and of a gap.
pub fn pump_read(peek: &Peek, buf: &mut AudioBuf<u32>) -> (discard: bool)
    requires
        old(buf).wf(),
    ensures
        final(buf).wf(),
        discard == !(peek is Nothing),
        final(buf)@ == match *peek {
            Peek::Data(bytes) => old(buf)@ + words(bytes@),
            _ => old(buf)@,
        },
{
    match peek {
        Peek::Data(bytes) => {
            let samples = decode_samples(bytes);
            buf.extend(&samples);
            true
        },
        Peek::Hole => true,
        Peek::Nothing => false,
    }
}

/// Takes from the front of `buf` the bytes that fit into `writable` bytes of a playback stream.
/// Only whole samples are taken.
pub fn pump_write(writable: usize, buf: &mut AudioBuf<u32>) -> (bytes: Vec<u8>)
    requires
        old(buf).wf(),
    ensures
        final(buf).wf(),
        words(bytes@) + final(buf)@ == old(buf)@,
        bytes@ == bytes_of(words(bytes@)),
        bytes@.len() == 4 * (if old(buf)@.len() <= writable / 4 {
            old(buf)@.len()
        } else {
            (writable / 4) as nat
        }),
{
    let room: usize = writable / SAMPLE_BYTES;
    let chunk = buf.take_available(room);
    let bytes = encode_samples(&chunk);
    proof {
        lemma_encode_then_decode(chunk@);
    }
    bytes
}

/// The lowest byte of a word comes first.
pub proof fn lemma_lowest_byte_first(samples: Seq<u32>, i: int)
    requires
        0 <= i < samples.len(),
    ensures
        bytes_of(samples).len() == 4 * samples.len(),
        bytes_of(samples)[4 * i] + 256 * bytes_of(samples)[4 * i + 1] + 65536 * bytes_of(samples)[4 * i + 2]
            + 16777216 * bytes_of(samples)[4 * i + 3] == samples[i],
{
    let w = samples[i];
    let all = bytes_of(samples);
    assert(all[4 * i] == byte_of(samples[4 * i / 4], 4 * i % 4));
    assert(all[4 * i + 1] == byte_of(samples[(4 * i + 1) / 4], (4 * i + 1) % 4));
    assert(all[4 * i + 2] == byte_of(samples[(4 * i + 2) / 4], (4 * i + 2) % 4));
    assert(all[4 * i + 3] == byte_of(samples[(4 * i + 3) / 4], (4 * i + 3) % 4));
    assert(w / 0x100 / 0x100 == w / 0x1_0000);
    assert(w / 0x1_0000 / 0x100 == w / 0x100_0000);
}

} // verus!
