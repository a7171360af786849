//! The Layla codec: a reverse-scanning LZ77 variant with a verbatim block of
//! 256 bytes that holds the start of the output.
use crate::bit_reader::{lemma_stream_bits_bound, stream_bits, ReverseBitReader};
use vstd::arithmetic::power2::lemma2_to64;
use vstd::prelude::*;

verus! {

/// Size of the verbatim block at the start of every decoded output.
pub const UNCOMPRESSED_DATA_SIZE: usize = 0x100;

/// Shortest back-reference, and the bias added to back-reference offsets.
pub const MIN_COPY_LENGTH: usize = 3;

/// The little-endian `u32` at `at`.
pub open spec fn le_u32(data: Seq<u8>, at: int) -> nat {
    data[at] as nat + data[at + 1] as nat * 0x100 + data[at + 2] as nat * 0x1_0000 + data[at + 3] as nat
        * 0x100_0000
}

/// Whether `data` starts with the ASCII magic `"CRILAYLA"`.
pub open spec fn has_layla_magic(data: Seq<u8>) -> bool {
    &&& data.len() >= 8
    &&& data[0] == 0x43u8
    &&& data[1] == 0x52u8
    &&& data[2] == 0x49u8
    &&& data[3] == 0x4Cu8
    &&& data[4] == 0x41u8
    &&& data[5] == 0x59u8
    &&& data[6] == 0x4Cu8
    &&& data[7] == 0x41u8
}

/// The level-3 extension of a back-reference length: 8-bit chunks are added
/// to `acc` up to and including the first one that is not 255. Gives the
/// length and the bit position after the last chunk, or `None` when the
/// stream ends first.
pub open spec fn extension_length(data: Seq<u8>, start: int, k: int, acc: nat) -> Option<(nat, int)>
    decreases 8 * start - k,
{
    if k + 8 > 8 * start {
        None
    } else {
        let c = stream_bits(data, start, k, 8);
        if c != 255 {
            Some((acc + c, k + 8))
        } else {
            extension_length(data, start, k + 8, acc + 255)
        }
    }
}

/// The length of a back-reference, less the minimum of 3, whose length field
/// starts at bit `k`, and the bit position after that field.
pub open spec fn copy_length(data: Seq<u8>, start: int, k: int) -> Option<(nat, int)> {
    if k + 2 > 8 * start {
        None
    } else if stream_bits(data, start, k, 2) < 3 {
        Some((stream_bits(data, start, k, 2), k + 2))
    } else if k + 5 > 8 * start {
        None
    } else if stream_bits(data, start, k + 2, 3) < 7 {
        Some((3 + stream_bits(data, start, k + 2, 3), k + 5))
    } else if k + 10 > 8 * start {
        None
    } else if stream_bits(data, start, k + 5, 5) < 31 {
        Some((10 + stream_bits(data, start, k + 5, 5), k + 10))
    } else {
        extension_length(data, start, k + 10, 41)
    }
}

/// Copies `m` bytes downward from `w`, each from `offset` bytes above it;
/// `None` when a source lies past the end of the output.
pub open spec fn copy_run(out: Seq<u8>, w: int, offset: int, m: nat) -> Option<Seq<u8>>
    decreases m,
{
    if m == 0 {
        Some(out)
    } else if w + offset >= out.len() {
        None
    } else {
        copy_run(out.update(w, out[w + offset]), w - 1, offset, (m - 1) as nat)
    }
}

/// Runs the decoder from bit `k` with the next byte to write at `w`, until
/// `w` drops below the verbatim block.
pub open spec fn decode_from(data: Seq<u8>, start: int, out: Seq<u8>, k: int, w: int) -> Option<
    Seq<u8>,
>
    decreases w,
{
    if w < 256 {
        Some(out)
    } else if k + 1 > 8 * start {
        None
    } else if stream_bits(data, start, k, 1) == 0 {
        if k + 9 > 8 * start {
            None
        } else {
            decode_from(
                data,
                start,
                out.update(w, stream_bits(data, start, k + 1, 8) as u8),
                k + 9,
                w - 1,
            )
        }
    } else if k + 14 > 8 * start {
        None
    } else {
        let offset = stream_bits(data, start, k + 1, 13) + 3;
        match copy_length(data, start, k + 14) {
            None => None,
            Some(lk) => {
                let m: nat = if 3 + lk.0 < w - 255 {
                    3 + lk.0
                } else {
                    (w - 255) as nat
                };
                match copy_run(out, w, offset as int, m) {
                    None => None,
                    Some(o) => decode_from(data, start, o, lk.1, w - m),
                }
            },
        }
    }
}

/// Offset in the payload of the verbatim block.
pub open spec fn verbatim_start(input: Seq<u8>) -> int {
    le_u32(input, 12) + 16int
}

/// The decoded form of a Layla payload, or `None` when the payload is
/// malformed: too short for its header, verbatim block out of range, a
/// stream that ends early, or a back-reference past the end of the output.
pub open spec fn layla_output(input: Seq<u8>) -> Option<Seq<u8>> {
    if input.len() < 16 {
        None
    } else {
        let uncomp = le_u32(input, 8);
        let src = verbatim_start(input);
        if src + 256 > input.len() || uncomp + 256 > usize::MAX {
            None
        } else {
            let init = input.subrange(src, src + 256) + Seq::new(uncomp, |i: int| 0u8);
            decode_from(input, src, init, 0, uncomp + 255int)
        }
    }
}

/// Whether a member's bytes start with `"CRILAYLA"`, that is whether they are
/// compressed.
pub fn is_compressed(data: &[u8]) -> (r: bool)
    ensures
        r == has_layla_magic(data@),
{
    data.len() >= 8 && data[0] == 0x43u8 && data[1] == 0x52u8 && data[2] == 0x49u8 && data[3]
        == 0x4Cu8 && data[4] == 0x41u8 && data[5] == 0x59u8 && data[6] == 0x4Cu8 && data[7]
        == 0x41u8
}

fn read_le_u32(data: &[u8], at: usize) -> (r: u32)
    requires
        at + 4 <= data@.len(),
    ensures
        r == le_u32(data@, at as int),
{
    data[at] as u32 + data[at + 1] as u32 * 0x100 + data[at + 2] as u32 * 0x1_0000 + data[at + 3] as u32
        * 0x100_0000
}

/// `x`, or `usize::MAX` where `x` is larger.
pub open spec fn saturated(x: nat) -> usize {
    if x > usize::MAX {
        usize::MAX
    } else {
        x as usize
    }
}

/// Reads the length field of a back-reference and gives its length less 3,
/// saturated at `usize::MAX`.
fn read_copy_extra(reader: &mut ReverseBitReader) -> (r: Option<usize>)
    requires
        old(reader).wf(),
    ensures
        final(reader).wf(),
        final(reader).input() == old(reader).input(),
        final(reader).origin() == old(reader).origin(),
        match copy_length(old(reader).input(), old(reader).origin(), old(reader).position()) {
            None => r is None,
            Some(lk) => r == Some(saturated(lk.0)) && final(reader).position() == lk.1,
        },
{
    let ghost k0 = reader.position();
    proof {
        reader.lemma_remaining();
    }
    if !reader.has_bits(2) {
        return None;
    }
    let r2 = reader.read_bits(2) as usize;
    if r2 < 3 {
        return Some(r2);
    }
    proof {
        reader.lemma_remaining();
    }
    if !reader.has_bits(3) {
        return None;
    }
    let r3 = reader.read_bits(3) as usize;
    if r3 < 7 {
        return Some(3 + r3);
    }
    proof {
        reader.lemma_remaining();
    }
    if !reader.has_bits(5) {
        return None;
    }
    let r5 = reader.read_bits(5) as usize;
    if r5 < 31 {
        return Some(10 + r5);
    }
    let mut extra: usize = 41;
    let ghost mut acc: nat = 41;
    loop
        invariant
            reader.wf(),
            reader.input() == old(reader).input(),
            reader.origin() == old(reader).origin(),
            k0 == old(reader).position(),
            extension_length(reader.input(), reader.origin(), reader.position(), acc)
                == copy_length(reader.input(), reader.origin(), k0),
            extra == saturated(acc),
        decreases reader.remaining(),
    {
        proof {
            reader.lemma_remaining();
        }
        if !reader.has_bits(8) {
            return None;
        }
        let c = reader.read_bits(8) as usize;
        extra = extra.saturating_add(c);
        proof {
            acc = (acc + c) as nat;
        }
        if c != 255 {
            return Some(extra);
        }
    }
}

/// Copies `m` bytes downward from `out[w]`, each from `offset` bytes above
/// it; false when a source lies past the end.
fn copy_back(out: &mut Vec<u8>, w: usize, offset: usize, m: usize) -> (r: bool)
    requires
        w < old(out)@.len(),
        m <= w + 1,
    ensures
        final(out)@.len() == old(out)@.len(),
        match copy_run(old(out)@, w as int, offset as int, m as nat) {
            Some(o) => r && final(out)@ == o,
            None => !r,
        },
{
    let n = out.len();
    let mut j: usize = 0;
    while j < m
        invariant
            n == out@.len(),
            n == old(out)@.len(),
            j <= m,
            m <= w + 1,
            w < n,
            copy_run(out@, w - j, offset as int, (m - j) as nat) == copy_run(
                old(out)@,
                w as int,
                offset as int,
                m as nat,
            ),
        decreases m - j,
    {
        let cur = w - j;
        if offset >= n - cur {
            return false;
        }
        let b = out[cur + offset];
        out.set(cur, b);
        j = j + 1;
    }
    true
}

/// Decodes a Layla payload into `output`, which is replaced whole; `None`
/// when the payload is malformed.
pub fn decompress_layla(input: &[u8], output: &mut Vec<u8>) -> (r: Option<()>)
    ensures
        match layla_output(input@) {
            Some(o) => r is Some && final(output)@ == o,
            None => r is None,
        },
{
    if input.len() < 16 {
        return None;
    }
    let uncomp = read_le_u32(input, 8) as u64;
    let src64 = read_le_u32(input, 12) as u64 + 16;
    if src64 + 256 > input.len() as u64 || uncomp + 256 > usize::MAX as u64 {
        return None;
    }
    let src = src64 as usize;
    let total = (uncomp + 256) as usize;
    let ghost init = input@.subrange(src as int, src + 256) + Seq::new(uncomp as nat, |i: int| 0u8);
    let mut out: Vec<u8> = Vec::with_capacity(total);
    let ilen = input.len();
    let mut i: usize = 0;
    while i < 256
        invariant
            ilen == input@.len(),
            i <= 256,
            src + 256 <= input@.len(),
            out@.len() == i,
            out@ == input@.subrange(src as int, src + i),
        decreases 256 - i,
    {
        out.push(input[src + i]);
        i = i + 1;
        assert(out@ =~= input@.subrange(src as int, src + i));
    }
    let mut j: usize = 256;
    while j < total
        invariant
            256 <= j <= total,
            total == uncomp + 256,
            src + 256 <= input@.len(),
            out@ == input@.subrange(src as int, src + 256) + Seq::new(
                (j - 256) as nat,
                |i: int| 0u8,
            ),
        decreases total - j,
    {
        out.push(0u8);
        j = j + 1;
        assert(out@ =~= input@.subrange(src as int, src + 256) + Seq::new(
            (j - 256) as nat,
            |i: int| 0u8,
        ));
    }
    let mut reader = ReverseBitReader::new(input, src);
    let mut w: usize = total - 1;
    while w >= UNCOMPRESSED_DATA_SIZE
        invariant
            reader.wf(),
            reader.input() == input@,
            reader.origin() == src,
            out@.len() == total,
            w < total,
            decode_from(input@, src as int, out@, reader.position(), w as int) == layla_output(
                input@,
            ),
        decreases w,
    {
        proof {
            reader.lemma_remaining();
        }
        if !reader.has_bits(1) {
            return None;
        }
        let flag = reader.read_bit();
        proof {
            lemma_stream_bits_bound(input@, src as int, reader.position(), 13);
            lemma_stream_bits_bound(input@, src as int, reader.position(), 8);
            lemma2_to64();
        }
        proof {
            reader.lemma_remaining();
        }
        if flag == 0 {
            if !reader.has_bits(8) {
                return None;
            }
            let byte = reader.read_bits(8);
            out.set(w, byte as u8);
            w = w - 1;
        } else {
            if !reader.has_bits(13) {
                return None;
            }
            let offset = reader.read_bits(13) as usize + MIN_COPY_LENGTH;
            match read_copy_extra(&mut reader) {
                None => {
                    return None;
                },
                Some(extra) => {
                    let room = w - 255;
                    let m = if room > 3 && extra < room - 3 {
                        extra + 3
                    } else {
                        room
                    };
                    if !copy_back(&mut out, w, offset, m) {
                        return None;
                    }
                    w = w - m;
                },
            }
        }
    }
    *output = out;
    Some(())
}

/// A decompressor that keeps its output buffer from one member to the next.
pub struct Decompressor {
    output_data_buffer: Vec<u8>,
}

impl Decompressor {
    /// The output of the last successful decompression.
    pub closed spec fn decoded(&self) -> Seq<u8> {
        self.output_data_buffer@
    }

    pub fn new() -> (r: Decompressor)
        ensures
            r.decoded() == Seq::<u8>::empty(),
    {
        Decompressor { output_data_buffer: Vec::new() }
    }

    /// Decodes `input`; true when it is a well-formed Layla payload, whose
    /// decoded bytes are then `output()`.
    pub fn decompress(&mut self, input: &[u8]) -> (r: bool)
        ensures
            r == layla_output(input@) is Some,
            r ==> layla_output(input@) == Some(final(self).decoded()),
    {
        decompress_layla(input, &mut self.output_data_buffer).is_some()
    }

    /// The decoded bytes.
    pub fn output(&self) -> (r: &[u8])
        ensures
            r@ == self.decoded(),
    {
        self.output_data_buffer.as_slice()
    }
}

/// A level-3 extension of `m` chunks equal to 255 followed by a chunk
/// `t < 255` adds `255 * m + t` to the length and takes `8 * (m + 1)` bits.
pub proof fn lemma_extension_sum(data: Seq<u8>, start: int, k: int, acc: nat, m: nat, t: nat)
    requires
        k >= 0,
        k + 8 * (m + 1) <= 8 * start,
        forall|j: int| 0 <= j < m ==> #[trigger] stream_bits(data, start, k + 8 * j, 8) == 255,
        stream_bits(data, start, k + 8 * m, 8) == t,
        t < 255,
    ensures
        extension_length(data, start, k, acc) == Some((acc + 255 * m + t, k + 8 * (m + 1))),
    decreases m,
{
    if m > 0 {
        assert(stream_bits(data, start, k + 8 * 0, 8) == 255);
        assert forall|j: int| 0 <= j < m - 1 implies #[trigger] stream_bits(data, start, (k + 8) + 8 * j, 8)
            == 255 by {
            assert(stream_bits(data, start, k + 8 * (j + 1), 8) == 255);
            assert((k + 8) + 8 * j == k + 8 * (j + 1));
        }
        assert((k + 8) + 8 * (m - 1) == k + 8 * m);
        lemma_extension_sum(data, start, k + 8, acc + 255, (m - 1) as nat, t);
    }
}

/// Decompression is deterministic: equal payloads decode to equal bytes, or
/// are both rejected.
pub proof fn lemma_decompress_deterministic(a: Seq<u8>, b: Seq<u8>)
    requires
        a == b,
    ensures
        layla_output(a) == layla_output(b),
{
}

/// A payload that declares no compressed bytes decodes to its verbatim
/// block alone, without reading the bit stream.
pub proof fn lemma_verbatim_only(input: Seq<u8>)
    requires
        input.len() >= 16,
        le_u32(input, 8) == 0,
        verbatim_start(input) + 256 <= input.len(),
    ensures
        layla_output(input) == Some(
            input.subrange(verbatim_start(input), verbatim_start(input) + 256),
        ),
{
    let src = verbatim_start(input);
    assert(input.subrange(src, src + 256) + Seq::new(0, |i: int| 0u8) =~= input.subrange(
        src,
        src + 256,
    ));
}

} // verus!
