//! A reader of bits taken MSB-first from bytes in descending address order,
//! as the Layla codec stores its stream.
use vstd::arithmetic::div_mod::lemma_fundamental_div_mod_converse;
use vstd::arithmetic::power2::{lemma2_to64, lemma_pow2_pos, lemma_pow2_unfold, pow2};
use vstd::bits::{lemma_u64_low_bits_mask_is_mod, lemma_u64_shl_is_mul, lemma_u64_shr_is_div, low_bits_mask};
use vstd::prelude::*;

verus! {

/// Bit `k` (counted from 0) of the stream that starts below byte `start`:
/// the bits of `data[start - 1]` come first, most significant first, then
/// those of `data[start - 2]`, and so on.
pub open spec fn stream_bit(data: Seq<u8>, start: int, k: int) -> nat {
    ((data[start - 1 - k / 8] >> ((7 - k % 8) as u8)) & 1u8) as nat
}

/// The value of the `n` stream bits from bit `k` on, the first one the most
/// significant.
pub open spec fn stream_bits(data: Seq<u8>, start: int, k: int, n: nat) -> nat
    decreases n,
{
    if n == 0 {
        0
    } else {
        stream_bits(data, start, k, (n - 1) as nat) * 2 + stream_bit(data, start, k + n - 1)
    }
}

pub proof fn lemma_stream_bits_split(data: Seq<u8>, start: int, k: int, a: nat, b: nat)
    ensures
        stream_bits(data, start, k, a + b) == stream_bits(data, start, k, a) * pow2(b)
            + stream_bits(data, start, k + a, b),
    decreases b,
{
    if b == 0 {
        lemma2_to64();
        assert(a + b == a);
    } else {
        lemma_stream_bits_split(data, start, k, a, (b - 1) as nat);
        lemma_pow2_unfold(b);
        let sa = stream_bits(data, start, k, a);
        let p = pow2((b - 1) as nat);
        let rest = stream_bits(data, start, k + a, (b - 1) as nat);
        let bit = stream_bit(data, start, k + a + b - 1);
        assert(stream_bits(data, start, k, (a + b) as nat) == stream_bits(
            data,
            start,
            k,
            (a + b - 1) as nat,
        ) * 2 + bit);
        assert(stream_bits(data, start, k + a, b) == rest * 2 + bit);
        assert((sa * p + rest) * 2 + bit == sa * (2 * p) + (rest * 2 + bit)) by (nonlinear_arith);
    }
}

pub proof fn lemma_stream_bits_bound(data: Seq<u8>, start: int, k: int, n: nat)
    ensures
        stream_bits(data, start, k, n) < pow2(n),
    decreases n,
{
    if n == 0 {
        lemma2_to64();
    } else {
        lemma_stream_bits_bound(data, start, k, (n - 1) as nat);
        lemma_pow2_unfold(n);
        assert(stream_bit(data, start, k + n - 1) <= 1) by {
            let b = data[start - 1 - (k + n - 1) / 8];
            let s = (7 - (k + n - 1) % 8) as u8;
            assert((b >> s) & 1u8 <= 1u8) by (bit_vector);
        }
    }
}

proof fn lemma_byte_bits(b: u8)
    ensures
        b as nat == ((b >> 7u8) & 1u8) as nat * 128 + ((b >> 6u8) & 1u8) as nat * 64 + ((b >> 5u8)
            & 1u8) as nat * 32 + ((b >> 4u8) & 1u8) as nat * 16 + ((b >> 3u8) & 1u8) as nat * 8 + ((
        b >> 2u8) & 1u8) as nat * 4 + ((b >> 1u8) & 1u8) as nat * 2 + ((b >> 0u8) & 1u8) as nat,
{
    assert(b == ((b >> 7u8) & 1u8) * 128 + ((b >> 6u8) & 1u8) * 64 + ((b >> 5u8) & 1u8) * 32 + ((b
        >> 4u8) & 1u8) * 16 + ((b >> 3u8) & 1u8) * 8 + ((b >> 2u8) & 1u8) * 4 + ((b >> 1u8) & 1u8)
        * 2 + ((b >> 0u8) & 1u8)) by (bit_vector);
}

/// Eight stream bits that start on a byte boundary are that byte.
pub proof fn lemma_stream_byte(data: Seq<u8>, start: int, m: int)
    requires
        0 <= m < start <= data.len(),
    ensures
        stream_bits(data, start, 8 * m, 8) == data[start - 1 - m] as nat,
{
    reveal_with_fuel(stream_bits, 9);
    let b = data[start - 1 - m];
    assert(stream_bit(data, start, 8 * m + 0) == ((b >> 7u8) & 1u8) as nat);
    assert(stream_bit(data, start, 8 * m + 1) == ((b >> 6u8) & 1u8) as nat);
    assert(stream_bit(data, start, 8 * m + 2) == ((b >> 5u8) & 1u8) as nat);
    assert(stream_bit(data, start, 8 * m + 3) == ((b >> 4u8) & 1u8) as nat);
    assert(stream_bit(data, start, 8 * m + 4) == ((b >> 3u8) & 1u8) as nat);
    assert(stream_bit(data, start, 8 * m + 5) == ((b >> 2u8) & 1u8) as nat);
    assert(stream_bit(data, start, 8 * m + 6) == ((b >> 1u8) & 1u8) as nat);
    assert(stream_bit(data, start, 8 * m + 7) == ((b >> 0u8) & 1u8) as nat);
    lemma_byte_bits(b);
}

/// Reads the bit stream that runs downward from a start offset, through a
/// 64-bit shift buffer refilled one byte at a time.
pub struct ReverseBitReader<'a> {
    data: &'a [u8],
    cursor: usize,
    bit_buf: u64,
    bits_left: u32,
    start: Ghost<int>,
}

impl<'a> ReverseBitReader<'a> {
    /// The bytes read from.
    pub closed spec fn input(&self) -> Seq<u8> {
        self.data@
    }

    /// The byte offset below which the stream starts.
    pub closed spec fn origin(&self) -> int {
        self.start@
    }

    /// How many bits have been read so far.
    pub closed spec fn position(&self) -> int {
        8 * (self.start@ - self.cursor) - self.bits_left
    }

    /// How many bits are left before the start of the data.
    pub closed spec fn remaining(&self) -> int {
        8 * self.cursor + self.bits_left
    }

    pub closed spec fn wf(&self) -> bool {
        &&& self.cursor <= self.start@ <= self.data@.len()
        &&& self.bits_left <= 31
        &&& self.bits_left <= 8 * (self.start@ - self.cursor)
        &&& self.bit_buf == stream_bits(
            self.data@,
            self.start@,
            self.position(),
            self.bits_left as nat,
        )
    }

    /// The bits left and the bits read add up to the whole stream.
    pub proof fn lemma_remaining(&self)
        requires
            self.wf(),
        ensures
            self.remaining() == 8 * self.origin() - self.position(),
            self.position() >= 0,
    {
    }

    /// A reader whose first bit is the most significant bit of
    /// `data[start_offset - 1]`.
    pub fn new(data: &'a [u8], start_offset: usize) -> (r: Self)
        requires
            start_offset <= data@.len(),
        ensures
            r.wf(),
            r.input() == data@,
            r.origin() == start_offset,
            r.position() == 0,
            r.remaining() == 8 * start_offset,
    {
        ReverseBitReader {
            data,
            cursor: start_offset,
            bit_buf: 0,
            bits_left: 0,
            start: Ghost(start_offset as int),
        }
    }

    /// Whether at least `n` more bits can be read.
    pub fn has_bits(&self, n: u32) -> (r: bool)
        requires
            self.wf(),
        ensures
            r == (self.remaining() >= n),
    {
        if self.bits_left >= n {
            true
        } else {
            let missing = (n - self.bits_left) as u64;
            (self.cursor as u64) >= (missing + 7) / 8
        }
    }

    fn refill(&mut self)
        requires
            old(self).wf(),
            old(self).cursor > 0,
            old(self).bits_left < 24,
        ensures
            final(self).wf(),
            final(self).input() == old(self).input(),
            final(self).origin() == old(self).origin(),
            final(self).position() == old(self).position(),
            final(self).remaining() == old(self).remaining(),
            final(self).bits_left == old(self).bits_left + 8,
    {
        let ghost pos = self.position();
        let ghost m = self.start@ - self.cursor;
        proof {
            lemma_stream_bits_split(self.data@, self.start@, pos, self.bits_left as nat, 8);
            lemma_stream_byte(self.data@, self.start@, m);
            lemma_stream_bits_bound(self.data@, self.start@, pos, self.bits_left as nat);
            lemma2_to64();
            assert(pos + self.bits_left == 8 * m);
            vstd::arithmetic::power2::lemma_pow2_strictly_increases(self.bits_left as nat, 24);
        }
        self.cursor = self.cursor - 1;
        let byte = self.data[self.cursor] as u64;
        self.bit_buf = self.bit_buf * 256 + byte;
        self.bits_left = self.bits_left + 8;
    }

    /// Reads the next `n` bits, the first one the most significant.
    pub fn read_bits(&mut self, n: u32) -> (r: u32)
        requires
            old(self).wf(),
            1 <= n <= 24,
            old(self).remaining() >= n,
        ensures
            final(self).wf(),
            final(self).input() == old(self).input(),
            final(self).origin() == old(self).origin(),
            final(self).position() == old(self).position() + n,
            final(self).remaining() == old(self).remaining() - n,
            r == stream_bits(old(self).input(), old(self).origin(), old(self).position(), n as nat),
    {
        while self.bits_left < n
            invariant
                self.wf(),
                self.input() == old(self).input(),
                self.origin() == old(self).origin(),
                self.position() == old(self).position(),
                self.remaining() == old(self).remaining(),
                self.remaining() >= n,
                1 <= n <= 24,
            decreases self.cursor,
        {
            self.refill();
        }
        let shift = self.bits_left - n;
        let ghost pos = self.position();
        let ghost head = stream_bits(self.data@, self.start@, pos, n as nat);
        let ghost tail = stream_bits(self.data@, self.start@, pos + n, shift as nat);
        proof {
            lemma_stream_bits_split(self.data@, self.start@, pos, n as nat, shift as nat);
            lemma_stream_bits_bound(self.data@, self.start@, pos + n, shift as nat);
            lemma_stream_bits_bound(self.data@, self.start@, pos, n as nat);
            lemma_pow2_pos(shift as nat);
            lemma_u64_shr_is_div(self.bit_buf, shift as u64);
            lemma_fundamental_div_mod_converse(
                self.bit_buf as int,
                pow2(shift as nat) as int,
                head as int,
                tail as int,
            );
            vstd::arithmetic::power2::lemma_pow2_strictly_increases(n as nat, 25);
            lemma2_to64();
        }
        let result = self.bit_buf >> (shift as u64);
        self.bits_left = shift;
        proof {
            vstd::arithmetic::power2::lemma_pow2_strictly_increases(shift as nat, 32);
            lemma_u64_shl_is_mul(1u64, shift as u64);
            lemma_u64_low_bits_mask_is_mod(self.bit_buf, shift as nat);
        }
        let mask = (1u64 << (shift as u64)) - 1;
        self.bit_buf = self.bit_buf & mask;
        result as u32
    }

    /// Reads the next bit.
    pub fn read_bit(&mut self) -> (r: u32)
        requires
            old(self).wf(),
            old(self).remaining() >= 1,
        ensures
            final(self).wf(),
            final(self).input() == old(self).input(),
            final(self).origin() == old(self).origin(),
            final(self).position() == old(self).position() + 1,
            final(self).remaining() == old(self).remaining() - 1,
            r == stream_bits(old(self).input(), old(self).origin(), old(self).position(), 1),
    {
        self.read_bits(1)
    }
}

} // verus!
