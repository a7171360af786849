//! The keyed stream cipher that obfuscates CPK files.
//!
//! A per-file key is derived from the CRC-32 of the file's base name; each
//! aligned group of four positions gets a 32-bit state from that key, and each
//! byte is XORed with one lane of the keystream derived from the state.
use vstd::prelude::*;

verus! {

/// Reflected CRC-32 polynomial used for both the table and the key.
pub const CRC_POLYNOMIAL: u32 = 0xEDB8_8320;

/// One shift of the bitwise CRC-32 table construction.
pub open spec fn crc_round(c: u32) -> u32 {
    if c & 1 != 0 {
        (c >> 1) ^ CRC_POLYNOMIAL
    } else {
        c >> 1
    }
}

/// `n` shifts of the table construction, applied to `c`.
pub open spec fn crc_rounds(c: u32, n: nat) -> u32
    decreases n,
{
    if n == 0 {
        c
    } else {
        crc_round(crc_rounds(c, (n - 1) as nat))
    }
}

/// Entry `i` of the CRC-32 lookup table.
pub open spec fn crc_table_entry(i: int) -> u32 {
    crc_rounds(i as u32, 8)
}

pub open spec fn is_crc_table(t: Seq<u32>) -> bool {
    &&& t.len() == 256
    &&& forall|i: int| 0 <= i < 256 ==> #[trigger] t[i] == crc_table_entry(i)
}

/// Feeds one byte of a name into the running CRC.
pub open spec fn crc_name_step(c: u32, b: u8) -> u32 {
    (c >> 8) ^ crc_table_entry(((c ^ (b as u32)) as u8) as int)
}

/// The running CRC over a whole name, before the final inversion.
pub open spec fn crc_running(s: Seq<u8>) -> u32
    decreases s.len(),
{
    if s.len() == 0 {
        0xFFFF_FFFFu32
    } else {
        crc_name_step(crc_running(s.drop_last()), s.last())
    }
}

/// The four key bytes of a file with base name `name`: the CRC-32 of the
/// name, little-endian.
pub open spec fn file_key(name: Seq<u8>) -> Seq<u8> {
    let k = !crc_running(name);
    seq![k as u8, (k >> 8) as u8, (k >> 16) as u8, (k >> 24) as u8]
}

/// Folds one key byte into the keystream state.
pub open spec fn crc_key_step(c: u32, k: u8) -> u32 {
    (c >> 8) ^ crc_table_entry(((c as u8) ^ k) as int)
}

/// The 32-bit keystream state of the group that starts at `seed`.
pub open spec fn crc_state(keys: Seq<u8>, seed: u32) -> u32 {
    let c0 = !seed;
    let c1 = crc_key_step(c0, keys[0]);
    let c2 = crc_key_step(c1, keys[1]);
    let c3 = crc_key_step(c2, keys[2]);
    let c4 = crc_key_step(c3, keys[3]);
    !c4
}

/// Keystream byte `lane` (0 to 3) of the state `crc`.
pub open spec fn key_lane(crc: u32, lane: u32) -> u8 {
    let s = 2 * lane;
    let r0 = (crc >> ((s + 8) as u32)) & 3;
    let r1 = ((r0 << 2u32) | ((crc >> s) & 0xFF)) & 0xFF;
    let r2 = ((r1 << 2u32) | ((crc >> ((s + 16) as u32)) & 3)) & 0xFF;
    let r3 = ((r2 << 2u32) | ((crc >> ((s + 24) as u32)) & 3)) & 0xFF;
    r3 as u8
}

/// The keystream byte at file position `p`.
pub open spec fn key_at(keys: Seq<u8>, p: int) -> u8 {
    key_lane(crc_state(keys, (p - p % 4) as u32), (p % 4) as u32)
}

/// `data`, taken to start at file position `offset`, XORed with the keystream.
pub open spec fn xor_stream(keys: Seq<u8>, data: Seq<u8>, offset: int) -> Seq<u8> {
    Seq::new(data.len(), |i: int| data[i] ^ key_at(keys, offset + i))
}

/// Whether a file's bytes are already clear: they start with `"CPK "`.
pub open spec fn is_plain_cpk(data: Seq<u8>) -> bool {
    &&& data.len() >= 4
    &&& data[0] == 0x43u8
    &&& data[1] == 0x50u8
    &&& data[2] == 0x4Bu8
    &&& data[3] == 0x20u8
}

/// What decryption yields for a whole file: clear input is kept as it is.
pub open spec fn decrypted(keys: Seq<u8>, data: Seq<u8>) -> Seq<u8> {
    if is_plain_cpk(data) {
        data
    } else {
        xor_stream(keys, data, 0)
    }
}

/// Whether the first four bytes of `data` are `"CPK "`.
pub fn is_plain_header(data: &[u8]) -> (r: bool)
    ensures
        r == is_plain_cpk(data@),
{
    data.len() >= 4 && data[0] == 0x43u8 && data[1] == 0x50u8 && data[2] == 0x4Bu8
        && data[3] == 0x20u8
}

fn crc_table_value(i: u32) -> (r: u32)
    ensures
        r == crc_rounds(i, 8),
{
    let mut crc = i;
    let mut j: u32 = 0;
    while j < 8
        invariant
            j <= 8,
            crc == crc_rounds(i, j as nat),
        decreases 8 - j,
    {
        if crc & 1 != 0 {
            crc = (crc >> 1) ^ CRC_POLYNOMIAL;
        } else {
            crc = crc >> 1;
        }
        j = j + 1;
    }
    crc
}

/// Builds the 256-entry CRC-32 lookup table.
pub fn initialize_table() -> (table: Vec<u32>)
    ensures
        is_crc_table(table@),
{
    let mut table: Vec<u32> = Vec::with_capacity(256);
    let mut i: u32 = 0;
    while i < 256
        invariant
            i <= 256,
            table@.len() == i,
            forall|j: int| 0 <= j < i ==> #[trigger] table@[j] == crc_table_entry(j),
        decreases 256 - i,
    {
        let v = crc_table_value(i);
        table.push(v);
        i = i + 1;
    }
    table
}

/// The four key bytes of a file whose base name is `file_name`.
pub fn compute_key(file_name: &[u8], table: &Vec<u32>) -> (keys: [u8; 4])
    requires
        is_crc_table(table@),
    ensures
        keys@ == file_key(file_name@),
{
    let mut crc: u32 = 0xFFFF_FFFF;
    let mut i: usize = 0;
    while i < file_name.len()
        invariant
            i <= file_name@.len(),
            is_crc_table(table@),
            crc == crc_running(file_name@.subrange(0, i as int)),
        decreases file_name@.len() - i,
    {
        let b = file_name[i];
        proof {
            assert(file_name@.subrange(0, i + 1).drop_last() =~= file_name@.subrange(0, i as int));
        }
        let index = (crc ^ (b as u32)) as u8;
        crc = (crc >> 8) ^ table[index as usize];
        i = i + 1;
    }
    proof {
        assert(file_name@.subrange(0, file_name@.len() as int) =~= file_name@);
    }
    let k = !crc;
    let keys = [k as u8, (k >> 8) as u8, (k >> 16) as u8, (k >> 24) as u8];
    assert(keys@ =~= file_key(file_name@));
    keys
}

/// The four keystream bytes of the state `crc`, lane 0 first.
pub fn key_stream(crc: u32) -> (ks: [u8; 4])
    ensures
        forall|lane: int| 0 <= lane < 4 ==> #[trigger] ks@[lane] == key_lane(crc, lane as u32),
{
    let ks = [key_lane_exec(crc, 0), key_lane_exec(crc, 1), key_lane_exec(crc, 2), key_lane_exec(crc, 3)];
    assert forall|lane: int| 0 <= lane < 4 implies #[trigger] ks@[lane] == key_lane(crc, lane as u32) by {
        if lane == 0 {
        } else if lane == 1 {
        } else if lane == 2 {
        } else {
        }
    }
    ks
}

/// The four keystream bytes of the state `crc` packed into one word, lane 0
/// in the low byte, so that a little-endian word of data can be XORed at once.
pub fn key_stream_u32(crc: u32) -> (ks: u32)
    ensures
        ks == packed_lanes(crc),
{
    let k0 = key_lane_exec(crc, 0) as u32;
    let k1 = key_lane_exec(crc, 1) as u32;
    let k2 = key_lane_exec(crc, 2) as u32;
    let k3 = key_lane_exec(crc, 3) as u32;
    k0 | (k1 << 8) | (k2 << 16) | (k3 << 24)
}

/// The four lanes of `crc` as one little-endian word.
pub open spec fn packed_lanes(crc: u32) -> u32 {
    (key_lane(crc, 0) as u32) | ((key_lane(crc, 1) as u32) << 8u32) | ((key_lane(crc, 2) as u32)
        << 16u32) | ((key_lane(crc, 3) as u32) << 24u32)
}

/// Byte `lane` of a packed keystream word is keystream lane `lane`.
pub proof fn lemma_packed_lane(crc: u32, lane: u32)
    requires
        lane < 4,
    ensures
        (packed_lanes(crc) >> (8 * lane)) as u8 == key_lane(crc, lane),
{
    let k0 = key_lane(crc, 0);
    let k1 = key_lane(crc, 1);
    let k2 = key_lane(crc, 2);
    let k3 = key_lane(crc, 3);
    let w = packed_lanes(crc);
    assert(w == (k0 as u32) | ((k1 as u32) << 8u32) | ((k2 as u32) << 16u32) | ((k3 as u32) << 24u32));
    lemma_unpack(k0, k1, k2, k3, w);
    if lane == 0 {
        assert(8 * lane == 0);
    } else if lane == 1 {
        assert(8 * lane == 8);
    } else if lane == 2 {
        assert(8 * lane == 16);
    } else {
        assert(8 * lane == 24);
    }
}

proof fn lemma_unpack(k0: u8, k1: u8, k2: u8, k3: u8, w: u32)
    requires
        w == (k0 as u32) | ((k1 as u32) << 8u32) | ((k2 as u32) << 16u32) | ((k3 as u32) << 24u32),
    ensures
        (w >> 0u32) as u8 == k0,
        (w >> 8u32) as u8 == k1,
        (w >> 16u32) as u8 == k2,
        (w >> 24u32) as u8 == k3,
{
    assert((w >> 0u32) as u8 == k0 && (w >> 8u32) as u8 == k1 && (w >> 16u32) as u8 == k2 && (w
        >> 24u32) as u8 == k3) by (bit_vector)
        requires
            w == (k0 as u32) | ((k1 as u32) << 8u32) | ((k2 as u32) << 16u32) | ((k3 as u32)
                << 24u32),
    ;
}

fn key_lane_exec(crc: u32, lane: u32) -> (r: u8)
    requires
        lane < 4,
    ensures
        r == key_lane(crc, lane),
{
    let s = 2 * lane;
    let r0 = (crc >> (s + 8)) & 3;
    let r1 = ((r0 << 2) | ((crc >> s) & 0xFF)) & 0xFF;
    let r2 = ((r1 << 2) | ((crc >> (s + 16)) & 3)) & 0xFF;
    let r3 = ((r2 << 2) | ((crc >> (s + 24)) & 3)) & 0xFF;
    r3 as u8
}

/// The cipher bound to one file: its key bytes and the CRC-32 table.
pub struct CriwareCrypt {
    keys: [u8; 4],
    crc32table: Vec<u32>,
}

impl CriwareCrypt {
    /// The key bytes of the file, as a sequence.
    pub closed spec fn key(&self) -> Seq<u8> {
        self.keys@
    }

    pub closed spec fn wf(&self) -> bool {
        is_crc_table(self.crc32table@)
    }

    /// The cipher of the file whose base name (with its extension) is
    /// `file_name`, taken as raw bytes.
    pub fn new(file_name: &[u8]) -> (r: CriwareCrypt)
        ensures
            r.wf(),
            r.key() == file_key(file_name@),
    {
        let crc32table = initialize_table();
        let keys = compute_key(file_name, &crc32table);
        CriwareCrypt { keys, crc32table }
    }

    /// The keystream state of the group of four positions that starts at `seed`.
    pub fn update_crc_state(&self, seed: u32) -> (r: u32)
        requires
            self.wf(),
        ensures
            r == crc_state(self.key(), seed),
    {
        let mut crc = !seed;
        let mut idx = (crc as u8) ^ self.keys[0];
        crc = (crc >> 8) ^ self.crc32table[idx as usize];
        idx = (crc as u8) ^ self.keys[1];
        crc = (crc >> 8) ^ self.crc32table[idx as usize];
        idx = (crc as u8) ^ self.keys[2];
        crc = (crc >> 8) ^ self.crc32table[idx as usize];
        idx = (crc as u8) ^ self.keys[3];
        crc = (crc >> 8) ^ self.crc32table[idx as usize];
        !crc
    }

    /// XORs `buffer`, which holds the bytes at file positions
    /// `file_offset ..`, with the keystream. The same call encrypts and
    /// decrypts.
    pub fn decrypt_block(&self, buffer: &mut Vec<u8>, file_offset: u64)
        requires
            self.wf(),
            file_offset + old(buffer)@.len() <= u64::MAX,
        ensures
            final(buffer)@ == xor_stream(self.key(), old(buffer)@, file_offset as int),
    {
        let n = buffer.len();
        let mut ks: u32 = key_stream_u32(self.update_crc_state((file_offset - file_offset % 4) as u32));
        let mut i: usize = 0;
        while i < n
            invariant
                self.wf(),
                n == buffer@.len(),
                n == old(buffer)@.len(),
                file_offset + n <= u64::MAX,
                i <= n,
                forall|j: int|
                    0 <= j < i ==> #[trigger] buffer@[j] == old(buffer)@[j] ^ key_at(
                        self.key(),
                        file_offset + j,
                    ),
                forall|j: int| i <= j < n ==> #[trigger] buffer@[j] == old(buffer)@[j],
                ks == packed_lanes(
                    crc_state(
                        self.key(),
                        (group_start(if i == 0 { file_offset as int } else { file_offset + i - 1 })) as u32,
                    ),
                ),
            decreases n - i,
        {
            let pos = file_offset + i as u64;
            if pos % 4 == 0 {
                ks = key_stream_u32(self.update_crc_state(pos as u32));
            }
            let lane = (pos % 4) as u32;
            proof {
                lemma_packed_lane(crc_state(self.key(), group_start(pos as int) as u32), lane);
            }
            let b = buffer[i] ^ ((ks >> (8 * lane)) as u8);
            buffer.set(i, b);
            i = i + 1;
        }
        proof {
            assert(buffer@ =~= xor_stream(self.key(), old(buffer)@, file_offset as int));
        }
    }

    /// Decrypts a whole file held in memory. A file that already starts with
    /// `"CPK "` is returned as it is.
    pub fn decrypt_ram(&self, buffer: Vec<u8>) -> (r: Vec<u8>)
        requires
            self.wf(),
        ensures
            r@ == decrypted(self.key(), buffer@),
            r@.len() == buffer@.len(),
            is_plain_cpk(buffer@) ==> r@ == buffer@,
    {
        let mut buffer = buffer;
        if is_plain_header(buffer.as_slice()) {
            return buffer;
        }
        let len = buffer.len();
        assert(len as int <= u64::MAX);
        self.decrypt_block(&mut buffer, 0);
        buffer
    }

    /// Encrypts a whole file held in memory.
    pub fn encrypt_ram(&self, buffer: Vec<u8>) -> (r: Vec<u8>)
        requires
            self.wf(),
        ensures
            r@ == xor_stream(self.key(), buffer@, 0),
            r@.len() == buffer@.len(),
    {
        let mut buffer = buffer;
        let len = buffer.len();
        assert(len as int <= u64::MAX);
        self.decrypt_block(&mut buffer, 0);
        buffer
    }
}

/// The first position of the aligned group of four that holds `p`.
pub open spec fn group_start(p: int) -> int {
    p - p % 4
}

/// Encrypting a byte at a position and decrypting it at the same position,
/// under the same key, gives the byte back.
pub proof fn lemma_byte_round_trip(keys: Seq<u8>, b: u8, p: int)
    ensures
        (b ^ key_at(keys, p)) ^ key_at(keys, p) == b,
{
    lemma_xor_twice(b, key_at(keys, p));
}

proof fn lemma_xor_twice(a: u8, k: u8)
    ensures
        (a ^ k) ^ k == a,
{
    assert((a ^ k) ^ k == a) by (bit_vector);
}

/// Applying the keystream twice at the same positions gives the data back.
pub proof fn lemma_xor_stream_involutive(keys: Seq<u8>, data: Seq<u8>, offset: int)
    ensures
        xor_stream(keys, xor_stream(keys, data, offset), offset) == data,
{
    let once = xor_stream(keys, data, offset);
    let twice = xor_stream(keys, once, offset);
    assert forall|i: int| 0 <= i < data.len() implies #[trigger] twice[i] == data[i] by {
        lemma_xor_twice(data[i], key_at(keys, offset + i));
    }
    assert(twice =~= data);
}

/// Two ciphers of files with the same base name have the same key, so a
/// block transformed by one and then by the other at the same offset comes
/// back unchanged.
pub proof fn lemma_block_round_trip(a: CriwareCrypt, b: CriwareCrypt, data: Seq<u8>, offset: int)
    requires
        a.key() == b.key(),
    ensures
        xor_stream(b.key(), xor_stream(a.key(), data, offset), offset) == data,
{
    lemma_xor_stream_involutive(a.key(), data, offset);
}

/// Decrypting in memory what was encrypted gives the plaintext back, unless
/// the ciphertext happens to start with `"CPK "` (it is then taken as clear).
pub proof fn lemma_decrypt_after_encrypt(keys: Seq<u8>, data: Seq<u8>)
    requires
        !is_plain_cpk(xor_stream(keys, data, 0)),
    ensures
        decrypted(keys, xor_stream(keys, data, 0)) == data,
{
    lemma_xor_stream_involutive(keys, data, 0);
}

/// A file that already starts with `"CPK "` decrypts to itself.
pub proof fn lemma_plain_file_unchanged(keys: Seq<u8>, data: Seq<u8>)
    requires
        is_plain_cpk(data),
    ensures
        decrypted(keys, data) == data,
{
}

} // verus!
