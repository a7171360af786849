use ievr_toolbox::bit_reader::ReverseBitReader;
use ievr_toolbox::layla::{decompress_layla, is_compressed, Decompressor};

/// Bits in the order the decoder reads them.
struct Bits(Vec<u8>);

impl Bits {
    fn new() -> Bits {
        Bits(Vec::new())
    }

    fn push(&mut self, v: u32, n: u32) {
        for i in (0..n).rev() {
            self.0.push(((v >> i) & 1) as u8);
        }
    }

    fn literal(&mut self, b: u8) {
        self.push(0, 1);
        self.push(b as u32, 8);
    }
}

/// A Layla frame: magic, sizes, the bit stream stored backwards, then the
/// verbatim block.
fn frame(bits: &Bits, uncomp: u32, verbatim: &[u8]) -> Vec<u8> {
    assert_eq!(verbatim.len(), 256);
    let n = (bits.0.len() + 7) / 8;
    let mut stream = vec![0u8; n];
    for (k, b) in bits.0.iter().enumerate() {
        if *b == 1 {
            stream[k / 8] |= 1 << (7 - k % 8);
        }
    }
    let mut out = b"CRILAYLA".to_vec();
    out.extend(uncomp.to_le_bytes());
    out.extend((n as u32).to_le_bytes());
    for j in (0..n).rev() {
        out.push(stream[j]);
    }
    out.extend_from_slice(verbatim);
    out
}

fn pattern(len: usize) -> Vec<u8> {
    (0..len).map(|i| (i % 251) as u8).collect()
}

#[test]
fn reader_reads_msb_first_downward() {
    let data = [0b1010_0000u8, 0b1100_0011];
    let mut r = ReverseBitReader::new(&data, 2);
    assert!(r.has_bits(16));
    assert!(!r.has_bits(17));
    assert_eq!(r.read_bits(4), 0b1100);
    assert_eq!(r.read_bit(), 0);
    assert_eq!(r.read_bits(7), 0b011_1010);
    assert_eq!(r.read_bits(4), 0);
    assert!(!r.has_bits(1));
}

#[test]
fn reader_wide_reads_match_single_bits() {
    let data: Vec<u8> = (0..40u32).map(|i| (i * 37 + 11) as u8).collect();
    let mut one = ReverseBitReader::new(&data, 40);
    let mut wide = ReverseBitReader::new(&data, 40);
    for n in [1u32, 24, 13, 8, 2, 3, 5, 17, 24, 9] {
        let mut v = 0u32;
        for _ in 0..n {
            v = (v << 1) | one.read_bit();
        }
        assert_eq!(wide.read_bits(n), v);
    }
}

#[test]
fn detects_magic() {
    assert!(is_compressed(b"CRILAYLA\x00\x00"));
    assert!(!is_compressed(b"CRILAYL"));
    assert!(!is_compressed(b"CPK     "));
}

#[test]
fn verbatim_block_alone() {
    let verbatim = pattern(256);
    let f = frame(&Bits::new(), 0, &verbatim);
    let mut out = Vec::new();
    assert_eq!(decompress_layla(&f, &mut out), Some(()));
    assert_eq!(out, verbatim);
}

#[test]
fn literals_fill_downward() {
    let expected = pattern(300);
    let mut bits = Bits::new();
    for w in (256..300).rev() {
        bits.literal(expected[w]);
    }
    let f = frame(&bits, 44, &expected[..256]);
    let mut d = Decompressor::new();
    assert!(d.decompress(&f));
    assert_eq!(d.output().len(), 300);
    for i in 0..300 {
        assert_eq!(d.output()[i], (i % 251) as u8);
    }
}

#[test]
fn back_reference_copies_from_above() {
    // Three literals, then a copy of length 5 at offset 3.
    let verbatim = vec![7u8; 256];
    let mut bits = Bits::new();
    bits.literal(1);
    bits.literal(2);
    bits.literal(3);
    bits.push(1, 1);
    bits.push(0, 13);
    bits.push(2, 2);
    let f = frame(&bits, 8, &verbatim);
    let mut out = Vec::new();
    assert_eq!(decompress_layla(&f, &mut out), Some(()));
    assert_eq!(out.len(), 264);
    assert_eq!(&out[256..264], &[2, 1, 3, 2, 1, 3, 2, 1]);
}

#[test]
fn level_three_chain_sums_chunks() {
    // Length 3 + 3 + 7 + 31 + 255 + 255 + 10 = 564, copied at offset 3 after
    // three literals; 33 literals of 0xEE fill the rest.
    let uncomp = 600u32;
    let total = uncomp as usize + 256;
    let verbatim = vec![0u8; 256];
    let mut bits = Bits::new();
    bits.literal(0x11);
    bits.literal(0x22);
    bits.literal(0x33);
    bits.push(1, 1);
    bits.push(0, 13);
    bits.push(3, 2);
    bits.push(7, 3);
    bits.push(31, 5);
    bits.push(255, 8);
    bits.push(255, 8);
    bits.push(10, 8);
    for _ in 0..33 {
        bits.literal(0xEE);
    }
    let f = frame(&bits, uncomp, &verbatim);
    let mut out = Vec::new();
    assert_eq!(decompress_layla(&f, &mut out), Some(()));
    assert_eq!(out.len(), total);
    assert_eq!(&out[total - 3..], &[0x33, 0x22, 0x11]);
    for i in 289..total - 3 {
        assert_eq!(out[i], out[i + 3]);
    }
    assert_eq!(out[289], 0x33);
    for i in 256..289 {
        assert_eq!(out[i], 0xEE);
    }
}

#[test]
fn copy_is_cut_at_the_verbatim_block() {
    // A copy longer than the room left stops at byte 256.
    let verbatim = vec![9u8; 256];
    let mut bits = Bits::new();
    bits.literal(4);
    bits.literal(5);
    bits.literal(6);
    bits.push(1, 1);
    bits.push(0, 13);
    bits.push(3, 2);
    bits.push(6, 3);
    let f = frame(&bits, 5, &verbatim);
    let mut out = Vec::new();
    assert_eq!(decompress_layla(&f, &mut out), Some(()));
    assert_eq!(&out[256..261], &[5, 4, 6, 5, 4]);
}

#[test]
fn identical_payloads_decode_identically() {
    let expected = pattern(300);
    let mut bits = Bits::new();
    for w in (256..300).rev() {
        bits.literal(expected[w]);
    }
    let f = frame(&bits, 44, &expected[..256]);
    let mut a = Vec::new();
    let mut b = vec![1, 2, 3];
    assert_eq!(decompress_layla(&f, &mut a), Some(()));
    assert_eq!(decompress_layla(&f.clone(), &mut b), Some(()));
    assert_eq!(a, b);
}

#[test]
fn rejects_short_payload() {
    let mut out = Vec::new();
    assert_eq!(decompress_layla(b"CRILAYLA\x00\x00\x00", &mut out), None);
}

#[test]
fn rejects_verbatim_block_out_of_range() {
    let mut f = frame(&Bits::new(), 0, &[0u8; 256]);
    f.truncate(f.len() - 1);
    let mut out = Vec::new();
    assert_eq!(decompress_layla(&f, &mut out), None);
}

#[test]
fn rejects_back_reference_past_end() {
    let mut bits = Bits::new();
    bits.push(1, 1);
    bits.push(0, 13);
    bits.push(0, 2);
    let f = frame(&bits, 4, &[0u8; 256]);
    let mut out = Vec::new();
    assert_eq!(decompress_layla(&f, &mut out), None);
}

#[test]
fn rejects_truncated_stream() {
    // 100 literals need 900 bits; the stream and the header below it hold
    // only 18 bytes.
    let mut bits = Bits::new();
    bits.literal(1);
    let f = frame(&bits, 100, &[0u8; 256]);
    let mut d = Decompressor::new();
    assert!(!d.decompress(&f));
}
