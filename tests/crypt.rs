use ievr_toolbox::crypt::{
    compute_key, initialize_table, is_plain_header, key_stream, key_stream_u32, CriwareCrypt,
};

const HELLO_WORLD_ENCRYPTED: [u8; 11] = [136, 179, 151, 159, 116, 229, 148, 10, 163, 15, 115];

#[test]
fn crc_table_has_standard_entries() {
    let t = initialize_table();
    assert_eq!(t.len(), 256);
    assert_eq!(t[0], 0);
    assert_eq!(t[1], 0x7707_3096);
    assert_eq!(t[255], 0x2D02_EF8D);
}

#[test]
fn key_is_crc32_of_basename_little_endian() {
    let t = initialize_table();
    // CRC-32 of "t.cpk" is 0x3553DD40.
    assert_eq!(compute_key(b"t.cpk", &t), [0x40, 0xDD, 0x53, 0x35]);
    // The empty name gives the CRC-32 of nothing, 0.
    assert_eq!(compute_key(b"", &t), [0, 0, 0, 0]);
}

#[test]
fn keystream_lanes_follow_the_bit_recipe() {
    assert_eq!(key_stream(0x1234_5678), [130, 228, 125, 208]);
    assert_eq!(key_stream_u32(0x1234_5678), 0xD07D_E482);
}

#[test]
fn packed_keystream_matches_lanes() {
    for crc in [0u32, 1, 0xFFFF_FFFF, 0xDEAD_BEEF, 0x8000_0001] {
        let ks = key_stream(crc);
        assert_eq!(key_stream_u32(crc), u32::from_le_bytes(ks));
    }
}

#[test]
fn group_state_of_first_group() {
    let c = CriwareCrypt::new(b"t.cpk");
    let state = c.update_crc_state(0);
    assert_eq!(state, 0xF824_EBF6);
    assert_eq!(key_stream(state), [224, 214, 251, 243]);
}

#[test]
fn encrypts_known_bytes() {
    let c = CriwareCrypt::new(b"t.cpk");
    let out = c.encrypt_ram(b"hello world".to_vec());
    assert_eq!(out, HELLO_WORLD_ENCRYPTED.to_vec());
}

#[test]
fn decrypts_known_bytes() {
    let c = CriwareCrypt::new(b"t.cpk");
    let out = c.decrypt_ram(HELLO_WORLD_ENCRYPTED.to_vec());
    assert_eq!(out, b"hello world".to_vec());
}

#[test]
fn unaligned_block_uses_group_state() {
    // Bytes at positions 3, 4, 5: lane 3 of group 0, then lanes 0 and 1 of group 4.
    let c = CriwareCrypt::new(b"t.cpk");
    let mut buf = b"abc".to_vec();
    c.decrypt_block(&mut buf, 3);
    assert_eq!(buf, vec![146, 121, 166]);
}

#[test]
fn block_round_trip_at_every_offset() {
    let c = CriwareCrypt::new(b"some_archive.cpk");
    let plain: Vec<u8> = (0..37u32).map(|i| (i * 7 + 3) as u8).collect();
    for offset in 0..9u64 {
        let mut buf = plain.clone();
        c.decrypt_block(&mut buf, offset);
        assert_ne!(buf, plain);
        c.decrypt_block(&mut buf, offset);
        assert_eq!(buf, plain);
    }
}

#[test]
fn block_split_matches_whole() {
    let c = CriwareCrypt::new(b"t.cpk");
    let data: Vec<u8> = (0..50u32).map(|i| i as u8).collect();
    let mut whole = data.clone();
    c.decrypt_block(&mut whole, 0);
    let mut first = data[..13].to_vec();
    let mut second = data[13..].to_vec();
    c.decrypt_block(&mut first, 0);
    c.decrypt_block(&mut second, 13);
    first.extend(second);
    assert_eq!(first, whole);
}

#[test]
fn memory_round_trip() {
    let c = CriwareCrypt::new(b"data.cpk");
    let s: Vec<u8> = (0..1000u32).map(|i| (i % 251) as u8).collect();
    let enc = c.encrypt_ram(s.clone());
    assert!(!is_plain_header(&enc));
    assert_eq!(c.decrypt_ram(enc), s);
}

#[test]
fn plaintext_passthrough() {
    let c = CriwareCrypt::new(b"t.cpk");
    let mut f = b"CPK \x00\x00\x00\x00".to_vec();
    f.extend((0..40u8).collect::<Vec<u8>>());
    assert!(is_plain_header(&f));
    assert_eq!(c.decrypt_ram(f.clone()), f);
}

#[test]
fn zero_length_file() {
    let c = CriwareCrypt::new(b"t.cpk");
    assert_eq!(c.decrypt_ram(Vec::new()), Vec::<u8>::new());
    assert_eq!(c.encrypt_ram(Vec::new()), Vec::<u8>::new());
}

#[test]
fn single_byte_file_uses_lane_zero() {
    let c = CriwareCrypt::new(b"t.cpk");
    let k0 = key_stream(c.update_crc_state(0))[0];
    assert_eq!(k0, 224);
    assert_eq!(c.encrypt_ram(vec![0x5A]), vec![0x5A ^ k0]);
    assert_eq!(c.decrypt_ram(vec![0x5A ^ k0]), vec![0x5A]);
}

#[test]
fn short_headers_are_not_plain() {
    assert!(!is_plain_header(b"CPK"));
    assert!(!is_plain_header(b"CPKX"));
    assert!(is_plain_header(b"CPK "));
}

#[test]
fn ciphertext_that_looks_clear_is_kept() {
    // The first keystream bytes for "t.cpk" are 224, 214, 251, 243: these
    // four bytes encrypt to "CPK ", which decryption then takes as clear.
    let c = CriwareCrypt::new(b"t.cpk");
    let s = vec![0x43 ^ 224, 0x50 ^ 214, 0x4B ^ 251, 0x20 ^ 243];
    let enc = c.encrypt_ram(s.clone());
    assert_eq!(enc, b"CPK ".to_vec());
    assert_eq!(c.decrypt_ram(enc.clone()), enc);
    assert_ne!(c.decrypt_ram(enc), s);
}
