use std::sync::Arc;

use ievr_toolbox::column::{read_u16_be, read_u32_be, read_u64_be, ColumnDescriptor, ColumnType};
use ievr_toolbox::crypt::CriwareCrypt;
use ievr_toolbox::layla::{is_compressed, Decompressor};
use ievr_toolbox::pipeline::is_selected;
use ievr_toolbox::toc_parser::{extract_cpk_files, read_members, read_utf_string, TocError, TocParser};
use ievr_toolbox::utf_table::{is_utf_encrypted, Metadata, UTFTable};
use ievr_toolbox::{CpkData, CpkFile};

const ROW_U64: u8 = 0x56;
const ROW_U32: u8 = 0x54;
const ROW_STRING: u8 = 0x5A;

/// A string pool under construction.
struct Pool(Vec<u8>);

impl Pool {
    fn add(&mut self, s: &str) -> u32 {
        let off = self.0.len() as u32;
        self.0.extend_from_slice(s.as_bytes());
        self.0.push(0);
        off
    }
}

/// A table body: header, columns `(descriptor, name, default bytes)`, rows
/// of row-stored bytes, then the string pool.
fn utf_body(cols: &[(u8, &str, Vec<u8>)], rows: &[Vec<u8>], pool: &mut Pool) -> Vec<u8> {
    let mut body = vec![0u8; 0x20];
    for (raw, name, default) in cols {
        body.push(*raw);
        if raw & 0x10 != 0 {
            let off = pool.add(name);
            body.extend(off.to_be_bytes());
        }
        body.extend_from_slice(default);
    }
    let rows_start = body.len();
    for r in rows {
        body.extend_from_slice(r);
    }
    let pool_start = body.len();
    body.extend_from_slice(&pool.0);
    body[0x0A..0x0C].copy_from_slice(&((rows_start - 8) as u16).to_be_bytes());
    body[0x0C..0x10].copy_from_slice(&((pool_start - 8) as u32).to_be_bytes());
    body[0x10..0x14].copy_from_slice(&((pool_start - 8) as u32).to_be_bytes());
    body[0x18..0x1A].copy_from_slice(&(cols.len() as u16).to_be_bytes());
    let row_size = rows.first().map(|r| r.len()).unwrap_or(0);
    body[0x1A..0x1C].copy_from_slice(&(row_size as u16).to_be_bytes());
    body[0x1C..0x20].copy_from_slice(&(rows.len() as u32).to_be_bytes());
    body
}

/// A table with its 16-byte header.
fn framed(tag: &[u8; 4], body: &[u8]) -> Vec<u8> {
    let mut t = tag.to_vec();
    t.extend([0u8; 4]);
    t.extend((body.len() as u32).to_le_bytes());
    t.extend([0u8; 4]);
    t.extend_from_slice(body);
    t
}

fn master_table(toc: u64, content: u64) -> Vec<u8> {
    let mut pool = Pool(Vec::new());
    let mut row = toc.to_be_bytes().to_vec();
    row.extend(content.to_be_bytes());
    let body = utf_body(
        &[(ROW_U64, "TocOffset", vec![]), (ROW_U64, "ContentOffset", vec![])],
        &[row],
        &mut pool,
    );
    framed(b"CPK ", &body)
}

/// Members as `(dir, name, offset, size, extract size)`.
fn toc_table(members: &[(&str, &str, u64, u32, u32)]) -> Vec<u8> {
    let mut pool = Pool(Vec::new());
    let mut rows = Vec::new();
    for (dir, name, off, size, extract) in members {
        let mut row = pool.add(dir).to_be_bytes().to_vec();
        row.extend(pool.add(name).to_be_bytes());
        row.extend(size.to_be_bytes());
        row.extend(extract.to_be_bytes());
        row.extend(off.to_be_bytes());
        rows.push(row);
    }
    let body = utf_body(
        &[
            (ROW_STRING, "DirName", vec![]),
            (ROW_STRING, "FileName", vec![]),
            (ROW_U32, "FileSize", vec![]),
            (ROW_U32, "ExtractSize", vec![]),
            (ROW_U64, "FileOffset", vec![]),
        ],
        &rows,
        &mut pool,
    );
    framed(b"TOC ", &body)
}

/// A plaintext container: master table, member payloads at their offsets,
/// and the TOC at 0x800.
fn container(members: &[(&str, &str, u64, u32, u32)], payloads: &[(usize, Vec<u8>)]) -> Vec<u8> {
    let mut c = master_table(0x800, 0);
    c.resize(0x800, 0);
    c.extend(toc_table(members));
    for (at, bytes) in payloads {
        c[*at..*at + bytes.len()].copy_from_slice(bytes);
    }
    c
}

fn members_of(bytes: Vec<u8>) -> Result<Vec<CpkFile>, TocError> {
    let d = Arc::new(CpkData::Small(bytes));
    extract_cpk_files(&d, &mut TocParser::new())
}

#[test]
fn descriptor_flags_and_type() {
    let d = ColumnDescriptor::new(0x5A);
    assert!(d.has_name());
    assert!(!d.has_default());
    assert!(d.is_row_storage());
    assert_eq!(d.column_type(), Some(ColumnType::String));
    assert_eq!(d.value_len(), 4);
    assert_eq!(d.flags().bits, 0x50);
    assert!(d.flags().contains(0x10));
    let e = ColumnDescriptor::new(0x2D);
    assert!(e.has_default());
    assert_eq!(e.column_type(), None);
    assert_eq!(e.value_len(), 0);
    assert_eq!(ColumnDescriptor::new(0x8C).flags().bits, 0);
}

#[test]
fn value_lengths_by_type() {
    let widths = [1u8, 1, 2, 2, 4, 4, 8, 8, 4, 8, 4, 8, 16];
    for (t, w) in widths.iter().enumerate() {
        assert_eq!(ColumnDescriptor::new(t as u8).value_len(), *w);
    }
}

#[test]
fn numbers_are_big_endian_and_sign_extended() {
    let d = [0xFFu8, 0xFE, 0x00, 0x01, 0x80, 0, 0, 0];
    assert_eq!(ColumnDescriptor::new(0).read_number(&d), 255);
    assert_eq!(ColumnDescriptor::new(1).read_number(&d), -1);
    assert_eq!(ColumnDescriptor::new(2).read_number(&d), 0xFFFE);
    assert_eq!(ColumnDescriptor::new(3).read_number(&d), -2);
    assert_eq!(ColumnDescriptor::new(4).read_number(&d), 0xFFFE_0001);
    assert_eq!(ColumnDescriptor::new(5).read_number(&d), -131071);
    assert_eq!(ColumnDescriptor::new(6).read_number(&d), 0xFFFE_0001_8000_0000u64 as i64);
    assert_eq!(ColumnDescriptor::new(7).read_number(&d), 0xFFFE_0001_8000_0000u64 as i64);
    assert_eq!(ColumnDescriptor::new(8).read_number(&d), -1);
    assert_eq!(ColumnDescriptor::new(10).read_number(&d), -1);
}

#[test]
fn name_offset_follows_descriptor() {
    let d = ColumnDescriptor::new(0x10);
    assert_eq!(d.string_offset(&[0x10, 0, 0, 1, 2]), 0x102);
}

#[test]
fn big_endian_readers() {
    let d = [1u8, 2, 3, 4, 5, 6, 7, 8, 9];
    assert_eq!(read_u16_be(&d, 1), 0x0203);
    assert_eq!(read_u32_be(&d, 0), 0x0102_0304);
    assert_eq!(read_u64_be(&d, 1), 0x0203_0405_0607_0809);
}

#[test]
fn header_fields_with_base() {
    let mut pool = Pool(Vec::new());
    let body = utf_body(&[(ROW_U32, "A", vec![])], &[vec![0, 0, 0, 1], vec![0, 0, 0, 2]], &mut pool);
    let m = Metadata::new(&body).unwrap();
    assert_eq!(m.first_column_pos(), 0x20);
    assert_eq!(m.first_row_offset(), 0x25);
    assert_eq!(m.rows_offset, 0x25);
    assert_eq!(m.string_pool_offset, 0x2D);
    assert_eq!(m.column_count, 1);
    assert_eq!(m.row_size_bytes, 4);
    assert_eq!(m.row_count, 2);
    assert!(Metadata::new(&body[..0x1F]).is_none());
}

#[test]
fn table_at_offset() {
    let mut file = vec![0xAAu8; 5];
    let mut pool = Pool(Vec::new());
    let body = utf_body(&[(ROW_U32, "A", vec![])], &[vec![0, 0, 0, 1]], &mut pool);
    file.extend(framed(b"@UTF", &body));
    let t = UTFTable::new(&file, 5).unwrap();
    assert_eq!(t.data, body);
    assert!(UTFTable::new(&file[..file.len() - 1], 5).is_none());
    assert!(UTFTable::new(&file, 6).is_none());
}

#[test]
fn encrypted_marker() {
    assert!(is_utf_encrypted(&[0x1F, 0x9E, 0xF3, 0xF5, 0]));
    assert!(!is_utf_encrypted(&[0x1F, 0x9E, 0xF3]));
    assert!(!is_utf_encrypted(b"@UTF"));
}

#[test]
fn strings_end_at_nul_or_pool_end() {
    let pool = b"abc\0de";
    assert_eq!(read_utf_string(pool, 0), "abc");
    assert_eq!(read_utf_string(pool, 4), "de");
    assert_eq!(read_utf_string(pool, 6), "");
    assert_eq!(read_utf_string(b"a\xFFb\0", 0), "a\u{FFFD}b");
}

#[test]
fn find_locates_toc_and_lowers_content() {
    let m = UTFTable::new(&master_table(0x800, 0x1000), 0).unwrap();
    assert_eq!(TocParser::new().find(&m), Ok((0x800, 0x800)));
    let m = UTFTable::new(&master_table(0x800, 0x10), 0).unwrap();
    assert_eq!(TocParser::new().find(&m), Ok((0x800, 0x10)));
}

#[test]
fn find_reads_default_values() {
    let mut pool = Pool(Vec::new());
    let body = utf_body(
        &[
            (0x36, "TocOffset", 0x900u64.to_be_bytes().to_vec()),
            (0x36, "ContentOffset", 0x40u64.to_be_bytes().to_vec()),
        ],
        &[],
        &mut pool,
    );
    let m = UTFTable::new(&framed(b"CPK ", &body), 0).unwrap();
    assert_eq!(TocParser::new().find(&m), Ok((0x900, 0x40)));
}

#[test]
fn find_without_toc_column() {
    let mut pool = Pool(Vec::new());
    let body = utf_body(&[(ROW_U64, "ContentOffset", vec![])], &[vec![0; 8]], &mut pool);
    let m = UTFTable::new(&framed(b"CPK ", &body), 0).unwrap();
    assert_eq!(TocParser::new().find(&m), Err(TocError::MissingColumn));
}

#[test]
fn unknown_column_type_is_rejected() {
    let mut pool = Pool(Vec::new());
    let body = utf_body(&[(0x5D, "TocOffset", vec![])], &[vec![0; 8]], &mut pool);
    let m = UTFTable::new(&framed(b"CPK ", &body), 0).unwrap();
    assert_eq!(TocParser::new().find(&m), Err(TocError::Layout));
    assert!(TocParser::new().read(&m, 0).is_err());
}

#[test]
fn row_outside_body_is_rejected() {
    let mut pool = Pool(Vec::new());
    let mut body = utf_body(&[(ROW_U32, "FileSize", vec![])], &[vec![0, 0, 0, 1]], &mut pool);
    body[0x1C..0x20].copy_from_slice(&1000u32.to_be_bytes());
    let t = UTFTable::new(&framed(b"TOC ", &body), 0).unwrap();
    assert_eq!(TocParser::new().read(&t, 0).err(), Some(TocError::Row));
}

#[test]
fn narrow_string_cell_is_rejected() {
    let mut pool = Pool(Vec::new());
    let body = utf_body(&[(0x50, "FileName", vec![])], &[vec![0]], &mut pool);
    let t = UTFTable::new(&framed(b"TOC ", &body), 0).unwrap();
    assert_eq!(TocParser::new().read(&t, 0).err(), Some(TocError::StringCell));
}

#[test]
fn offset_overflow_is_rejected() {
    let mut pool = Pool(Vec::new());
    let body = utf_body(&[(ROW_U64, "FileOffset", vec![])], &[u64::MAX.to_be_bytes().to_vec()], &mut pool);
    let t = UTFTable::new(&framed(b"TOC ", &body), 0).unwrap();
    assert_eq!(TocParser::new().read(&t, 1).err(), Some(TocError::Offset));
    let files = TocParser::new().read(&t, 0).unwrap();
    assert_eq!(files[0].file_offset, u64::MAX);
}

#[test]
fn missing_extract_size_equals_file_size() {
    let mut pool = Pool(Vec::new());
    let name = pool.add("x.bin");
    let mut row = name.to_be_bytes().to_vec();
    row.extend(9u32.to_be_bytes());
    let body = utf_body(
        &[(ROW_STRING, "FileName", vec![]), (ROW_U32, "FileSize", vec![]), (0x34, "FileOffset", 16u32.to_be_bytes().to_vec())],
        &[row],
        &mut pool,
    );
    let t = UTFTable::new(&framed(b"TOC ", &body), 0).unwrap();
    let files = TocParser::new().read(&t, 100).unwrap();
    assert_eq!(files.len(), 1);
    assert_eq!(files[0].file_name, "x.bin");
    assert_eq!(files[0].directory, None);
    assert_eq!(files[0].user_string, None);
    assert_eq!(files[0].file_size, 9);
    assert_eq!(files[0].extract_size, 9);
    assert_eq!(files[0].file_offset, 116);
}

#[test]
fn missing_table_is_rejected() {
    assert_eq!(read_members(b"CPK \0\0\0\0", &mut TocParser::new()).err(), Some(TocError::Table));
}

#[test]
fn member_outside_container_is_rejected() {
    let c = container(&[("d", "big.bin", 0x100, 0x10_0000, 0x10_0000)], &[]);
    assert_eq!(members_of(c).err(), Some(TocError::MemberRange));
}

#[test]
fn plaintext_container_without_members() {
    let c = container(&[], &[]);
    let crypt = CriwareCrypt::new(b"t.cpk");
    let d = crypt.decrypt_ram(c.clone());
    assert_eq!(d, c);
    assert_eq!(members_of(d).unwrap().len(), 0);
}

#[test]
fn single_uncompressed_member() {
    let plain = container(&[("a/b", "hello.bin", 0x100, 5, 5)], &[(0x100, b"hello".to_vec())]);
    let crypt = CriwareCrypt::new(b"t.cpk");
    let encrypted = crypt.encrypt_ram(plain.clone());
    assert_ne!(encrypted, plain);
    let decrypted = crypt.decrypt_ram(encrypted);
    let files = members_of(decrypted).unwrap();
    assert_eq!(files.len(), 1);
    let f = &files[0];
    assert_eq!(f.directory.as_deref(), Some("a/b"));
    assert_eq!(f.file_name, "hello.bin");
    assert_eq!(f.file_offset, 0x100);
    assert_eq!(f.data(), Some(&b"hello"[..]));
    assert!(!is_compressed(f.compression_header().unwrap()));
    assert!(!f.size_mismatch());
    assert_eq!(f.cpk_size(), Some(plain.len()));
    assert!(f.cpk_is_resident());
    assert_eq!(f.last_cpk_file(), Some(true));
}

#[test]
fn compressed_member() {
    // A frame of 44 literals whose verbatim block is bytes 0..256 of the
    // sequence i mod 251, 300 bytes in all.
    let expected: Vec<u8> = (0..300).map(|i| (i % 251) as u8).collect();
    let mut bits: Vec<u8> = Vec::new();
    for w in (256..300).rev() {
        bits.push(0);
        for i in (0..8).rev() {
            bits.push((expected[w] >> i) & 1);
        }
    }
    let n = (bits.len() + 7) / 8;
    let mut stream = vec![0u8; n];
    for (k, b) in bits.iter().enumerate() {
        stream[k / 8] |= b << (7 - k % 8);
    }
    let mut frame = b"CRILAYLA".to_vec();
    frame.extend(44u32.to_le_bytes());
    frame.extend((n as u32).to_le_bytes());
    frame.extend(stream.iter().rev());
    frame.extend_from_slice(&expected[..256]);
    let size = frame.len() as u32;
    let plain = container(&[("a/b", "hello.bin", 0x100, size, 300)], &[(0x100, frame)]);
    let files = members_of(plain).unwrap();
    let f = &files[0];
    assert!(is_compressed(f.compression_header().unwrap()));
    let mut d = Decompressor::new();
    assert!(d.decompress(f.data().unwrap()));
    assert_eq!(d.output(), &expected[..]);
}

#[test]
fn selection_keeps_only_named_members() {
    let plain = container(
        &[("x", "keep.bin", 0x100, 4, 4), ("x", "skip.bin", 0x104, 4, 4)],
        &[(0x100, b"keepskip".to_vec())],
    );
    let files = members_of(plain).unwrap();
    let selected = vec!["keep.bin".to_string()];
    let kept: Vec<&CpkFile> = files.iter().filter(|f| is_selected(&selected, &f.file_name)).collect();
    assert_eq!(kept.len(), 1);
    assert_eq!(kept[0].file_name, "keep.bin");
    assert_eq!(kept[0].data(), Some(&b"keep"[..]));
    assert!(is_selected(&Vec::new(), &"skip.bin".to_string()));
}

#[test]
fn last_member_holds_last_handle() {
    let plain = container(&[("x", "a.bin", 0x100, 1, 1), ("x", "b.bin", 0x101, 1, 1)], &[]);
    let mut files = members_of(plain).unwrap();
    let b = files.pop().unwrap();
    assert_eq!(b.last_cpk_file(), Some(false));
    drop(files);
    assert_eq!(b.last_cpk_file(), Some(true));
}

#[test]
fn size_mismatch_is_kept() {
    let plain = container(&[("x", "odd.bin", 0x100, 8, 4)], &[]);
    let files = members_of(plain).unwrap();
    assert_eq!(files.len(), 1);
    assert!(files[0].size_mismatch());
}

#[test]
fn member_without_container() {
    let f = CpkFile::new(None, "a".to_string(), None, 0, 1, 1);
    assert_eq!(f.data(), None);
    assert_eq!(f.cpk_size(), None);
    assert_eq!(f.last_cpk_file(), None);
}

#[test]
fn repeated_directories_are_read_alike() {
    let plain = container(
        &[("dir/x", "a.bin", 0x100, 1, 1), ("dir/x", "b.bin", 0x101, 1, 1), ("dir/y", "c.bin", 0x102, 1, 1)],
        &[],
    );
    let files = members_of(plain).unwrap();
    assert_eq!(files[0].directory.as_deref(), Some("dir/x"));
    assert_eq!(files[1].directory.as_deref(), Some("dir/x"));
    assert_eq!(files[2].directory.as_deref(), Some("dir/y"));
}

#[test]
fn parser_is_reused_across_tables() {
    let mut parser = TocParser::new();
    let first = container(&[("one", "a.bin", 0x100, 1, 1)], &[]);
    let second = container(&[("two", "b.bin", 0x100, 1, 1)], &[]);
    let a = read_members(&first, &mut parser).unwrap();
    let b = read_members(&second, &mut parser).unwrap();
    assert_eq!(a[0].directory.as_deref(), Some("one"));
    assert_eq!(b[0].directory.as_deref(), Some("two"));
}

#[test]
fn find_takes_signed_minimum() {
    // TocOffset is -16 as a signed 64-bit cell; the content offset is the
    // smaller of the two values read as signed integers.
    let mut pool = Pool(Vec::new());
    let mut row = (-16i64).to_be_bytes().to_vec();
    row.extend(0x40i64.to_be_bytes());
    let body = utf_body(&[(0x57, "TocOffset", vec![]), (0x57, "ContentOffset", vec![])], &[row], &mut pool);
    let m = UTFTable::new(&framed(b"CPK ", &body), 0).unwrap();
    let toc = (-16i64) as u64;
    assert_eq!(TocParser::new().find(&m), Ok((toc, toc)));
}
