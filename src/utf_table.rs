//! The header of a CRI UTF table and the table's bytes.
use crate::column::{be_u16, be_u32, read_u16_be, read_u32_be};
use crate::layla::le_u32;
use vstd::prelude::*;

verus! {

/// Added to each offset that a table header declares.
pub const BASE_OFFSET: u32 = 0x08;

/// Position of the first column descriptor in a table body.
pub const COLUMN_OFFSET: u32 = 0x20;

/// Little-endian magic at the start of a table body of the encrypted
/// variant.
pub const ENCRYPTED_UTF_MAGIC: u32 = 0xF5F3_9E1F;

/// The fields of a table header.
#[derive(Debug, Clone, Copy)]
pub struct Metadata {
    pub rows_offset: u16,
    pub string_pool_offset: u32,
    pub data_pool_offset: u32,
    pub column_count: u16,
    pub row_size_bytes: u16,
    pub row_count: u32,
}

/// Whether `data` is long enough for a header whose offsets, with the base
/// added, still fit their fields.
pub open spec fn header_ok(data: Seq<u8>) -> bool {
    &&& data.len() >= 0x20
    &&& be_u16(data, 0x0A) + 8 <= u16::MAX
    &&& be_u32(data, 0x0C) + 8 <= u32::MAX
    &&& be_u32(data, 0x10) + 8 <= u32::MAX
}

/// The header that `data` holds.
pub open spec fn header_spec(data: Seq<u8>) -> Metadata {
    Metadata {
        rows_offset: (be_u16(data, 0x0A) + 8) as u16,
        string_pool_offset: (be_u32(data, 0x0C) + 8) as u32,
        data_pool_offset: (be_u32(data, 0x10) + 8) as u32,
        column_count: be_u16(data, 0x18) as u16,
        row_size_bytes: be_u16(data, 0x1A) as u16,
        row_count: be_u32(data, 0x1C) as u32,
    }
}

impl Metadata {
    /// Reads the header of the table body `data`; `None` when it is too
    /// short or an offset overflows once the base is added.
    pub fn new(data: &[u8]) -> (r: Option<Metadata>)
        ensures
            r is Some <==> header_ok(data@),
            r matches Some(m) ==> m == header_spec(data@),
    {
        if data.len() < 0x20 {
            return None;
        }
        let rows = read_u16_be(data, 0x0A);
        let strings = read_u32_be(data, 0x0C);
        let pool = read_u32_be(data, 0x10);
        if rows > u16::MAX - 8 || strings > u32::MAX - 8 || pool > u32::MAX - 8 {
            return None;
        }
        Some(
            Metadata {
                rows_offset: rows + BASE_OFFSET as u16,
                string_pool_offset: strings + BASE_OFFSET,
                data_pool_offset: pool + BASE_OFFSET,
                column_count: read_u16_be(data, 0x18),
                row_size_bytes: read_u16_be(data, 0x1A),
                row_count: read_u32_be(data, 0x1C),
            },
        )
    }

    pub fn first_column_pos(&self) -> (r: u32)
        ensures
            r == 0x20,
    {
        COLUMN_OFFSET
    }

    pub fn first_row_offset(&self) -> (r: u32)
        ensures
            r == self.rows_offset,
    {
        self.rows_offset as u32
    }
}

/// Whether a table body belongs to the encrypted variant.
pub fn is_utf_encrypted(table: &[u8]) -> (r: bool)
    ensures
        r == (table@.len() >= 4 && le_u32(table@, 0) == ENCRYPTED_UTF_MAGIC),
{
    if table.len() < 4 {
        return false;
    }
    let magic = table[0] as u32 + table[1] as u32 * 0x100 + table[2] as u32 * 0x1_0000 + table[3] as u32
        * 0x100_0000;
    magic == ENCRYPTED_UTF_MAGIC
}

/// The body of the table whose 16-byte header is at `offset` in `file`:
/// its size is the little-endian `u32` at `offset + 8`, and the body
/// follows the header.
pub open spec fn table_body(file: Seq<u8>, offset: int) -> Option<Seq<u8>> {
    if offset + 16 > file.len() {
        None
    } else if offset + 16 + le_u32(file, offset + 8) > file.len() {
        None
    } else {
        Some(file.subrange(offset + 16, offset + 16 + le_u32(file, offset + 8)))
    }
}

/// A table's body and its header.
#[derive(Debug)]
pub struct UTFTable {
    pub data: Vec<u8>,
    pub metadata: Metadata,
}

/// A table as mathematical values.
pub struct TableView {
    pub data: Seq<u8>,
    pub metadata: Metadata,
}

impl View for UTFTable {
    type V = TableView;

    open spec fn view(&self) -> TableView {
        TableView { data: self.data@, metadata: self.metadata }
    }
}

/// The table whose header is at `offset` in `file`, if its body lies inside
/// `file` and holds a header.
pub open spec fn table_at(file: Seq<u8>, offset: int) -> Option<TableView> {
    match table_body(file, offset) {
        Some(body) => if header_ok(body) {
            Some(TableView { data: body, metadata: header_spec(body) })
        } else {
            None
        },
        None => None,
    }
}

impl UTFTable {
    /// Parses the table at `offset` in the decrypted container `file`;
    /// `None` when the body lies outside `file` or its header is malformed.
    pub fn new(file: &[u8], offset: usize) -> (r: Option<UTFTable>)
        ensures
            r is Some <==> table_at(file@, offset as int) is Some,
            r matches Some(t) ==> table_at(file@, offset as int) == Some(t@),
    {
        let n = file.len();
        if offset > n || n - offset < 16 {
            return None;
        }
        let size = file[offset + 8] as usize + file[offset + 9] as usize * 0x100 + file[offset + 10] as usize
            * 0x1_0000 + file[offset + 11] as usize * 0x100_0000;
        if size > n - offset - 16 {
            return None;
        }
        let start = offset + 16;
        let body = &file[start..start + size];
        match Metadata::new(body) {
            None => None,
            Some(metadata) => Some(UTFTable { data: vstd::slice::slice_to_vec(body), metadata }),
        }
    }
}

} // verus!
