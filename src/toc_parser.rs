//! Reading a CPK's table of contents: where the TOC is, and one member
//! record per TOC row.
use crate::column::{
    be_u32, number_of, read_u32_be, type_of_nibble, value_len_of, ColumnDescriptor,
    HAS_DEFAULT_VALUE, HAS_NAME, IS_ROW_STORAGE,
};
use crate::cpk_file::{CpkFile, DecryptedCpk};
use crate::utf_table::{table_at, table_body, TableView, UTFTable};
use std::collections::HashMap;
use vstd::prelude::*;

verus! {

broadcast use vstd::std_specs::hash::group_hash_axioms;

/// What `String::from_utf8_lossy` makes of `bytes`.
pub uninterp spec fn lossy_utf8(bytes: Seq<u8>) -> Seq<char>;

/// Relies on `String::from_utf8_lossy`: the string that the bytes spell,
/// with each invalid sequence replaced; it depends on the bytes alone.
#[verifier::external_body]
fn decode_lossy(bytes: &[u8]) -> (r: String)
    ensures
        r@ == lossy_utf8(bytes@),
{
    String::from_utf8_lossy(bytes).into_owned()
}

/// The end of the NUL-terminated string that starts at `i`: the first NUL
/// at or after `i`, or the end of `pool`.
pub open spec fn string_end(pool: Seq<u8>, i: int) -> int
    decreases pool.len() - i,
{
    if i >= pool.len() {
        pool.len() as int
    } else if pool[i] == 0 {
        i
    } else {
        string_end(pool, i + 1)
    }
}

/// The bytes of the NUL-terminated string at `offset` in `pool`.
pub open spec fn c_string(pool: Seq<u8>, offset: int) -> Seq<u8> {
    pool.subrange(offset, string_end(pool, offset))
}

/// Reads the NUL-terminated string at `offset` in a string pool; invalid
/// UTF-8 is replaced.
pub fn read_utf_string(string_pool: &[u8], offset: usize) -> (r: String)
    requires
        offset <= string_pool@.len(),
    ensures
        r@ == lossy_utf8(c_string(string_pool@, offset as int)),
{
    let n = string_pool.len();
    let mut end = offset;
    while end < n && string_pool[end] != 0
        invariant
            offset <= end <= n,
            n == string_pool@.len(),
            string_end(string_pool@, offset as int) == string_end(string_pool@, end as int),
        decreases n - end,
    {
        end = end + 1;
    }
    decode_lossy(&string_pool[offset..end])
}

/// Bytes that the descriptor `raw` and its name and default take.
pub open spec fn col_size(raw: u8) -> nat {
    1 + (if raw & HAS_NAME != 0 {
        4nat
    } else {
        0nat
    }) + (if raw & HAS_DEFAULT_VALUE != 0 {
        value_len_of(raw)
    } else {
        0nat
    })
}

/// Position in the table body of the descriptor of column `k`.
pub open spec fn col_pos(t: Seq<u8>, k: nat) -> int
    decreases k,
{
    if k == 0 {
        0x20
    } else {
        col_pos(t, (k - 1) as nat) + col_size(t[col_pos(t, (k - 1) as nat)])
    }
}

/// The descriptor byte of column `k`.
pub open spec fn desc(t: Seq<u8>, k: nat) -> u8 {
    t[col_pos(t, k)]
}

/// Offset within a row of the value of column `k`: the widths of the
/// row-stored columns before it.
pub open spec fn row_field(t: Seq<u8>, k: nat) -> nat
    decreases k,
{
    if k == 0 {
        0
    } else {
        row_field(t, (k - 1) as nat) + (if desc(t, (k - 1) as nat) & IS_ROW_STORAGE != 0 {
            value_len_of(desc(t, (k - 1) as nat))
        } else {
            0nat
        })
    }
}

/// The string pool of a table: its bytes from the declared offset on.
pub open spec fn string_pool(t: Seq<u8>, pool_offset: int) -> Seq<u8> {
    t.subrange(pool_offset, t.len() as int)
}

/// Column `k` lies inside the body, has a known type, and its name offset
/// lies inside the string pool.
pub open spec fn column_ok(t: Seq<u8>, pool_offset: int, k: nat) -> bool {
    &&& col_pos(t, k) + col_size(desc(t, k)) <= t.len()
    &&& type_of_nibble(desc(t, k) & 0x0F) is Some
    &&& desc(t, k) & HAS_NAME != 0 ==> be_u32(t, col_pos(t, k) + 1) <= t.len() - pool_offset
}

/// Every column descriptor of the table is well formed.
pub open spec fn layout_ok(t: Seq<u8>, pool_offset: int, count: nat) -> bool {
    &&& 0 <= pool_offset <= t.len()
    &&& forall|k: nat| k < count ==> #[trigger] column_ok(t, pool_offset, k)
}

/// The name of column `k`, if it has one.
pub open spec fn column_name(t: Seq<u8>, pool_offset: int, k: nat) -> Option<Seq<char>> {
    if desc(t, k) & HAS_NAME != 0 {
        Some(lossy_utf8(c_string(string_pool(t, pool_offset), be_u32(t, col_pos(t, k) + 1) as int)))
    } else {
        None
    }
}

/// The last of the first `n` columns whose name is `name`.
pub open spec fn named_column(t: Seq<u8>, pool_offset: int, n: nat, name: Seq<char>) -> Option<nat>
    decreases n,
{
    if n == 0 {
        None
    } else if column_name(t, pool_offset, (n - 1) as nat) == Some(name) {
        Some((n - 1) as nat)
    } else {
        named_column(t, pool_offset, (n - 1) as nat, name)
    }
}

/// Where the row-stored value of column `k` in row `r` starts.
pub open spec fn row_cell_pos(t: Seq<u8>, rows_offset: int, row_size: int, r: int, k: nat) -> int {
    rows_offset + r * row_size + row_field(t, k)
}

/// Where the default value of column `k` starts.
pub open spec fn default_pos(t: Seq<u8>, k: nat) -> int {
    col_pos(t, k) + 1 + (if desc(t, k) & HAS_NAME != 0 {
        4int
    } else {
        0int
    })
}

/// The bytes of the cell of column `k` in row `r`: the row's own value for
/// a row-stored column, else the column's default, else nothing.
pub open spec fn cell(t: Seq<u8>, rows_offset: int, row_size: int, r: int, k: nat) -> Option<
    Seq<u8>,
> {
    let raw = desc(t, k);
    let len = value_len_of(raw);
    if raw & IS_ROW_STORAGE != 0 {
        let p = row_cell_pos(t, rows_offset, row_size, r, k);
        Some(t.subrange(p, p + len))
    } else if raw & HAS_DEFAULT_VALUE != 0 {
        Some(t.subrange(default_pos(t, k), default_pos(t, k) + len))
    } else {
        None
    }
}

/// The cell of column `k` in row `r` lies inside the body (a default
/// always does in a well-formed layout).
pub open spec fn cell_in_table(t: Seq<u8>, rows_offset: int, row_size: int, r: int, k: nat) -> bool {
    desc(t, k) & IS_ROW_STORAGE != 0 ==> row_cell_pos(t, rows_offset, row_size, r, k)
        + value_len_of(desc(t, k)) <= t.len()
}

/// Every cell of row `r` lies inside the body.
pub open spec fn row_in_table(t: Seq<u8>, rows_offset: int, row_size: int, r: int, count: nat) -> bool {
    forall|k: nat| k < count ==> #[trigger] cell_in_table(t, rows_offset, row_size, r, k)
}

/// An optional column index as a mathematical one.
pub open spec fn index_view(o: Option<usize>) -> Option<nat> {
    match o {
        Some(i) => Some(i as nat),
        None => None,
    }
}

/// A column of a table as the reader walks it: its descriptor, where the
/// descriptor stands, and the offset of its value within a row.
#[derive(Debug, Clone, Copy)]
pub struct ColumnLayout {
    pub descriptor: ColumnDescriptor,
    pub pos: usize,
    pub row_field: usize,
}

/// `v` describes the first `v.len()` columns of the table body `t`.
pub open spec fn layout_matches(t: Seq<u8>, v: Seq<ColumnLayout>) -> bool {
    forall|k: int|
        0 <= k < v.len() ==> (#[trigger] v[k]).descriptor.raw == desc(t, k as nat) && v[k].pos
            == col_pos(t, k as nat) && v[k].row_field == row_field(t, k as nat)
}

/// The table's column layout is well formed and `cols` describes it.
pub open spec fn walked(table: TableView, cols: Seq<ColumnLayout>) -> bool {
    &&& layout_ok(
        table.data,
        table.metadata.string_pool_offset as int,
        table.metadata.column_count as nat,
    )
    &&& cols.len() == table.metadata.column_count
    &&& layout_matches(table.data, cols)
}

/// Walks the column descriptors of a table; `None` when one lies outside
/// the body, has an unknown type, or names a string outside the pool.
pub fn parse_layout(table: &UTFTable) -> (r: Option<Vec<ColumnLayout>>)
    ensures
        r is Some <==> layout_ok(
            table.data@,
            table.metadata.string_pool_offset as int,
            table.metadata.column_count as nat,
        ),
        r matches Some(v) ==> walked(table@, v@),
{
    let t = table.data.as_slice();
    let n = t.len();
    let pool = table.metadata.string_pool_offset as usize;
    if pool > n {
        return None;
    }
    let cc = table.metadata.column_count as usize;
    let mut cols: Vec<ColumnLayout> = Vec::new();
    let mut pos: usize = 0x20;
    let mut rf: usize = 0;
    let mut k: usize = 0;
    while k < cc
        invariant
            t@ == table.data@,
            n == t@.len(),
            pool == table.metadata.string_pool_offset,
            pool <= n,
            cc == table.metadata.column_count,
            k <= cc,
            cols@.len() == k,
            layout_matches(t@, cols@),
            pos == col_pos(t@, k as nat),
            rf == row_field(t@, k as nat),
            rf <= 16 * k,
            forall|j: nat| j < k ==> #[trigger] column_ok(t@, pool as int, j),
        decreases cc - k,
    {
        if pos >= n {
            proof {
                assert(!column_ok(t@, pool as int, k as nat));
            }
            return None;
        }
        let d = ColumnDescriptor::new(t[pos]);
        if d.column_type().is_none() {
            proof {
                assert(!column_ok(t@, pool as int, k as nat));
            }
            return None;
        }
        let len = d.value_len() as usize;
        let mut size: usize = 1;
        if d.has_name() {
            size = size + 4;
        }
        if d.has_default() {
            size = size + len;
        }
        if size > n - pos {
            proof {
                assert(!column_ok(t@, pool as int, k as nat));
            }
            return None;
        }
        if d.has_name() {
            let off = read_u32_be(t, pos + 1) as usize;
            if off > n - pool {
                proof {
                    assert(!column_ok(t@, pool as int, k as nat));
                }
                return None;
            }
        }
        let ghost prev = cols@;
        cols.push(ColumnLayout { descriptor: d, pos, row_field: rf });
        if d.is_row_storage() {
            rf = rf + len;
        }
        pos = pos + size;
        k = k + 1;
        proof {
            assert(column_ok(t@, pool as int, (k - 1) as nat));
            assert(layout_matches(t@, cols@)) by {
                assert forall|j: int| 0 <= j < cols@.len() implies (#[trigger] cols@[j]).descriptor.raw
                    == desc(t@, j as nat) && cols@[j].pos == col_pos(t@, j as nat)
                    && cols@[j].row_field == row_field(t@, j as nat) by {
                    if j < k - 1 {
                        assert(cols@[j] == prev[j]);
                    }
                }
            }
        }
    }
    Some(cols)
}

/// Finds the last column named `name`.
pub fn find_column(table: &UTFTable, cols: &Vec<ColumnLayout>, name: &String) -> (r: Option<usize>)
    requires
        walked(table@, cols@),
    ensures
        index_view(r) == named_column(
            table.data@,
            table.metadata.string_pool_offset as int,
            table.metadata.column_count as nat,
            name@,
        ),
{
    let t = table.data.as_slice();
    let n = t.len();
    let pool = table.metadata.string_pool_offset as usize;
    let pool_bytes = &t[pool..n];
    let mut found: Option<usize> = None;
    let mut k: usize = 0;
    while k < cols.len()
        invariant
            walked(table@, cols@),
            t@ == table.data@,
            n == t@.len(),
            pool == table.metadata.string_pool_offset,
            pool_bytes@ == string_pool(t@, pool as int),
            k <= cols@.len(),
            index_view(found) == named_column(t@, pool as int, k as nat, name@),
        decreases cols@.len() - k,
    {
        let c = cols[k];
        proof {
            assert(column_ok(t@, pool as int, k as nat));
        }
        if c.descriptor.has_name() {
            let off = read_u32_be(t, c.pos + 1) as usize;
            let s = read_utf_string(pool_bytes, off);
            if s.eq(name) {
                found = Some(k);
            }
        }
        k = k + 1;
    }
    found
}

proof fn lemma_row_field_bound(t: Seq<u8>, k: nat)
    ensures
        row_field(t, k) <= 16 * k,
    decreases k,
{
    if k > 0 {
        lemma_row_field_bound(t, (k - 1) as nat);
        let raw = desc(t, (k - 1) as nat);
        assert(value_len_of(raw) <= 16);
    }
}

/// Whether the cell of column `k` in row `r` lies inside the body.
pub fn cell_fits(table: &UTFTable, cols: &Vec<ColumnLayout>, k: usize, r: u32) -> (b: bool)
    requires
        walked(table@, cols@),
        k < cols@.len(),
    ensures
        b == cell_in_table(
            table.data@,
            table.metadata.rows_offset as int,
            table.metadata.row_size_bytes as int,
            r as int,
            k as nat,
        ),
{
    let c = cols[k];
    if !c.descriptor.is_row_storage() {
        return true;
    }
    proof {
        assert(cols@[k as int] == c);
        lemma_row_field_bound(table.data@, k as nat);
        assert(k <= 0xFFFF);
    }
    let rs = table.metadata.row_size_bytes as u64;
    assert((r as u64) * rs <= 0xFFFF_FFFFu64 * 0xFFFFu64) by (nonlinear_arith)
        requires
            r <= 0xFFFF_FFFFu64,
            rs <= 0xFFFFu64,
    ;
    let p = table.metadata.rows_offset as u64 + (r as u64) * rs + c.row_field as u64;
    p + c.descriptor.value_len() as u64 <= table.data.len() as u64
}

/// Whether every cell of row `r` lies inside the body.
pub fn row_fits(table: &UTFTable, cols: &Vec<ColumnLayout>, r: u32) -> (b: bool)
    requires
        walked(table@, cols@),
    ensures
        b == row_in_table(
            table.data@,
            table.metadata.rows_offset as int,
            table.metadata.row_size_bytes as int,
            r as int,
            table.metadata.column_count as nat,
        ),
{
    let mut k: usize = 0;
    while k < cols.len()
        invariant
            walked(table@, cols@),
            k <= cols@.len(),
            forall|j: nat|
                j < k ==> #[trigger] cell_in_table(
                    table.data@,
                    table.metadata.rows_offset as int,
                    table.metadata.row_size_bytes as int,
                    r as int,
                    j,
                ),
        decreases cols@.len() - k,
    {
        if !cell_fits(table, cols, k, r) {
            return false;
        }
        k = k + 1;
    }
    true
}

/// The bytes of the cell of column `k` in row `r`.
pub fn cell_of<'a>(table: &'a UTFTable, cols: &Vec<ColumnLayout>, k: usize, r: u32) -> (c: Option<
    &'a [u8],
>)
    requires
        walked(table@, cols@),
        k < cols@.len(),
        cell_in_table(
            table.data@,
            table.metadata.rows_offset as int,
            table.metadata.row_size_bytes as int,
            r as int,
            k as nat,
        ),
    ensures
        match cell(
            table.data@,
            table.metadata.rows_offset as int,
            table.metadata.row_size_bytes as int,
            r as int,
            k as nat,
        ) {
            None => c is None,
            Some(bytes) => c matches Some(s) && s@ == bytes,
        },
{
    let t = table.data.as_slice();
    let n = t.len();
    let c = cols[k];
    let len = c.descriptor.value_len() as usize;
    proof {
        assert(cols@[k as int] == c);
        assert(column_ok(t@, table.metadata.string_pool_offset as int, k as nat));
    }
    if c.descriptor.is_row_storage() {
        let p = table.metadata.rows_offset as usize + (r as usize) * (table.metadata.row_size_bytes as usize)
            + c.row_field;
        Some(&t[p..p + len])
    } else if c.descriptor.has_default() {
        let p = if c.descriptor.has_name() {
            c.pos + 5
        } else {
            c.pos + 1
        };
        Some(&t[p..p + len])
    } else {
        None
    }
}

/// Why a container's tables could not be read.
#[derive(Debug, Clone, Copy, PartialEq, Eq, Structural)]
pub enum TocError {
    /// A table's body lies outside the container or its header is too short.
    Table,
    /// A column descriptor lies outside the table body, has an unknown type,
    /// or names a string outside the pool.
    Layout,
    /// The master table has no `TocOffset` or `ContentOffset` value.
    MissingColumn,
    /// A row's cell lies outside the table body.
    Row,
    /// A string cell is not four bytes wide or points outside the pool.
    StringCell,
    /// A member's offset overflows once the content offset is added.
    Offset,
    /// A member's bytes lie outside the container.
    MemberRange,
}

/// The cell that the optional column `idx` has in row `r`.
pub open spec fn toc_cell(t: TableView, idx: Option<nat>, r: int) -> Option<Seq<u8>> {
    match idx {
        None => None,
        Some(k) => cell(
            t.data,
            t.metadata.rows_offset as int,
            t.metadata.row_size_bytes as int,
            r,
            k,
        ),
    }
}

/// A string cell is four bytes wide and points inside the pool.
pub open spec fn text_cell_ok(t: TableView, idx: Option<nat>, r: int) -> bool {
    match toc_cell(t, idx, r) {
        None => true,
        Some(c) => c.len() == 4 && be_u32(c, 0) <= t.data.len() - t.metadata.string_pool_offset,
    }
}

/// The string that a string cell points to.
pub open spec fn text_cell(t: TableView, idx: Option<nat>, r: int) -> Option<Seq<char>> {
    match toc_cell(t, idx, r) {
        None => None,
        Some(c) => Some(
            lossy_utf8(
                c_string(
                    string_pool(t.data, t.metadata.string_pool_offset as int),
                    be_u32(c, 0) as int,
                ),
            ),
        ),
    }
}

/// The integer that a numeric cell holds.
pub open spec fn number_cell(t: TableView, idx: Option<nat>, r: int) -> Option<int> {
    match idx {
        None => None,
        Some(k) => match toc_cell(t, idx, r) {
            None => None,
            Some(c) => Some(number_of(type_of_nibble(desc(t.data, k) & 0x0F), c)),
        },
    }
}

/// The columns of a TOC that a member record is read from.
#[derive(Debug, Clone, Copy)]
pub struct TocColumns {
    pub dir_name: Option<usize>,
    pub file_name: Option<usize>,
    pub file_size: Option<usize>,
    pub extract_size: Option<usize>,
    pub file_offset: Option<usize>,
    pub user_string: Option<usize>,
}

/// `c` holds, for each field of a member record, the last column of the
/// table with that field's name.
pub open spec fn toc_columns_of(t: TableView, c: TocColumns) -> bool {
    let d = t.data;
    let p = t.metadata.string_pool_offset as int;
    let n = t.metadata.column_count as nat;
    &&& index_view(c.dir_name) == named_column(d, p, n, "DirName"@)
    &&& index_view(c.file_name) == named_column(d, p, n, "FileName"@)
    &&& index_view(c.file_size) == named_column(d, p, n, "FileSize"@)
    &&& index_view(c.extract_size) == named_column(d, p, n, "ExtractSize"@)
    &&& index_view(c.file_offset) == named_column(d, p, n, "FileOffset"@)
    &&& index_view(c.user_string) == named_column(d, p, n, "UserString"@)
}

/// Row `r` can be read: its cells lie in the body, its string cells are
/// well formed, and its offset does not overflow.
pub open spec fn row_ok(t: TableView, c: TocColumns, r: int, content_offset: u64) -> bool {
    &&& row_in_table(
        t.data,
        t.metadata.rows_offset as int,
        t.metadata.row_size_bytes as int,
        r,
        t.metadata.column_count as nat,
    )
    &&& text_cell_ok(t, index_view(c.dir_name), r)
    &&& text_cell_ok(t, index_view(c.file_name), r)
    &&& text_cell_ok(t, index_view(c.user_string), r)
    &&& match number_cell(t, index_view(c.file_offset), r) {
        None => true,
        Some(v) => (v as u64) + content_offset <= u64::MAX,
    }
}

pub open spec fn opt_text(o: Option<String>) -> Option<Seq<char>> {
    match o {
        Some(s) => Some(s@),
        None => None,
    }
}

/// The file size that row `r` declares; 0 when it has none.
pub open spec fn row_file_size(t: TableView, c: TocColumns, r: int) -> u32 {
    match number_cell(t, index_view(c.file_size), r) {
        Some(v) => v as u32,
        None => 0u32,
    }
}

/// The offset in the container of the bytes of row `r`: the row's value
/// plus the content offset.
pub open spec fn row_file_offset(t: TableView, c: TocColumns, r: int, content_offset: u64) -> u64 {
    match number_cell(t, index_view(c.file_offset), r) {
        Some(v) => ((v as u64) + content_offset) as u64,
        None => content_offset,
    }
}

/// `f` is the member record of row `r`. A missing file name is empty, a
/// missing size is 0, a missing extract size equals the file size, and the
/// file offset is the row's value plus the content offset.
pub open spec fn record_of(t: TableView, c: TocColumns, r: int, content_offset: u64, f: CpkFile) -> bool {
    &&& opt_text(f.directory) == text_cell(t, index_view(c.dir_name), r)
    &&& f.file_name@ == match text_cell(t, index_view(c.file_name), r) {
        Some(s) => s,
        None => Seq::empty(),
    }
    &&& opt_text(f.user_string) == text_cell(t, index_view(c.user_string), r)
    &&& f.file_size == row_file_size(t, c, r)
    &&& f.extract_size == match number_cell(t, index_view(c.extract_size), r) {
        Some(v) => v as u32,
        None => f.file_size,
    }
    &&& f.file_offset == row_file_offset(t, c, r, content_offset)
}

/// `f` is the member record of row `r`, not yet attached to a container.
pub open spec fn member_of(t: TableView, c: TocColumns, r: int, content_offset: u64, f: CpkFile) -> bool {
    &&& record_of(t, c, r, content_offset, f)
    &&& f.container() is None
}

/// The string that the cell of column `idx` in row `r` points to;
/// `Err` when the cell is malformed.
fn read_text(
    parser: &mut TocParser,
    table: &UTFTable,
    cols: &Vec<ColumnLayout>,
    pool_bytes: &[u8],
    idx: Option<usize>,
    r: u32,
) -> (res: Result<Option<String>, ()>)
    requires
        walked(table@, cols@),
        pool_bytes@ == string_pool(table.data@, table.metadata.string_pool_offset as int),
        old(parser).cache_ok(pool_bytes@),
        idx matches Some(k) ==> k < cols@.len(),
        row_in_table(
            table.data@,
            table.metadata.rows_offset as int,
            table.metadata.row_size_bytes as int,
            r as int,
            table.metadata.column_count as nat,
        ),
    ensures
        final(parser).cache_ok(pool_bytes@),
        res is Ok <==> text_cell_ok(table@, index_view(idx), r as int),
        res matches Ok(o) ==> opt_text(o) == text_cell(table@, index_view(idx), r as int),
{
    match idx {
        None => Ok(None),
        Some(k) => {
            proof {
                assert(cell_in_table(
                    table.data@,
                    table.metadata.rows_offset as int,
                    table.metadata.row_size_bytes as int,
                    r as int,
                    k as nat,
                ));
            }
            match cell_of(table, cols, k, r) {
                None => Ok(None),
                Some(c) => {
                    if c.len() != 4 {
                        return Err(());
                    }
                    let off = read_u32_be(c, 0);
                    if off as usize > pool_bytes.len() {
                        return Err(());
                    }
                    Ok(Some(parser.get_or_insert(pool_bytes, off)))
                },
            }
        },
    }
}

/// The integer that the cell of column `idx` in row `r` holds.
fn read_num(table: &UTFTable, cols: &Vec<ColumnLayout>, idx: Option<usize>, r: u32) -> (res: Option<i64>)
    requires
        walked(table@, cols@),
        idx matches Some(k) ==> k < cols@.len(),
        row_in_table(
            table.data@,
            table.metadata.rows_offset as int,
            table.metadata.row_size_bytes as int,
            r as int,
            table.metadata.column_count as nat,
        ),
    ensures
        match number_cell(table@, index_view(idx), r as int) {
            None => res is None,
            Some(v) => res == Some(v as i64) && i64::MIN <= v <= i64::MAX,
        },
{
    match idx {
        None => None,
        Some(k) => {
            proof {
                assert(cell_in_table(
                    table.data@,
                    table.metadata.rows_offset as int,
                    table.metadata.row_size_bytes as int,
                    r as int,
                    k as nat,
                ));
                assert(cols@[k as int].descriptor.raw == desc(table.data@, k as nat));
                assert(column_ok(table.data@, table.metadata.string_pool_offset as int, k as nat));
            }
            match cell_of(table, cols, k, r) {
                None => None,
                Some(c) => Some(cols[k].descriptor.read_number(c)),
            }
        },
    }
}

/// Reads the member record of row `r`; `None` when the row is malformed.
fn read_member(
    parser: &mut TocParser,
    table: &UTFTable,
    cols: &Vec<ColumnLayout>,
    pool_bytes: &[u8],
    c: TocColumns,
    r: u32,
    content_offset: u64,
) -> (res: Result<CpkFile, TocError>)
    requires
        walked(table@, cols@),
        toc_columns_of(table@, c),
        pool_bytes@ == string_pool(table.data@, table.metadata.string_pool_offset as int),
        old(parser).cache_ok(pool_bytes@),
    ensures
        final(parser).cache_ok(pool_bytes@),
        res is Ok <==> row_ok(table@, c, r as int, content_offset),
        res matches Ok(f) ==> member_of(table@, c, r as int, content_offset, f),
{
    proof {
        lemma_named_in_range(table.data@, table.metadata.string_pool_offset as int, table.metadata.column_count as nat, "DirName"@);
        lemma_named_in_range(table.data@, table.metadata.string_pool_offset as int, table.metadata.column_count as nat, "FileName"@);
        lemma_named_in_range(table.data@, table.metadata.string_pool_offset as int, table.metadata.column_count as nat, "FileSize"@);
        lemma_named_in_range(table.data@, table.metadata.string_pool_offset as int, table.metadata.column_count as nat, "ExtractSize"@);
        lemma_named_in_range(table.data@, table.metadata.string_pool_offset as int, table.metadata.column_count as nat, "FileOffset"@);
        lemma_named_in_range(table.data@, table.metadata.string_pool_offset as int, table.metadata.column_count as nat, "UserString"@);
    }
    if !row_fits(table, cols, r) {
        return Err(TocError::Row);
    }
    let directory = match read_text(parser, table, cols, pool_bytes, c.dir_name, r) {
        Ok(o) => o,
        Err(_) => {
            return Err(TocError::StringCell);
        },
    };
    let file_name = match read_text(parser, table, cols, pool_bytes, c.file_name, r) {
        Ok(Some(s)) => s,
        Ok(None) => String::new(),
        Err(_) => {
            return Err(TocError::StringCell);
        },
    };
    let user_string = match read_text(parser, table, cols, pool_bytes, c.user_string, r) {
        Ok(o) => o,
        Err(_) => {
            return Err(TocError::StringCell);
        },
    };
    let file_size = match read_num(table, cols, c.file_size, r) {
        Some(v) => v as u32,
        None => 0,
    };
    let extract_size = match read_num(table, cols, c.extract_size, r) {
        Some(v) => v as u32,
        None => file_size,
    };
    let file_offset = match read_num(table, cols, c.file_offset, r) {
        Some(v) => {
            let raw = v as u64;
            if raw > u64::MAX - content_offset {
                return Err(TocError::Offset);
            }
            raw + content_offset
        },
        None => content_offset,
    };
    Ok(CpkFile::new(directory, file_name, user_string, file_offset, file_size, extract_size))
}

proof fn lemma_named_in_range(t: Seq<u8>, p: int, n: nat, name: Seq<char>)
    ensures
        named_column(t, p, n, name) matches Some(k) ==> k < n,
    decreases n,
{
    if n > 0 {
        lemma_named_in_range(t, p, (n - 1) as nat, name);
    }
}

pub open spec fn index_of(o: Option<nat>) -> Option<usize> {
    match o {
        Some(i) => Some(i as usize),
        None => None,
    }
}

/// The columns that member records are read from, by name.
pub open spec fn toc_columns(t: TableView) -> TocColumns {
    let d = t.data;
    let p = t.metadata.string_pool_offset as int;
    let n = t.metadata.column_count as nat;
    TocColumns {
        dir_name: index_of(named_column(d, p, n, "DirName"@)),
        file_name: index_of(named_column(d, p, n, "FileName"@)),
        file_size: index_of(named_column(d, p, n, "FileSize"@)),
        extract_size: index_of(named_column(d, p, n, "ExtractSize"@)),
        file_offset: index_of(named_column(d, p, n, "FileOffset"@)),
        user_string: index_of(named_column(d, p, n, "UserString"@)),
    }
}

/// Where the master table `t` puts the TOC, and the content offset: the
/// values of its `TocOffset` and `ContentOffset` columns in row 0, read as
/// signed integers, the content offset lowered to the TOC offset when the
/// TOC comes first.
pub open spec fn toc_location(t: TableView) -> Result<(u64, u64), TocError> {
    let d = t.data;
    let p = t.metadata.string_pool_offset as int;
    let n = t.metadata.column_count as nat;
    let ro = t.metadata.rows_offset as int;
    let rs = t.metadata.row_size_bytes as int;
    if !layout_ok(d, p, n) {
        Err(TocError::Layout)
    } else {
        match (named_column(d, p, n, "TocOffset"@), named_column(d, p, n, "ContentOffset"@)) {
            (Some(tk), Some(ck)) => if !cell_in_table(d, ro, rs, 0, tk) || !cell_in_table(
                d,
                ro,
                rs,
                0,
                ck,
            ) {
                Err(TocError::Row)
            } else {
                match (number_cell(t, Some(tk), 0), number_cell(t, Some(ck), 0)) {
                    (Some(toc), Some(content)) => Ok(
                        (
                            toc as u64,
                            (if toc < content {
                                toc
                            } else {
                                content
                            }) as u64,
                        ),
                    ),
                    _ => Err(TocError::MissingColumn),
                }
            },
            _ => Err(TocError::MissingColumn),
        }
    }
}

/// Reads the tables of decrypted containers, interning the strings of the
/// table being read.
#[derive(Debug)]
pub struct TocParser {
    string_pool: HashMap<u32, String>,
}

impl TocParser {
    /// The interned strings, by offset in the current table's string pool.
    pub closed spec fn interned(&self) -> Map<u32, String> {
        self.string_pool@
    }

    /// Each interned string is the one at its offset in `pool`.
    pub open spec fn cache_ok(&self, pool: Seq<u8>) -> bool {
        forall|k: u32|
            #[trigger] self.interned().contains_key(k) ==> k <= pool.len() && self.interned()[k]@
                == lossy_utf8(c_string(pool, k as int))
    }

    pub fn new() -> (r: TocParser)
        ensures
            r.interned() == Map::<u32, String>::empty(),
    {
        TocParser { string_pool: HashMap::new() }
    }

    /// The string at `offset` in `pool`, from the cache when it was read
    /// before.
    fn get_or_insert(&mut self, pool: &[u8], offset: u32) -> (r: String)
        requires
            old(self).cache_ok(pool@),
            offset <= pool@.len(),
        ensures
            final(self).cache_ok(pool@),
            r@ == lossy_utf8(c_string(pool@, offset as int)),
    {
        proof {
            assert(vstd::std_specs::hash::obeys_key_model::<u32>());
            assert(vstd::std_specs::hash::builds_valid_hashers::<std::hash::RandomState>());
        }
        if let Some(s) = self.string_pool.get(&offset) {
            proof {
                assert(self.interned().contains_key(offset));
                assert(*s == self.interned()[offset]);
            }
            return s.clone();
        }
        let s = read_utf_string(pool, offset as usize);
        let ghost before = self.string_pool@;
        self.string_pool.insert(offset, s.clone());
        proof {
            assert(self.string_pool@ == before.insert(offset, s));
            assert forall|k: u32| #[trigger] self.interned().contains_key(k) implies k <= pool@.len()
                && self.interned()[k]@ == lossy_utf8(c_string(pool@, k as int)) by {
                if k != offset {
                    assert(old(self).interned().contains_key(k));
                }
            }
        }
        s
    }

    /// Locates the TOC through the master table: gives the TOC offset and
    /// the content offset.
    pub fn find(&self, table: &UTFTable) -> (r: Result<(u64, u64), TocError>)
        ensures
            r == toc_location(table@),
    {
        let cols = match parse_layout(table) {
            None => {
                return Err(TocError::Layout);
            },
            Some(c) => c,
        };
        let toc_col = find_column(table, &cols, &"TocOffset".to_owned());
        let content_col = find_column(table, &cols, &"ContentOffset".to_owned());
        proof {
            lemma_named_in_range(table.data@, table.metadata.string_pool_offset as int, table.metadata.column_count as nat, "TocOffset"@);
            lemma_named_in_range(table.data@, table.metadata.string_pool_offset as int, table.metadata.column_count as nat, "ContentOffset"@);
        }
        match (toc_col, content_col) {
            (Some(tk), Some(ck)) => {
                if !cell_fits(table, &cols, tk, 0) || !cell_fits(table, &cols, ck, 0) {
                    return Err(TocError::Row);
                }
                proof {
                    assert(cols@[tk as int].descriptor.raw == desc(table.data@, tk as nat));
                    assert(cols@[ck as int].descriptor.raw == desc(table.data@, ck as nat));
                    assert(column_ok(table.data@, table.metadata.string_pool_offset as int, tk as nat));
                    assert(column_ok(table.data@, table.metadata.string_pool_offset as int, ck as nat));
                }
                let toc = match cell_of(table, &cols, tk, 0) {
                    None => {
                        return Err(TocError::MissingColumn);
                    },
                    Some(c) => cols[tk].descriptor.read_number(c),
                };
                let content = match cell_of(table, &cols, ck, 0) {
                    None => {
                        return Err(TocError::MissingColumn);
                    },
                    Some(c) => cols[ck].descriptor.read_number(c),
                };
                if toc < content {
                    Ok((toc as u64, toc as u64))
                } else {
                    Ok((toc as u64, content as u64))
                }
            },
            _ => Err(TocError::MissingColumn),
        }
    }

    /// Reads one member record per row of the TOC table, adding
    /// `content_offset` to each file offset.
    pub fn read(&mut self, table: &UTFTable, content_offset: u64) -> (r: Result<Vec<CpkFile>, TocError>)
        ensures
            !layout_ok(
                table.data@,
                table.metadata.string_pool_offset as int,
                table.metadata.column_count as nat,
            ) ==> r == Err::<Vec<CpkFile>, TocError>(TocError::Layout),
            layout_ok(
                table.data@,
                table.metadata.string_pool_offset as int,
                table.metadata.column_count as nat,
            ) ==> (r is Ok <==> forall|i: int|
                0 <= i < table.metadata.row_count ==> row_ok(
                    table@,
                    toc_columns(table@),
                    i,
                    content_offset,
                )),
            r matches Ok(v) ==> v@.len() == table.metadata.row_count && forall|i: int|
                0 <= i < v@.len() ==> member_of(
                    table@,
                    toc_columns(table@),
                    i,
                    content_offset,
                    #[trigger] v@[i],
                ),
    {
        let cols = match parse_layout(table) {
            None => {
                return Err(TocError::Layout);
            },
            Some(c) => c,
        };
        let c = TocColumns {
            dir_name: find_column(table, &cols, &"DirName".to_owned()),
            file_name: find_column(table, &cols, &"FileName".to_owned()),
            file_size: find_column(table, &cols, &"FileSize".to_owned()),
            extract_size: find_column(table, &cols, &"ExtractSize".to_owned()),
            file_offset: find_column(table, &cols, &"FileOffset".to_owned()),
            user_string: find_column(table, &cols, &"UserString".to_owned()),
        };
        assert(c == toc_columns(table@));
        self.string_pool.clear();
        let pool_bytes = &table.data.as_slice()[table.metadata.string_pool_offset as usize..table.data.len()];
        let count = table.metadata.row_count;
        let mut result: Vec<CpkFile> = Vec::new();
        let mut row: u32 = 0;
        while row < count
            invariant
                walked(table@, cols@),
                pool_bytes@ == string_pool(table.data@, table.metadata.string_pool_offset as int),
                self.cache_ok(pool_bytes@),
                toc_columns_of(table@, c),
                c == toc_columns(table@),
                count == table.metadata.row_count,
                row <= count,
                result@.len() == row,
                forall|i: int| 0 <= i < row ==> row_ok(table@, c, i, content_offset),
                forall|i: int|
                    0 <= i < row ==> member_of(
                        table@,
                        c,
                        i,
                        content_offset,
                        #[trigger] result@[i],
                    ),
            decreases count - row,
        {
            match read_member(self, table, &cols, pool_bytes, c, row, content_offset) {
                Ok(f) => {
                    result.push(f);
                },
                Err(e) => {
                    return Err(e);
                },
            }
            row = row + 1;
        }
        Ok(result)
    }
}

/// The TOC table of a container and its content offset: the master table at
/// offset 0 locates the TOC table; `None` when either table cannot be read
/// or the master table does not locate the TOC.
pub open spec fn toc_of(bytes: Seq<u8>) -> Option<(TableView, u64)> {
    match table_at(bytes, 0) {
        None => None,
        Some(master) => match toc_location(master) {
            Err(_) => None,
            Ok(loc) => match table_at(bytes, loc.0 as int) {
                None => None,
                Some(toc) => Some((toc, loc.1)),
            },
        },
    }
}

/// The container `bytes` can be read: its master and TOC tables parse, the
/// TOC's columns are well formed, every row can be read, and every row's
/// bytes lie inside the container.
pub open spec fn container_ok(bytes: Seq<u8>) -> bool {
    match toc_of(bytes) {
        None => false,
        Some(tc) => toc_ok(bytes.len() as int, tc.0, tc.1),
    }
}

/// The TOC table `t` is well formed, every row can be read, and every row's
/// bytes lie inside a container of `len` bytes.
pub open spec fn toc_ok(len: int, t: TableView, content_offset: u64) -> bool {
    let c = toc_columns(t);
    &&& layout_ok(t.data, t.metadata.string_pool_offset as int, t.metadata.column_count as nat)
    &&& forall|i: int| 0 <= i < t.metadata.row_count ==> #[trigger] row_ok(t, c, i, content_offset)
    &&& forall|i: int|
        0 <= i < t.metadata.row_count ==> #[trigger] row_file_offset(t, c, i, content_offset)
            + row_file_size(t, c, i) <= len
}

/// A container whose TOC is well formed and has no rows can be read; its
/// member list is then empty.
pub proof fn lemma_empty_toc_reads(bytes: Seq<u8>)
    requires
        toc_of(bytes) matches Some(tc) && layout_ok(
            tc.0.data,
            tc.0.metadata.string_pool_offset as int,
            tc.0.metadata.column_count as nat,
        ) && tc.0.metadata.row_count == 0,
    ensures
        container_ok(bytes),
        forall|v: Seq<CpkFile>| members_of(bytes, v) ==> v.len() == 0,
{
}

/// A member's file size is at most its extract size whenever its row
/// declares them in that order (a row without an extract size has both
/// equal).
pub proof fn lemma_record_sizes_ordered(t: TableView, c: TocColumns, r: int, content_offset: u64, f: CpkFile)
    requires
        record_of(t, c, r, content_offset, f),
        number_cell(t, index_view(c.extract_size), r) matches Some(e) ==> row_file_size(t, c, r)
            <= e as u32,
    ensures
        f.file_size <= f.extract_size,
{
}

/// The members read from the container `bytes` are exactly the records of
/// its TOC rows, in order.
pub open spec fn members_of(bytes: Seq<u8>, v: Seq<CpkFile>) -> bool {
    &&& toc_of(bytes) matches Some(tc)
    &&& v.len() == tc.0.metadata.row_count
    &&& forall|i: int|
        0 <= i < v.len() ==> record_of(tc.0, toc_columns(tc.0), i, tc.1, #[trigger] v[i])
}

/// Reads the member records of a decrypted container: the master table at
/// offset 0 locates the TOC, whose rows are the members. Every member's
/// bytes lie inside the container.
pub fn read_members(bytes: &[u8], parser: &mut TocParser) -> (r: Result<Vec<CpkFile>, TocError>)
    ensures
        table_at(bytes@, 0) is None ==> r == Err::<Vec<CpkFile>, TocError>(TocError::Table),
        r is Ok <==> container_ok(bytes@),
        r matches Ok(v) ==> members_of(bytes@, v@),
        r matches Ok(v) ==> forall|i: int|
            0 <= i < v@.len() ==> (#[trigger] v@[i]).file_offset + v@[i].file_size <= bytes@.len()
                && v@[i].container() is None,
{
    let master = match UTFTable::new(bytes, 0) {
        None => {
            return Err(TocError::Table);
        },
        Some(t) => t,
    };
    let (toc, content) = match parser.find(&master) {
        Err(e) => {
            return Err(e);
        },
        Ok(p) => p,
    };
    if toc > bytes.len() as u64 {
        return Err(TocError::Table);
    }
    let toc_table = match UTFTable::new(bytes, toc as usize) {
        None => {
            return Err(TocError::Table);
        },
        Some(t) => t,
    };
    let files = match parser.read(&toc_table, content) {
        Err(e) => {
            proof {
                let t = toc_table@;
                assert(toc_of(bytes@) == Some((t, content)));
                if layout_ok(t.data, t.metadata.string_pool_offset as int, t.metadata.column_count as nat) {
                    let i = choose|i: int|
                        0 <= i < t.metadata.row_count && !row_ok(t, toc_columns(t), i, content);
                    assert(0 <= i < t.metadata.row_count && !row_ok(t, toc_columns(t), i, content));
                    assert(!toc_ok(bytes@.len() as int, t, content));
                }
            }
            return Err(e);
        },
        Ok(v) => v,
    };
    let n = bytes.len() as u64;
    let ghost t = toc_table@;
    let ghost c = toc_columns(t);
    assert(toc_of(bytes@) == Some((t, content)));
    let mut i: usize = 0;
    while i < files.len()
        invariant
            n == bytes@.len(),
            table_at(bytes@, 0) is Some,
            members_of(bytes@, files@),
            toc_of(bytes@) == Some((t, content)),
            c == toc_columns(t),
            files@.len() == t.metadata.row_count,
            layout_ok(t.data, t.metadata.string_pool_offset as int, t.metadata.column_count as nat),
            forall|j: int| 0 <= j < t.metadata.row_count ==> #[trigger] row_ok(t, c, j, content),
            forall|j: int|
                0 <= j < i ==> #[trigger] row_file_offset(t, c, j, content) + row_file_size(t, c, j) <= n,
            i <= files@.len(),
            forall|j: int|
                0 <= j < files@.len() ==> (#[trigger] files@[j]).container() is None,
            forall|j: int|
                0 <= j < i ==> (#[trigger] files@[j]).file_offset + files@[j].file_size <= n,
        decreases files@.len() - i,
    {
        let f = &files[i];
        proof {
            assert(record_of(t, c, i as int, content, files@[i as int]));
        }
        if f.file_offset > n || f.file_size as u64 > n - f.file_offset {
            proof {
                assert(!(row_file_offset(t, c, i as int, content) + row_file_size(t, c, i as int) <= n));
            }
            return Err(TocError::MemberRange);
        }
        i = i + 1;
    }
    Ok(files)
}

/// `a` and `b` hold the same member record.
pub open spec fn same_record(a: CpkFile, b: CpkFile) -> bool {
    &&& a.user_string == b.user_string
    &&& a.directory == b.directory
    &&& a.file_name == b.file_name
    &&& a.file_offset == b.file_offset
    &&& a.file_size == b.file_size
    &&& a.extract_size == b.extract_size
}

/// Reads the members of a decrypted container and attaches each to it: the
/// records of its TOC rows, in order, each lying inside the container.
pub fn extract_cpk_files(decrypted: &DecryptedCpk, parser: &mut TocParser) -> (r: Result<
    Vec<CpkFile>,
    TocError,
>)
    ensures
        r matches Ok(v) ==> forall|i: int|
            0 <= i < v@.len() ==> (#[trigger] v@[i]).container() == Some(**decrypted),
        table_at((**decrypted).content(), 0) is None ==> r == Err::<Vec<CpkFile>, TocError>(
            TocError::Table,
        ),
        r is Ok <==> container_ok((**decrypted).content()),
        r matches Ok(v) ==> members_of((**decrypted).content(), v@),
        r matches Ok(v) ==> forall|i: int|
            0 <= i < v@.len() ==> (#[trigger] v@[i]).file_offset + v@[i].file_size
                <= (**decrypted).content().len(),
{
    let bytes = decrypted.bytes();
    let mut files = match read_members(bytes, parser) {
        Err(e) => {
            return Err(e);
        },
        Ok(v) => v,
    };
    let ghost files0 = files@;
    let ghost n0 = files@.len();
    let mut reversed: Vec<CpkFile> = Vec::new();
    while files.len() > 0
        invariant
            files@ == files0.subrange(0, files@.len() as int),
            files@.len() + reversed@.len() == n0,
            n0 == files0.len(),
            forall|j: int|
                0 <= j < reversed@.len() ==> same_record(#[trigger] reversed@[j], files0[n0 - 1 - j])
                    && reversed@[j].container() == Some(**decrypted),
        decreases files@.len(),
    {
        let mut f = files.pop().unwrap();
        f.set_decrypted_cpk(decrypted);
        reversed.push(f);
        assert(files@ =~= files0.subrange(0, files@.len() as int));
    }
    let ghost rev0 = reversed@;
    let mut result: Vec<CpkFile> = Vec::new();
    while reversed.len() > 0
        invariant
            reversed@ == rev0.subrange(0, reversed@.len() as int),
            reversed@.len() + result@.len() == n0,
            rev0.len() == n0,
            forall|j: int|
                0 <= j < n0 ==> same_record(#[trigger] rev0[j], files0[n0 - 1 - j]) && rev0[j].container()
                    == Some(**decrypted),
            forall|j: int| 0 <= j < result@.len() ==> #[trigger] result@[j] == rev0[n0 - 1 - j],
        decreases reversed@.len(),
    {
        let f = reversed.pop().unwrap();
        result.push(f);
        assert(reversed@ =~= rev0.subrange(0, reversed@.len() as int));
    }
    proof {
        assert forall|i: int| 0 <= i < result@.len() implies same_record(#[trigger] result@[i], files0[i])
            && result@[i].container() == Some(**decrypted) by {
            assert(result@[i] == rev0[n0 - 1 - i]);
            assert(same_record(rev0[n0 - 1 - i], files0[n0 - 1 - (n0 - 1 - i)]));
        }
    }
    Ok(result)
}

} // verus!
