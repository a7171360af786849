//! Column descriptors of a UTF table: a type in the low nibble and flags in
//! the high one.
use vstd::prelude::*;

verus! {

/// Flag: the column has a name, a `u32` offset into the string pool.
pub const HAS_NAME: u8 = 0x10;

/// Flag: the column has a default value, stored after its name.
pub const HAS_DEFAULT_VALUE: u8 = 0x20;

/// Flag: each row stores its own value of the column.
pub const IS_ROW_STORAGE: u8 = 0x40;

/// The type of the values of a column.
#[derive(Debug, Clone, Copy, PartialEq, Eq, Structural)]
pub enum ColumnType {
    Byte,
    SByte,
    UInt16,
    Int16,
    UInt32,
    Int32,
    UInt64,
    Int64,
    Single,
    Double,
    String,
    RawData,
    Guid,
}

/// The known flag bits of a descriptor.
#[derive(Debug, Clone, Copy, PartialEq, Eq, Structural)]
pub struct ColumnFlags {
    pub bits: u8,
}

impl ColumnFlags {
    /// Whether every bit of `flag` is set.
    pub fn contains(&self, flag: u8) -> (r: bool)
        ensures
            r == (self.bits & flag == flag),
    {
        self.bits & flag == flag
    }
}

/// The type that the low nibble `t` names, if any.
pub open spec fn type_of_nibble(t: u8) -> Option<ColumnType> {
    if t == 0 {
        Some(ColumnType::Byte)
    } else if t == 1 {
        Some(ColumnType::SByte)
    } else if t == 2 {
        Some(ColumnType::UInt16)
    } else if t == 3 {
        Some(ColumnType::Int16)
    } else if t == 4 {
        Some(ColumnType::UInt32)
    } else if t == 5 {
        Some(ColumnType::Int32)
    } else if t == 6 {
        Some(ColumnType::UInt64)
    } else if t == 7 {
        Some(ColumnType::Int64)
    } else if t == 8 {
        Some(ColumnType::Single)
    } else if t == 9 {
        Some(ColumnType::Double)
    } else if t == 10 {
        Some(ColumnType::String)
    } else if t == 11 {
        Some(ColumnType::RawData)
    } else if t == 12 {
        Some(ColumnType::Guid)
    } else {
        None
    }
}

/// Bytes taken by one value of type `t`.
pub open spec fn type_width(t: ColumnType) -> nat {
    match t {
        ColumnType::Byte | ColumnType::SByte => 1,
        ColumnType::UInt16 | ColumnType::Int16 => 2,
        ColumnType::UInt32 | ColumnType::Int32 => 4,
        ColumnType::UInt64 | ColumnType::Int64 => 8,
        ColumnType::Single => 4,
        ColumnType::Double => 8,
        ColumnType::String => 4,
        ColumnType::RawData => 8,
        ColumnType::Guid => 16,
    }
}

/// Bytes taken by one value of a column with descriptor `raw`; 0 for an
/// unknown type.
pub open spec fn value_len_of(raw: u8) -> nat {
    match type_of_nibble(raw & 0x0F) {
        Some(t) => type_width(t),
        None => 0,
    }
}

pub open spec fn be_u16(d: Seq<u8>, at: int) -> nat {
    d[at] as nat * 0x100 + d[at + 1] as nat
}

pub open spec fn be_u32(d: Seq<u8>, at: int) -> nat {
    be_u16(d, at) * 0x1_0000 + be_u16(d, at + 2)
}

pub open spec fn be_u64(d: Seq<u8>, at: int) -> nat {
    be_u32(d, at) * 0x1_0000_0000 + be_u32(d, at + 4)
}

/// `v`, an unsigned value of `bits` bits, read as two's complement.
pub open spec fn signed(v: nat, bits: nat) -> int {
    if v >= vstd::arithmetic::power2::pow2((bits - 1) as nat) {
        v - vstd::arithmetic::power2::pow2(bits)
    } else {
        v as int
    }
}

/// The number that a cell of type `t` holds in `d` (big-endian), or -1 for a
/// type that holds no integer.
pub open spec fn number_of(t: Option<ColumnType>, d: Seq<u8>) -> int {
    match t {
        Some(ColumnType::Byte) => d[0] as int,
        Some(ColumnType::SByte) => signed(d[0] as nat, 8),
        Some(ColumnType::UInt16) => be_u16(d, 0) as int,
        Some(ColumnType::Int16) => signed(be_u16(d, 0), 16),
        Some(ColumnType::UInt32) => be_u32(d, 0) as int,
        Some(ColumnType::Int32) => signed(be_u32(d, 0), 32),
        Some(ColumnType::UInt64) => signed(be_u64(d, 0), 64),
        Some(ColumnType::Int64) => signed(be_u64(d, 0), 64),
        _ => -1,
    }
}

/// A column descriptor byte.
#[derive(Debug, Clone, Copy, PartialEq, Eq, Structural)]
pub struct ColumnDescriptor {
    pub raw: u8,
}

impl ColumnDescriptor {
    const TYPE_MASK: u8 = 0x0F;

    pub fn new(byte: u8) -> (r: Self)
        ensures
            r.raw == byte,
    {
        ColumnDescriptor { raw: byte }
    }

    /// The type in the low nibble; `None` for the nibbles 13 to 15, which
    /// name no type.
    pub fn column_type(&self) -> (r: Option<ColumnType>)
        ensures
            r == type_of_nibble(self.raw & 0x0F),
    {
        let t = self.raw & Self::TYPE_MASK;
        if t == 0 {
            Some(ColumnType::Byte)
        } else if t == 1 {
            Some(ColumnType::SByte)
        } else if t == 2 {
            Some(ColumnType::UInt16)
        } else if t == 3 {
            Some(ColumnType::Int16)
        } else if t == 4 {
            Some(ColumnType::UInt32)
        } else if t == 5 {
            Some(ColumnType::Int32)
        } else if t == 6 {
            Some(ColumnType::UInt64)
        } else if t == 7 {
            Some(ColumnType::Int64)
        } else if t == 8 {
            Some(ColumnType::Single)
        } else if t == 9 {
            Some(ColumnType::Double)
        } else if t == 10 {
            Some(ColumnType::String)
        } else if t == 11 {
            Some(ColumnType::RawData)
        } else if t == 12 {
            Some(ColumnType::Guid)
        } else {
            None
        }
    }

    /// The known flags of the high nibble.
    pub fn flags(&self) -> (r: ColumnFlags)
        ensures
            r.bits == self.raw & (HAS_NAME | HAS_DEFAULT_VALUE | IS_ROW_STORAGE),
    {
        ColumnFlags { bits: self.raw & (HAS_NAME | HAS_DEFAULT_VALUE | IS_ROW_STORAGE) }
    }

    pub fn has_name(&self) -> (r: bool)
        ensures
            r == (self.raw & HAS_NAME != 0),
    {
        let f = self.flags();
        proof {
            flag_bit(self.raw, HAS_NAME);
        }
        f.contains(HAS_NAME)
    }

    pub fn has_default(&self) -> (r: bool)
        ensures
            r == (self.raw & HAS_DEFAULT_VALUE != 0),
    {
        let f = self.flags();
        proof {
            flag_bit(self.raw, HAS_DEFAULT_VALUE);
        }
        f.contains(HAS_DEFAULT_VALUE)
    }

    pub fn is_row_storage(&self) -> (r: bool)
        ensures
            r == (self.raw & IS_ROW_STORAGE != 0),
    {
        let f = self.flags();
        proof {
            flag_bit(self.raw, IS_ROW_STORAGE);
        }
        f.contains(IS_ROW_STORAGE)
    }

    /// The string-pool offset of the column's name, the big-endian `u32` that
    /// follows the descriptor byte at the start of `data`.
    pub fn string_offset(&self, data: &[u8]) -> (r: u32)
        requires
            data@.len() >= 5,
        ensures
            r == be_u32(data@, 1),
    {
        read_u32_be(data, 1)
    }

    /// Bytes taken by one value of the column; 0 for an unknown type.
    pub fn value_len(&self) -> (r: u8)
        ensures
            r == value_len_of(self.raw),
    {
        match self.column_type() {
            Some(ColumnType::Byte) | Some(ColumnType::SByte) => 1,
            Some(ColumnType::UInt16) | Some(ColumnType::Int16) => 2,
            Some(ColumnType::UInt32) | Some(ColumnType::Int32) => 4,
            Some(ColumnType::UInt64) | Some(ColumnType::Int64) => 8,
            Some(ColumnType::Single) => 4,
            Some(ColumnType::Double) => 8,
            Some(ColumnType::String) => 4,
            Some(ColumnType::RawData) => 8,
            Some(ColumnType::Guid) => 16,
            None => 0,
        }
    }

    /// The integer that the cell `data` holds, big-endian and sign-extended
    /// for the signed types; -1 for a column whose type holds no integer.
    pub fn read_number(&self, data: &[u8]) -> (r: i64)
        requires
            data@.len() >= value_len_of(self.raw),
        ensures
            r == number_of(type_of_nibble(self.raw & 0x0F), data@),
    {
        proof {
            vstd::arithmetic::power2::lemma2_to64();
            vstd::arithmetic::power2::lemma2_to64_rest();
        }
        match self.column_type() {
            Some(ColumnType::Byte) => data[0] as i64,
            Some(ColumnType::SByte) => sign_extend(data[0] as u64, 0x80),
            Some(ColumnType::UInt16) => read_u16_be(data, 0) as i64,
            Some(ColumnType::Int16) => sign_extend(read_u16_be(data, 0) as u64, 0x8000),
            Some(ColumnType::UInt32) => read_u32_be(data, 0) as i64,
            Some(ColumnType::Int32) => sign_extend(read_u32_be(data, 0) as u64, 0x8000_0000),
            Some(ColumnType::UInt64) | Some(ColumnType::Int64) => sign_extend(
                read_u64_be(data, 0),
                0x8000_0000_0000_0000,
            ),
            _ => -1,
        }
    }
}

/// `v`, a value below `2 * half`, read as two's complement of that width.
fn sign_extend(v: u64, half: u64) -> (r: i64)
    requires
        half == 0x80 || half == 0x8000 || half == 0x8000_0000 || half == 0x8000_0000_0000_0000,
        v < 2 * (half as int),
    ensures
        r == (if v >= half {
            v - 2 * (half as int)
        } else {
            v as int
        }),
{
    if v >= half {
        ((v - half) as i64) - (half - 1) as i64 - 1
    } else {
        v as i64
    }
}

proof fn flag_bit(raw: u8, flag: u8)
    requires
        flag == HAS_NAME || flag == HAS_DEFAULT_VALUE || flag == IS_ROW_STORAGE,
    ensures
        ((raw & (HAS_NAME | HAS_DEFAULT_VALUE | IS_ROW_STORAGE)) & flag == flag) == (raw & flag != 0),
{
    assert(0x10u8 | 0x20u8 | 0x40u8 == 0x70u8) by (bit_vector);
    assert(((raw & 0x70u8) & 0x10u8 == 0x10u8) == (raw & 0x10u8 != 0u8)) by (bit_vector);
    assert(((raw & 0x70u8) & 0x20u8 == 0x20u8) == (raw & 0x20u8 != 0u8)) by (bit_vector);
    assert(((raw & 0x70u8) & 0x40u8 == 0x40u8) == (raw & 0x40u8 != 0u8)) by (bit_vector);
}

/// The big-endian `u16` at `offset`.
pub fn read_u16_be(data: &[u8], offset: usize) -> (r: u16)
    requires
        offset + 2 <= data@.len(),
    ensures
        r == be_u16(data@, offset as int),
{
    data[offset] as u16 * 0x100 + data[offset + 1] as u16
}

/// The big-endian `u32` at `offset`.
pub fn read_u32_be(data: &[u8], offset: usize) -> (r: u32)
    requires
        offset + 4 <= data@.len(),
    ensures
        r == be_u32(data@, offset as int),
{
    let len = data.len();
    assert(offset + 4 <= len);
    read_u16_be(data, offset) as u32 * 0x1_0000 + read_u16_be(data, offset + 2) as u32
}

/// The big-endian `u64` at `offset`.
pub fn read_u64_be(data: &[u8], offset: usize) -> (r: u64)
    requires
        offset + 8 <= data@.len(),
    ensures
        r == be_u64(data@, offset as int),
{
    let len = data.len();
    assert(offset + 8 <= len);
    read_u32_be(data, offset) as u64 * 0x1_0000_0000 + read_u32_be(data, offset + 4) as u64
}

} // verus!
