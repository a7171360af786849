//! A decrypted container and the member records that share it.
use std::sync::Arc;
use vstd::prelude::*;

verus! {

#[verifier::external_type_specification]
#[verifier::external_body]
pub struct ExMmap(memmap2::Mmap);

/// The bytes that a read-only mapping holds. The mapped file is a temporary
/// file of this program that is not written while it is mapped, so a mapping
/// holds the same bytes for as long as it lives.
pub uninterp spec fn mapped_content(m: memmap2::Mmap) -> Seq<u8>;

/// Relies on memmap2's `Deref` for `Mmap`: the bytes of the mapping.
#[verifier::external_body]
fn mapped_bytes(m: &memmap2::Mmap) -> (r: &[u8])
    ensures
        r@ == mapped_content(*m),
{
    &m[..]
}

/// Relies on `Arc::clone`: a new handle to the same value.
#[verifier::external_body]
fn share(a: &Arc<CpkData>) -> (r: Arc<CpkData>)
    ensures
        *r == **a,
{
    Arc::clone(a)
}

/// Relies on `Arc::strong_count`: how many handles to the value exist now,
/// at least the one passed in.
#[verifier::external_body]
fn handle_count(a: &Arc<CpkData>) -> (r: usize)
    ensures
        r >= 1,
{
    Arc::strong_count(a)
}

/// The bytes of a decrypted container: a read-only mapping of a temporary
/// file for a large one, a buffer for a small one.
#[derive(Debug)]
pub enum CpkData {
    Big(memmap2::Mmap),
    Small(Vec<u8>),
}

impl CpkData {
    /// The container's bytes, for either variant.
    pub open spec fn content(&self) -> Seq<u8> {
        match self {
            CpkData::Big(m) => mapped_content(*m),
            CpkData::Small(v) => v@,
        }
    }

    /// The container's bytes.
    pub fn bytes(&self) -> (r: &[u8])
        ensures
            r@ == self.content(),
    {
        match self {
            CpkData::Big(m) => mapped_bytes(m),
            CpkData::Small(v) => v.as_slice(),
        }
    }

    /// Whether the bytes are held in memory, and so charged to the memory
    /// budget.
    pub fn is_resident(&self) -> (r: bool)
        ensures
            r == self is Small,
    {
        match self {
            CpkData::Big(_) => false,
            CpkData::Small(_) => true,
        }
    }
}

/// A decrypted container shared by the extractor and its members.
pub type DecryptedCpk = Arc<CpkData>;

/// A member of a container, as its TOC row describes it.
#[derive(Debug)]
pub struct CpkFile {
    pub user_string: Option<String>,
    pub directory: Option<String>,
    pub file_name: String,
    /// Offset of the member's bytes in the decrypted container.
    pub file_offset: u64,
    /// Bytes that the member takes in the container.
    pub file_size: u32,
    /// Bytes of the member once decompressed.
    pub extract_size: u32,
    /// The container, once the member is attached to it.
    pub data: Option<DecryptedCpk>,
}

impl CpkFile {
    /// The container the member belongs to, once it is set.
    pub open spec fn container(&self) -> Option<CpkData> {
        match self.data {
            Some(a) => Some(*a),
            None => None,
        }
    }

    /// A member with the given record and no container yet.
    pub fn new(
        directory: Option<String>,
        file_name: String,
        user_string: Option<String>,
        file_offset: u64,
        file_size: u32,
        extract_size: u32,
    ) -> (r: CpkFile)
        ensures
            r.directory == directory,
            r.file_name == file_name,
            r.user_string == user_string,
            r.file_offset == file_offset,
            r.file_size == file_size,
            r.extract_size == extract_size,
            r.container() is None,
    {
        CpkFile { user_string, directory, file_name, file_offset, file_size, extract_size, data: None }
    }

    /// Attaches the member to its container.
    pub fn set_decrypted_cpk(&mut self, decrypted_cpk: &DecryptedCpk)
        ensures
            final(self).container() == Some(**decrypted_cpk),
            final(self).directory == old(self).directory,
            final(self).file_name == old(self).file_name,
            final(self).user_string == old(self).user_string,
            final(self).file_offset == old(self).file_offset,
            final(self).file_size == old(self).file_size,
            final(self).extract_size == old(self).extract_size,
    {
        self.data = Some(share(decrypted_cpk));
    }

    /// The first eight bytes of the member, where a compressed one has its
    /// magic; `None` without a container or when they lie outside it.
    pub fn compression_header(&self) -> (r: Option<&[u8]>)
        ensures
            self.container() is None ==> r is None,
            r matches Some(h) ==> h@.len() == 8,
            self.container() matches Some(c) ==> (r is Some <==> self.file_offset + 8
                <= c.content().len()) && (r matches Some(h) ==> h@ == c.content().subrange(
                self.file_offset as int,
                self.file_offset + 8,
            )),
    {
        self.slice_of(8)
    }

    /// The member's bytes in the container; `None` without a container or
    /// when they lie outside it.
    pub fn data(&self) -> (r: Option<&[u8]>)
        ensures
            self.container() is None ==> r is None,
            r matches Some(d) ==> d@.len() == self.file_size,
            self.container() matches Some(c) ==> (r is Some <==> self.file_offset
                + self.file_size <= c.content().len()) && (r matches Some(d) ==> d@
                == c.content().subrange(self.file_offset as int, self.file_offset + self.file_size)),
    {
        self.slice_of(self.file_size as u64)
    }

    fn slice_of(&self, len: u64) -> (r: Option<&[u8]>)
        ensures
            self.container() is None ==> r is None,
            r matches Some(d) ==> d@.len() == len,
            self.container() matches Some(c) ==> (r is Some <==> self.file_offset + len
                <= c.content().len()) && (r matches Some(d) ==> d@ == c.content().subrange(
                self.file_offset as int,
                self.file_offset + len,
            )),
    {
        match &self.data {
            None => None,
            Some(d) => {
                let bytes = d.bytes();
                let n = bytes.len() as u64;
                if self.file_offset > n || len > n - self.file_offset {
                    None
                } else {
                    let start = self.file_offset as usize;
                    let end = (self.file_offset + len) as usize;
                    Some(&bytes[start..end])
                }
            },
        }
    }

    /// Whether this member holds the last handle to its container, so that
    /// the container is freed with it; `None` without a container.
    pub fn last_cpk_file(&self) -> (r: Option<bool>)
        ensures
            r is Some <==> self.container() is Some,
    {
        match &self.data {
            None => None,
            Some(d) => Some(handle_count(d) == 1),
        }
    }

    /// The size of the container in bytes; `None` without a container.
    pub fn cpk_size(&self) -> (r: Option<usize>)
        ensures
            r is Some <==> self.container() is Some,
            self.container() matches Some(c) ==> r == Some(c.content().len() as usize),
    {
        match &self.data {
            None => None,
            Some(d) => Some(d.bytes().len()),
        }
    }

    /// Whether the container the member belongs to is held in memory.
    pub fn cpk_is_resident(&self) -> (r: bool)
        ensures
            r == (self.container() matches Some(c) && c is Small),
    {
        match &self.data {
            None => false,
            Some(d) => d.is_resident(),
        }
    }

    /// Whether the record declares more bytes in the container than once
    /// decompressed: a malformed TOC, reported but kept.
    pub fn size_mismatch(&self) -> (r: bool)
        ensures
            r == (self.file_size > self.extract_size),
    {
        self.file_size > self.extract_size
    }
}

} // verus!
