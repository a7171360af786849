//! Extraction and repacking of CRI CPK containers: the keyed stream cipher,
//! the UTF-table and table-of-contents readers, the Layla decompressor, the
//! memory-budget arbiter and the scheduling decisions of the extraction
//! pipeline.
pub mod args;
pub mod bit_reader;
pub mod catalog;
pub mod column;
pub mod cpk_file;
pub mod crypt;
pub mod layla;
pub mod memory_budget;
pub mod pipeline;
pub mod selection;
pub mod toc_parser;
pub mod utf_table;

pub use crate::cpk_file::{CpkData, CpkFile, DecryptedCpk};
pub use crate::crypt::CriwareCrypt;
pub use crate::layla::Decompressor;
pub use crate::memory_budget::MemoryPool;
pub use crate::toc_parser::TocParser;
