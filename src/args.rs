//! The options of the single-file and repack commands, as plain values.
use vstd::prelude::*;

verus! {

/// Options of `decrypt`: the file to decrypt, and where to write it (empty
/// for `decrypted/<name>`).
#[derive(Debug, Clone)]
pub struct DecryptArgs {
    pub input_file: String,
    pub output_file: String,
}

/// Options of `encrypt`: the file to encrypt, and where to write it (empty
/// for `encrypted/<name>`).
#[derive(Debug, Clone)]
pub struct EncryptArgs {
    pub input_file: String,
    pub output_file: String,
}

/// Options of `pack`: the mod folder and the vanilla catalog file.
#[derive(Debug, Clone)]
pub struct PackArgs {
    pub input_folder: String,
    pub vanilla_cpk: String,
}

} // verus!
