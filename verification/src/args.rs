//! Plain argument values for the four user-facing commands.
//!
//! The command-line front end parses argument syntax on its own and hands
//! the library these bare values; the library knows nothing of flags,
//! exit codes, or terminal output.

use vstd::prelude::*;

verus! {

/// The arguments of one invocation: a single command.
pub struct StgArgs {
    pub entity_type: EntityType,
}

/// Which command was asked for, with its arguments.
pub enum EntityType {
    /// Hide a message in a new chunk.
    Encode(EncodeArgs),
    /// Read a hidden message back.
    Decode(DecodeArgs),
    /// Remove a chunk by type code.
    Remove(RemoveArgs),
    /// List the chunks of a file.
    Print(PrintArgs),
}

/// Arguments of the encode command.
pub struct EncodeArgs {
    pub filepath: String,
    pub chunk_type: String,
    pub message: String,
    pub output_file: Option<String>,
}

/// Arguments of the decode command.
pub struct DecodeArgs {
    pub filepath: String,
    pub chunk_type: String,
}

/// Arguments of the remove command.
pub struct RemoveArgs {
    pub filepath: String,
    pub chunk_type: String,
}

/// Arguments of the print command.
pub struct PrintArgs {
    pub filepath: String,
}

} // verus!
