//! The error taxonomy of the library.
//!
//! Every failure of a request terminates that request alone and is
//! reported through these types. The library's own code never panics;
//! the one call into the outside solver engine can panic or fail to
//! return on a crafted (though decodable) program, and the process
//! hosting the service catches such a panic at the request boundary.
use vstd::prelude::*;

verus! {

/// A fault of the surrounding filesystem: a missing or unreadable input,
/// or a failed write of the output witness. Each variant carries the file
/// name it concerns; the missing-file variants also carry the expected
/// location.
#[derive(Debug)]
pub enum FilesystemError {
    /// The named input document does not exist at the expected location.
    MissingTomlFile(String, String),
    /// The named input document exists but does not parse as a key/value
    /// document.
    InvalidTomlFile(String),
    /// The named binary witness file does not exist at the expected
    /// location.
    MissingWitnessFile(String, String),
    /// The named binary witness file could not be read.
    InvalidWitnessFile(String),
    /// The named bytecode file does not exist at the expected location.
    MissingBytecodeFile(String, String),
    /// The named bytecode file exists but could not be read.
    InvalidBytecodeFile(String),
    /// The output witness file could not be created.
    OutputWitnessCreationFailed(String),
    /// The output witness file could not be written.
    OutputWitnessWriteFailed(String),
}

/// Every way a single request can fail.
#[derive(Debug)]
pub enum CliError {
    /// A fault of the surrounding filesystem.
    FilesystemError(FilesystemError),
    /// The circuit bytes are not a valid circuit encoding.
    CircuitDeserializationError,
    /// The solver failed; its own message is carried as an opaque payload.
    CircuitExecutionError(String),
    /// A witness value in the input document is not a text node, or does
    /// not parse as a hex field element; carries the offending key.
    WitnessValueError(String),
    /// A witness key in the input document does not parse as a 32-bit
    /// index; carries the offending key.
    WitnessIndexError(String),
    /// The computed result witness could not be re-encoded.
    OutputWitnessSerializationFailed,
    /// Binary witness bytes are not a whole number of records.
    MalformedWitness,
}

} // verus!
