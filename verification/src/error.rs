use vstd::prelude::*;

verus! {

/// The library keeps an I/O failure as it came, without looking inside it.
#[verifier::external_type_specification]
#[verifier::external_body]
pub struct ExIoError(std::io::Error);

/// What can go wrong while a PNG file is read or taken apart.
#[derive(Debug)]
pub enum PngError {
    /// A chunk type was given that is not four ASCII letters.
    ChunkTypeError,
    /// The bytes do not frame a chunk: too short, or the length field
    /// disagrees with what is there.
    ChunkError,
    /// A chunk is framed well but its stored checksum is not the checksum
    /// of its type and payload.
    CRCError,
    /// The file does not begin with the PNG signature.
    ChunkHeaderError,
    /// Reading or writing the file failed.
    IOError(std::io::Error),
}

/// A chunk's payload was asked for as text and is not UTF-8.
#[derive(Debug, Clone, Copy, PartialEq, Eq)]
pub struct DecodeError;

/// No chunk of the container has the type that was named.
#[derive(Debug, Clone, Copy, PartialEq, Eq)]
pub struct NotFoundError;

} // verus!
