use vstd::prelude::*;

verus! {

/// Why a byte sequence is not an NBT file.
#[derive(Debug)]
pub enum ParseError {
    /// The input ended in the middle of a tag.
    EndOfBuffer,
    /// A tag type byte outside `0x00..=0x0c`.
    InvalidTagType,
    /// A string payload that is not valid UTF-8.
    InvalidPayload,
    /// The first tag of the file is not a compound.
    InvalidRootTag,
    /// Reading or decompressing the file failed; the text describes why.
    IOError(String),
}

/// The outcome of a parse that does not produce a file.
///
/// `Rejected` carries the error that the reader reports. The other variants
/// are inputs on which the reader cannot go on at all: a list whose element
/// type is not a tag type, an array or list with a negative length, or more
/// tags than an identifier can count.
#[derive(Debug)]
pub enum ParseFailure {
    Rejected(ParseError),
    UnknownListType(u8),
    NegativeLength(i32),
    IdOverflow,
}

} // verus!
