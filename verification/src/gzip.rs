use std::io::Read;

use vstd::prelude::*;

use crate::error::{ParseError, ParseFailure};
use crate::model::{spec_parse, TagView};
use crate::nbt::NbtFile;

verus! {

/// The bytes that a gzip stream decompresses to, or `None` where it is not a
/// valid gzip stream.
pub uninterp spec fn gzip_decoded(compressed: Seq<u8>) -> Option<Seq<u8>>;

/// Calls `read_to_end` on a `flate2::read::GzDecoder` over `compressed`.
/// Trusted: what it reads is a function of the compressed bytes alone, named
/// `gzip_decoded`; it succeeds exactly when they decode. The text of the
/// error, which is the decoder's own, is not stated.
#[verifier::external_body]
fn gunzip(compressed: &Vec<u8>) -> (r: Result<Vec<u8>, String>)
    ensures
        match r {
            Ok(bytes) => gzip_decoded(compressed@) == Some(bytes@),
            Err(_) => gzip_decoded(compressed@) is None,
        },
{
    let mut bytes = Vec::new();
    match flate2::read::GzDecoder::new(compressed.as_slice()).read_to_end(&mut bytes) {
        Ok(_) => Ok(bytes),
        Err(e) => Err(e.to_string()),
    }
}

/// What `buffer` holds after one `read` of a `flate2::read::GzDecoder` over
/// `compressed` into it, when it starts as `buffer`, or `None` where that
/// read fails.
pub uninterp spec fn gzip_read_into(compressed: Seq<u8>, buffer: Seq<u8>) -> Option<Seq<u8>>;

/// Calls `read` once on a `flate2::read::GzDecoder` over `compressed`, into
/// `buffer`, and tells whether it succeeded. Trusted: the buffer keeps its
/// length, and after a successful read its contents are a function of the
/// compressed bytes and of what it held before, named `gzip_read_into`. How
/// many bytes the read filled is not stated, nor what the buffer holds after
/// a failed read.
#[verifier::external_body]
fn gunzip_read_into(compressed: &Vec<u8>, buffer: &mut Vec<u8>) -> (ok: bool)
    ensures
        final(buffer)@.len() == old(buffer)@.len(),
        ok ==> gzip_read_into(compressed@, old(buffer)@) == Some(final(buffer)@),
        !ok ==> gzip_read_into(compressed@, old(buffer)@) is None,
{
    flate2::read::GzDecoder::new(compressed.as_slice()).read(buffer.as_mut_slice()).is_ok()
}

/// The window of 32 zero bytes that the header check reads into.
pub open spec fn zero_window() -> Seq<u8> {
    Seq::new(32, |k: int| 0u8)
}

/// The first 32 bytes of a file as it is read for the header check: what
/// one read of its decompressed bytes leaves in a window of 32 zero bytes
/// where the file is gzip, else its own first bytes, padded with zeros to
/// 32.
pub fn first_window(file: &Vec<u8>) -> (r: Vec<u8>)
    ensures
        r@ == match gzip_read_into(file@, zero_window()) {
            Some(w) => w,
            None => raw_window(file@),
        },
{
    let mut buffer: Vec<u8> = Vec::new();
    let mut i: usize = 0;
    while i < 32
        invariant
            i <= 32,
            buffer@ =~= Seq::new(i as nat, |k: int| 0u8),
        decreases 32 - i,
    {
        buffer.push(0u8);
        i = i + 1;
    }
    proof {
        assert(buffer@ =~= zero_window());
    }
    if gunzip_read_into(file, &mut buffer) {
        return buffer;
    }
    let mut w: Vec<u8> = Vec::new();
    let mut i: usize = 0;
    while i < 32
        invariant
            i <= 32,
            w@ =~= Seq::new(i as nat, |k: int| if k < file@.len() { file@[k] } else { 0u8 }),
        decreases 32 - i,
    {
        if i < file.len() {
            w.push(file[i]);
        } else {
            w.push(0u8);
        }
        i = i + 1;
    }
    w
}

/// The first 32 bytes of `s`, padded with zeros where `s` is shorter.
pub open spec fn raw_window(s: Seq<u8>) -> Seq<u8> {
    Seq::new(32, |k: int| if k < s.len() { s[k] } else { 0u8 })
}

impl NbtFile {
    /// Reads a gzip-compressed NBT file, such as `level.dat`.
    pub fn from_gzip(compressed: &Vec<u8>) -> (r: Result<NbtFile, ParseFailure>)
        ensures
            match gzip_decoded(compressed@) {
                None => r matches Err(ParseFailure::Rejected(ParseError::IOError(_))),
                Some(bytes) => match r {
                    Ok(file) => spec_parse(bytes) == Ok::<_, ParseFailure>(file@),
                    Err(e) => spec_parse(bytes) == Err::<TagView, _>(e),
                },
            },
    {
        match gunzip(compressed) {
            Ok(bytes) => NbtFile::from_bytes(&bytes),
            Err(message) => Err(ParseFailure::Rejected(ParseError::IOError(message))),
        }
    }
}

} // verus!
