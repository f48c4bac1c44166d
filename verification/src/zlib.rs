//! Inflating zlib streams.

use vstd::prelude::*;

verus! {

/// `yazi::Error`, by which the inflater says why it made nothing of a
/// stream. It is handed on unread.
#[verifier::external_type_specification]
#[verifier::external_body]
pub struct ExInflateError(yazi::Error);

/// What `yazi::decompress` makes of `data` read as a zlib stream: the inflated
/// bytes, or nothing where it reports an error.
pub uninterp spec fn inflated(data: Seq<u8>) -> Option<Seq<u8>>;

/// The longest input that is handed to the inflater, which sets out by
/// reserving twice the input's length.
pub open spec fn inflatable(data: Seq<u8>) -> bool {
    data.len() <= usize::MAX / 4
}

/// `yazi::decompress` with `Format::Zlib`: it inflates the stream into a new
/// vector, or reports why it could not. The checksum that it hands back
/// beside the bytes, and does not check, is dropped.
#[verifier::external_body]
fn decompress(data: &[u8]) -> (result: Result<Vec<u8>, yazi::Error>)
    requires
        inflatable(data@),
    ensures
        match result {
            Ok(bytes) => inflated(data@) == Some(bytes@),
            Err(_) => inflated(data@) is None,
        },
{
    match yazi::decompress(data, yazi::Format::Zlib) {
        Ok((bytes, _)) => Ok(bytes),
        Err(error) => Err(error),
    }
}

/// What [`inflate`] returns for a stream, given what the inflater makes of it.
pub open spec fn inflate_outcome(data: Seq<u8>, outcome: Option<Seq<u8>>) -> Option<Seq<u8>> {
    if inflatable(data) {
        outcome
    } else {
        None
    }
}

/// Inflates a zlib stream. Bytes behind the end of the stream are ignored.
pub fn inflate(data: &[u8]) -> (bytes: Option<Vec<u8>>)
    ensures
        match bytes {
            Some(bytes) => inflate_outcome(data@, inflated(data@)) == Some(bytes@),
            None => inflate_outcome(data@, inflated(data@)) is None,
        },
{
    if data.len() > usize::MAX / 4 {
        return None;
    }
    match decompress(data) {
        Ok(bytes) => Some(bytes),
        Err(_) => None,
    }
}

} // verus!
