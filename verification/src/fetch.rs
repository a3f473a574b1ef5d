//! Decoding a fetched byte range: the caller performs the HTTP request and
//! hands the status code and raw body here; this module decides whether the
//! response is usable and decompresses it.
use vstd::prelude::*;

verus! {

/// Why a fetched byte range could not be turned into bytes of interest.
#[derive(Clone, Copy, Debug, PartialEq, Eq, Structural)]
pub enum FetchError {
    /// The server answered with something other than 206 Partial Content.
    UnexpectedStatus(u16),
    /// The body was not valid gzip data.
    Corrupted,
}

/// What decompressing a buffer yields: the bytes of its first gzip member,
/// or nothing when the buffer is not valid gzip data.  The result is a
/// function of the bytes alone.
pub uninterp spec fn gunzip_of(data: Seq<u8>) -> Option<Seq<u8>>;

/// Relies on flate2's `read::GzDecoder` together with `Read::read_to_end`:
/// it decodes the single gzip member at the start of the buffer, a pure
/// function of the input bytes, and reports an error on corrupt input.
#[verifier::external_body]
fn gunzip(data: &Vec<u8>) -> (r: Option<Vec<u8>>)
    ensures
        match r {
            Some(b) => gunzip_of(data@) == Some(b@),
            None => gunzip_of(data@) is None,
        },
{
    let mut decoder = flate2::read::GzDecoder::new(data.as_slice());
    let mut buffer = Vec::new();
    match std::io::Read::read_to_end(&mut decoder, &mut buffer) {
        Ok(_) => Some(buffer),
        Err(_) => None,
    }
}

/// The last byte position of the range `offset..offset+length`, as it is
/// quoted in a range request; `None` when the length is zero or the end
/// does not fit in `usize`.
pub fn range_last_byte(offset: usize, length: usize) -> (r: Option<usize>)
    ensures
        (r is Some) <==> (1 <= length && offset + length - 1 <= usize::MAX),
        r is Some ==> r->0 == offset + length - 1,
{
    if length == 0 {
        None
    } else {
        offset.checked_add(length - 1)
    }
}

/// Decides what a range response yields: only a 206 Partial Content answer
/// is accepted, and its body must decompress; every other status is an
/// error carrying that status.
pub fn decode_range_response(status: u16, body: &Vec<u8>) -> (r: Result<Vec<u8>, FetchError>)
    ensures
        status != 206 ==> (r matches Err(e) && e == FetchError::UnexpectedStatus(status)),
        status == 206 ==> match gunzip_of(body@) {
            Some(b) => r matches Ok(rb) && rb@ == b,
            None => r matches Err(e) && e == FetchError::Corrupted,
        },
{
    if status != 206 {
        return Err(FetchError::UnexpectedStatus(status));
    }
    match gunzip(body) {
        Some(b) => Ok(b),
        None => Err(FetchError::Corrupted),
    }
}

} // verus!
