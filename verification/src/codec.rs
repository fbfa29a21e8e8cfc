//! Decompression, hashing and text decoding by outside code.

use std::io::Read;
use vstd::prelude::*;
use crate::types;

verus! {

/// What decompressing the zlib stream `data` gives.
///
/// `Err` holds the message of the first failure within the first `limit`
/// bytes of output. `Ok` holds those bytes, and the message of the failure, if
/// there is one, that shows when nothing more is asked of the stream.
pub uninterp spec fn inflated(data: Seq<u8>, limit: u64) -> Result<
    (Seq<u8>, Option<Seq<char>>),
    Seq<char>,
>;

/// The outcome of a decompression, over sequences.
pub open spec fn inflated_view(r: Result<(Vec<u8>, Option<String>), String>) -> Result<
    (Seq<u8>, Option<Seq<char>>),
    Seq<char>,
> {
    match r {
        Ok((out, fault)) => Ok((out@, types::text_of(fault))),
        Err(m) => Err(m@),
    }
}

/// `flate2::read::ZlibDecoder` over `data`, read through `Read::take` to at
/// most `limit` bytes, and then asked once more for no bytes at all, which
/// still checks what the stream has to say at that point.
///
/// That no more than `limit` bytes come out is stated; what they are is named.
#[verifier::external_body]
pub(crate) fn inflate(data: &[u8], limit: u64) -> (r: Result<(Vec<u8>, Option<String>), String>)
    ensures
        inflated_view(r) == inflated(data@, limit),
        r matches Ok((out, _)) ==> out@.len() <= limit,
{
    let mut decoder = flate2::read::ZlibDecoder::new(data);
    let mut out = Vec::new();
    match decoder.by_ref().take(limit).read_to_end(&mut out) {
        Ok(_) => Ok((out, decoder.read(&mut []).err().map(|e| e.to_string()))),
        Err(e) => Err(e.to_string()),
    }
}

/// What `String::from_utf8_lossy` makes of bytes.
pub uninterp spec fn utf8_lossy(data: Seq<u8>) -> Seq<char>;

/// `String::from_utf8_lossy`: the text of UTF-8 data. Data that is not UTF-8
/// is read with replacement characters where it is not; the name stands for
/// which text that is.
#[verifier::external_body]
pub(crate) fn text_from_utf8_lossy(data: &[u8]) -> (r: String)
    ensures
        r@ == utf8_lossy(data@),
        vstd::utf8::valid_utf8(data@) ==> r@ == vstd::utf8::decode_utf8(data@),
{
    String::from_utf8_lossy(data).into_owned()
}

/// An MD5 computation under way.
#[verifier::external_body]
pub struct Md5Stream {
    state: md5::Md5,
}

/// What has been fed to an MD5 computation.
pub uninterp spec fn md5_fed(stream: Md5Stream) -> Seq<u8>;

/// The MD5 digest of data.
pub uninterp spec fn md5_digest(data: Seq<u8>) -> Seq<u8>;

/// `Md5::new` starts a computation that has been fed nothing.
#[verifier::external_body]
pub(crate) fn md5_new() -> (stream: Md5Stream)
    ensures
        md5_fed(stream) == Seq::<u8>::empty(),
{
    Md5Stream { state: md5::Digest::new() }
}

/// `Md5::update` feeds the computation more data.
#[verifier::external_body]
pub(crate) fn md5_update(stream: &mut Md5Stream, data: &[u8])
    ensures
        md5_fed(*final(stream)) == md5_fed(*old(stream)) + data@,
{
    md5::Digest::update(&mut stream.state, data)
}

/// `Md5::finalize` gives the digest of everything that was fed.
#[verifier::external_body]
pub(crate) fn md5_finish(stream: Md5Stream) -> (r: [u8; 16])
    ensures
        r@ == md5_digest(md5_fed(stream)),
{
    md5::Digest::finalize(stream.state).into()
}

/// A SHA-1 computation under way.
#[verifier::external_body]
pub struct Sha1Stream {
    state: sha1::Sha1,
}

/// What has been fed to a SHA-1 computation.
pub uninterp spec fn sha1_fed(stream: Sha1Stream) -> Seq<u8>;

/// The SHA-1 digest of data.
pub uninterp spec fn sha1_digest(data: Seq<u8>) -> Seq<u8>;

/// `Sha1::new` starts a computation that has been fed nothing.
#[verifier::external_body]
pub(crate) fn sha1_new() -> (stream: Sha1Stream)
    ensures
        sha1_fed(stream) == Seq::<u8>::empty(),
{
    Sha1Stream { state: sha1::Digest::new() }
}

/// `Sha1::update` feeds the computation more data.
#[verifier::external_body]
pub(crate) fn sha1_update(stream: &mut Sha1Stream, data: &[u8])
    ensures
        sha1_fed(*final(stream)) == sha1_fed(*old(stream)) + data@,
{
    sha1::Digest::update(&mut stream.state, data)
}

/// `Sha1::finalize` gives the digest of everything that was fed.
#[verifier::external_body]
pub(crate) fn sha1_finish(stream: Sha1Stream) -> (r: [u8; 20])
    ensures
        r@ == sha1_digest(sha1_fed(stream)),
{
    sha1::Digest::finalize(stream.state).into()
}

} // verus!
