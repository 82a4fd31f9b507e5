//! Whole-payload deflate compression, done by `flate2`.

use vstd::prelude::*;

verus! {

/// The raw deflate stream that `flate2` writes for a byte sequence at its default level.
pub uninterp spec fn deflate_of(data: Seq<u8>) -> Seq<u8>;

/// What `flate2` reads back out of a deflate stream, or `None` where it reports an error.
pub uninterp spec fn inflate_of(data: Seq<u8>) -> Option<Seq<u8>>;

/// The contents of an optional byte vector.
pub open spec fn bytes_opt(v: Option<Vec<u8>>) -> Option<Seq<u8>> {
    match v {
        Some(b) => Some(b@),
        None => None,
    }
}

/// Relies on `flate2::read::DeflateEncoder` at `Compression::default()`: the compressed
/// stream is a function of the input bytes. Reading it out of a byte slice into a `Vec`
/// cannot fail.
#[verifier::external_body]
pub(crate) fn deflate(data: &[u8]) -> (r: Vec<u8>)
    ensures
        r@ == deflate_of(data@),
{
    let mut out = Vec::new();
    let mut enc = flate2::read::DeflateEncoder::new(data, flate2::Compression::default());
    let _ = std::io::Read::read_to_end(&mut enc, &mut out);
    out
}

/// Relies on `flate2::read::DeflateDecoder`: it decompresses a deflate stream, and a
/// stream that the encoder wrote decodes to the encoder's input.
#[verifier::external_body]
pub(crate) fn inflate(data: &[u8]) -> (r: Option<Vec<u8>>)
    ensures
        bytes_opt(r) == inflate_of(data@),
        forall|x: Seq<u8>| #[trigger] deflate_of(x) == data@ ==> bytes_opt(r) == Some(x),
{
    let mut out = Vec::new();
    let mut dec = flate2::read::DeflateDecoder::new(data);
    match std::io::Read::read_to_end(&mut dec, &mut out) {
        Ok(_) => Some(out),
        Err(_) => None,
    }
}

} // verus!
