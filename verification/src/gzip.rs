//! Gzip compression, done by the `flate2` crate.

use flate2::write::GzEncoder;
use flate2::Compression;
use std::io::Write;
use vstd::prelude::*;

verus! {

/// `std::io::Error`, with which the encoder reports a failure. Nothing is
/// known of what it holds.
#[verifier::external_type_specification]
#[verifier::external_body]
pub struct ExIoError(std::io::Error);

/// The gzip stream that `flate2` writes for `data` at its default compression
/// level. It is a function of the data alone: the stream's header carries
/// no time stamp, no file name and a fixed system byte.
pub uninterp spec fn gzip_of(data: Seq<u8>) -> Seq<u8>;

/// Compresses `data` with `flate2::write::GzEncoder` at the default
/// compression level, writing into a fresh vector: `GzEncoder::new`, then
/// `write_all`, then `finish`. Whether the encoder succeeds is not stated;
/// when it does, the vector holds the gzip stream of `data`.
#[verifier::external_body]
pub(crate) fn gzip(data: &[u8]) -> (r: Result<Vec<u8>, std::io::Error>)
    ensures
        r matches Ok(stream) ==> stream@ == gzip_of(data@),
{
    let mut encoder = GzEncoder::new(Vec::new(), Compression::default());
    encoder.write_all(data)?;
    encoder.finish()
}

} // verus!
