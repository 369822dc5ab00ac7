use async_compression::futures::bufread::ZlibDecoder;
use async_compression::futures::write::ZlibEncoder;
use futures::io::{AsyncReadExt, AsyncWriteExt};
use futures::FutureExt;
use vstd::prelude::*;

verus! {

/// A value that travels zlib-compressed.
pub struct Zlib<T>(pub T);

/// What zlib compression at the default level makes of `data`.
pub uninterp spec fn zlib_compressed(data: Seq<u8>) -> Seq<u8>;

/// What inflating the zlib stream `data` gives, or `None` when it is not one.
pub uninterp spec fn zlib_inflated(data: Seq<u8>) -> Option<Seq<u8>>;

/// Relies on `async_compression::futures::write::ZlibEncoder` over a vector:
/// the bytes it writes depend on the input alone, and since a vector takes
/// every write at once, neither writing nor closing ever waits or fails (the
/// encoder only fails on an output buffer it cannot drain). Each future is
/// polled once, without an executor.
#[verifier::external_body]
pub(crate) fn zlib_compress(data: &[u8]) -> (r: Option<Vec<u8>>)
    ensures
        r is Some,
        r matches Some(z) ==> z@ == zlib_compressed(data@),
{
    let mut encoder = ZlibEncoder::new(Vec::new());
    let written = matches!(encoder.write_all(data).now_or_never(), Some(Ok(())))
        && matches!(encoder.close().now_or_never(), Some(Ok(())));
    if written {
        Some(encoder.into_inner())
    } else {
        None
    }
}

/// Relies on `async_compression::futures::bufread::ZlibDecoder` reading one
/// zlib stream from memory: its output, or its failure, depends on the input
/// alone, and a slice never makes it wait, so one poll without an executor
/// finishes it.
#[verifier::external_body]
pub(crate) fn zlib_decompress(data: &[u8]) -> (r: Option<Vec<u8>>)
    ensures
        r is Some <==> zlib_inflated(data@) is Some,
        r matches Some(v) ==> zlib_inflated(data@) == Some(v@),
{
    let mut decoder = ZlibDecoder::new(data);
    let mut out = Vec::new();
    match decoder.read_to_end(&mut out).now_or_never() {
        Some(Ok(_)) => Some(out),
        _ => None,
    }
}

} // verus!
