//! The zlib codec, supplied by `miniz_oxide`.
use vstd::prelude::*;

verus! {

/// What `miniz_oxide` produces when it zlib-compresses `data` at `level`.
pub uninterp spec fn zlib_compressed(data: Seq<u8>, level: u8) -> Seq<u8>;

/// What `miniz_oxide` decodes from the zlib stream `data`; `None` for a corrupt stream.
pub uninterp spec fn zlib_decompressed(data: Seq<u8>) -> Option<Seq<u8>>;

/// Relies on `miniz_oxide::inflate::decompress_to_vec_zlib`: it decodes a zlib
/// stream or reports an error, as a function of the input bytes alone.
#[verifier::external_body]
pub(crate) fn decompress_data(data: &Vec<u8>) -> (r: Option<Vec<u8>>)
    ensures
        r is Some <==> zlib_decompressed(data@) is Some,
        r is Some ==> r->Some_0@ == zlib_decompressed(data@)->Some_0,
{
    miniz_oxide::inflate::decompress_to_vec_zlib(data.as_slice()).ok()
}

/// Relies on `miniz_oxide::deflate::compress_to_vec_zlib`: a zlib stream that
/// depends on the input bytes and the level alone.
#[verifier::external_body]
pub(crate) fn compress_data(data: &Vec<u8>, level: u8) -> (r: Vec<u8>)
    ensures
        r@ == zlib_compressed(data@, level),
{
    miniz_oxide::deflate::compress_to_vec_zlib(data.as_slice(), level)
}

} // verus!
