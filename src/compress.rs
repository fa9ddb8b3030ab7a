use vstd::prelude::*;
use libflate::zlib;
use std::io::{Cursor, Read, Write};

verus! {

/// The zlib stream that libflate's encoder makes of `data`.
pub uninterp spec fn zlib_deflated(data: Seq<u8>) -> Seq<u8>;

/// What libflate's zlib decoder makes of `data`: the decoded bytes, or
/// `None` where it reports an error.
pub uninterp spec fn zlib_inflated(data: Seq<u8>) -> Option<Seq<u8>>;

/// Relies on libflate's `zlib::Encoder` (`new`, `write_all`, `finish`): a
/// zlib stream of `data`, which libflate's zlib decoder turns back into
/// `data`. Writing into a `Vec` has no source of error, so it succeeds.
#[verifier::external_body]
pub(crate) fn zlib_compress(data: &[u8]) -> (r: Result<Vec<u8>, String>)
    ensures
        r is Ok,
        r matches Ok(v) ==> v@ == zlib_deflated(data@) && zlib_inflated(v@) == Some(data@),
{
    let mut encoder = zlib::Encoder::new(Vec::new()).map_err(|e| e.to_string())?;
    encoder.write_all(data).map_err(|e| e.to_string())?;
    encoder.finish().into_result().map_err(|e| e.to_string())
}

/// Relies on libflate's `zlib::Decoder` (`new`, then `read_to_end`): the
/// decoded bytes of a zlib stream, or `None` on an error. The outcome
/// depends on the input alone.
#[verifier::external_body]
pub(crate) fn zlib_decompress(data: Vec<u8>) -> (r: Option<Vec<u8>>)
    ensures
        match r {
            Some(v) => zlib_inflated(data@) == Some(v@),
            None => zlib_inflated(data@).is_none(),
        },
{
    let mut decoder = zlib::Decoder::new(Cursor::new(data)).ok()?;
    let mut out = Vec::new();
    decoder.read_to_end(&mut out).ok()?;
    Some(out)
}

} // verus!
