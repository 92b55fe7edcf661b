//! Decoding of file content: legacy single-byte content is brought to UTF-8
//! by the transcoder of `encoding_rs_io`, and single lines are read as text.

use vstd::prelude::*;
use vstd::utf8::{decode_utf8, valid_utf8};

verus! {

/// What the windows-1252 transcoder makes of the bytes `raw`: the UTF-8
/// bytes it hands out, or nothing if it reports a failure.
pub uninterp spec fn transcoded(raw: Seq<u8>) -> Option<Seq<u8>>;

/// Reads `raw` to the end through `encoding_rs_io::DecodeReaderBytes`, built
/// with `encoding_rs::WINDOWS_1252` as its encoding and UTF-8 pass-through
/// switched on. The result is a function of `raw` alone, named
/// [`transcoded`]; nothing more is claimed of it. `None` stands for an error
/// returned by the reader.
#[verifier::external_body]
pub(crate) fn transcode(raw: &[u8]) -> (out: Option<Vec<u8>>)
    ensures
        out is Some <==> transcoded(raw@) is Some,
        out matches Some(v) ==> transcoded(raw@) == Some(v@),
{
    let mut reader = encoding_rs_io::DecodeReaderBytesBuilder::new()
        .encoding(Some(encoding_rs::WINDOWS_1252))
        .utf8_passthru(true)
        .build(raw);
    let mut out: Vec<u8> = Vec::new();
    match std::io::Read::read_to_end(&mut reader, &mut out) {
        Ok(_) => Some(out),
        Err(_) => None,
    }
}

/// `core::str::from_utf8`: the bytes as a string slice exactly when they are
/// well-formed UTF-8, and then the string consists of the characters that
/// the bytes encode.
#[verifier::external_body]
pub(crate) fn utf8_text<'a>(bytes: &'a [u8]) -> (out: Option<&'a str>)
    ensures
        out is Some <==> valid_utf8(bytes@),
        out matches Some(s) ==> s@ == decode_utf8(bytes@),
{
    core::str::from_utf8(bytes).ok()
}

} // verus!
