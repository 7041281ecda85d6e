//! Turning the bytes of a file into text.

use vstd::prelude::*;

verus! {

/// What decoding `bytes` as UTF-8 gives under the WHATWG "decode"
/// algorithm: the text, with a byte-order mark sniffed and removed and each
/// malformed sequence replaced, and whether anything was malformed.
pub uninterp spec fn utf8_decode(bytes: Seq<u8>) -> (Seq<char>, bool);

/// What decoding `bytes` as windows-1252 gives under the WHATWG "decode"
/// algorithm: the text, with a byte-order mark sniffed and removed.
pub uninterp spec fn windows_1252_decode(bytes: Seq<u8>) -> Seq<char>;

/// Largest number of bytes that can be decoded at once: the decoder sets
/// aside up to three bytes of text for each byte of input.
pub open spec fn decodable_len() -> nat {
    (usize::MAX / 8) as nat
}

/// Decodes `bytes` as UTF-8.
///
/// Trusted: `encoding_rs::Encoding::decode` on `encoding_rs::UTF_8`. The
/// contract only gives the outcome a name: it depends on the bytes alone.
/// The call panics where the size of its output buffer overflows, which the
/// bound on the input rules out.
#[verifier::external_body]
pub(crate) fn decode_utf8_lossy(bytes: &[u8]) -> (out: (String, bool))
    requires
        bytes@.len() <= decodable_len(),
    ensures
        (out.0@, out.1) == utf8_decode(bytes@),
{
    let (text, _, had_errors) = encoding_rs::UTF_8.decode(bytes);
    (text.into_owned(), had_errors)
}

/// Decodes `bytes` as windows-1252.
///
/// Trusted: `encoding_rs::Encoding::decode` on `encoding_rs::WINDOWS_1252`.
/// The contract only gives the outcome a name: it depends on the bytes
/// alone. The call panics where the size of its output buffer overflows,
/// which the bound on the input rules out.
#[verifier::external_body]
pub(crate) fn decode_windows_1252(bytes: &[u8]) -> (out: String)
    requires
        bytes@.len() <= decodable_len(),
    ensures
        out@ == windows_1252_decode(bytes@),
{
    let (text, _, _) = encoding_rs::WINDOWS_1252.decode(bytes);
    text.into_owned()
}

} // verus!
