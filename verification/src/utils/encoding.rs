//! Turning the bytes of a file into text: UTF-8 first, then two single-byte
//! encodings, then UTF-8 with every malformed sequence replaced.

use vstd::prelude::*;

verus! {

/// The encodings that are tried, in this order.
#[derive(Debug, Clone, Copy, PartialEq, Eq, Structural)]
pub enum TextEncoding {
    Utf8,
    Windows1252,
    Iso8859_2,
}

/// What `encoding_rs::Encoding::decode` returns for an encoding and the
/// whole input: the decoded text, and whether a malformed sequence was met
/// and replaced.
pub uninterp spec fn decoding(encoding: TextEncoding, bytes: Seq<u8>) -> (Seq<char>, bool);

/// What `String::from_utf8_lossy` returns: the input read as UTF-8, with
/// every malformed sequence replaced.
pub uninterp spec fn lossy_utf8(bytes: Seq<u8>) -> Seq<char>;

/// Inputs up to this length are decoded. `Encoding::decode` sizes its buffer
/// at up to three bytes for each byte of input, and once more when the
/// buffer fills, and says that it panics if that size overflows.
pub open spec fn max_decodable_len() -> nat {
    (usize::MAX / 16) as nat
}

/// Whether the bytes begin with the byte order mark of UTF-8.
pub open spec fn has_utf8_mark(bytes: Seq<u8>) -> bool {
    bytes.len() >= 3 && bytes[0] == 0xEF && bytes[1] == 0xBB && bytes[2] == 0xBF
}

/// Whether the bytes are UTF-8 as they stand: valid, and without a byte
/// order mark in front, which decoding would take away.
pub open spec fn is_plain_utf8(bytes: Seq<u8>) -> bool {
    vstd::utf8::valid_utf8(bytes) && !has_utf8_mark(bytes)
}

/// `encoding_rs::Encoding::decode` on one of the statics `UTF_8`,
/// `WINDOWS_1252` and `ISO_8859_2`. The text and the error flag depend on
/// the encoding and the bytes alone. The encoding that a byte order mark
/// made it use is not handed on. Of input that is valid UTF-8 and has no
/// byte order mark, decoding as UTF-8 hands back the input itself as text,
/// and reports no malformed sequence.
#[verifier::external_body]
pub(crate) fn decode_with(encoding: TextEncoding, bytes: &[u8]) -> (r: (String, bool))
    requires
        bytes@.len() <= max_decodable_len(),
    ensures
        (r.0@, r.1) == decoding(encoding, bytes@),
        encoding == TextEncoding::Utf8 && is_plain_utf8(bytes@) ==> !r.1 && r.0@
            == vstd::utf8::decode_utf8(bytes@),
{
    let encoding = match encoding {
        TextEncoding::Utf8 => encoding_rs::UTF_8,
        TextEncoding::Windows1252 => encoding_rs::WINDOWS_1252,
        TextEncoding::Iso8859_2 => encoding_rs::ISO_8859_2,
    };
    let (text, _, had_errors) = encoding.decode(bytes);
    (text.into_owned(), had_errors)
}

/// `String::from_utf8_lossy` of the standard library, as an owned string.
#[verifier::external_body]
pub(crate) fn lossy_text(bytes: &[u8]) -> (text: String)
    ensures
        text@ == lossy_utf8(bytes@),
{
    String::from_utf8_lossy(bytes).into_owned()
}

/// The text that is accepted when UTF-8 failed: the first of the two
/// single-byte decodings that met no malformed sequence, else the lossy
/// text.
pub open spec fn fallback_text(
    windows_1252: (Seq<char>, bool),
    iso_8859_2: (Seq<char>, bool),
    lossy: Seq<char>,
) -> Seq<char> {
    if !windows_1252.1 {
        windows_1252.0
    } else if !iso_8859_2.1 {
        iso_8859_2.0
    } else {
        lossy
    }
}

/// The text of a file with the given bytes.
pub open spec fn decoded_content(bytes: Seq<u8>) -> Seq<char> {
    let utf8 = decoding(TextEncoding::Utf8, bytes);
    if !utf8.1 {
        utf8.0
    } else {
        fallback_text(
            decoding(TextEncoding::Windows1252, bytes),
            decoding(TextEncoding::Iso8859_2, bytes),
            lossy_utf8(bytes),
        )
    }
}

/// Chooses among the decodings that stand in for UTF-8. Each decoding comes
/// with the flag that says whether it met a malformed sequence.
pub fn fallback_decoding(
    windows_1252: (String, bool),
    iso_8859_2: (String, bool),
    lossy: String,
) -> (text: String)
    ensures
        text@ == fallback_text(
            (windows_1252.0@, windows_1252.1),
            (iso_8859_2.0@, iso_8859_2.1),
            lossy@,
        ),
{
    if !windows_1252.1 {
        windows_1252.0
    } else if !iso_8859_2.1 {
        iso_8859_2.0
    } else {
        lossy
    }
}

/// Decodes the bytes of a file. A clean UTF-8 decoding is taken as it is;
/// otherwise the single-byte encodings are tried in order, and if none is
/// clean the malformed sequences are replaced. Decoding never fails, and
/// bytes that are UTF-8 as they stand come back as the text they write.
pub fn decode_file_content(bytes: &[u8]) -> (text: String)
    requires
        bytes@.len() <= max_decodable_len(),
    ensures
        text@ == decoded_content(bytes@),
        is_plain_utf8(bytes@) ==> text@ == vstd::utf8::decode_utf8(bytes@),
{
    let (text, had_errors) = decode_with(TextEncoding::Utf8, bytes);
    if !had_errors {
        return text;
    }
    let windows_1252 = decode_with(TextEncoding::Windows1252, bytes);
    let iso_8859_2 = decode_with(TextEncoding::Iso8859_2, bytes);
    let lossy = lossy_text(bytes);
    fallback_decoding(windows_1252, iso_8859_2, lossy)
}

} // verus!
