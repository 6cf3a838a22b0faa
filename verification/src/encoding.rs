//! The character encodings of text that comes as bytes: detection and decoding.

use vstd::prelude::*;

verus! {

/// The error of `core::str::from_utf8`.
#[verifier::external_type_specification]
#[verifier::external_body]
pub struct ExUtf8Error(core::str::Utf8Error);

/// `core::str::from_utf8` succeeds on well-formed UTF-8 and on nothing else, and
/// gives the characters that it encodes.
pub assume_specification[ core::str::from_utf8 ](v: &[u8]) -> (r: Result<
    &str,
    core::str::Utf8Error,
>)
    ensures
        match r {
            Ok(s) => vstd::utf8::valid_utf8(v@) && s@ == vstd::utf8::decode_utf8(v@),
            Err(_) => !vstd::utf8::valid_utf8(v@),
        },
;

/// Whether so many bytes can be decoded: the text they may turn into, of up to
/// three bytes for each, has to fit in memory.
pub open spec fn decodable(len: int) -> bool {
    4 * (len + 16) <= isize::MAX
}

/// Tests whether so many bytes can be decoded.
pub fn is_decodable(len: usize) -> (r: bool)
    ensures
        r == decodable(len as int),
{
    let most: usize = isize::MAX as usize / 4;
    most >= 16 && len <= most - 16
}

/// Name for what the encoding with a label makes of bytes: the text, and whether
/// some of it was malformed. `None` where there is no such encoding.
pub uninterp spec fn decoding(label: Seq<char>, bytes: Seq<u8>) -> Option<(Seq<char>, bool)>;

/// What a decoding gave, as characters.
pub open spec fn decoded_view(d: Option<(String, bool)>) -> Option<(Seq<char>, bool)> {
    match d {
        Some((text, malformed)) => Some((text@, malformed)),
        None => None,
    }
}

/// Calls `encoding_rs::Encoding::for_label` and, on the encoding it finds,
/// `encoding_rs::Encoding::decode`: the text that the bytes encode, with
/// malformed parts replaced, and whether there were any. A byte order mark at
/// the start takes precedence over the label and is dropped. The result depends
/// on the label and the bytes alone.
#[verifier::external_body]
pub(crate) fn decode_labelled(label: &str, bytes: &[u8]) -> (r: Option<(String, bool)>)
    requires
        decodable(bytes@.len() as int),
    ensures
        decoded_view(r) == decoding(label@, bytes@),
{
    match encoding_rs::Encoding::for_label(label.as_bytes()) {
        Some(encoding) => {
            let (text, _, malformed) = encoding.decode(bytes);
            Some((text.into_owned(), malformed))
        },
        None => None,
    }
}

/// Name for the encoding that bytes are guessed to be in.
pub uninterp spec fn guessed_encoding(bytes: Seq<u8>) -> Seq<char>;

/// Calls `chardetng::EncodingDetector`: feeds it all the bytes and asks for its
/// guess, UTF-8 allowed and without a hint at where the bytes are from. The
/// result is the name of the guessed encoding, which depends on the bytes alone
/// and is a label of that encoding.
#[verifier::external_body]
pub(crate) fn guess_encoding(bytes: &[u8]) -> (r: String)
    ensures
        r@ == guessed_encoding(bytes@),
        decoding(r@, bytes@) is Some,
{
    let mut detector = chardetng::EncodingDetector::new();
    detector.feed(bytes, true);
    String::from(detector.guess(None, true).name())
}

} // verus!
