//! Bytes out of base-64 text.

use vstd::prelude::*;

verus! {

/// The bytes that a text stands for in base 64 with the standard alphabet
/// and padding, as `data_encoding::BASE64` reads it; nothing where it
/// refuses the text.
pub uninterp spec fn base64_decoding(text: Seq<char>) -> Option<Seq<u8>>;

/// Decodes `text` with `data_encoding::BASE64.decode`. What comes back, the
/// bytes or the refusal, depends on the text alone; nothing more is claimed
/// of it.
#[verifier::external_body]
fn decode(text: &str) -> (bytes: Option<Vec<u8>>)
    ensures
        match bytes {
            Some(decoded) => base64_decoding(text@) == Some(decoded@),
            None => base64_decoding(text@) is None,
        },
{
    data_encoding::BASE64.decode(text.as_bytes()).ok()
}

/// The bytes that `input` stands for.
pub fn decode_base64(input: &str) -> (bytes: Vec<u8>)
    requires
        base64_decoding(input@) is Some,
    ensures
        Some(bytes@) == base64_decoding(input@),
{
    match decode(input) {
        Some(bytes) => bytes,
        None => unreached(),
    }
}

/// The bytes that `input` stands for, or nothing where it is no base-64
/// text.
pub fn checked_decode_base64(input: &str) -> (bytes: Option<Vec<u8>>)
    ensures
        match bytes {
            Some(decoded) => base64_decoding(input@) == Some(decoded@),
            None => base64_decoding(input@) is None,
        },
{
    if decode(input).is_some() {
        Some(decode_base64(input))
    } else {
        None
    }
}

} // verus!
