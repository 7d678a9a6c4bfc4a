//! Raw bytes of the start and end events, and their base64 form.

use vstd::prelude::*;
use base64::prelude::{BASE64_STANDARD, Engine};
use crate::text::format_decimal;

verus! {

/// Error from decoding base64 text.
#[verifier::external_type_specification]
#[verifier::external_body]
pub struct ExDecodeError(base64::DecodeError);

/// The base64 text, in the standard alphabet with padding, that `base64` writes for `bytes`.
pub uninterp spec fn base64_encode(bytes: Seq<u8>) -> Seq<char>;

/// The bytes that `base64` reads from `text` in the standard alphabet with padding, or `None`
/// where it refuses the text.
pub uninterp spec fn base64_decode(text: Seq<char>) -> Option<Seq<u8>>;

/// Whether the base64 form of `len` bytes has a length that fits in a `usize`.
pub open spec fn encodable_len(len: nat) -> bool {
    len / 3 * 4 + (if len % 3 == 0 {
        0int
    } else {
        4int
    }) <= usize::MAX
}

/// Calls `BASE64_STANDARD.encode` (base64's `Engine::encode` on the standard engine).
/// Claimed: the result is the encoding named `base64_encode` of the input, and decoding it with
/// the same engine gives the input back. `encode` panics where the length of its output
/// overflows `usize`, which `requires` rules out.
#[verifier::external_body]
fn standard_encode(bytes: &[u8]) -> (text: String)
    requires
        encodable_len(bytes@.len()),
    ensures
        text@ == base64_encode(bytes@),
        base64_decode(text@) == Some(bytes@),
{
    BASE64_STANDARD.encode(bytes)
}

/// Calls `BASE64_STANDARD.decode` (base64's `Engine::decode` on the standard engine) on the
/// UTF-8 bytes of `text`. Claimed: it succeeds exactly where `base64_decode` gives bytes, and
/// gives those. Which `DecodeError` comes on failure is not stated.
#[verifier::external_body]
fn standard_decode(text: &str) -> (r: Result<Vec<u8>, base64::DecodeError>)
    ensures
        r is Ok <==> base64_decode(text@) is Some,
        r matches Ok(b) ==> base64_decode(text@) == Some(b@),
{
    BASE64_STANDARD.decode(text)
}

/// Container for raw bytes of `Start` & `End` events.
#[derive(PartialEq, Eq, Clone, Debug, Default)]
pub struct Bytes(pub Vec<u8>);

impl Bytes {
    /// The base64 text (standard alphabet, with padding) that stands for these bytes when they
    /// are serialized. Decoding it gives the bytes back.
    pub fn to_base64(&self) -> (r: String)
        requires
            encodable_len(self.0@.len()),
        ensures
            r@ == base64_encode(self.0@),
            base64_decode(r@) == Some(self.0@),
    {
        standard_encode(self.0.as_slice())
    }

    /// Reads the bytes back from base64 text; text that is not valid base64 is refused with the
    /// message "invalid base64".
    pub fn from_base64(text: &str) -> (r: Result<Bytes, String>)
        ensures
            match base64_decode(text@) {
                Some(b) => r matches Ok(x) && x.0@ == b,
                None => r matches Err(msg) && msg@ == "invalid base64"@,
            },
    {
        match standard_decode(text) {
            Ok(b) => Ok(Bytes(b)),
            Err(_) => Err(String::from_str("invalid base64")),
        }
    }

    /// How the bytes are shown for debugging: their number only, as "Bytes { len: N }".
    pub fn fmt_debug(&self) -> (r: String)
        ensures
            r@ == "Bytes { len: "@ + crate::text::decimal(self.0@.len()) + " }"@,
    {
        let mut s = String::from_str("Bytes { len: ");
        let n = format_decimal(self.0.len() as u64);
        s.append(n.as_str());
        s.append(" }");
        s
    }
}

} // verus!
