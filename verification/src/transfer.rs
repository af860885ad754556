//! Transfer decoding: the legacy quoted-printable text encoding, decoded
//! leniently, then read as UTF-8 with lossy fallback.

use vstd::prelude::*;
use crate::outside::{qp_decoded, utf8_lossy_of, qp_decode, utf8_lossy};

verus! {

/// The decode is lenient and the UTF-8 read lossy, so no input fails; the
/// error type remains for callers that treat a decode as fallible.
#[derive(Debug, Clone, Copy, PartialEq, Eq, Structural)]
pub struct TransferDecodeError;

/// The text that the transfer decode yields for `s`: lenient
/// quoted-printable decoding followed by lossy UTF-8 conversion.
pub open spec fn transfer_decoded(s: Seq<char>) -> Seq<char> {
    utf8_lossy_of(qp_decoded(s))
}

/// Decode the legacy transfer encoding of `input` into readable text.
/// Malformed escape sequences pass through rather than fail, and invalid
/// UTF-8 is replaced, so the result is always `Ok`.
pub fn decode_quoted_printable(input: &str) -> (r: Result<String, TransferDecodeError>)
    ensures
        r matches Ok(s) && s@ == transfer_decoded(input@),
{
    let bytes = qp_decode(input);
    Ok(utf8_lossy(&bytes))
}

} // verus!
