//! Fresh identifiers.

use vstd::prelude::*;

verus! {

/// A character of the Crockford base32 alphabet in which ULIDs are written:
/// a digit or an upper-case letter other than `I`, `L`, `O` and `U`.
pub open spec fn crockford_char(c: char) -> bool {
    let n = c as u32;
    (48 <= n <= 57) || (65 <= n <= 90 && n != 73 && n != 76 && n != 79 && n != 85)
}

/// The canonical text form of a ULID: 26 Crockford base32 characters.
pub open spec fn is_ulid_text(s: Seq<char>) -> bool {
    &&& s.len() == 26
    &&& forall|i: int| 0 <= i < 26 ==> #[trigger] crockford_char(s[i])
}

/// A fresh ULID in its canonical text form: `ulid::Ulid::new()` (the current
/// time and random bits), written with `Ulid::to_string`, which encodes the
/// 128 bits as 26 characters of the Crockford base32 alphabet.  Which ULID is
/// drawn is not promised: it depends on the clock and on chance.
#[verifier::external_body]
pub(crate) fn new_ulid_string() -> (s: String)
    ensures
        is_ulid_text(s@),
{
    ulid::Ulid::new().to_string()
}

} // verus!
