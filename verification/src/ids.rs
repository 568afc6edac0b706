//! Identifiers made from the clock.

use vstd::prelude::*;

use crate::number::hexadecimal;
use crate::number::hexadecimal_of;
use crate::number::pad_left;
use crate::number::padded_left;
use crate::text::string_of;

verus! {

/// The eight hexadecimal digits of the nanoseconds within the second.
pub open spec fn short_text(nanos: nat) -> Seq<char> {
    pad_left(hexadecimal(nanos % 1_000_000_000), '0', 8)
}

/// The hexadecimal digits of the nanoseconds since 1970.
pub open spec fn long_text(nanos: nat) -> Seq<char> {
    hexadecimal(nanos)
}

/// Calls `std::time::SystemTime::now` and gives the nanoseconds since 1970, zero
/// before that. Nothing is claimed of the number.
#[verifier::external_body]
fn clock_nanos() -> (r: u128) {
    std::time::SystemTime::now()
        .duration_since(std::time::SystemTime::UNIX_EPOCH)
        .unwrap_or_default()
        .as_nanos()
}

/// The short identifier of a point in time.
pub fn short_id(nanos: u128) -> (r: String)
    ensures
        r@ == short_text(nanos as nat),
{
    let digits = hexadecimal_of(nanos % 1_000_000_000);
    let padded = padded_left(digits.as_slice(), '0', 8);
    string_of(padded.as_slice())
}

/// The long identifier of a point in time.
pub fn long_id(nanos: u128) -> (r: String)
    ensures
        r@ == long_text(nanos as nat),
{
    let digits = hexadecimal_of(nanos);
    string_of(digits.as_slice())
}

/// A short identifier of the present moment.
pub fn uuid_short() -> (r: String)
    ensures
        exists|nanos: nat| r@ == #[trigger] short_text(nanos),
{
    short_id(clock_nanos())
}

/// A long identifier of the present moment.
pub fn uuid_simple() -> (r: String)
    ensures
        exists|nanos: nat| r@ == #[trigger] long_text(nanos),
{
    long_id(clock_nanos())
}

} // verus!
