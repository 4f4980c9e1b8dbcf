//! Application units: the fixed-point length in which every layout distance is measured.
//!
//! Lengths are `app_units::Au`, whose single field is visible to the proofs. Its
//! arithmetic clamps every result into `[MIN_AU_VALUE, MAX_AU_VALUE]`.

use vstd::prelude::*;
use app_units::Au;

verus! {

#[verifier::external_type_specification]
pub struct ExAu(app_units::Au);

/// Smallest representable length (the clamp floor of every `Au` operation).
pub const MIN_AU_VALUE: i32 = -1073741823;

/// Largest representable length (the clamp ceiling of every `Au` operation).
pub const MAX_AU_VALUE: i32 = 1073741823;

/// The value range that `Au` arithmetic keeps its operands and results in.
pub open spec fn au_in_range(v: int) -> bool {
    MIN_AU_VALUE <= v <= MAX_AU_VALUE
}

/// A length whose raw value lies in the representable range.
pub open spec fn au_valid(a: Au) -> bool {
    au_in_range(a.0 as int)
}

/// `v` pushed into the representable range.
pub open spec fn clamp_au(v: int) -> int {
    if v < MIN_AU_VALUE {
        MIN_AU_VALUE as int
    } else if v > MAX_AU_VALUE {
        MAX_AU_VALUE as int
    } else {
        v
    }
}

/// The larger of two raw lengths.
pub open spec fn max_int(a: int, b: int) -> int {
    if a >= b { a } else { b }
}

/// The smaller of two raw lengths.
pub open spec fn min_int(a: int, b: int) -> int {
    if a <= b { a } else { b }
}

/// Relies on `<Au as Add>::add`: the sum of the raw values, clamped into range.
#[verifier::external_body]
pub(crate) fn au_add(a: Au, b: Au) -> (r: Au)
    requires
        au_valid(a),
        au_valid(b),
    ensures
        r.0 == clamp_au(a.0 + b.0),
{
    a + b
}

/// Relies on `<Au as Sub>::sub`: the difference of the raw values, clamped into range.
#[verifier::external_body]
pub(crate) fn au_sub(a: Au, b: Au) -> (r: Au)
    requires
        au_valid(a),
        au_valid(b),
    ensures
        r.0 == clamp_au(a.0 - b.0),
{
    a - b
}

/// The larger of two lengths.
pub fn au_max(a: Au, b: Au) -> (r: Au)
    ensures
        r.0 == max_int(a.0 as int, b.0 as int),
{
    if a.0 >= b.0 { a } else { b }
}

/// The smaller of two lengths.
pub fn au_min(a: Au, b: Au) -> (r: Au)
    ensures
        r.0 == min_int(a.0 as int, b.0 as int),
{
    if a.0 <= b.0 { a } else { b }
}

} // verus!
