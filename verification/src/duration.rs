//! How long something took, as text.

use vstd::prelude::*;

verus! {

/// The text that `std::time::Duration` writes, for debugging, of itself with `decimals` digits
/// behind the point, where it is `secs` seconds and `nanos` nanoseconds.
pub uninterp spec fn duration_text(secs: u64, nanos: u32, decimals: u8) -> Seq<char>;

/// Formats a `std::time::Duration` with its `Debug` and a precision. It is taken on trust that the
/// text depends on the duration and the precision alone; which text it is, is not stated. A billion
/// nanoseconds or more are left out, as they could carry the seconds over their limit.
#[verifier::external_body]
pub(crate) fn write_duration(secs: u64, nanos: u32, decimals: u8) -> (r: String)
    requires
        nanos < 1000000000,
    ensures
        r@ == duration_text(secs, nanos, decimals),
{
    format!("{:.*?}", usize::from(decimals), std::time::Duration::new(secs, nanos))
}

} // verus!
