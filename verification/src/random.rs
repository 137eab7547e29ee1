use vstd::prelude::*;

verus! {

/// Calls `fastrand::u64(lo..)`, which draws a value in `lo..=u64::MAX` from the
/// thread-local generator; nothing else is promised of the value.
#[verifier::external_body]
pub(crate) fn random_u64_from(lo: u64) -> (r: u64)
    ensures
        lo <= r,
{
    fastrand::u64(lo..)
}

/// `fastrand::choice` on a list of names: `None` for an empty list, else
/// one of its names, chosen at random.
#[verifier::external_body]
pub(crate) fn random_choice(names: Vec<String>) -> (r: Option<String>)
    ensures
        names@.len() == 0 <==> r is None,
        r matches Some(s) ==> exists|i: int| 0 <= i < names@.len() && (#[trigger] names@[i])@ == s@,
{
    fastrand::choice(names)
}

/// `fastrand::u32` on the range `lo..hi`: a random number in it. The range
/// must not be empty.
#[verifier::external_body]
pub(crate) fn random_u32_in(lo: u32, hi: u32) -> (r: u32)
    requires
        lo < hi,
    ensures
        lo <= r < hi,
{
    fastrand::u32(lo..hi)
}

} // verus!
