//! Widget ids: the 64-bit hash that the widget toolkit makes of a name.

use vstd::prelude::*;

verus! {

/// The id that `LiveId::from_str` of `makepad-live-id` makes of a name.
pub uninterp spec fn live_id(name: Seq<char>) -> u64;

/// `LiveId::from_str` of `makepad-live-id`: a hash of the name's bytes, the
/// same for the same name, with its highest bit set. That different names have
/// different ids is not claimed.
#[verifier::external_body]
pub(crate) fn id_of(name: &str) -> (id: u64)
    ensures
        id == live_id(name@),
        id >= 0x8000_0000_0000_0000,
{
    makepad_live_id::LiveId::from_str(name).0
}

} // verus!
