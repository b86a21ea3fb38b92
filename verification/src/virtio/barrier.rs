//! Ordering of the host's stores as the guest's processors see them.

use vstd::prelude::*;

verus! {

/// Keeps every store made before the call ahead of every store made after
/// it, as other processors see them.
///
/// This is `std::sync::atomic::fence` with release ordering. It computes
/// nothing and changes no value, so nothing is claimed of it.
#[verifier::external_body]
pub(crate) fn release_fence() {
    std::sync::atomic::fence(std::sync::atomic::Ordering::Release);
}

} // verus!
