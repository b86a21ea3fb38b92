//! The way to tell the guest that the used ring has news.

use vstd::prelude::*;

verus! {

/// Something that can raise the interrupt of a device in the guest.
///
/// Raising an interrupt is fire-and-forget: it is tried once, and a failure
/// is reported, not retried. What raising does to the one who raises is
/// stated by the relation of this trait, which each implementation defines
/// for itself; one that defines none promises nothing of what it does.
pub trait Interrupt: Sized {
    /// Whether one attempt to raise the interrupt, which succeeded if `ok`,
    /// may take the one who raises from `pre` to `post`.
    open spec fn signal_effect(pre: Self, post: Self, ok: bool) -> bool {
        true
    }

    /// Tries once to raise the interrupt.
    fn signal(&mut self) -> (result: Result<(), std::io::Error>)
        ensures
            Self::signal_effect(*old(self), *final(self), result is Ok),
    ;
}

} // verus!
