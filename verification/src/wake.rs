//! Waking a parked thread.

use crossbeam_utils::sync::Unparker;
use vstd::prelude::*;

verus! {

/// `crossbeam_utils::sync::Unparker`, carried and never looked into.
#[verifier::external_type_specification]
#[verifier::external_body]
pub struct ExUnparker(Unparker);

/// How often a thread was woken through a handle, from where the handle was
/// made.
pub uninterp spec fn wakes(unparker: Unparker) -> nat;

/// `Unparker::unpark` wakes the thread that is parked on the other end, or
/// spares it its next park. What that thread then does is not claimed.
#[verifier::external_body]
pub(crate) fn wake(unparker: &mut Unparker)
    ensures
        wakes(*final(unparker)) == wakes(*old(unparker)) + 1,
{
    unparker.unpark()
}

/// `Unparker::clone` makes another handle that wakes the same thread. Nobody was
/// woken through it yet. Which thread that is does not show in an `Unparker`,
/// and is not claimed.
#[verifier::external_body]
pub(crate) fn clone_unparker(unparker: &Unparker) -> (other: Unparker)
    ensures
        wakes(other) == 0,
{
    unparker.clone()
}

}
