//! The trap barrier.
//!
//! A fault that is not one of the well-defined validation failures cannot be
//! recovered from inside the sandbox: the only sound behaviour is to stop
//! making forward progress and let the host's execution budget detect the
//! stalled instance. The barrier is modelled as a distinct fatal-fault
//! signal, `Trap`, that is never confused with an ordinary status return;
//! the embedding shell turns it into a permanent halt.

use vstd::prelude::*;

verus! {

/// The unrecoverable faults the guest can raise.
#[derive(Clone, Copy, Debug, PartialEq, Eq, Structural)]
pub enum Fault {
    /// The allocator could not satisfy a request mid-call.
    AllocationFailure,
    /// A caller-supplied offset or length does not describe a readable
    /// region of the guest's linear memory.
    InvalidAccess,
}

/// The halt signal: proof that the guest has abandoned the call.
#[derive(Clone, Copy, Debug, PartialEq, Eq, Structural)]
pub struct Trap {
    /// The fault that brought execution down.
    pub cause: Fault,
}

/// The trap barrier itself: converts an unrecoverable fault into the halt
/// signal carrying that fault, and nothing else.
pub fn panic(cause: Fault) -> (t: Trap)
    ensures
        t.cause == cause,
{
    Trap { cause: cause }
}

} // verus!
