//! A verified ledger guest module: the validation and arithmetic core of a
//! single balance-transfer operation, as it runs inside a host-controlled
//! virtual machine.
//!
//! The guest owns only its own linear memory and the logic of the transfer;
//! the host owns account storage and is modelled here as an injected
//! capability (`host::Host`) so that the conservation and no-partial-
//! application guarantees can be stated and proved against it.
//!
//! The shared ABI fixed by this module: an account address is 20 bytes; a
//! stored balance is a 32-byte little-endian buffer whose value fits in 64
//! bits (the upper 24 bytes are zero); allocations are 4-byte aligned.

pub mod trap;
pub mod balance;
pub mod allocator;
pub mod guest;
pub mod host;
pub mod transfer;
