//! The one error of the protocols.
use vstd::prelude::*;

verus! {

/// The generic failure: a type mismatch, an unrecognized key, or a missing
/// key or element. It carries no detail; a driver that knows the position in
/// its input adds that itself.
#[derive(Copy, Clone, Debug, PartialEq, Eq, Structural)]
pub struct Error;

} // verus!
