//! A small framework for moving values to and from a self-describing tree of
//! nulls, booleans, numbers, strings, sequences and keyed maps.
//!
//! * [`json`] holds the dynamic value tree, which may be nested to any depth
//!   and is released without recursion.
//! * [`de`] is the protocol of places and visitors through which a
//!   destination is filled one node at a time.
//! * [`ser`] is the protocol of fragments through which a source describes
//!   its shape, one node at a time.
//!
//! The traits of the two protocols carry their contracts over functions
//! marked `spec`. Those describe a state to the contracts; running code does
//! not call them.
pub mod de;
pub mod error;
pub mod json;
pub mod ser;
