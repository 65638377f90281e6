//! A bidirectional one-to-one ownership relationship between a `Parent` and
//! its single `Child`, where the parent strongly owns the child and the child
//! holds a non-owning back-reference to its parent, together with a
//! serialization/deserialization contract that round-trips this cyclic
//! structure through an acyclic flat text document.
//!
//! The cycle is broken on the wire: a child's back-reference is emitted as the
//! scalar id of its parent, never as a nested object. Reconstruction is
//! two-phase: the child is built with its back-reference explicitly unset, the
//! parent is built owning that child, and only then is the back-reference
//! patched to the new parent, after the declared ids have been validated
//! against each other.

pub mod child;
pub mod digits;
pub mod errors;
pub mod parent;
pub mod wire;
