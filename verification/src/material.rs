//! Index types of the material tables.
use vstd::prelude::*;

verus! {

/// Atomic number of an element.
pub type AtomicNumber = usize;

/// Index of a material in the physics tables.
pub type MaterialIndex = usize;

/// Index of an energy group.
pub type GroupIndex = usize;

/// Provider of a fixed set of mass attenuation coefficients, for tests and
/// examples.
pub struct DummyProvider;

} // verus!
