//! Buildup-factor bookkeeping that involves no arithmetic.
use vstd::prelude::*;

verus! {

/// The physical quantity a buildup factor corresponds to; different target
/// quantities require different G-P parameters.
#[derive(Clone, Copy, Debug, PartialEq, Eq, Hash, Structural)]
pub enum TargetQuantity {
    /// Exposure (Air Kerma)
    Exposure,
    /// Ambient Dose Equivalent (e.g. 1cm dose)
    AmbientDoseEquivalent,
    /// Effective Dose Equivalent
    EffectiveDoseEquivalent,
    /// Energy Absorption (in the material itself)
    EnergyAbsorption,
}

/// Provider of constant (1.0) buildup tables, for tests and examples.
pub struct DummyBuildupProvider;

} // verus!
