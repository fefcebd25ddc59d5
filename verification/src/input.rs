//! Errors of the simulation input, and the consistency rules that span
//! several of its sections.
use vstd::prelude::*;

verus! {

#[verifier::external_type_specification]
#[verifier::external_body]
pub struct ExIoError(std::io::Error);

#[verifier::external_type_specification]
#[verifier::external_body]
pub struct ExSaphyrError(serde_saphyr::Error);

/// Errors of reading, validating and building a simulation input.
#[derive(Debug)]
pub enum InputError {
    MaterialNotFound(String),
    PrimitiveNotFound(String),
    EmptyCsgOperation,
    UnknownCsgOperation(String),
    InvalidPrimitive { name: String, reason: String },
    InvalidMaterial { name: String, reason: String },
    InvalidSource(String),
    InvalidBuildup { name: String, reason: String },
    InvalidEnergyGroupLength(String),
    Io(std::io::Error),
    Validation(serde_saphyr::Error),
}

/// Message when the source's two per-group lists differ in length.
pub open spec fn group_lengths_message() -> Seq<char> {
    "energy_groups length and intensity_by_group length must match"@
}

/// Message when the conversion factors do not match the energy groups.
pub open spec fn conversion_lengths_message() -> Seq<char> {
    "conversion_factors length must match sources energy_groups length"@
}

/// The per-energy-group lists of an input must have one entry per group:
/// the source's intensities, then the dose conversion factors, are checked
/// against the number of energy groups.
pub fn validate_energy_group_lengths(
    energy_groups: usize,
    intensity_by_group: usize,
    conversion_factors: usize,
) -> (r: Result<(), InputError>)
    ensures
        r is Ok <==> (energy_groups == intensity_by_group && conversion_factors == energy_groups),
        energy_groups != intensity_by_group ==> (r matches Err(InputError::InvalidEnergyGroupLength(
            m,
        )) && m@ == group_lengths_message()),
        energy_groups == intensity_by_group && conversion_factors != energy_groups ==> (r matches Err(
            InputError::InvalidEnergyGroupLength(m),
        ) && m@ == conversion_lengths_message()),
{
    if energy_groups != intensity_by_group {
        return Err(
            InputError::InvalidEnergyGroupLength(
                String::from_str("energy_groups length and intensity_by_group length must match"),
            ),
        );
    }
    if conversion_factors != energy_groups {
        return Err(
            InputError::InvalidEnergyGroupLength(
                String::from_str("conversion_factors length must match sources energy_groups length"),
            ),
        );
    }
    Ok(())
}

} // verus!
