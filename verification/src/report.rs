//! Descriptive parts of the simulation report.
use vstd::prelude::*;

verus! {

/// Metadata for a simulation run.
#[derive(Debug, Clone)]
pub struct RunMetadata {
    pub radia_rs_version: String,
    pub timestamp: String,
    pub os: String,
    pub input_file_hash: String,
}

impl Default for RunMetadata {
    fn default() -> (r: Self)
        ensures
            r.radia_rs_version@ == Seq::<char>::empty(),
            r.timestamp@ == Seq::<char>::empty(),
            r.os@ == Seq::<char>::empty(),
            r.input_file_hash@ == Seq::<char>::empty(),
    {
        RunMetadata {
            radia_rs_version: String::new(),
            timestamp: String::new(),
            os: String::new(),
            input_file_hash: String::new(),
        }
    }
}

/// Summary of the physics data used in the calculation.
#[derive(Debug, Clone)]
pub struct PhysicsSummary {
    pub cross_section_library: String,
    pub buildup_library: String,
    pub conversion_factors: String,
}

impl Default for PhysicsSummary {
    fn default() -> (r: Self)
        ensures
            r.cross_section_library@ == Seq::<char>::empty(),
            r.buildup_library@ == Seq::<char>::empty(),
            r.conversion_factors@ == Seq::<char>::empty(),
    {
        PhysicsSummary {
            cross_section_library: String::new(),
            buildup_library: String::new(),
            conversion_factors: String::new(),
        }
    }
}

} // verus!
