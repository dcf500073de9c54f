//! The units of work of one update: each step names what is to be computed,
//! for which particle and, where two particles interact, with which neighbour.

use vstd::prelude::*;

verus! {

/// The three passes of an update, in the order in which they run.
#[derive(Clone, Copy, Debug, PartialEq, Eq, Structural)]
pub enum Pass {
    /// Densities are summed over all pairs and pressures derived from them.
    DensityPressure,
    /// Pressure and viscosity forces are summed over all pairs of distinct
    /// particles, and gravity is added.
    Forces,
    /// Velocities and positions move forward in time and are held inside the
    /// domain.
    Integrate,
}

/// One unit of work of an update.
#[derive(Clone, Copy, Debug, PartialEq, Eq, Structural)]
pub enum Step {
    /// Set the density of `particle` to zero.
    ClearDensity { particle: usize },
    /// Add to the density of `particle` what `neighbour` contributes, if the
    /// two are within the kernel radius. A particle is its own neighbour here.
    Density { particle: usize, neighbour: usize },
    /// Derive the pressure of `particle` from its density.
    Pressure { particle: usize },
    /// Set the pressure and viscosity sums of `particle` to zero.
    ClearForce { particle: usize },
    /// Add to the pressure and viscosity sums of `particle` what `neighbour`
    /// contributes, if the two are within the kernel radius.
    Force { particle: usize, neighbour: usize },
    /// Set the force on `particle` to its pressure and viscosity sums plus
    /// gravity.
    Resultant { particle: usize },
    /// Integrate `particle` over one time step and apply the boundaries.
    Integrate { particle: usize },
}

impl Pass {
    /// The place of the pass in an update, counted from zero.
    pub open spec fn rank(self) -> int {
        match self {
            Pass::DensityPressure => 0,
            Pass::Forces => 1,
            Pass::Integrate => 2,
        }
    }
}

impl Step {
    /// The pass that the step is part of.
    pub open spec fn spec_pass(self) -> Pass {
        match self {
            Step::ClearDensity { .. } | Step::Density { .. } | Step::Pressure { .. } => {
                Pass::DensityPressure
            },
            Step::ClearForce { .. } | Step::Force { .. } | Step::Resultant { .. } => Pass::Forces,
            Step::Integrate { .. } => Pass::Integrate,
        }
    }

    /// The particle whose state the step writes.
    pub open spec fn spec_particle(self) -> usize {
        match self {
            Step::ClearDensity { particle } => particle,
            Step::Density { particle, .. } => particle,
            Step::Pressure { particle } => particle,
            Step::ClearForce { particle } => particle,
            Step::Force { particle, .. } => particle,
            Step::Resultant { particle } => particle,
            Step::Integrate { particle } => particle,
        }
    }

    /// The pass that the step is part of.
    #[verifier::when_used_as_spec(spec_pass)]
    pub fn pass(self) -> (pass: Pass)
        ensures
            pass == self.spec_pass(),
    {
        match self {
            Step::ClearDensity { .. } => Pass::DensityPressure,
            Step::Density { .. } => Pass::DensityPressure,
            Step::Pressure { .. } => Pass::DensityPressure,
            Step::ClearForce { .. } => Pass::Forces,
            Step::Force { .. } => Pass::Forces,
            Step::Resultant { .. } => Pass::Forces,
            Step::Integrate { .. } => Pass::Integrate,
        }
    }

    /// The particle whose state the step writes.
    #[verifier::when_used_as_spec(spec_particle)]
    pub fn particle(self) -> (particle: usize)
        ensures
            particle == self.spec_particle(),
    {
        match self {
            Step::ClearDensity { particle } => particle,
            Step::Density { particle, .. } => particle,
            Step::Pressure { particle } => particle,
            Step::ClearForce { particle } => particle,
            Step::Force { particle, .. } => particle,
            Step::Resultant { particle } => particle,
            Step::Integrate { particle } => particle,
        }
    }
}

} // verus!
