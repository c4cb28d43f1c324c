//! The reading a task loop's design holds: which invariant the gains keep, and what each reading asks
//! of the loop.

use vstd::prelude::*;

verus! {

/// Which invariant the design holds: Poles = plane space with the inertia metric (wn, zeta),
/// Physical = plane space unshaped (K, D), Joint = joint space (wn^2).
#[derive(Clone, Copy, Debug, PartialEq, Eq, Structural)]
pub enum GainMode {
    Poles,
    Physical,
    Joint,
}

impl Default for GainMode {
    /// The shipped reading is the poles one.
    fn default() -> (mode: GainMode)
        ensures
            mode == GainMode::Poles,
    {
        GainMode::Poles
    }
}

impl GainMode {
    /// Whether a plane's stiffness and damping come from the design tuple (wn, zeta) rather than from
    /// the physical (K, D) given with the loop: the poles and joint readings derive them.
    pub fn derives_from_design(&self) -> (b: bool)
        ensures
            b == (*self == GainMode::Poles || *self == GainMode::Joint),
    {
        match self {
            GainMode::Poles => true,
            GainMode::Physical => false,
            GainMode::Joint => true,
        }
    }

    /// Whether the passivity guard acts: only the physical reading raises D to 2 sqrt(K M), and only
    /// when the guard is asked for.
    pub fn passivity_applies(&self, passivity: bool) -> (b: bool)
        ensures
            b == (passivity && *self == GainMode::Physical),
    {
        passivity && match self {
            GainMode::Physical => true,
            _ => false,
        }
    }

    /// Whether a tick needs the task-space metric Lambda = (J M^-1 J^T)^-1: the poles reading shapes
    /// the force with it, and the passivity guard reads the per-plane masses from it.
    pub fn needs_metric(&self, passivity: bool) -> (b: bool)
        ensures
            b == (*self == GainMode::Poles || (passivity && *self == GainMode::Physical)),
    {
        match self {
            GainMode::Poles => true,
            _ => self.passivity_applies(passivity),
        }
    }
}

} // verus!
