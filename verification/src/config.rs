//! Process-wide configuration, validated once at construction and read-only
//! afterwards. Scalars are fixed-point (see `crate::fixed`).

use vstd::prelude::*;
use crate::fixed::{LIM, SCALE};

verus! {

/// Why a configuration was rejected at construction.
#[derive(Clone, Copy, PartialEq, Eq, Structural, Debug)]
pub enum ConfigError {
    NegativeStiffness,
    NegativeMaxForce,
    NegativeDrag,
    NonPositiveCount,
    NonPositiveSide,
    SideBoundsOutOfOrder,
    NonPositiveRadius,
    OutOfRange,
}

/// Parameters of the repulsion force model.
#[derive(Clone, Copy, PartialEq, Eq, Structural, Debug)]
pub struct SeparationCfg {
    /// Scales mean penetration depth into acceleration magnitude.
    pub stiffness: i64,
    /// Hard cap on acceleration magnitude.
    pub max_force: i64,
    /// Per-second linear damping coefficient.
    pub drag: i64,
}

impl SeparationCfg {
    pub open spec fn wf(self) -> bool {
        &&& 0 <= self.stiffness <= LIM
        &&& 0 <= self.max_force <= LIM
        &&& 0 <= self.drag <= LIM
    }

    /// Validated constructor: rejects negative force-model parameters and
    /// scalars beyond the representable coordinate range.
    pub fn new(stiffness: i64, max_force: i64, drag: i64) -> (r: Result<SeparationCfg, ConfigError>)
        ensures
            stiffness < 0 <==> r == Result::<SeparationCfg, ConfigError>::Err(ConfigError::NegativeStiffness),
            stiffness >= 0 && max_force < 0 <==> r == Result::<SeparationCfg, ConfigError>::Err(ConfigError::NegativeMaxForce),
            stiffness >= 0 && max_force >= 0 && drag < 0 <==> r == Result::<SeparationCfg, ConfigError>::Err(ConfigError::NegativeDrag),
            stiffness >= 0 && max_force >= 0 && drag >= 0 && (stiffness > LIM || max_force > LIM || drag > LIM)
                <==> r == Result::<SeparationCfg, ConfigError>::Err(ConfigError::OutOfRange),
            r is Ok <==> (0 <= stiffness <= LIM && 0 <= max_force <= LIM && 0 <= drag <= LIM),
            r is Ok ==> (r->Ok_0 == SeparationCfg { stiffness, max_force, drag } && r->Ok_0.wf()),
    {
        if stiffness < 0 {
            Result::Err(ConfigError::NegativeStiffness)
        } else if max_force < 0 {
            Result::Err(ConfigError::NegativeMaxForce)
        } else if drag < 0 {
            Result::Err(ConfigError::NegativeDrag)
        } else if stiffness > LIM || max_force > LIM || drag > LIM {
            Result::Err(ConfigError::OutOfRange)
        } else {
            Result::Ok(SeparationCfg { stiffness, max_force, drag })
        }
    }
}

impl Default for SeparationCfg {
    /// Stiffness 100, maximum force 300, drag 3.5 per second, in fixed point.
    fn default() -> (r: SeparationCfg)
        ensures
            r.stiffness == 100 * SCALE,
            r.max_force == 300 * SCALE,
            r.drag == 7 * SCALE / 2,
            r.wf(),
    {
        SeparationCfg { stiffness: 100 * SCALE, max_force: 300 * SCALE, drag: 7 * SCALE / 2 }
    }
}

/// Parameters of the one-shot spawn pass.
#[derive(Clone, Copy, PartialEq, Eq, Structural, Debug)]
pub struct SpawnCfg {
    /// How many rooms to spawn.
    pub count: usize,
    /// Smallest side length a room may get, exclusive lower bound zero.
    pub min_side: i64,
    /// Largest side length a room may get.
    pub max_side: i64,
    /// Radius of the spawn disk around the origin.
    pub radius: i64,
}

impl SpawnCfg {
    pub open spec fn wf(self) -> bool {
        &&& self.count > 0
        &&& 0 < self.min_side <= self.max_side <= LIM
        &&& 0 < self.radius <= LIM
    }

    /// Validated constructor: rejects a zero room count, non-positive or
    /// out-of-order side bounds, and a non-positive disk radius.
    pub fn new(count: usize, min_side: i64, max_side: i64, radius: i64) -> (r: Result<SpawnCfg, ConfigError>)
        ensures
            count == 0 <==> r == Result::<SpawnCfg, ConfigError>::Err(ConfigError::NonPositiveCount),
            count > 0 && min_side <= 0 <==> r == Result::<SpawnCfg, ConfigError>::Err(ConfigError::NonPositiveSide),
            count > 0 && min_side > 0 && min_side > max_side
                <==> r == Result::<SpawnCfg, ConfigError>::Err(ConfigError::SideBoundsOutOfOrder),
            count > 0 && 0 < min_side <= max_side && radius <= 0
                <==> r == Result::<SpawnCfg, ConfigError>::Err(ConfigError::NonPositiveRadius),
            count > 0 && 0 < min_side <= max_side && radius > 0 && (max_side > LIM || radius > LIM)
                <==> r == Result::<SpawnCfg, ConfigError>::Err(ConfigError::OutOfRange),
            r is Ok <==> (count > 0 && 0 < min_side <= max_side <= LIM && 0 < radius <= LIM),
            r is Ok ==> (r->Ok_0 == SpawnCfg { count, min_side, max_side, radius } && r->Ok_0.wf()),
    {
        if count == 0 {
            Result::Err(ConfigError::NonPositiveCount)
        } else if min_side <= 0 {
            Result::Err(ConfigError::NonPositiveSide)
        } else if min_side > max_side {
            Result::Err(ConfigError::SideBoundsOutOfOrder)
        } else if radius <= 0 {
            Result::Err(ConfigError::NonPositiveRadius)
        } else if max_side > LIM || radius > LIM {
            Result::Err(ConfigError::OutOfRange)
        } else {
            Result::Ok(SpawnCfg { count, min_side, max_side, radius })
        }
    }
}

} // verus!
