//! Configuration of template compilation, and the schedule by which the
//! rotation step is refined from level to level.

use vstd::prelude::*;
use vstd::arithmetic::power2::lemma2_to64;
use vstd::arithmetic::power2::lemma2_to64_rest;
use vstd::arithmetic::power2::lemma_pow2_pos;
use vstd::arithmetic::power2::lemma_pow2_strictly_increases;
use vstd::arithmetic::power2::lemma_pow2_unfold;
use vstd::arithmetic::power2::pow2;
use crate::error::CorrMatchError;
use crate::error::CorrMatchResult;
use crate::scalar::Scalar;

verus! {

/// Bits of the default coarse rotation step, 10 degrees.
pub const DEFAULT_COARSE_STEP_BITS: u32 = 0x4120_0000;

/// Bits of the default minimum rotation step, half a degree.
pub const DEFAULT_MIN_STEP_BITS: u32 = 0x3f00_0000;

/// Configuration for compiling template assets with rotation support.
#[derive(Clone, Copy, Debug)]
pub struct CompileConfig {
    /// Maximum pyramid levels to build.
    pub max_levels: usize,
    /// Rotation step in degrees at the coarsest level.
    pub coarse_step_deg: Scalar,
    /// Minimum rotation step in degrees across levels.
    pub min_step_deg: Scalar,
    /// Fill value used for out-of-bounds rotations.
    pub fill_value: u8,
    /// Precompute all rotations for the coarsest level.
    pub precompute_coarsest: bool,
}

/// Whether a rotation step is usable: finite and above zero.
pub open spec fn is_step(step: Scalar) -> bool {
    step.is_finite() && step.gt(Scalar { bits: 0 })
}

impl CompileConfig {
    /// Why the configuration is rejected; `None` where it is valid.
    pub open spec fn fault(self) -> Option<CorrMatchError> {
        if self.max_levels == 0 {
            Some(CorrMatchError::InvalidConfig { reason: "max_levels must be at least 1" })
        } else if !is_step(self.coarse_step_deg) {
            Some(
                CorrMatchError::InvalidConfig {
                    reason: "coarse_step_deg must be a positive finite value",
                },
            )
        } else if !is_step(self.min_step_deg) {
            Some(
                CorrMatchError::InvalidConfig {
                    reason: "min_step_deg must be a positive finite value",
                },
            )
        } else if self.min_step_deg.gt(self.coarse_step_deg) {
            Some(
                CorrMatchError::InvalidConfig {
                    reason: "min_step_deg must not exceed coarse_step_deg",
                },
            )
        } else {
            None
        }
    }

    /// Validates the configuration, returning an error if any parameter is invalid.
    pub fn validate(&self) -> (r: CorrMatchResult<()>)
        ensures
            match r {
                Ok(_) => self.fault() is None,
                Err(e) => self.fault() == Some(e),
            },
    {
        if self.max_levels == 0 {
            return Err(CorrMatchError::InvalidConfig { reason: "max_levels must be at least 1" });
        }
        if !self.coarse_step_deg.check_finite() || self.coarse_step_deg.less_eq(Scalar::zero()) {
            return Err(
                CorrMatchError::InvalidConfig {
                    reason: "coarse_step_deg must be a positive finite value",
                },
            );
        }
        if !self.min_step_deg.check_finite() || self.min_step_deg.less_eq(Scalar::zero()) {
            return Err(
                CorrMatchError::InvalidConfig {
                    reason: "min_step_deg must be a positive finite value",
                },
            );
        }
        if self.min_step_deg.greater(self.coarse_step_deg) {
            return Err(
                CorrMatchError::InvalidConfig {
                    reason: "min_step_deg must not exceed coarse_step_deg",
                },
            );
        }
        Ok(())
    }
}

impl Default for CompileConfig {
    fn default() -> (cfg: Self)
        ensures
            cfg.max_levels == 6,
            cfg.coarse_step_deg.bits == DEFAULT_COARSE_STEP_BITS,
            cfg.min_step_deg.bits == DEFAULT_MIN_STEP_BITS,
            cfg.fill_value == 0,
            cfg.precompute_coarsest,
            cfg.fault() is None,
    {
        Self {
            max_levels: 6,
            coarse_step_deg: Scalar::from_bits(DEFAULT_COARSE_STEP_BITS),
            min_step_deg: Scalar::from_bits(DEFAULT_MIN_STEP_BITS),
            fill_value: 0,
            precompute_coarsest: true,
        }
    }
}

/// By how much the coarse rotation step is divided at `level`: it is
/// halved once per level below the coarsest, so the divisor is 2 to the
/// number of levels between; a divisor beyond the machine word counts as the
/// largest one.
pub open spec fn step_divisor_of(coarsest: usize, level: usize) -> u64 {
    let halvings: nat = if level < coarsest {
        (coarsest - level) as nat
    } else {
        0
    };
    if halvings < 64 {
        pow2(halvings) as u64
    } else {
        u64::MAX
    }
}

/// Returns the divisor of the coarse rotation step at `level`.
pub fn step_divisor(coarsest: usize, level: usize) -> (d: u64)
    ensures
        d == step_divisor_of(coarsest, level),
        d >= 1,
{
    let halvings = coarsest.saturating_sub(level);
    proof {
        lemma2_to64();
        lemma2_to64_rest();
    }
    if halvings >= 64 {
        return u64::MAX;
    }
    let mut d: u64 = 1;
    let mut done: usize = 0;
    while done < halvings
        invariant
            done <= halvings < 64,
            d == pow2(done as nat),
            pow2(63) == 0x8000_0000_0000_0000,
        decreases halvings - done,
    {
        proof {
            lemma_pow2_unfold((done + 1) as nat);
            if done + 1 < 63 {
                lemma_pow2_strictly_increases((done + 1) as nat, 63);
            }
        }
        d = d * 2;
        done += 1;
    }
    proof {
        lemma_pow2_pos(halvings as nat);
    }
    d
}

/// Configuration for compiling template assets without rotation support.
#[derive(Clone, Copy, Debug)]
pub struct CompileConfigNoRot {
    /// Maximum pyramid levels to build.
    pub max_levels: usize,
}

impl Default for CompileConfigNoRot {
    fn default() -> (cfg: Self)
        ensures
            cfg.max_levels == 6,
    {
        Self { max_levels: 6 }
    }
}

} // verus!
