//! Configuration of a simulation run and its validation.

use crate::frame::Viewport;
use vstd::prelude::*;

verus! {

/// Largest grid width or height. Keeping coordinates below `2^31` lets every
/// vector between two cells fit in a pair of `i32`.
pub const MAX_DIMENSION: usize = 2147483647;

/// Fixed-point representation of a pheromone intensity of 1.0.
pub const FULL_INTENSITY: u64 = 1_000_000_000;

/// The customary decay factor, 0.995 per tick, in thousandths.
pub const DECAY_PER_MILLE: u64 = 995;

/// The customary decay threshold, 0.01 of `FULL_INTENSITY`.
pub const DECAY_THRESHOLD: u64 = 10_000_000;

/// The customary trail threshold, 0.1 of `FULL_INTENSITY`.
pub const TRAIL_THRESHOLD: u64 = 100_000_000;

/// Why a configuration was rejected.
#[derive(Clone, Copy, Debug, PartialEq, Eq, Structural)]
pub enum ConfigError {
    /// The grid has no columns or no rows.
    ZeroDimension,
    /// The grid is wider or taller than `MAX_DIMENSION`.
    DimensionTooLarge,
    /// A pixel scale factor is zero.
    ZeroScale,
    /// Width, height or byte length of the pixel frame do not fit in `usize`.
    FrameTooLarge,
    /// The clump count is zero, so the food cannot be divided among clumps.
    ZeroClumpCount,
    /// The padding leaves no cell between the margins.
    PaddingTooLarge,
    /// The clump radius exceeds `MAX_DIMENSION`.
    ClumpRadiusTooLarge,
    /// The nest lies outside the grid.
    NestOutOfBounds,
    /// The decay factor exceeds one.
    DecayFactorTooLarge,
}

/// The named numeric options of a simulation.
#[derive(Clone, Copy, Debug, PartialEq, Eq)]
pub struct Config {
    /// Grid width in cells.
    pub width: usize,
    /// Grid height in cells.
    pub height: usize,
    /// Pixels per cell, horizontally.
    pub scale_x: usize,
    /// Pixels per cell, vertically.
    pub scale_y: usize,
    /// Number of ants, all spawned at the nest.
    pub ant_count: usize,
    /// Number of food clumps.
    pub clump_count: usize,
    /// Total food; each clump receives `food_count / clump_count` items.
    pub food_count: usize,
    /// Largest offset of a food item from its clump center, per axis.
    pub clump_radius: usize,
    /// Margin kept free of food along every edge of the grid.
    pub padding: usize,
    /// The nest cell.
    pub nest_position: (usize, usize),
    /// Decay factor per tick, in thousandths.
    pub decay_per_mille: u64,
    /// Intensity at or below which a decayed pheromone is cleared.
    pub decay_threshold: u64,
    /// Intensity a neighboring pheromone must exceed to be followed.
    pub trail_threshold: u64,
}

impl Config {
    /// The geometry of the frame that shows the grid.
    pub open spec fn viewport(&self) -> Viewport {
        Viewport {
            columns: self.width,
            rows: self.height,
            scale_x: self.scale_x,
            scale_y: self.scale_y,
        }
    }

    /// The first defect of the configuration, in the order in which
    /// `validate` reports them, or `None` for a valid configuration.
    pub open spec fn first_error(&self) -> Option<ConfigError> {
        if self.width == 0 || self.height == 0 {
            Some(ConfigError::ZeroDimension)
        } else if self.width > MAX_DIMENSION || self.height > MAX_DIMENSION {
            Some(ConfigError::DimensionTooLarge)
        } else if self.scale_x == 0 || self.scale_y == 0 {
            Some(ConfigError::ZeroScale)
        } else if !self.viewport().wf() {
            Some(ConfigError::FrameTooLarge)
        } else if self.clump_count == 0 {
            Some(ConfigError::ZeroClumpCount)
        } else if 2 * self.padding >= self.width || 2 * self.padding >= self.height {
            Some(ConfigError::PaddingTooLarge)
        } else if self.clump_radius > MAX_DIMENSION {
            Some(ConfigError::ClumpRadiusTooLarge)
        } else if self.nest_position.0 >= self.width || self.nest_position.1 >= self.height {
            Some(ConfigError::NestOutOfBounds)
        } else if self.decay_per_mille > 1000 {
            Some(ConfigError::DecayFactorTooLarge)
        } else {
            None
        }
    }

    /// A configuration is valid when it has no defect.
    pub open spec fn valid(&self) -> bool {
        self.first_error() is None
    }

    /// Number of food items placed around each clump center.
    pub open spec fn food_per_clump(&self) -> int
        recommends
            self.clump_count > 0,
    {
        self.food_count as int / self.clump_count as int
    }

    /// Checks the configuration once, before anything is built from it.
    pub fn validate(&self) -> (r: Result<(), ConfigError>)
        ensures
            match r {
                Ok(()) => self.first_error() is None,
                Err(e) => self.first_error() == Some(e),
            },
    {
        if self.width == 0 || self.height == 0 {
            return Err(ConfigError::ZeroDimension);
        }
        if self.width > MAX_DIMENSION || self.height > MAX_DIMENSION {
            return Err(ConfigError::DimensionTooLarge);
        }
        if self.scale_x == 0 || self.scale_y == 0 {
            return Err(ConfigError::ZeroScale);
        }
        if Viewport::new(self.width, self.height, self.scale_x, self.scale_y).is_none() {
            return Err(ConfigError::FrameTooLarge);
        }
        if self.clump_count == 0 {
            return Err(ConfigError::ZeroClumpCount);
        }
        if self.padding >= self.width || self.padding >= self.width - self.padding
            || self.padding >= self.height || self.padding >= self.height - self.padding {
            return Err(ConfigError::PaddingTooLarge);
        }
        if self.clump_radius > MAX_DIMENSION {
            return Err(ConfigError::ClumpRadiusTooLarge);
        }
        if self.nest_position.0 >= self.width || self.nest_position.1 >= self.height {
            return Err(ConfigError::NestOutOfBounds);
        }
        if self.decay_per_mille > 1000 {
            return Err(ConfigError::DecayFactorTooLarge);
        }
        Ok(())
    }
}

} // verus!
