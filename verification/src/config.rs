//! Generation configuration and hard-failure kinds.

use vstd::prelude::*;

verus! {

/// How coordinates behave at the horizontal map boundary: a flat map clamps,
/// a cylindrical map wraps in x. The vertical boundary always clamps.
#[derive(Clone, Copy, Debug, PartialEq, Eq, Structural)]
pub enum MapShape {
    Flat,
    Cylindrical,
}

/// Hard failures of a generation run. Soft conditions (a dried-up river
/// candidate, an under-resourced region) are warnings in the report instead.
#[derive(Clone, Copy, Debug, PartialEq, Eq, Structural)]
pub enum GenerationError {
    /// The configuration was rejected up front (zero dimension, a fraction
    /// outside [0, 1000], or a dimension over `MAX_DIM`).
    InvalidConfig,
    /// Even after every sea-level retreat the land fraction stayed below the
    /// configured minimum.
    InsufficientLandmass,
    /// There was no land at all to partition into regions.
    NoValidRegions,
}

/// Largest accepted width or height of a map. This bound is the library's
/// own stated limit, not a rule of the generation pipeline itself: it keeps
/// every index, land-fraction and noise computation comfortably within the
/// machine integer ranges the proofs work in.
pub const MAX_DIM: u32 = 512;

/// Denominator of all per-mille fractions in the configuration.
pub const FRACTION_ONE: u32 = 1000;

/// Immutable parameters of one generation run. Fractions (`sea_level`,
/// `min_land_fraction`, `resource_density`) are per-mille: 0 stands for 0.0
/// and 1000 for 1.0.
#[derive(Clone, Copy, Debug, PartialEq, Eq, Structural)]
pub struct GenerationConfig {
    /// Seed of every pseudo-random draw of the run.
    pub seed: u64,
    /// Tiles per row; rows are laid out row-major, index = y * width + x.
    pub width: u32,
    /// Number of rows.
    pub height: u32,
    /// Boundary behaviour of the horizontal axis.
    pub shape: MapShape,
    /// Initial sea level as a per-mille fraction of the elevation range.
    pub sea_level: u32,
    /// Least acceptable fraction of land tiles, per-mille.
    pub min_land_fraction: u32,
    /// Region count the partitioner merges toward.
    pub target_region_count: u32,
    /// How many wonder kinds placement attempts, in the fixed kind order.
    pub wonder_count: u32,
    /// Resource targets per region as a per-mille fraction of region size.
    pub resource_density: u32,
    /// When false the river stage is skipped and the map has no rivers.
    pub rivers_enabled: bool,
    /// When false the wonder stage is skipped and the map has no wonders.
    pub wonders_enabled: bool,
    /// When false the resource stage is skipped and the map has no resources.
    pub resources_enabled: bool,
}

impl GenerationConfig {
    /// What `validate` accepts: positive dimensions within `MAX_DIM` and all
    /// per-mille fractions within [0, 1000].
    pub open spec fn valid(self) -> bool {
        &&& 1 <= self.width <= MAX_DIM
        &&& 1 <= self.height <= MAX_DIM
        &&& self.sea_level <= FRACTION_ONE
        &&& self.min_land_fraction <= FRACTION_ONE
        &&& self.resource_density <= FRACTION_ONE
    }

    /// Number of tiles of the run's grid.
    pub open spec fn tile_count(self) -> int {
        self.width * self.height
    }

    /// Up-front configuration check; no stage runs on a rejected config.
    pub fn validate(&self) -> (r: Result<(), GenerationError>)
        ensures
            r is Ok <==> self.valid(),
            r is Err ==> r == Err::<(), GenerationError>(GenerationError::InvalidConfig),
    {
        if self.width >= 1 && self.width <= MAX_DIM && self.height >= 1 && self.height <= MAX_DIM
            && self.sea_level <= FRACTION_ONE && self.min_land_fraction <= FRACTION_ONE
            && self.resource_density <= FRACTION_ONE {
            Ok(())
        } else {
            Err(GenerationError::InvalidConfig)
        }
    }

    /// A configuration with the default balance: sea level 0.5, at least 30%
    /// land, six regions, four wonder kinds, resource density 0.2, every
    /// stage enabled, on a flat map.
    pub fn standard(seed: u64, width: u32, height: u32) -> (r: GenerationConfig)
        ensures
            r.seed == seed,
            r.width == width,
            r.height == height,
            r.shape == MapShape::Flat,
            r.sea_level == 500,
            r.min_land_fraction == 300,
            r.target_region_count == 6,
            r.wonder_count == 4,
            r.resource_density == 200,
            r.rivers_enabled && r.wonders_enabled && r.resources_enabled,
    {
        GenerationConfig {
            seed,
            width,
            height,
            shape: MapShape::Flat,
            sea_level: 500,
            min_land_fraction: 300,
            target_region_count: 6,
            wonder_count: 4,
            resource_density: 200,
            rivers_enabled: true,
            wonders_enabled: true,
            resources_enabled: true,
        }
    }
}

} // verus!
