//! The map generator: runs the stages in their fixed order — elevation,
//! landmass, regions, rivers, wonders, resources — over one shared grid and
//! one shared randomness provider, and returns the finished map with its
//! report, or the first hard failure. No partial map is ever returned.
//! Soft conditions (a dry river source, a skipped wonder kind, an
//! under-resourced region) become warnings in the report.

use vstd::prelude::*;
use crate::config::{GenerationConfig, GenerationError};
use crate::grid::{Grid, River, WonderKind, is_land_tile, Tile};
use crate::noise::{NoiseField, spec_perm};
use crate::elevation::spec_elevation;
use crate::rng::RandomnessProvider;
use crate::elevation::ElevationGenerator;
use crate::landmass::{LandmassGenerator, land_tile_count, land_count_upto, lemma_land_counts_match, spec_first_ok, spec_terrain, spec_threshold};
use crate::regions::RegionPartitioner;
use crate::rivers::{RiverGenerator, river_path_valid};
use crate::wonders::NaturalWonderPlacer;
use crate::resources::{ResourcePlacer, resources_compatible, region_has_strategic};

verus! {

/// A soft condition recorded alongside a successful run.
#[derive(Clone, Copy, Debug, PartialEq, Eq, Structural)]
pub enum Warning {
    /// A river source had no downhill path and was skipped.
    RiverSourceSkipped { source: u32 },
    /// A wonder kind found no suitable tile and was skipped.
    WonderSkipped { kind: WonderKind },
    /// A region ended without a strategic resource.
    RegionUnderResourced { region: u32 },
}

/// The soft-condition log of a successful run.
#[derive(Debug, PartialEq, Eq)]
pub struct GenerationReport {
    /// Warnings in the order the stages raised them.
    pub warnings: Vec<Warning>,
}

/// A finished map: the grid, the routed rivers, the region count and the
/// report of soft conditions.
#[derive(Debug, PartialEq, Eq)]
pub struct GeneratedMap {
    /// The tile grid with every stage's fields filled in.
    pub grid: Grid,
    /// The routed rivers, each non-increasing in elevation.
    pub rivers: Vec<River>,
    /// Number of regions the land was partitioned into.
    pub region_count: u32,
    /// Soft conditions of the run.
    pub report: GenerationReport,
}

/// Terrain-preserving changes keep the land count.
proof fn lemma_land_count_same_terrain(s1: Seq<Tile>, s2: Seq<Tile>, n: int)
    requires
        s1.len() == s2.len(),
        forall|k: int| 0 <= k < s1.len() ==> (#[trigger] s2[k]).terrain == s1[k].terrain,
        n <= s1.len(),
    ensures
        land_tile_count(s2, n) == land_tile_count(s1, n),
    decreases n,
{
    if n > 0 {
        lemma_land_count_same_terrain(s1, s2, n - 1);
        assert(is_land_tile(s2[n - 1]) == is_land_tile(s1[n - 1]));
    }
}

/// The grid as the elevation stage leaves it for this configuration: each
/// tile carries its smoothed noise elevation and nothing else. Both the
/// terrain classification and the landmass failure condition are functions
/// of this sequence alone, which is itself a function of the
/// configuration: a fixed seed fixes the map.
pub open spec fn spec_elevation_grid(c: GenerationConfig) -> Seq<Tile> {
    Seq::new(
        (c.width * c.height) as nat,
        |i: int|
            Tile {
                elevation: spec_elevation(
                    spec_perm(c.seed),
                    c.shape,
                    c.width as int,
                    c.height as int,
                    i,
                ) as u32,
                terrain: None,
                resource: None,
                resource_quantity: 0,
                has_river: false,
                region: None,
                wonder: None,
            },
    )
}

/// The water threshold this configuration settles on: the first sea-level
/// retreat that meets the minimum land fraction.
pub open spec fn spec_settled_threshold(c: GenerationConfig) -> int {
    spec_threshold(
        2 * c.sea_level,
        spec_first_ok(
            spec_elevation_grid(c),
            2 * c.sea_level,
            c.min_land_fraction as int,
            0,
        ),
    )
}

/// Every region either holds a strategic resource or is named in the
/// warnings as under-resourced.
pub open spec fn strategic_covered(s: Seq<Tile>, warnings: Seq<Warning>, count: u32) -> bool {
    forall|id: u32|
        id < count ==> region_has_strategic(s, id) || exists|z: int|
            0 <= z < warnings.len() && warnings[z] == (Warning::RegionUnderResourced {
                region: id,
            })
}

/// Determinism of the height field: any two grids whose elevations are
/// pinned to the same configuration's noise — as every grid this generator
/// returns is — agree on every tile's elevation. Regeneration from a
/// stored seed therefore reproduces the terrain heights exactly.
pub proof fn lemma_height_field_deterministic(c: GenerationConfig, s1: Seq<Tile>, s2: Seq<Tile>)
    requires
        s1.len() == s2.len(),
        forall|i: int|
            0 <= i < s1.len() ==> (#[trigger] s1[i]).elevation == spec_elevation(
                spec_perm(c.seed),
                c.shape,
                c.width as int,
                c.height as int,
                i,
            ),
        forall|i: int|
            0 <= i < s2.len() ==> (#[trigger] s2[i]).elevation == spec_elevation(
                spec_perm(c.seed),
                c.shape,
                c.width as int,
                c.height as int,
                i,
            ),
    ensures
        forall|i: int| 0 <= i < s1.len() ==> (#[trigger] s1[i]).elevation == s2[i].elevation,
{
}

/// Determinism of the classification: any two grids whose terrain is
/// pinned to the same configuration's settled threshold — as every grid
/// this generator returns is — agree on every tile's terrain.
pub proof fn lemma_terrain_deterministic(c: GenerationConfig, s1: Seq<Tile>, s2: Seq<Tile>)
    requires
        s1.len() == s2.len(),
        forall|i: int|
            0 <= i < s1.len() ==> (#[trigger] s1[i]).terrain == Some(
                spec_terrain(
                    spec_elevation_grid(c),
                    c.shape,
                    c.width as int,
                    c.height as int,
                    i,
                    spec_settled_threshold(c),
                ),
            ),
        forall|i: int|
            0 <= i < s2.len() ==> (#[trigger] s2[i]).terrain == Some(
                spec_terrain(
                    spec_elevation_grid(c),
                    c.shape,
                    c.width as int,
                    c.height as int,
                    i,
                    spec_settled_threshold(c),
                ),
            ),
    ensures
        forall|i: int| 0 <= i < s1.len() ==> (#[trigger] s1[i]).terrain == s2[i].terrain,
{
}

/// The orchestrator.
pub struct MapGenerator;

impl MapGenerator {
    /// Generates a map from the configuration: validates it up front, then
    /// runs every stage in the fixed order. On success the grid is fully
    /// classified, holds at least the configured land fraction, its rivers
    /// are non-increasing, exactly its land tiles carry region ids below
    /// the returned count, every resource suits its terrain, and every
    /// region either holds a strategic resource or is named in the report.
    #[verifier::rlimit(100)]
    pub fn generate(config: &GenerationConfig) -> (r: Result<GeneratedMap, GenerationError>)
        ensures
            r == Err::<GeneratedMap, GenerationError>(GenerationError::InvalidConfig)
                <==> !config.valid(),
            r == Err::<GeneratedMap, GenerationError>(GenerationError::InsufficientLandmass)
                <==> config.valid() && spec_first_ok(
                spec_elevation_grid(*config),
                2 * config.sea_level,
                config.min_land_fraction as int,
                0,
            ) > 20,
            r == Err::<GeneratedMap, GenerationError>(GenerationError::NoValidRegions) <==> {
                &&& config.valid()
                &&& spec_first_ok(
                    spec_elevation_grid(*config),
                    2 * config.sea_level,
                    config.min_land_fraction as int,
                    0,
                ) <= 20
                &&& land_count_upto(
                    spec_elevation_grid(*config),
                    spec_settled_threshold(*config),
                    (config.width * config.height) as int,
                ) == 0
            },
            r == Err::<GeneratedMap, GenerationError>(GenerationError::NoValidRegions)
                ==> config.min_land_fraction == 0,
            r matches Ok(m) ==> {
                &&& m.grid.wf()
                &&& m.grid.spec_width() == config.width
                &&& m.grid.spec_height() == config.height
                &&& m.grid.spec_shape() == config.shape
                &&& m.grid@.len() == config.width * config.height
                &&& forall|i: int| 0 <= i < m.grid@.len() ==> (#[trigger] m.grid@[i].terrain) is Some
                &&& forall|i: int|
                    0 <= i < m.grid@.len() ==> (#[trigger] m.grid@[i]).terrain == Some(
                        spec_terrain(
                            spec_elevation_grid(*config),
                            config.shape,
                            config.width as int,
                            config.height as int,
                            i,
                            spec_settled_threshold(*config),
                        ),
                    )
                &&& forall|i: int|
                    0 <= i < m.grid@.len() ==> (#[trigger] m.grid@[i]).elevation == spec_elevation(
                        spec_perm(config.seed),
                        config.shape,
                        config.width as int,
                        config.height as int,
                        i,
                    )
                &&& land_tile_count(m.grid@, m.grid@.len() as int) * 1000
                    >= config.min_land_fraction * m.grid@.len()
                &&& forall|q: int|
                    0 <= q < m.rivers@.len() ==> river_path_valid(
                        m.grid@,
                        (#[trigger] m.rivers@[q]).tiles@,
                    )
                &&& (!config.rivers_enabled ==> m.rivers@.len() == 0)
                &&& (!config.rivers_enabled ==> forall|i: int|
                    0 <= i < m.grid@.len() ==> !(#[trigger] m.grid@[i]).has_river)
                &&& (!config.wonders_enabled ==> forall|i: int|
                    0 <= i < m.grid@.len() ==> (#[trigger] m.grid@[i]).wonder is None)
                &&& (!config.resources_enabled ==> forall|i: int|
                    0 <= i < m.grid@.len() ==> (#[trigger] m.grid@[i]).resource is None)
                &&& m.region_count >= 1
                &&& forall|i: int|
                    0 <= i < m.grid@.len() ==> (is_land_tile(#[trigger] m.grid@[i]) <==> m.grid@[
                        i
                    ].region is Some)
                &&& forall|i: int|
                    0 <= i < m.grid@.len() ==> match (#[trigger] m.grid@[i]).region {
                        Some(id) => id < m.region_count,
                        None => true,
                    }
                &&& resources_compatible(m.grid@)
                &&& (config.resources_enabled ==> strategic_covered(
                    m.grid@,
                    m.report.warnings@,
                    m.region_count,
                ))
            },
    {
        if let Err(e) = config.validate() {
            return Err(e);
        }

        let noise = NoiseField::new(config.seed);
        let mut rng = RandomnessProvider::new(config.seed);
        let mut grid = Grid::new(config.width, config.height, config.shape);
        let mut warnings: Vec<Warning> = Vec::new();

        // Elevation, then landmass classification.
        let ghost g0 = grid@;
        ElevationGenerator::run(&mut grid, &noise);
        let ghost g1 = grid@;
        proof {
            assert(spec_elevation_grid(*config).len() == g1.len());
            assert forall|i: int| 0 <= i < g1.len() implies g1[i] == spec_elevation_grid(
                *config,
            )[i] by {
                assert(g1[i].elevation == spec_elevation(
                    spec_perm(config.seed),
                    config.shape,
                    config.width as int,
                    config.height as int,
                    i,
                ));
                assert(g0[i] == Tile::spec_unset());
                assert(crate::elevation::same_but_elevation(g0[i], g1[i]));
                let m = spec_elevation_grid(*config)[i];
                assert(m.elevation == spec_elevation(
                    spec_perm(config.seed),
                    config.shape,
                    config.width as int,
                    config.height as int,
                    i,
                ) as u32);
                assert(g1[i].elevation as int as u32 == g1[i].elevation);
                assert(m.elevation == g1[i].elevation);
                assert(m.terrain == g1[i].terrain);
                assert(m.resource == g1[i].resource);
                assert(m.resource_quantity == g1[i].resource_quantity);
                assert(m.has_river == g1[i].has_river);
                assert(m.region == g1[i].region);
                assert(m.wonder == g1[i].wonder);
            }
            assert(g1 =~= spec_elevation_grid(*config));
        }
        if let Err(e) = LandmassGenerator::run(
            &mut grid,
            config.sea_level,
            config.min_land_fraction,
        ) {
            return Err(e);
        }
        let ghost g2 = grid@;

        // Regions.
        proof {
            assert forall|k: int| 0 <= k < grid@.len() implies (#[trigger] grid@[k].region)
                is None by {
                assert(crate::landmass::same_but_terrain(g1[k], grid@[k]));
                assert(crate::elevation::same_but_elevation(
                    Tile::spec_unset(),
                    g1[k],
                ));
            }
        }
        proof {
            lemma_land_counts_match(
                g1,
                g2,
                config.shape,
                config.width as int,
                config.height as int,
                spec_settled_threshold(*config),
                g2.len() as int,
            );
        }
        let region_count = match RegionPartitioner::run(&mut grid, config.target_region_count) {
            Ok(n) => n,
            Err(e) => {
                proof {
                    if config.min_land_fraction >= 1 {
                        assert(land_tile_count(g2, g2.len() as int) * 1000 >= config
                            .min_land_fraction * g2.len());
                        assert(g2.len() >= 1) by (nonlinear_arith)
                            requires
                                g2.len() == config.width * config.height,
                                config.width >= 1,
                                config.height >= 1,
                        ;
                        assert(config.min_land_fraction * g2.len() >= g2.len())
                            by (nonlinear_arith)
                            requires
                                config.min_land_fraction >= 1,
                                g2.len() >= 1,
                        ;
                        assert(land_tile_count(g2, g2.len() as int) > 0);
                    }
                }
                return Err(e);
            },
        };
        let ghost g3 = grid@;
        proof {
            assert forall|k: int| 0 <= k < g3.len() implies (!(#[trigger] g3[k]).has_river && g3[
                k
            ].wonder is None && g3[k].resource is None) by {
                assert(crate::regions::same_but_region(g2[k], g3[k]));
                assert(crate::landmass::same_but_terrain(g1[k], g2[k]));
                assert(g0[k] == Tile::spec_unset());
                assert(crate::elevation::same_but_elevation(g0[k], g1[k]));
            }
        }

        // Rivers.
        let mut rivers: Vec<River> = Vec::new();
        if config.rivers_enabled {
            let (rv, dry) = RiverGenerator::run(&mut grid);
            rivers = rv;
            let mut z: usize = 0;
            while z < dry.len()
                invariant
                    z <= dry@.len(),
                decreases dry@.len() - z,
            {
                warnings.push(Warning::RiverSourceSkipped { source: dry[z] });
                z = z + 1;
            }
        }
        let ghost g4 = grid@;

        // Wonders.
        if config.wonders_enabled {
            proof {
                assert forall|k: int| 0 <= k < grid@.len() implies (
                #[trigger] grid@[k].wonder) is None by {
                    if config.rivers_enabled {
                        assert(crate::rivers::same_but_river(g3[k], grid@[k]));
                    } else {
                        assert(grid@[k] == g3[k]);
                    }
                }
            }
            let (_placed, skipped) = NaturalWonderPlacer::run(&mut grid, config.wonder_count);
            let mut z: usize = 0;
            while z < skipped.len()
                invariant
                    z <= skipped@.len(),
                decreases skipped@.len() - z,
            {
                warnings.push(Warning::WonderSkipped { kind: skipped[z] });
                z = z + 1;
            }
        }
        let ghost g5 = grid@;

        // Resources.
        if config.resources_enabled {
            proof {
                assert forall|k: int| 0 <= k < grid@.len() implies (#[trigger] grid@[k].resource)
                    is None by {
                    if config.wonders_enabled {
                        assert(crate::wonders::same_but_wonder(g4[k], grid@[k]));
                    } else {
                        assert(grid@[k] == g4[k]);
                    }
                    if config.rivers_enabled {
                        assert(crate::rivers::same_but_river(g3[k], g4[k]));
                    } else {
                        assert(g4[k] == g3[k]);
                    }
                    assert(crate::regions::same_but_region(g2[k], g3[k]));
                    assert(crate::landmass::same_but_terrain(g1[k], g2[k]));
                    assert(g0[k] == Tile::spec_unset());
                    assert(crate::elevation::same_but_elevation(g0[k], g1[k]));
                }
            }
            let under = ResourcePlacer::run(
                &mut grid,
                &mut rng,
                region_count,
                config.resource_density,
            );
            let ghost w0 = warnings@.len();
            let mut z: usize = 0;
            while z < under.len()
                invariant
                    z <= under@.len(),
                    warnings@.len() == w0 + z,
                    forall|zz: int|
                        0 <= zz < z ==> warnings@[w0 + zz] == (Warning::RegionUnderResourced {
                            region: under@[zz],
                        }),
                decreases under@.len() - z,
            {
                warnings.push(Warning::RegionUnderResourced { region: under[z] });
                z = z + 1;
            }
            proof {
                assert forall|id: u32|
                    id < region_count implies region_has_strategic(grid@, id) || exists|zz: int|
                    0 <= zz < warnings@.len() && warnings@[zz] == (Warning::RegionUnderResourced {
                        region: id,
                    }) by {
                    if !region_has_strategic(grid@, id) {
                        let z0 = choose|z0: int| 0 <= z0 < under@.len() && under@[z0] == id;
                        assert(warnings@[w0 + z0] == (Warning::RegionUnderResourced {
                            region: id,
                        }));
                    }
                }
            }
        }
        let ghost g6 = grid@;

        // The later stages preserve terrain, elevation and region fields,
        // so the landmass and region guarantees carry to the final grid.
        proof {
            assert forall|k: int| 0 <= k < grid@.len() implies {
                &&& (#[trigger] grid@[k]).terrain == g2[k].terrain
                &&& grid@[k].elevation == g1[k].elevation
                &&& grid@[k].elevation == g4[k].elevation
                &&& grid@[k].region == g3[k].region
                &&& (!config.rivers_enabled ==> !grid@[k].has_river)
                &&& (!config.wonders_enabled ==> grid@[k].wonder is None)
                &&& (!config.resources_enabled ==> grid@[k].resource is None)
            } by {
                if config.resources_enabled {
                    assert(crate::resources::same_but_resource(g5[k], grid@[k]));
                } else {
                    assert(grid@[k] == g5[k]);
                }
                if config.wonders_enabled {
                    assert(crate::wonders::same_but_wonder(g4[k], g5[k]));
                } else {
                    assert(g5[k] == g4[k]);
                }
                if config.rivers_enabled {
                    assert(crate::rivers::same_but_river(g3[k], g4[k]));
                } else {
                    assert(g4[k] == g3[k]);
                }
                assert(crate::regions::same_but_region(g2[k], g3[k]));
                assert(crate::landmass::same_but_terrain(g1[k], g2[k]));
            }
            lemma_land_count_same_terrain(g2, grid@, grid@.len() as int);
            assert forall|q: int| 0 <= q < rivers@.len() implies river_path_valid(
                grid@,
                (#[trigger] rivers@[q]).tiles@,
            ) by {
                crate::rivers::lemma_valid_same_elevations(g4, grid@, rivers@[q].tiles@);
            }
            assert forall|k: int| 0 <= k < grid@.len() implies (is_land_tile(
                #[trigger] grid@[k],
            ) <==> grid@[k].region is Some) by {
                assert(grid@[k].terrain == g2[k].terrain);
                assert(grid@[k].region == g3[k].region);
                assert(is_land_tile(grid@[k]) == is_land_tile(g2[k]));
                assert(is_land_tile(g2[k]) <==> g3[k].region is Some);
            }
        }

        proof {
            if config.resources_enabled {
                assert forall|id: u32|
                    id < region_count implies region_has_strategic(grid@, id) || exists|z: int|
                    0 <= z < warnings@.len() && warnings@[z] == (Warning::RegionUnderResourced {
                        region: id,
                    }) by {}
                assert(strategic_covered(grid@, warnings@, region_count));
            }
        }
        Ok(
            GeneratedMap {
                grid,
                rivers,
                region_count,
                report: GenerationReport { warnings },
            },
        )
    }
}

} // verus!
