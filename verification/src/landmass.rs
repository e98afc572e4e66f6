//! Landmass stage: thresholds elevation against the sea level to classify
//! water and land, retreating the sea level step by step until the
//! configured minimum land fraction is met, and bands land into plains,
//! hills and mountains. Water adjacent to land becomes coast, other water
//! ocean. When even a fully retreated sea level leaves too little land the
//! stage fails with `InsufficientLandmass` and the grid is untouched.

use vstd::prelude::*;
use crate::config::{GenerationError, MapShape};
use crate::grid::{Grid, Terrain, Tile, is_land_tile, spec_neighbor};

verus! {

/// How far the sea level retreats per retry (elevation units).
pub const SEA_RETREAT_STEP: u32 = 100;

/// Number of sea-level retreats allowed after the first attempt.
pub const MAX_SEA_RETRIES: u32 = 20;

/// Least elevation of the hills band.
pub const HILLS_MIN: u32 = 1400;

/// Least elevation of the mountain band.
pub const MOUNTAIN_MIN: u32 = 1700;

/// The water threshold of retry `k`: the doubled sea level lowered by `k`
/// steps, never below zero. A tile is land exactly when its elevation
/// exceeds this.
pub open spec fn spec_threshold(sea2: int, k: int) -> int {
    if sea2 - k * SEA_RETREAT_STEP >= 0 {
        sea2 - k * SEA_RETREAT_STEP
    } else {
        0
    }
}

/// Number of tiles among the first `n` whose elevation exceeds `thr`.
pub open spec fn land_count_upto(s: Seq<Tile>, thr: int, n: int) -> int
    decreases n,
{
    if n <= 0 {
        0
    } else {
        land_count_upto(s, thr, n - 1) + if s[n - 1].elevation > thr {
            1int
        } else {
            0int
        }
    }
}

/// Number of land-classified tiles among the first `n`.
pub open spec fn land_tile_count(s: Seq<Tile>, n: int) -> int
    decreases n,
{
    if n <= 0 {
        0
    } else {
        land_tile_count(s, n - 1) + if is_land_tile(s[n - 1]) {
            1int
        } else {
            0int
        }
    }
}

/// The first retry (0 to 20) whose threshold yields at least the required
/// land fraction, or 21 when none does.
pub open spec fn spec_first_ok(s: Seq<Tile>, sea2: int, minl: int, k: int) -> int
    decreases MAX_SEA_RETRIES + 1 - k,
{
    if k > MAX_SEA_RETRIES {
        (MAX_SEA_RETRIES + 1) as int
    } else if land_count_upto(s, spec_threshold(sea2, k), s.len() as int) * 1000 >= minl * s.len() {
        k
    } else {
        spec_first_ok(s, sea2, minl, k + 1)
    }
}

/// Whether tile `i` has a neighbor whose elevation exceeds `thr`.
pub open spec fn has_land_neighbor(
    s: Seq<Tile>,
    shape: MapShape,
    w: int,
    h: int,
    i: int,
    thr: int,
) -> bool {
    exists|d: int|
        0 <= d < 4 && match #[trigger] spec_neighbor(shape, w, h, i, d) {
            Some(j) => s[j].elevation > thr,
            None => false,
        }
}

/// The terrain the stage assigns to tile `i` under threshold `thr`: land is
/// banded by elevation, water is coast next to land and ocean elsewhere.
pub open spec fn spec_terrain(
    s: Seq<Tile>,
    shape: MapShape,
    w: int,
    h: int,
    i: int,
    thr: int,
) -> Terrain {
    if s[i].elevation > thr {
        if s[i].elevation >= MOUNTAIN_MIN {
            Terrain::Mountain
        } else if s[i].elevation >= HILLS_MIN {
            Terrain::Hills
        } else {
            Terrain::Plains
        }
    } else {
        if has_land_neighbor(s, shape, w, h, i, thr) {
            Terrain::Coast
        } else {
            Terrain::Ocean
        }
    }
}

/// Whether `b` is `a` with at most the terrain changed.
pub open spec fn same_but_terrain(a: Tile, b: Tile) -> bool {
    &&& b.elevation == a.elevation
    &&& b.resource == a.resource
    &&& b.resource_quantity == a.resource_quantity
    &&& b.has_river == a.has_river
    &&& b.region == a.region
    &&& b.wonder == a.wonder
}

/// What a successful landmass stage leaves behind: every tile classified
/// by `spec_terrain` under threshold `thr`, everything else untouched.
pub open spec fn landmass_stage_done(
    oldg: Seq<Tile>,
    newg: Seq<Tile>,
    shape: MapShape,
    w: int,
    h: int,
    thr: int,
) -> bool {
    &&& newg.len() == oldg.len()
    &&& forall|i: int|
        0 <= i < newg.len() ==> #[trigger] newg[i].terrain == Some(
            spec_terrain(oldg, shape, w, h, i, thr),
        )
    &&& forall|i: int| 0 <= i < newg.len() ==> same_but_terrain(oldg[i], #[trigger] newg[i])
}

/// A classified grid has exactly as many land tiles as tiles over the
/// threshold in the grid it was classified from.
pub proof fn lemma_land_counts_match(
    s: Seq<Tile>,
    t: Seq<Tile>,
    shape: MapShape,
    w: int,
    h: int,
    thr: int,
    n: int,
)
    requires
        t.len() == s.len(),
        0 <= n <= s.len(),
        forall|i: int|
            0 <= i < t.len() ==> #[trigger] t[i].terrain == Some(
                spec_terrain(s, shape, w, h, i, thr),
            ),
    ensures
        land_tile_count(t, n) == land_count_upto(s, thr, n),
    decreases n,
{
    if n > 0 {
        lemma_land_counts_match(s, t, shape, w, h, thr, n - 1);
        assert(t[n - 1].terrain == Some(spec_terrain(s, shape, w, h, n - 1, thr)));
        assert(is_land_tile(t[n - 1]) <==> s[n - 1].elevation > thr);
    }
}

/// Counts the tiles of `grid` whose elevation exceeds `thr`.
fn count_land(grid: &Grid, thr: u32) -> (c: usize)
    requires
        grid.wf(),
    ensures
        c == land_count_upto(grid@, thr as int, grid@.len() as int),
        c <= grid@.len(),
{
    let len = grid.len();
    let mut c: usize = 0;
    let mut i: usize = 0;
    while i < len
        invariant
            i <= len,
            grid.wf(),
            len == grid@.len(),
            c == land_count_upto(grid@, thr as int, i as int),
            c <= i,
        decreases len - i,
    {
        if grid.tile(i).elevation > thr {
            c = c + 1;
        }
        i = i + 1;
    }
    c
}

/// The landmass stage.
pub struct LandmassGenerator;

impl LandmassGenerator {
    /// Classifies every tile as ocean, coast, plains, hills or mountain.
    /// Succeeds exactly when some retry's threshold reaches the minimum
    /// land fraction; the classified grid then holds at least that
    /// fraction of land tiles. On failure the grid is returned untouched.
    #[verifier::rlimit(100)]
    pub fn run(grid: &mut Grid, sea_level: u32, min_land_fraction: u32) -> (r: Result<
        (),
        GenerationError,
    >)
        requires
            old(grid).wf(),
            sea_level <= 1000,
            min_land_fraction <= 1000,
        ensures
            final(grid).wf(),
            final(grid).spec_width() == old(grid).spec_width(),
            final(grid).spec_height() == old(grid).spec_height(),
            final(grid).spec_shape() == old(grid).spec_shape(),
            final(grid)@.len() == old(grid)@.len(),
            r is Ok <==> spec_first_ok(
                old(grid)@,
                2 * sea_level,
                min_land_fraction as int,
                0,
            ) <= 20,
            r is Err ==> r == Err::<(), GenerationError>(GenerationError::InsufficientLandmass)
                && final(grid)@ == old(grid)@,
            r is Ok ==> landmass_stage_done(
                old(grid)@,
                final(grid)@,
                old(grid).spec_shape(),
                old(grid).spec_width(),
                old(grid).spec_height(),
                spec_threshold(
                    2 * sea_level,
                    spec_first_ok(old(grid)@, 2 * sea_level, min_land_fraction as int, 0),
                ),
            ),
            r is Ok ==> land_tile_count(final(grid)@, final(grid)@.len() as int) * 1000
                >= min_land_fraction * final(grid)@.len(),
    {
        let w = grid.width() as usize;
        let h = grid.height() as usize;
        let len = grid.len();
        let sea2: u32 = 2 * sea_level;
        let ghost s = grid@;
        let ghost shape = grid.spec_shape();
        let ghost minl = min_land_fraction as int;
        proof {
            assert(grid.spec_width() * grid.spec_height() <= 512 * 512) by (nonlinear_arith)
                requires
                    0 <= grid.spec_width() <= 512,
                    0 <= grid.spec_height() <= 512,
            ;
        }

        // Find the first sea-level retreat that yields enough land.
        let mut kk: u32 = 0;
        let mut found: Option<u32> = None;
        while kk <= MAX_SEA_RETRIES && found.is_none()
            invariant
                kk <= 21,
                grid.wf(),
                s == grid@,
                len == grid@.len(),
                len <= 262144,
                sea2 == 2 * sea_level,
                sea_level <= 1000,
                min_land_fraction <= 1000,
                minl == min_land_fraction as int,
                found is None ==> spec_first_ok(s, sea2 as int, minl, 0) == spec_first_ok(
                    s,
                    sea2 as int,
                    minl,
                    kk as int,
                ),
                found matches Some(c) ==> {
                    &&& c == spec_first_ok(s, sea2 as int, minl, 0)
                    &&& c <= 20
                    &&& land_count_upto(s, spec_threshold(sea2 as int, c as int), len as int)
                        * 1000 >= minl * len
                },
            decreases 21 - kk + (if found is None {
                1int
            } else {
                0int
            }),
        {
            let thr: u32 = if sea2 >= kk * SEA_RETREAT_STEP {
                sea2 - kk * SEA_RETREAT_STEP
            } else {
                0
            };
            let cnt = count_land(grid, thr);
            proof {
                assert(thr == spec_threshold(sea2 as int, kk as int));
                assert((min_land_fraction as int) * (len as int) <= 1000 * 262144)
                    by (nonlinear_arith)
                    requires
                        0 <= min_land_fraction <= 1000,
                        0 <= len <= 262144,
                ;
            }
            if (cnt as u64) * 1000 >= (min_land_fraction as u64) * (len as u64) {
                proof {
                    assert(spec_first_ok(s, sea2 as int, minl, kk as int) == kk);
                }
                found = Some(kk);
            } else {
                proof {
                    assert(spec_first_ok(s, sea2 as int, minl, kk as int) == spec_first_ok(
                        s,
                        sea2 as int,
                        minl,
                        kk as int + 1,
                    ));
                }
                kk = kk + 1;
            }
        }

        match found {
            None => {
                proof {
                    assert(spec_first_ok(s, sea2 as int, minl, 0) == 21);
                }
                Err(GenerationError::InsufficientLandmass)
            },
            Some(c) => {
                let thr: u32 = if sea2 >= c * SEA_RETREAT_STEP {
                    sea2 - c * SEA_RETREAT_STEP
                } else {
                    0
                };
                let ghost thri = spec_threshold(sea2 as int, c as int);

                // Classify every tile under the chosen threshold.
                let mut i: usize = 0;
                while i < len
                    invariant
                        i <= len,
                        grid.wf(),
                        w == grid.spec_width(),
                        h == grid.spec_height(),
                        shape == grid.spec_shape(),
                        len == grid@.len(),
                        s.len() == len,
                        thr == thri,
                        forall|k: int| i <= k < len ==> grid@[k] == s[k],
                        forall|k: int|
                            0 <= k < i ==> #[trigger] grid@[k].terrain == Some(
                                spec_terrain(s, shape, w as int, h as int, k, thri),
                            ),
                        forall|k: int| 0 <= k < i ==> same_but_terrain(s[k], #[trigger] grid@[k]),
                    decreases len - i,
                {
                    let ghost entry = grid@;
                    let elev = grid.tile(i).elevation;
                    let terr: Terrain = if elev > thr {
                        if elev >= MOUNTAIN_MIN {
                            Terrain::Mountain
                        } else if elev >= HILLS_MIN {
                            Terrain::Hills
                        } else {
                            Terrain::Plains
                        }
                    } else {
                        let mut coast = false;
                        let mut d: u32 = 0;
                        while d < 4
                            invariant
                                d <= 4,
                                i < len,
                                grid.wf(),
                                w == grid.spec_width(),
                                h == grid.spec_height(),
                                shape == grid.spec_shape(),
                                len == grid@.len(),
                                s.len() == len,
                                entry == grid@,
                                thr == thri,
                                forall|k: int| i <= k < len ==> grid@[k] == s[k],
                                forall|k: int|
                                    0 <= k < i ==> same_but_terrain(s[k], #[trigger] grid@[k]),
                                coast ==> has_land_neighbor(
                                    s,
                                    shape,
                                    w as int,
                                    h as int,
                                    i as int,
                                    thri,
                                ),
                                !coast ==> forall|dd: int|
                                    0 <= dd < d ==> match #[trigger] spec_neighbor(
                                        shape,
                                        w as int,
                                        h as int,
                                        i as int,
                                        dd,
                                    ) {
                                        Some(j) => s[j].elevation <= thri,
                                        None => true,
                                    },
                            decreases 4 - d,
                        {
                            match grid.neighbor(i, d) {
                                Some(j) => {
                                    proof {
                                        assert(grid@[j as int].elevation == s[j as int].elevation);
                                    }
                                    if grid.tile(j).elevation > thr {
                                        coast = true;
                                        proof {
                                            assert(has_land_neighbor(
                                                s,
                                                shape,
                                                w as int,
                                                h as int,
                                                i as int,
                                                thri,
                                            ));
                                        }
                                    }
                                },
                                None => {},
                            }
                            d = d + 1;
                        }
                        if coast {
                            Terrain::Coast
                        } else {
                            proof {
                                assert(!has_land_neighbor(
                                    s,
                                    shape,
                                    w as int,
                                    h as int,
                                    i as int,
                                    thri,
                                ));
                            }
                            Terrain::Ocean
                        }
                    };
                    let t = *grid.tile(i);
                    grid.set_tile(
                        i,
                        Tile {
                            elevation: t.elevation,
                            terrain: Some(terr),
                            resource: t.resource,
                            resource_quantity: t.resource_quantity,
                            has_river: t.has_river,
                            region: t.region,
                            wonder: t.wonder,
                        },
                    );
                    proof {
                        let ii = i as int;
                        assert forall|k: int| 0 <= k < ii + 1 implies #[trigger] grid@[k].terrain
                            == Some(spec_terrain(s, shape, w as int, h as int, k, thri)) by {
                            if k == ii {
                                assert(grid@[ii].terrain == Some(terr));
                                assert(terr == spec_terrain(s, shape, w as int, h as int, ii, thri));
                            } else {
                                assert(grid@[k] == entry[k]);
                            }
                        }
                        assert forall|k: int| 0 <= k < ii + 1 implies same_but_terrain(
                            s[k],
                            #[trigger] grid@[k],
                        ) by {
                            if k != ii {
                                assert(grid@[k] == entry[k]);
                            }
                        }
                    }
                    i = i + 1;
                }
                proof {
                    assert(landmass_stage_done(s, grid@, shape, w as int, h as int, thri));
                    lemma_land_counts_match(s, grid@, shape, w as int, h as int, thri, len as int);
                }
                Ok(())
            },
        }
    }
}

} // verus!
