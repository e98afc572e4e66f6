//! Elevation stage: samples the noise field per tile at scaled coordinates,
//! then smooths each tile with its neighbors to remove high-frequency
//! artifacts. The result is pinned exactly: every elevation equals
//! `spec_elevation` of the noise table and the grid geometry, so a fixed
//! seed always yields the same height field.

use vstd::prelude::*;
use vstd::arithmetic::div_mod::{lemma_div_is_ordered, lemma_div_multiples_vanish};
use crate::config::MapShape;
use crate::grid::{Grid, Tile, spec_neighbor};
use crate::noise::{NoiseField, spec_sample_octaves};

verus! {

/// Largest elevation value; 2000 stands for the top of the noise range.
pub const ELEVATION_MAX: u32 = 2000;

/// Octaves of the elevation noise.
pub const OCTAVES: u32 = 4;

/// Per-mille persistence of the elevation noise.
pub const PERSISTENCE: u32 = 500;

/// Noise subunits per tile: controls terrain feature size.
pub const FREQ: u64 = 40;

/// Raw (unsmoothed) elevation of the tile at `(x, y)`: the octave sample
/// shifted into [0, 2000].
pub open spec fn spec_base_elev(perm: Seq<u8>, x: int, y: int) -> int {
    spec_sample_octaves(perm, x * 40, y * 40, 4, 500) + 1000
}

/// Sum and count of the raw elevations of tile `i`'s neighbors in
/// directions below `d`.
pub open spec fn spec_nbr_sum(
    perm: Seq<u8>,
    shape: MapShape,
    w: int,
    h: int,
    i: int,
    d: int,
) -> (int, int)
    decreases d,
{
    if d <= 0 {
        (0, 0)
    } else {
        let prev = spec_nbr_sum(perm, shape, w, h, i, d - 1);
        match spec_neighbor(shape, w, h, i, d - 1) {
            Some(j) => (prev.0 + spec_base_elev(perm, j % w, j / w), prev.1 + 1),
            None => prev,
        }
    }
}

/// The smoothed elevation of tile `i`: the mean of its own raw elevation
/// and its existing neighbors' raw elevations.
pub open spec fn spec_elevation(perm: Seq<u8>, shape: MapShape, w: int, h: int, i: int) -> int {
    let s = spec_nbr_sum(perm, shape, w, h, i, 4);
    (spec_base_elev(perm, i % w, i / w) + s.0) / (1 + s.1)
}

/// Whether `b` is `a` with at most the elevation changed.
pub open spec fn same_but_elevation(a: Tile, b: Tile) -> bool {
    &&& b.terrain == a.terrain
    &&& b.resource == a.resource
    &&& b.resource_quantity == a.resource_quantity
    &&& b.has_river == a.has_river
    &&& b.region == a.region
    &&& b.wonder == a.wonder
}

/// What the elevation stage leaves behind: every tile carries its smoothed
/// noise elevation, bounded by `ELEVATION_MAX`, and no other field moved.
pub open spec fn elevation_stage_done(
    perm: Seq<u8>,
    oldg: Seq<Tile>,
    newg: Seq<Tile>,
    shape: MapShape,
    w: int,
    h: int,
) -> bool {
    &&& newg.len() == oldg.len()
    &&& forall|i: int|
        0 <= i < newg.len() ==> {
            &&& #[trigger] newg[i].elevation == spec_elevation(perm, shape, w, h, i)
            &&& newg[i].elevation <= ELEVATION_MAX
            &&& same_but_elevation(oldg[i], newg[i])
        }
}

/// The smoothed elevation of tile `i`, computed from the raw pass.
fn smoothed_value(grid: &Grid, base: &Vec<u32>, i: usize, Ghost(perm): Ghost<Seq<u8>>) -> (e: u32)
    requires
        grid.wf(),
        base@.len() == grid@.len(),
        forall|k: int|
            0 <= k < base@.len() ==> base@[k] == spec_base_elev(
                perm,
                k % grid.spec_width(),
                k / grid.spec_width(),
            ) && base@[k] <= 2000,
        i < grid@.len(),
    ensures
        e == spec_elevation(
            perm,
            grid.spec_shape(),
            grid.spec_width(),
            grid.spec_height(),
            i as int,
        ),
        e <= 2000,
{
    let ghost shape = grid.spec_shape();
    let ghost w = grid.spec_width();
    let ghost h = grid.spec_height();
    let len = grid.len();
    let mut sum: u32 = base[i];
    let mut cnt: u32 = 1;
    let mut d: u32 = 0;
    while d < 4
        invariant
            d <= 4,
            i < len,
            base@.len() == len,
            grid.wf(),
            w == grid.spec_width(),
            h == grid.spec_height(),
            shape == grid.spec_shape(),
            len == grid@.len(),
            forall|k: int|
                0 <= k < base@.len() ==> base@[k] == spec_base_elev(perm, k % w, k / w)
                    && base@[k] <= 2000,
            1 <= cnt <= 1 + d,
            sum == spec_base_elev(perm, i as int % w, i as int / w) + spec_nbr_sum(
                perm,
                shape,
                w,
                h,
                i as int,
                d as int,
            ).0,
            cnt == 1 + spec_nbr_sum(perm, shape, w, h, i as int, d as int).1,
            sum <= 2000 * cnt,
        decreases 4 - d,
    {
        match grid.neighbor(i, d) {
            Some(j) => {
                sum = sum + base[j];
                cnt = cnt + 1;
            },
            None => {},
        }
        d = d + 1;
    }
    proof {
        lemma_div_is_ordered(sum as int, 2000 * (cnt as int), cnt as int);
        lemma_div_multiples_vanish(2000int, cnt as int);
    }
    sum / cnt
}

/// The elevation stage.
pub struct ElevationGenerator;

impl ElevationGenerator {
    /// Fills every tile's elevation with its smoothed noise value; no other
    /// tile field changes. The whole height field is a pure function of the
    /// noise table and the grid geometry.
    #[verifier::rlimit(100)]
    pub fn run(grid: &mut Grid, noise: &NoiseField)
        requires
            old(grid).wf(),
            noise.wf(),
        ensures
            final(grid).wf(),
            final(grid).spec_width() == old(grid).spec_width(),
            final(grid).spec_height() == old(grid).spec_height(),
            final(grid).spec_shape() == old(grid).spec_shape(),
            final(grid)@.len() == old(grid)@.len(),
            elevation_stage_done(
                noise@,
                old(grid)@,
                final(grid)@,
                old(grid).spec_shape(),
                old(grid).spec_width(),
                old(grid).spec_height(),
            ),
    {
        let w = grid.width() as usize;
        let h = grid.height() as usize;
        let len = grid.len();
        let ghost perm = noise@;
        let ghost shape = grid.spec_shape();
        let ghost orig = grid@;

        // First pass: raw noise elevation per tile.
        let mut base: Vec<u32> = Vec::new();
        let mut i: usize = 0;
        while i < len
            invariant
                i <= len,
                base@.len() == i,
                noise.wf(),
                grid.wf(),
                perm == noise@,
                w == grid.spec_width(),
                h == grid.spec_height(),
                len == grid@.len(),
                forall|k: int|
                    0 <= k < i ==> base@[k] == spec_base_elev(perm, k % (w as int), k / (
                    w as int)) && base@[k] <= 2000,
            decreases len - i,
        {
            let x = i % w;
            let y = i / w;
            proof {
                let wi = w as int;
                let ii = i as int;
                vstd::arithmetic::div_mod::lemma_fundamental_div_mod(ii, wi);
                assert(ii / wi < h as int) by (nonlinear_arith)
                    requires
                        ii == wi * (ii / wi) + ii % wi,
                        0 <= ii % wi < wi,
                        0 <= ii < wi * (h as int),
                        0 < wi,
                ;
            }
            let s = noise.sample_octaves((x as u64) * FREQ, (y as u64) * FREQ, OCTAVES,
                PERSISTENCE);
            let b = (s + 1000) as u32;
            base.push(b);
            i = i + 1;
        }

        // Second pass: smooth with the neighbor mean.
        let mut i: usize = 0;
        while i < len
            invariant
                i <= len,
                base@.len() == len,
                grid.wf(),
                perm == noise@,
                w == grid.spec_width(),
                h == grid.spec_height(),
                shape == grid.spec_shape(),
                len == grid@.len(),
                grid.spec_width() == old(grid).spec_width(),
                grid.spec_height() == old(grid).spec_height(),
                grid.spec_shape() == old(grid).spec_shape(),
                forall|k: int|
                    0 <= k < len ==> base@[k] == spec_base_elev(perm, k % (w as int), k / (
                    w as int)) && base@[k] <= 2000,
                orig == old(grid)@,
                forall|k: int| i <= k < len ==> grid@[k] == orig[k],
                forall|k: int|
                    0 <= k < i ==> {
                        &&& grid@[k].elevation == spec_elevation(perm, shape, w as int, h as int, k)
                        &&& grid@[k].elevation <= ELEVATION_MAX
                        &&& same_but_elevation(orig[k], grid@[k])
                    },
            decreases len - i,
        {
            let ghost entry = grid@;
            let e = smoothed_value(grid, &base, i, Ghost(perm));
            let t = *grid.tile(i);
            grid.set_tile(
                i,
                Tile {
                    elevation: e,
                    terrain: t.terrain,
                    resource: t.resource,
                    resource_quantity: t.resource_quantity,
                    has_river: t.has_river,
                    region: t.region,
                    wonder: t.wonder,
                },
            );
            proof {
                let ii = i as int;
                assert forall|k: int| 0 <= k < ii + 1 implies {
                    &&& grid@[k].elevation == spec_elevation(perm, shape, w as int, h as int, k)
                    &&& grid@[k].elevation <= ELEVATION_MAX
                    &&& same_but_elevation(orig[k], grid@[k])
                } by {
                    if k == ii {
                        assert(grid@[ii].elevation == e);
                        assert(same_but_elevation(orig[ii], grid@[ii]));
                    } else {
                        assert(grid@[k] == entry[k]);
                        assert(entry[k].elevation == spec_elevation(
                            perm,
                            shape,
                            w as int,
                            h as int,
                            k,
                        ));
                        assert(same_but_elevation(orig[k], entry[k]));
                    }
                }
            }
            i = i + 1;
        }
        proof {
            assert forall|j: int| 0 <= j < grid@.len() implies {
                &&& #[trigger] grid@[j].elevation == spec_elevation(perm, shape, w as int, h as int, j)
                &&& grid@[j].elevation <= ELEVATION_MAX
                &&& same_but_elevation(orig[j], grid@[j])
            } by {
                assert(grid@[j].elevation == spec_elevation(perm, shape, w as int, h as int, j));
                assert(same_but_elevation(orig[j], grid@[j]));
            }
            assert(elevation_stage_done(perm, orig, grid@, shape, w as int, h as int));
        }
    }
}

} // verus!
