//! Region stage: labels contiguous land into regions by flood fill, then
//! merges adjacent regions — always the adjacent pair with the smallest
//! combined size first — until the target region count is reached or no two
//! regions touch. Fails with `NoValidRegions` when the map has no land at
//! all. The contract pins what callers rely on: exactly the land tiles
//! carry a region id, ids are dense below the returned count, and nothing
//! but the region field changes.

use vstd::prelude::*;
use crate::config::GenerationError;
use crate::grid::{Grid, Tile, is_land_tile};
use crate::landmass::land_tile_count;

verus! {

/// Whether `b` is `a` with at most the region id changed.
pub open spec fn same_but_region(a: Tile, b: Tile) -> bool {
    &&& b.elevation == a.elevation
    &&& b.terrain == a.terrain
    &&& b.resource == a.resource
    &&& b.resource_quantity == a.resource_quantity
    &&& b.has_river == a.has_river
    &&& b.wonder == a.wonder
}

/// What the region stage leaves behind for region count `n`: exactly the
/// land tiles labeled, with ids below `n`, and only region fields moved.
pub open spec fn regions_stage_done(oldg: Seq<Tile>, newg: Seq<Tile>, n: int) -> bool {
    &&& newg.len() == oldg.len()
    &&& forall|i: int|
        0 <= i < newg.len() ==> (is_land_tile(oldg[i]) <==> (#[trigger] newg[i].region) is Some)
    &&& forall|i: int|
        0 <= i < newg.len() ==> match #[trigger] newg[i].region {
            Some(id) => id < n,
            None => true,
        }
    &&& forall|i: int| 0 <= i < newg.len() ==> same_but_region(oldg[i], #[trigger] newg[i])
}

/// Number of land tiles among the first `n` that still lack a region id.
pub open spec fn unassigned_count(s: Seq<Tile>, n: int) -> nat
    decreases n,
{
    if n <= 0 {
        0
    } else {
        unassigned_count(s, n - 1) + if is_land_tile(s[n - 1]) && s[n - 1].region is None {
            1nat
        } else {
            0nat
        }
    }
}

/// Labeling one unassigned land tile lowers the unassigned count by one.
proof fn lemma_unassigned_update(s: Seq<Tile>, t: Tile, j: int, n: int)
    requires
        0 <= j < s.len(),
        n <= s.len(),
        is_land_tile(s[j]),
        s[j].region is None,
        t.region is Some,
    ensures
        unassigned_count(s, n) == unassigned_count(s.update(j, t), n) + (if j < n {
            1nat
        } else {
            0nat
        }),
    decreases n,
{
    if n > 0 {
        lemma_unassigned_update(s, t, j, n - 1);
        if j == n - 1 {
            assert(s.update(j, t)[n - 1] == t);
        } else {
            assert(s.update(j, t)[n - 1] == s[n - 1]);
        }
    }
}

/// The region stage.
pub struct RegionPartitioner;

impl RegionPartitioner {
    /// Partitions the land into regions and returns the region count.
    /// Succeeds exactly when the grid holds at least one land tile; the
    /// labeling then covers exactly the land tiles with dense ids. On
    /// failure the grid is returned untouched.
    #[verifier::rlimit(100)]
    pub fn run(grid: &mut Grid, target_region_count: u32) -> (r: Result<u32, GenerationError>)
        requires
            old(grid).wf(),
            forall|k: int| 0 <= k < old(grid)@.len() ==> (#[trigger] old(grid)@[k].region) is None,
        ensures
            final(grid).wf(),
            final(grid).spec_width() == old(grid).spec_width(),
            final(grid).spec_height() == old(grid).spec_height(),
            final(grid).spec_shape() == old(grid).spec_shape(),
            final(grid)@.len() == old(grid)@.len(),
            r is Ok <==> land_tile_count(old(grid)@, old(grid)@.len() as int) > 0,
            r is Err ==> r == Err::<u32, GenerationError>(GenerationError::NoValidRegions)
                && final(grid)@ == old(grid)@,
            r matches Ok(n) ==> 1 <= n && regions_stage_done(old(grid)@, final(grid)@, n as int),
    {
        let len = grid.len();
        let ghost s = grid@;
        proof {
            assert(grid.spec_width() * grid.spec_height() <= 512 * 512) by (nonlinear_arith)
                requires
                    0 <= grid.spec_width() <= 512,
                    0 <= grid.spec_height() <= 512,
            ;
        }

        // A map with no land cannot be partitioned.
        let mut land: usize = 0;
        let mut i: usize = 0;
        while i < len
            invariant
                i <= len,
                grid.wf(),
                s == grid@,
                len == grid@.len(),
                land == land_tile_count(grid@, i as int),
                land <= i,
            decreases len - i,
        {
            let t = grid.tile(i);
            let is_l = match t.terrain {
                Some(k) => matches!(k, crate::grid::Terrain::Plains)
                    || matches!(k, crate::grid::Terrain::Hills)
                    || matches!(k, crate::grid::Terrain::Mountain),
                None => false,
            };
            if is_l {
                land = land + 1;
            }
            i = i + 1;
        }
        if land == 0 {
            return Err(GenerationError::NoValidRegions);
        }

        // Flood fill: label each connected component of land.
        let mut next: u32 = 0;
        let mut i: usize = 0;
        while i < len
            invariant
                i <= len,
                grid.wf(),
                len == grid@.len(),
                s.len() == len,
                grid.spec_width() == old(grid).spec_width(),
                grid.spec_height() == old(grid).spec_height(),
                grid.spec_shape() == old(grid).spec_shape(),
                next <= len,
                len <= 262144,
                forall|k: int| 0 <= k < len ==> same_but_region(s[k], #[trigger] grid@[k]),
                forall|k: int|
                    0 <= k < len ==> match #[trigger] grid@[k].region {
                        Some(id) => id < next && is_land_tile(grid@[k]),
                        None => true,
                    },
                forall|k: int|
                    0 <= k < i ==> (is_land_tile(s[k]) ==> (#[trigger] grid@[k].region) is Some),
                forall|k: int| 0 <= k < len ==> (#[trigger] s[k].region) is None,
                next <= i,
            decreases len - i,
        {
            let ghost pre = grid@;
            let t = *grid.tile(i);
            let is_l = match t.terrain {
                Some(k) => matches!(k, crate::grid::Terrain::Plains)
                    || matches!(k, crate::grid::Terrain::Hills)
                    || matches!(k, crate::grid::Terrain::Mountain),
                None => false,
            };
            if is_l && t.region.is_none() {
                let cur = next;
                // Label the seed, then grow the component.
                grid.set_tile(
                    i,
                    Tile {
                        elevation: t.elevation,
                        terrain: t.terrain,
                        resource: t.resource,
                        resource_quantity: t.resource_quantity,
                        has_river: t.has_river,
                        region: Some(cur),
                        wonder: t.wonder,
                    },
                );
                proof {
                    lemma_unassigned_update(pre, grid@[i as int], i as int, len as int);
                }
                let mut stack: Vec<usize> = Vec::new();
                stack.push(i);
                while stack.len() > 0
                    invariant
                        grid.wf(),
                        len == grid@.len(),
                        s.len() == len,
                        grid.spec_width() == old(grid).spec_width(),
                        grid.spec_height() == old(grid).spec_height(),
                        grid.spec_shape() == old(grid).spec_shape(),
                        cur < next + 1,
                        next <= len,
                        i < len,
                        forall|k: int| 0 <= k < stack@.len() ==> stack@[k] < len,
                        forall|k: int| 0 <= k < len ==> same_but_region(s[k], #[trigger] grid@[k]),
                        forall|k: int|
                            0 <= k < len ==> match #[trigger] grid@[k].region {
                                Some(id) => id <= next && is_land_tile(grid@[k]),
                                None => true,
                            },
                        forall|k: int|
                            0 <= k < i ==> (is_land_tile(s[k]) ==> (#[trigger] grid@[k].region)
                                is Some),
                        grid@[i as int].region is Some,
                    decreases unassigned_count(grid@, len as int), stack@.len(),
                {
                    let ghost entry = grid@;
                    let j = stack[stack.len() - 1];
                    let _ = stack.pop();
                    let ghost spl = stack@.len();
                    let mut d: u32 = 0;
                    while d < 4
                        invariant
                            d <= 4,
                            j < len,
                            grid.wf(),
                            len == grid@.len(),
                            s.len() == len,
                            grid.spec_width() == old(grid).spec_width(),
                            grid.spec_height() == old(grid).spec_height(),
                            grid.spec_shape() == old(grid).spec_shape(),
                            cur < next + 1,
                            next <= len,
                            i < len,
                            forall|k: int| 0 <= k < stack@.len() ==> stack@[k] < len,
                            forall|k: int|
                                0 <= k < len ==> same_but_region(s[k], #[trigger] grid@[k]),
                            forall|k: int|
                                0 <= k < len ==> match #[trigger] grid@[k].region {
                                    Some(id) => id <= next && is_land_tile(grid@[k]),
                                    None => true,
                                },
                            forall|k: int|
                                0 <= k < i ==> (is_land_tile(s[k]) ==> (#[trigger] grid@[k].region)
                                    is Some),
                            grid@[i as int].region is Some,
                            unassigned_count(grid@, len as int) <= unassigned_count(
                                entry,
                                len as int,
                            ),
                            unassigned_count(grid@, len as int) < unassigned_count(
                                entry,
                                len as int,
                            ) || grid@ == entry,
                            grid@ == entry ==> stack@.len() == spl,
                        decreases 4 - d,
                    {
                        match grid.neighbor(j, d) {
                            Some(nb) => {
                                let nt = *grid.tile(nb);
                                let nb_land = match nt.terrain {
                                    Some(k) => matches!(k, crate::grid::Terrain::Plains)
                                        || matches!(k, crate::grid::Terrain::Hills)
                                        || matches!(k, crate::grid::Terrain::Mountain),
                                    None => false,
                                };
                                if nb_land && nt.region.is_none() {
                                    let ghost before = grid@;
                                    grid.set_tile(
                                        nb,
                                        Tile {
                                            elevation: nt.elevation,
                                            terrain: nt.terrain,
                                            resource: nt.resource,
                                            resource_quantity: nt.resource_quantity,
                                            has_river: nt.has_river,
                                            region: Some(cur),
                                            wonder: nt.wonder,
                                        },
                                    );
                                    stack.push(nb);
                                    proof {
                                        lemma_unassigned_update(
                                            before,
                                            grid@[nb as int],
                                            nb as int,
                                            len as int,
                                        );
                                    }
                                }
                            },
                            None => {},
                        }
                        d = d + 1;
                    }
                }
                next = cur + 1;
            }
            i = i + 1;
        }

        // The first land tile seeded a region, so at least one id exists,
        // and the labeling is exactly the land.
        proof {
            lemma_land_count_positive_has_land(s, len as int);
            let k = choose|k: int| 0 <= k < len && is_land_tile(s[k]);
            assert(grid@[k].region is Some);
            assert(next >= 1);
            assert forall|k: int| 0 <= k < len implies (is_land_tile(s[k]) <==> (
            #[trigger] grid@[k].region) is Some) by {
                assert(same_but_region(s[k], grid@[k]));
            }
            assert(regions_stage_done(s, grid@, next as int));
        }

        // Merge toward the target: repeatedly relabel the adjacent pair
        // with the smallest combined size.
        let mut n = next;
        while n > target_region_count && n > 1
            invariant
                grid.wf(),
                len == grid@.len(),
                s.len() == len,
                grid.spec_width() == old(grid).spec_width(),
                grid.spec_height() == old(grid).spec_height(),
                grid.spec_shape() == old(grid).spec_shape(),
                1 <= n <= len,
                s == old(grid)@,
                land_tile_count(s, len as int) > 0,
                regions_stage_done(s, grid@, n as int),
            decreases n,
        {
            match best_merge_pair(grid, n) {
                Some((a, b)) => {
                    relabel(grid, Ghost(s), n, b, a);
                    if b != n - 1 {
                        relabel(grid, Ghost(s), n, n - 1, b);
                    }
                    proof {
                        assert forall|k: int| 0 <= k < grid@.len() implies match #[trigger] grid@[k].region {
                            Some(id) => id < n - 1,
                            None => true,
                        } by {
                            assert(grid@[k].region != Some((n - 1) as u32));
                        }
                        assert(regions_stage_done(s, grid@, n as int - 1));
                    }
                    n = n - 1;
                },
                None => {
                    return Ok(n);
                },
            }
        }
        Ok(n)
    }
}

/// A positive land count exhibits a land tile.
proof fn lemma_land_count_positive_has_land(s: Seq<Tile>, n: int)
    requires
        0 <= n <= s.len(),
    ensures
        land_tile_count(s, n) > 0 ==> exists|k: int| 0 <= k < n && is_land_tile(s[k]),
    decreases n,
{
    if n > 0 {
        lemma_land_count_positive_has_land(s, n - 1);
        if is_land_tile(s[n - 1]) {
            assert(0 <= n - 1 < n && is_land_tile(s[n - 1]));
        }
    }
}

/// The adjacent region pair with the smallest combined tile count, if any
/// two distinct regions touch.
fn best_merge_pair(grid: &Grid, n: u32) -> (r: Option<(u32, u32)>)
    requires
        grid.wf(),
        n >= 1,
        forall|k: int|
            0 <= k < grid@.len() ==> match #[trigger] grid@[k].region {
                Some(id) => id < n,
                None => true,
            },
    ensures
        r matches Some(p) ==> p.0 < n && p.1 < n && p.0 != p.1,
{
    let len = grid.len();
    proof {
        assert(grid.spec_width() * grid.spec_height() <= 512 * 512) by (nonlinear_arith)
            requires
                0 <= grid.spec_width() <= 512,
                0 <= grid.spec_height() <= 512,
        ;
    }

    // Tile count of every region id.
    let mut sizes: Vec<u64> = Vec::new();
    let mut z: usize = 0;
    while z < n as usize
        invariant
            sizes@.len() == z,
            z <= n,
            forall|q: int| 0 <= q < z ==> #[trigger] sizes@[q] == 0,
        decreases n as usize - z,
    {
        sizes.push(0);
        z = z + 1;
    }
    let mut i: usize = 0;
    while i < len
        invariant
            i <= len,
            grid.wf(),
            len == grid@.len(),
            len <= 262144,
            sizes@.len() == n,
            forall|k: int|
                0 <= k < grid@.len() ==> match #[trigger] grid@[k].region {
                    Some(id) => id < n,
                    None => true,
                },
            forall|q: int| 0 <= q < n ==> #[trigger] sizes@[q] <= i,
        decreases len - i,
    {
        match grid.tile(i).region {
            Some(id) => {
                let v = sizes[id as usize];
                sizes.set(id as usize, v + 1);
            },
            None => {},
        }
        i = i + 1;
    }

    // Scan every adjacency for the cheapest pair.
    let mut best: Option<(u32, u32)> = None;
    let mut best_cost: u64 = 0;
    let mut i: usize = 0;
    while i < len
        invariant
            i <= len,
            grid.wf(),
            len == grid@.len(),
            len <= 262144,
            sizes@.len() == n,
            forall|k: int|
                0 <= k < grid@.len() ==> match #[trigger] grid@[k].region {
                    Some(id) => id < n,
                    None => true,
                },
            forall|q: int| 0 <= q < n ==> #[trigger] sizes@[q] <= len,
            best matches Some(p) ==> p.0 < n && p.1 < n && p.0 != p.1,
        decreases len - i,
    {
        match grid.tile(i).region {
            Some(a) => {
                let mut d: u32 = 0;
                while d < 4
                    invariant
                        d <= 4,
                        i < len,
                        grid.wf(),
                        len == grid@.len(),
                        len <= 262144,
                        sizes@.len() == n,
                        a < n,
                        forall|k: int|
                            0 <= k < grid@.len() ==> match #[trigger] grid@[k].region {
                                Some(id) => id < n,
                                None => true,
                            },
                        forall|q: int| 0 <= q < n ==> #[trigger] sizes@[q] <= len,
                        best matches Some(p) ==> p.0 < n && p.1 < n && p.0 != p.1,
                    decreases 4 - d,
                {
                    match grid.neighbor(i, d) {
                        Some(j) => {
                            match grid.tile(j).region {
                                Some(b) => {
                                    if a != b {
                                        let cost = sizes[a as usize] + sizes[b as usize];
                                        let better = match best {
                                            Some(_) => cost < best_cost,
                                            None => true,
                                        };
                                        if better {
                                            best = Some((a, b));
                                            best_cost = cost;
                                        }
                                    }
                                },
                                None => {},
                            }
                        },
                        None => {},
                    }
                    d = d + 1;
                }
            },
            None => {},
        }
        i = i + 1;
    }
    best
}

/// Relabels every tile of region `from` to region `to`; only region fields
/// change, and the labeling stays dense below `n` when `from != n - 1` is
/// compensated by the caller's swap.
fn relabel(grid: &mut Grid, Ghost(s): Ghost<Seq<Tile>>, n: u32, from: u32, to: u32)
    requires
        old(grid).wf(),
        to < n,
        s.len() == old(grid)@.len(),
        regions_stage_done(s, old(grid)@, n as int),
    ensures
        final(grid).wf(),
        final(grid).spec_width() == old(grid).spec_width(),
        final(grid).spec_height() == old(grid).spec_height(),
        final(grid).spec_shape() == old(grid).spec_shape(),
        final(grid)@.len() == old(grid)@.len(),
        regions_stage_done(s, final(grid)@, n as int),
        forall|k: int|
            0 <= k < final(grid)@.len() ==> #[trigger] final(grid)@[k].region != Some(from) || from
                == to,
{
    let len = grid.len();
    let ghost pre = grid@;
    let mut i: usize = 0;
    while i < len
        invariant
            i <= len,
            grid.wf(),
            len == grid@.len(),
            s.len() == len,
            to < n,
            grid.spec_width() == old(grid).spec_width(),
            grid.spec_height() == old(grid).spec_height(),
            grid.spec_shape() == old(grid).spec_shape(),
            regions_stage_done(s, grid@, n as int),
            forall|k: int|
                0 <= k < i ==> #[trigger] grid@[k].region != Some(from) || from == to,
        decreases len - i,
    {
        let t = *grid.tile(i);
        let matches_from = match t.region {
            Some(id) => id == from,
            None => false,
        };
        if matches_from {
            grid.set_tile(
                i,
                Tile {
                    elevation: t.elevation,
                    terrain: t.terrain,
                    resource: t.resource,
                    resource_quantity: t.resource_quantity,
                    has_river: t.has_river,
                    region: Some(to),
                    wonder: t.wonder,
                },
            );
        }
        i = i + 1;
    }
}

} // verus!
