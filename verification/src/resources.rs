//! Resource stage: each region receives resources in proportion to its
//! size and the configured density, on randomly drawn compatible tiles.
//! Every placement provably suits its terrain. A region that ends the pass
//! without a strategic resource gets one on any remaining compatible tile;
//! a region where no tile can carry one is reported as under-resourced
//! rather than failing the run.

use vstd::prelude::*;
use vstd::arithmetic::div_mod::{lemma_div_is_ordered, lemma_div_multiples_vanish};
use crate::grid::{Grid, ResourceKind, Terrain, Tile, is_land_tile, is_strategic};
use crate::rng::RandomnessProvider;

verus! {

/// The terrain each resource kind can stand on.
pub open spec fn resource_ok(k: ResourceKind, t: Option<Terrain>) -> bool {
    match k {
        ResourceKind::Iron => t == Some(Terrain::Hills),
        ResourceKind::Horses => t == Some(Terrain::Plains),
        ResourceKind::Wheat => t == Some(Terrain::Plains),
        ResourceKind::Stone => t == Some(Terrain::Mountain),
    }
}

/// Whether `b` is `a` with at most the resource fields changed.
pub open spec fn same_but_resource(a: Tile, b: Tile) -> bool {
    &&& b.elevation == a.elevation
    &&& b.terrain == a.terrain
    &&& b.has_river == a.has_river
    &&& b.region == a.region
    &&& b.wonder == a.wonder
}

/// Whether some tile of region `id` carries a strategic resource.
pub open spec fn region_has_strategic(s: Seq<Tile>, id: u32) -> bool {
    exists|k: int|
        0 <= k < s.len() && (#[trigger] s[k]).region == Some(id) && match s[k].resource {
            Some(rk) => is_strategic(rk),
            None => false,
        }
}

/// Whether region `id` still has a free tile that could carry a strategic
/// resource: in the region, free of resource and wonder, on hills or
/// plains.
pub open spec fn has_strategic_candidate(s: Seq<Tile>, id: u32) -> bool {
    exists|k: int|
        0 <= k < s.len() && (#[trigger] s[k]).region == Some(id) && s[k].resource is None && s[
            k
        ].wonder is None && (s[k].terrain == Some(Terrain::Hills) || s[k].terrain == Some(
            Terrain::Plains,
        ))
}

/// Whether region `id` has a tile that can take a resource at the start
/// of the stage: in the region and free of wonder (resources are not yet
/// placed at that point).
pub open spec fn region_open_tile(s: Seq<Tile>, id: u32) -> bool {
    exists|k: int|
        0 <= k < s.len() && (#[trigger] s[k]).region == Some(id) && s[k].wonder is None
}

/// Whether some tile of region `id` carries a resource.
pub open spec fn region_has_resource(s: Seq<Tile>, id: u32) -> bool {
    exists|k: int|
        0 <= k < s.len() && (#[trigger] s[k]).region == Some(id) && s[k].resource is Some
}

/// Every region that had a free tile received at least one resource.
pub open spec fn open_regions_served(s_old: Seq<Tile>, s_new: Seq<Tile>, count: u32) -> bool {
    forall|id: u32|
        id < count && #[trigger] region_open_tile(s_old, id) ==> region_has_resource(s_new, id)
}

/// The under-resourced list is exact: a listed region neither holds a
/// strategic resource nor has any free tile left that could carry one.
pub open spec fn under_exact(s: Seq<Tile>, under: Seq<u32>) -> bool {
    forall|z: int|
        0 <= z < under.len() ==> !region_has_strategic(s, #[trigger] under[z])
            && !has_strategic_candidate(s, under[z])
}

/// Every placed resource suits its tile's terrain.
pub open spec fn resources_compatible(s: Seq<Tile>) -> bool {
    forall|k: int|
        0 <= k < s.len() ==> match (#[trigger] s[k]).resource {
            Some(rk) => resource_ok(rk, s[k].terrain),
            None => true,
        }
}

/// A strategic witness survives any change that keeps regions and leaves
/// occupied tiles' resources alone.
proof fn lemma_strategic_preserved(s1: Seq<Tile>, s2: Seq<Tile>, id: u32)
    requires
        s1.len() == s2.len(),
        forall|k: int| 0 <= k < s1.len() ==> (#[trigger] s2[k]).region == s1[k].region,
        forall|k: int|
            0 <= k < s1.len() && (#[trigger] s1[k]).resource is Some ==> s2[k].resource
                == s1[k].resource,
        region_has_strategic(s1, id),
    ensures
        region_has_strategic(s2, id),
{
    let k = choose|k: int|
        0 <= k < s1.len() && (#[trigger] s1[k]).region == Some(id) && match s1[k].resource {
            Some(rk) => is_strategic(rk),
            None => false,
        };
    assert(s2[k].region == Some(id));
    assert(s2[k].resource == s1[k].resource);
}

/// The resource stage.
pub struct ResourcePlacer;

impl ResourcePlacer {
    /// Distributes resources region by region and returns the ids of
    /// regions left without a strategic resource. Every placement suits
    /// its terrain and only resource fields change. The returned list is
    /// exact: a region stands in it when and only when it neither holds a
    /// strategic resource nor has any free hills or plains tile left that
    /// could carry one; and every region that had a free tile at all
    /// received at least one resource.
    #[verifier::rlimit(100)]
    pub fn run(
        grid: &mut Grid,
        rng: &mut RandomnessProvider,
        region_count: u32,
        density: u32,
    ) -> (under: Vec<u32>)
        requires
            old(grid).wf(),
            density <= 1000,
            forall|k: int| 0 <= k < old(grid)@.len() ==> (#[trigger] old(grid)@[k].resource) is None,
            forall|k: int|
                0 <= k < old(grid)@.len() && (#[trigger] old(grid)@[k]).region is Some
                    ==> is_land_tile(old(grid)@[k]),
        ensures
            final(grid).wf(),
            final(grid).spec_width() == old(grid).spec_width(),
            final(grid).spec_height() == old(grid).spec_height(),
            final(grid).spec_shape() == old(grid).spec_shape(),
            final(grid)@.len() == old(grid)@.len(),
            forall|k: int|
                0 <= k < final(grid)@.len() ==> same_but_resource(
                    old(grid)@[k],
                    #[trigger] final(grid)@[k],
                ),
            resources_compatible(final(grid)@),
            forall|id: u32|
                id < region_count ==> region_has_strategic(final(grid)@, id) || exists|z: int|
                    0 <= z < under@.len() && under@[z] == id,
            under_exact(final(grid)@, under@),
            open_regions_served(old(grid)@, final(grid)@, region_count),
    {
        let len = grid.len();
        let ghost s = grid@;
        proof {
            assert(grid.spec_width() * grid.spec_height() <= 512 * 512) by (nonlinear_arith)
                requires
                    0 <= grid.spec_width() <= 512,
                    0 <= grid.spec_height() <= 512,
            ;
        }
        let mut under: Vec<u32> = Vec::new();
        let mut id: u32 = 0;
        while id < region_count
            invariant
                id <= region_count,
                grid.wf(),
                len == grid@.len(),
                len <= 262144,
                s.len() == len,
                density <= 1000,
                grid.spec_width() == old(grid).spec_width(),
                grid.spec_height() == old(grid).spec_height(),
                grid.spec_shape() == old(grid).spec_shape(),
                s == old(grid)@,
                forall|k: int| 0 <= k < len ==> same_but_resource(s[k], #[trigger] grid@[k]),
                resources_compatible(grid@),
                forall|id2: u32|
                    id2 < id ==> region_has_strategic(grid@, id2) || exists|z: int|
                        0 <= z < under@.len() && under@[z] == id2,
                under_exact(grid@, under@),
                forall|z: int| 0 <= z < under@.len() ==> (#[trigger] under@[z]) < id,
                forall|k: int|
                    0 <= k < len && (#[trigger] old(grid)@[k]).region is Some ==> is_land_tile(
                        old(grid)@[k],
                    ),
                forall|k: int|
                    0 <= k < len && (#[trigger] grid@[k]).resource is Some ==> grid@[k].region
                        is Some && grid@[k].region->0 < id,
                forall|id2: u32|
                    id2 < id && #[trigger] region_open_tile(s, id2) ==> region_has_resource(
                        grid@,
                        id2,
                    ),
            decreases region_count - id,
        {
            let ghost round_start = grid@;
            let ghost under_start = under@;

            // Tiles of this region that can still take a resource.
            let mut cands: Vec<usize> = Vec::new();
            let mut i: usize = 0;
            while i < len
                invariant
                    i <= len,
                    grid.wf(),
                    len == grid@.len(),
                    cands@.len() <= i,
                    forall|z: int| 0 <= z < cands@.len() ==> (#[trigger] cands@[z]) < i,
                    forall|z1: int, z2: int|
                        0 <= z1 < cands@.len() && 0 <= z2 < cands@.len() && z1 != z2 ==> (
                        #[trigger] cands@[z1]) != (#[trigger] cands@[z2]),
                    forall|z: int|
                        0 <= z < cands@.len() ==> {
                            &&& (#[trigger] cands@[z]) < len
                            &&& grid@[cands@[z] as int].region == Some(id)
                            &&& grid@[cands@[z] as int].resource is None
                            &&& grid@[cands@[z] as int].wonder is None
                        },
                    forall|k: int|
                        0 <= k < i && (#[trigger] grid@[k]).region == Some(id) && grid@[
                            k
                        ].resource is None && grid@[k].wonder is None ==> exists|z: int|
                            0 <= z < cands@.len() && cands@[z] == k,
                decreases len - i,
            {
                let t = grid.tile(i);
                let fits = match t.region {
                    Some(rid) => rid == id,
                    None => false,
                } && t.resource.is_none() && t.wonder.is_none();
                if fits {
                    let ghost before_push = cands@;
                    cands.push(i);
                    proof {
                        assert(cands@[before_push.len() as int] == i);
                        assert forall|k: int|
                            0 <= k < i + 1 && (#[trigger] grid@[k]).region == Some(id) && grid@[
                                k
                            ].resource is None && grid@[k].wonder is None implies exists|z: int|
                            0 <= z < cands@.len() && cands@[z] == k by {
                            if k == i {
                                assert(cands@[before_push.len() as int] == k);
                            } else {
                                let z = choose|z: int|
                                    0 <= z < before_push.len() && before_push[z] == k;
                                assert(cands@[z] == k);
                            }
                        }
                    }
                }
                i = i + 1;
            }

            // Density-driven placements, at least one attempt per region.
            let ghost cands0 = cands@;
            let size = cands.len();
            proof {
                assert((size as int) * (density as int) <= (size as int) * 1000)
                    by (nonlinear_arith)
                    requires
                        0 <= density <= 1000,
                        0 <= size,
                ;
                assert((size as int) * (density as int) >= 0) by (nonlinear_arith)
                    requires
                        0 <= density,
                        0 <= size,
                ;
                assert((size as int) * 1000 == 1000int * (size as int)) by (nonlinear_arith);
                lemma_div_is_ordered(
                    (size as int) * (density as int),
                    (size as int) * 1000,
                    1000int,
                );
                lemma_div_multiples_vanish(size as int, 1000int);
            }
            let target = ((size as u64) * (density as u64) / 1000) as usize + 1;
            let mut placed: usize = 0;
            while placed < target && cands.len() > 0
                invariant
                    grid.wf(),
                    len == grid@.len(),
                    s.len() == len,
                    grid.spec_width() == old(grid).spec_width(),
                    grid.spec_height() == old(grid).spec_height(),
                    grid.spec_shape() == old(grid).spec_shape(),
                    placed <= target,
                    forall|k: int| 0 <= k < len ==> same_but_resource(s[k], #[trigger] grid@[k]),
                    resources_compatible(grid@),
                    forall|k: int|
                        0 <= k < len ==> (#[trigger] grid@[k]).region == round_start[k].region,
                    forall|k: int|
                        0 <= k < len && (#[trigger] round_start[k]).resource is Some ==> grid@[
                            k
                        ].resource == round_start[k].resource,
                    forall|k: int|
                        0 <= k < len && (#[trigger] grid@[k]).resource != round_start[k].resource
                            ==> round_start[k].region == Some(id),
                    forall|z1: int, z2: int|
                        0 <= z1 < cands@.len() && 0 <= z2 < cands@.len() && z1 != z2 ==> (
                        #[trigger] cands@[z1]) != (#[trigger] cands@[z2]),
                    forall|z: int|
                        0 <= z < cands@.len() ==> {
                            &&& (#[trigger] cands@[z]) < len
                            &&& grid@[cands@[z] as int].region == Some(id)
                            &&& grid@[cands@[z] as int].resource is None
                            &&& grid@[cands@[z] as int].wonder is None
                        },
                    forall|k: int|
                        0 <= k < len && (#[trigger] s[k]).region is Some ==> is_land_tile(s[k]),
                    placed > 0 ==> region_has_resource(grid@, id),
                    placed == 0 ==> cands@ == cands0,
                decreases target - placed,
            {
                let ghost body_entry = grid@;
                let pick = rng.next_int(cands.len() as u64) as usize;
                let idx = cands[pick];
                // Swap-remove the drawn candidate.
                let ghost before_remove = cands@;
                let last = cands[cands.len() - 1];
                cands.set(pick, last);
                let _ = cands.pop();
                proof {
                    assert forall|z1: int, z2: int|
                        0 <= z1 < cands@.len() && 0 <= z2 < cands@.len() && z1 != z2 implies (
                    #[trigger] cands@[z1]) != (#[trigger] cands@[z2]) by {
                        let o1: int = if z1 == pick {
                            before_remove.len() - 1
                        } else {
                            z1
                        };
                        let o2: int = if z2 == pick {
                            before_remove.len() - 1
                        } else {
                            z2
                        };
                        assert(cands@[z1] == before_remove[o1]);
                        assert(cands@[z2] == before_remove[o2]);
                    }
                    assert forall|z: int| 0 <= z < cands@.len() implies (#[trigger] cands@[z])
                        != idx by {
                        if z == pick {
                            assert(cands@[z] == before_remove[before_remove.len() - 1]);
                        } else {
                            assert(cands@[z] == before_remove[z]);
                        }
                    }
                }
                let t = *grid.tile(idx);
                proof {
                    assert(same_but_resource(s[idx as int], grid@[idx as int]));
                    assert(s[idx as int].region == Some(id));
                    assert(is_land_tile(s[idx as int]));
                }
                let kind: Option<ResourceKind> = match t.terrain {
                    Some(Terrain::Hills) => Some(ResourceKind::Iron),
                    Some(Terrain::Plains) => {
                        if rng.next_int(2) == 0 {
                            Some(ResourceKind::Horses)
                        } else {
                            Some(ResourceKind::Wheat)
                        }
                    },
                    Some(Terrain::Mountain) => Some(ResourceKind::Stone),
                    _ => None,
                };
                match kind {
                    Some(rk) => {
                        let qty = 1 + rng.next_int(3) as u32;
                        grid.set_tile(
                            idx,
                            Tile {
                                elevation: t.elevation,
                                terrain: t.terrain,
                                resource: Some(rk),
                                resource_quantity: qty,
                                has_river: t.has_river,
                                region: t.region,
                                wonder: t.wonder,
                            },
                        );
                        proof {
                            assert(grid@[idx as int].region == Some(id));
                            assert(grid@[idx as int].resource is Some);
                            assert(region_has_resource(grid@, id));
                        }
                    },
                    None => {
                        proof {
                            assert(false);
                        }
                    },
                }
                proof {
                    if placed > 0 {
                        let k = choose|k: int|
                            0 <= k < body_entry.len() && (#[trigger] body_entry[k]).region == Some(
                                id,
                            ) && body_entry[k].resource is Some;
                        assert(k != idx);
                        assert(grid@[k] == body_entry[k]);
                        assert(region_has_resource(grid@, id));
                    }
                }
                placed = placed + 1;
            }

            proof {
                if region_open_tile(s, id) {
                    let k = choose|k: int|
                        0 <= k < s.len() && (#[trigger] s[k]).region == Some(id) && s[k].wonder
                            is None;
                    assert(same_but_resource(s[k], round_start[k]));
                    assert(round_start[k].region == Some(id));
                    assert(round_start[k].resource is None);
                    assert(round_start[k].wonder is None);
                    assert(exists|z: int| 0 <= z < cands0.len() && cands0[z] == k);
                    assert(cands0.len() >= 1);
                    assert(placed > 0);
                    assert(region_has_resource(grid@, id));
                }
            }

            // Guarantee a strategic resource where the land permits.
            let got = region_strategic_scan(grid, id);
            let ghost after_density = grid@;
            let mut satisfied = got;
            if !got {
                let mut fixed = false;
                let mut i: usize = 0;
                while i < len && !fixed
                    invariant
                        i <= len,
                        grid.wf(),
                        len == grid@.len(),
                        s.len() == len,
                        grid.spec_width() == old(grid).spec_width(),
                        grid.spec_height() == old(grid).spec_height(),
                        grid.spec_shape() == old(grid).spec_shape(),
                        forall|k: int|
                            0 <= k < len ==> same_but_resource(s[k], #[trigger] grid@[k]),
                        resources_compatible(grid@),
                        forall|k: int|
                            0 <= k < len ==> (#[trigger] grid@[k]).region == round_start[k].region,
                        forall|k: int|
                            0 <= k < len && (#[trigger] round_start[k]).resource is Some ==> grid@[
                                k
                            ].resource == round_start[k].resource,
                        forall|k: int|
                            0 <= k < len && (#[trigger] grid@[k]).resource != round_start[
                                k
                            ].resource ==> round_start[k].region == Some(id),
                        fixed ==> region_has_strategic(grid@, id),
                        forall|k: int|
                            0 <= k < len && (#[trigger] after_density[k]).resource is Some
                                ==> grid@[k].resource == after_density[k].resource,
                        !fixed ==> grid@ == after_density,
                        !fixed ==> forall|k: int|
                            0 <= k < i ==> !((#[trigger] grid@[k]).region == Some(id) && grid@[
                                k
                            ].resource is None && grid@[k].wonder is None && (grid@[k].terrain
                                == Some(Terrain::Hills) || grid@[k].terrain == Some(
                                Terrain::Plains,
                            ))),
                    decreases len - i + (if fixed {
                        0int
                    } else {
                        1int
                    }),
                {
                    let t = *grid.tile(i);
                    let fits = match t.region {
                        Some(rid) => rid == id,
                        None => false,
                    } && t.resource.is_none() && t.wonder.is_none();
                    if fits {
                        let kind: Option<ResourceKind> = match t.terrain {
                            Some(Terrain::Hills) => Some(ResourceKind::Iron),
                            Some(Terrain::Plains) => Some(ResourceKind::Horses),
                            _ => None,
                        };
                        match kind {
                            Some(rk) => {
                                grid.set_tile(
                                    i,
                                    Tile {
                                        elevation: t.elevation,
                                        terrain: t.terrain,
                                        resource: Some(rk),
                                        resource_quantity: 1,
                                        has_river: t.has_river,
                                        region: t.region,
                                        wonder: t.wonder,
                                    },
                                );
                                fixed = true;
                                proof {
                                    assert(grid@[i as int].region == Some(id));
                                    assert(region_has_strategic(grid@, id));
                                }
                            },
                            None => {},
                        }
                    }
                    i = i + 1;
                }
                if fixed {
                    satisfied = true;
                }
            }
            if !satisfied {
                under.push(id);
                proof {
                    assert(under@[under@.len() - 1] == id);
                    assert(!region_has_strategic(grid@, id));
                    assert(!has_strategic_candidate(grid@, id));
                }
            }

            // Earlier regions keep their guarantee and their exactness:
            // regions never change, occupied tiles keep their resources,
            // and this round placed only inside its own region.
            proof {
                assert forall|z: int| 0 <= z < under@.len() implies !region_has_strategic(
                    grid@,
                    #[trigger] under@[z],
                ) && !has_strategic_candidate(grid@, under@[z]) by {
                    let id2 = under@[z];
                    if z < under_start.len() {
                        assert(under@[z] == under_start[z]);
                        assert(id2 < id);
                        assert(!region_has_strategic(round_start, id2));
                        assert(!has_strategic_candidate(round_start, id2));
                        if region_has_strategic(grid@, id2) {
                            let k = choose|k: int|
                                0 <= k < grid@.len() && (#[trigger] grid@[k]).region == Some(id2)
                                    && match grid@[k].resource {
                                    Some(rk) => is_strategic(rk),
                                    None => false,
                                };
                            assert(round_start[k].region == Some(id2));
                            assert(round_start[k].region != Some(id));
                            assert(grid@[k].resource == round_start[k].resource);
                            assert(region_has_strategic(round_start, id2));
                        }
                        if has_strategic_candidate(grid@, id2) {
                            let k = choose|k: int|
                                0 <= k < grid@.len() && (#[trigger] grid@[k]).region == Some(id2)
                                    && grid@[k].resource is None && grid@[k].wonder is None && (
                                grid@[k].terrain == Some(Terrain::Hills) || grid@[k].terrain
                                    == Some(Terrain::Plains));
                            assert(round_start[k].region == Some(id2));
                            assert(round_start[k].region != Some(id));
                            assert(grid@[k].resource == round_start[k].resource);
                            assert(same_but_resource(s[k], grid@[k]));
                            assert(same_but_resource(s[k], round_start[k]));
                            assert(has_strategic_candidate(round_start, id2));
                        }
                    }
                }
                assert(under_exact(grid@, under@));
                assert forall|k: int|
                    0 <= k < len && (#[trigger] grid@[k]).resource is Some implies grid@[k].region
                        is Some && grid@[k].region->0 < id + 1 by {
                    if round_start[k].resource is Some {
                        assert(round_start[k].region is Some && round_start[k].region->0 < id);
                        assert(grid@[k].region == round_start[k].region);
                    } else {
                        assert(grid@[k].resource != round_start[k].resource);
                        assert(round_start[k].region == Some(id));
                        assert(grid@[k].region == round_start[k].region);
                    }
                }
                assert forall|id2: u32|
                    id2 < id + 1 && #[trigger] region_open_tile(s, id2)
                    implies region_has_resource(grid@, id2) by {
                    if id2 == id {
                        let k = choose|k: int|
                            0 <= k < after_density.len() && (#[trigger] after_density[k]).region
                                == Some(id) && after_density[k].resource is Some;
                        assert(grid@[k].resource == after_density[k].resource);
                        assert(grid@[k].region == round_start[k].region);
                        assert(after_density[k].region == round_start[k].region);
                        assert(region_has_resource(grid@, id2));
                    } else {
                        assert(region_has_resource(round_start, id2));
                        let k = choose|k: int|
                            0 <= k < round_start.len() && (#[trigger] round_start[k]).region
                                == Some(id2) && round_start[k].resource is Some;
                        assert(grid@[k].resource == round_start[k].resource);
                        assert(grid@[k].region == round_start[k].region);
                        assert(region_has_resource(grid@, id2));
                    }
                }
                assert forall|id2: u32|
                    id2 < id + 1 implies region_has_strategic(grid@, id2) || exists|z: int|
                    0 <= z < under@.len() && under@[z] == id2 by {
                    if id2 == id {
                        if !satisfied {
                            assert(under@[under@.len() - 1] == id);
                        }
                    } else if id2 < id {
                        if region_has_strategic(round_start, id2) {
                            lemma_strategic_preserved(round_start, grid@, id2);
                        } else {
                            let z = choose|z: int|
                                0 <= z < under_start.len() && under_start[z] == id2;
                            assert(under@[z] == under_start[z]);
                            assert(under@[z] == id2);
                        }
                    }
                }
            }
            id = id + 1;
        }
        proof {
            assert(under_exact(grid@, under@));
            assert(open_regions_served(s, grid@, region_count));
        }
        under
    }
}

/// Whether region `id` already holds a strategic resource.
fn region_strategic_scan(grid: &Grid, id: u32) -> (r: bool)
    requires
        grid.wf(),
    ensures
        r ==> region_has_strategic(grid@, id),
        !r ==> !region_has_strategic(grid@, id),
{
    let len = grid.len();
    let mut i: usize = 0;
    let mut found = false;
    while i < len
        invariant
            i <= len,
            grid.wf(),
            len == grid@.len(),
            found ==> region_has_strategic(grid@, id),
            !found ==> forall|k: int|
                0 <= k < i ==> !((#[trigger] grid@[k]).region == Some(id) && match grid@[
                    k
                ].resource {
                    Some(rk) => is_strategic(rk),
                    None => false,
                }),
        decreases len - i,
    {
        let t = grid.tile(i);
        let is_here = match t.region {
            Some(rid) => rid == id,
            None => false,
        } && match t.resource {
            Some(rk) => matches!(rk, ResourceKind::Iron) || matches!(rk, ResourceKind::Horses),
            None => false,
        };
        if is_here {
            found = true;
        }
        i = i + 1;
    }
    found
}

} // verus!
