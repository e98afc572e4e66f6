//! River stage: every local elevation maximum above the source threshold
//! starts a greedy downhill walk. Each step moves to the lowest-elevation
//! neighbor, ties broken by the fixed direction order, so the walk is
//! deterministic. A walk ends successfully at water, at a tile that already
//! carries a river (the rivers merge), or at the map edge; a source whose
//! walk strands in a dry local minimum is skipped and reported. The
//! contract accounts for every qualifying source: it heads a returned
//! river, stands in the skipped list, or lies on another river's course;
//! river flags mark exactly the returned courses; every course is
//! non-increasing in elevation and ends at water, at the map boundary, or
//! on an earlier course.

use vstd::prelude::*;
use crate::config::MapShape;
use crate::grid::{Grid, River, Tile, is_land_tile, is_water_tile, spec_neighbor};

verus! {

/// Least elevation of a river source.
pub const RIVER_SOURCE_MIN: u32 = 1600;

/// A valid river course over `s`: nonempty, in bounds, and its elevation
/// sequence is non-increasing from source to terminus.
pub open spec fn river_path_valid(s: Seq<Tile>, path: Seq<usize>) -> bool {
    &&& path.len() >= 1
    &&& forall|k: int| 0 <= k < path.len() ==> (#[trigger] path[k]) < s.len()
    &&& forall|k: int|
        0 <= k < path.len() - 1 ==> s[#[trigger] path[k + 1] as int].elevation
            <= s[path[k] as int].elevation
}

/// A qualifying river source: a land tile at or above the source
/// threshold none of whose neighbors is higher.
pub open spec fn is_river_source(s: Seq<Tile>, shape: MapShape, w: int, h: int, i: int) -> bool {
    &&& is_land_tile(s[i])
    &&& s[i].elevation >= RIVER_SOURCE_MIN
    &&& forall|d: int|
        0 <= d < 4 ==> match #[trigger] spec_neighbor(shape, w, h, i, d) {
            Some(j) => s[j].elevation <= s[i].elevation,
            None => true,
        }
}

/// Whether tile `i` touches the map boundary: some direction has no
/// neighbor.
pub open spec fn at_map_boundary(shape: MapShape, w: int, h: int, i: int) -> bool {
    exists|d: int| 0 <= d < 4 && (#[trigger] spec_neighbor(shape, w, h, i, d)) is None
}

/// Whether tile `k` lies on one of the first `qmax` courses.
pub open spec fn on_some_course(rivers: Seq<River>, qmax: int, k: int) -> bool {
    exists|q: int, z: int|
        0 <= q < qmax && 0 <= z < rivers[q].tiles@.len() && #[trigger] rivers[q].tiles@[z] == k
}

/// A course's terminus is in order when it is water, touches the map
/// boundary, or merges into an earlier course.
pub open spec fn terminus_ok(
    s: Seq<Tile>,
    shape: MapShape,
    w: int,
    h: int,
    rivers: Seq<River>,
    q: int,
) -> bool {
    let p = rivers[q].tiles@;
    let last = p[p.len() - 1] as int;
    ||| is_water_tile(s[last])
    ||| at_map_boundary(shape, w, h, last)
    ||| on_some_course(rivers, q, last)
}

/// Every qualifying source of `s` is accounted for: it heads one of the
/// courses, stands in the skipped list, or carries a river flag in the
/// marked grid (it lies on another course).
pub open spec fn sources_accounted(
    s: Seq<Tile>,
    shape: MapShape,
    w: int,
    h: int,
    rivers: Seq<River>,
    skipped: Seq<u32>,
    marked: Seq<Tile>,
) -> bool {
    forall|k: int|
        0 <= k < s.len() && #[trigger] is_river_source(s, shape, w, h, k) ==> (exists|q: int|
            0 <= q < rivers.len() && (#[trigger] rivers[q]).tiles@[0] == k) || (exists|z: int|
            0 <= z < skipped.len() && (#[trigger] skipped[z]) == k) || marked[k].has_river
}

/// Whether `b` is `a` with at most the river flag changed.
pub open spec fn same_but_river(a: Tile, b: Tile) -> bool {
    &&& b.elevation == a.elevation
    &&& b.terrain == a.terrain
    &&& b.resource == a.resource
    &&& b.resource_quantity == a.resource_quantity
    &&& b.region == a.region
    &&& b.wonder == a.wonder
}

/// A path that is valid over one tile sequence is valid over another with
/// the same elevations.
pub proof fn lemma_valid_same_elevations(s1: Seq<Tile>, s2: Seq<Tile>, path: Seq<usize>)
    requires
        s1.len() == s2.len(),
        forall|k: int| 0 <= k < s2.len() ==> #[trigger] s2[k].elevation == s1[k].elevation,
        river_path_valid(s1, path),
    ensures
        river_path_valid(s2, path),
{
    assert forall|k: int| 0 <= k < path.len() - 1 implies s2[#[trigger] path[k + 1] as int]
        .elevation <= s2[path[k] as int].elevation by {
        assert(path[k + 1] < s1.len());
        assert(path[k] < s1.len());
        assert(s1[path[k + 1] as int].elevation <= s1[path[k] as int].elevation);
    }
}

/// The river stage.
pub struct RiverGenerator;

impl RiverGenerator {
    /// Routes rivers downhill from every qualifying source of an unmarked
    /// grid. Returns the rivers and the skipped sources. Only river flags
    /// change, and they mark exactly the returned courses; every
    /// qualifying source heads a course, is skipped, or lies on a course;
    /// skipped entries are qualifying sources; every course is
    /// non-increasing in elevation and terminates at water, at the map
    /// boundary, or on an earlier course.
    #[verifier::rlimit(100)]
    pub fn run(grid: &mut Grid) -> (r: (Vec<River>, Vec<u32>))
        requires
            old(grid).wf(),
            forall|k: int| 0 <= k < old(grid)@.len() ==> !(#[trigger] old(grid)@[k]).has_river,
        ensures
            final(grid).wf(),
            final(grid).spec_width() == old(grid).spec_width(),
            final(grid).spec_height() == old(grid).spec_height(),
            final(grid).spec_shape() == old(grid).spec_shape(),
            final(grid)@.len() == old(grid)@.len(),
            forall|k: int|
                0 <= k < final(grid)@.len() ==> same_but_river(
                    old(grid)@[k],
                    #[trigger] final(grid)@[k],
                ),
            forall|k: int|
                0 <= k < final(grid)@.len() ==> ((#[trigger] final(grid)@[k]).has_river
                    <==> on_some_course(r.0@, r.0@.len() as int, k)),
            forall|q: int|
                0 <= q < r.0@.len() ==> river_path_valid(final(grid)@, (#[trigger] r.0@[q]).tiles@),
            forall|q: int|
                0 <= q < r.0@.len() ==> {
                    &&& is_land_tile(old(grid)@[(#[trigger] r.0@[q]).tiles@[0] as int])
                    &&& old(grid)@[r.0@[q].tiles@[0] as int].elevation >= RIVER_SOURCE_MIN
                },
            forall|q: int|
                0 <= q < r.0@.len() ==> terminus_ok(
                    old(grid)@,
                    old(grid).spec_shape(),
                    old(grid).spec_width(),
                    old(grid).spec_height(),
                    r.0@,
                    q,
                ),
            forall|z: int|
                0 <= z < r.1@.len() ==> (#[trigger] r.1@[z]) < old(grid)@.len()
                    && is_river_source(
                    old(grid)@,
                    old(grid).spec_shape(),
                    old(grid).spec_width(),
                    old(grid).spec_height(),
                    r.1@[z] as int,
                ),
            sources_accounted(
                old(grid)@,
                old(grid).spec_shape(),
                old(grid).spec_width(),
                old(grid).spec_height(),
                r.0@,
                r.1@,
                final(grid)@,
            ),
    {
        let len = grid.len();
        proof {
            assert(grid.spec_width() * grid.spec_height() <= 512 * 512) by (nonlinear_arith)
                requires
                    0 <= grid.spec_width() <= 512,
                    0 <= grid.spec_height() <= 512,
            ;
        }
        let ghost s = grid@;
        let ghost shape = grid.spec_shape();
        let ghost w = grid.spec_width();
        let ghost h = grid.spec_height();
        let mut rivers: Vec<River> = Vec::new();
        let mut skipped: Vec<u32> = Vec::new();
        let mut i: usize = 0;
        while i < len
            invariant
                i <= len,
                grid.wf(),
                len == grid@.len(),
                len <= 262144,
                s.len() == len,
                shape == grid.spec_shape(),
                w == grid.spec_width(),
                h == grid.spec_height(),
                grid.spec_width() == old(grid).spec_width(),
                grid.spec_height() == old(grid).spec_height(),
                grid.spec_shape() == old(grid).spec_shape(),
                s == old(grid)@,
                forall|k: int| 0 <= k < len ==> !(#[trigger] s[k]).has_river,
                forall|k: int| 0 <= k < len ==> same_but_river(s[k], #[trigger] grid@[k]),
                forall|k: int|
                    0 <= k < len ==> ((#[trigger] grid@[k]).has_river <==> on_some_course(
                        rivers@,
                        rivers@.len() as int,
                        k,
                    )),
                forall|q: int|
                    0 <= q < rivers@.len() ==> river_path_valid(
                        grid@,
                        (#[trigger] rivers@[q]).tiles@,
                    ),
                forall|q: int|
                    0 <= q < rivers@.len() ==> {
                        &&& is_land_tile(s[(#[trigger] rivers@[q]).tiles@[0] as int])
                        &&& s[rivers@[q].tiles@[0] as int].elevation >= RIVER_SOURCE_MIN
                    },
                forall|q: int|
                    0 <= q < rivers@.len() ==> terminus_ok(s, shape, w, h, rivers@, q),
                forall|z: int|
                    0 <= z < skipped@.len() ==> (#[trigger] skipped@[z]) < len && is_river_source(
                        s,
                        shape,
                        w,
                        h,
                        skipped@[z] as int,
                    ),
                forall|k: int|
                    0 <= k < i && #[trigger] is_river_source(s, shape, w, h, k) ==> (exists|q: int|
                        0 <= q < rivers@.len() && (#[trigger] rivers@[q]).tiles@[0] == k) || (
                    exists|z: int|
                        0 <= z < skipped@.len() && (#[trigger] skipped@[z]) == k)
                        || grid@[k].has_river,
            decreases len - i,
        {
            let t = *grid.tile(i);
            let is_source = match t.terrain {
                Some(k) => (matches!(k, crate::grid::Terrain::Plains)
                    || matches!(k, crate::grid::Terrain::Hills)
                    || matches!(k, crate::grid::Terrain::Mountain)) && t.elevation
                    >= RIVER_SOURCE_MIN && !t.has_river,
                None => false,
            };
            let mut local_max = is_source;
            if is_source {
                let mut d: u32 = 0;
                while d < 4
                    invariant
                        d <= 4,
                        i < len,
                        grid.wf(),
                        len == grid@.len(),
                        s.len() == len,
                        shape == grid.spec_shape(),
                        w == grid.spec_width(),
                        h == grid.spec_height(),
                        forall|k: int| 0 <= k < len ==> same_but_river(s[k], #[trigger] grid@[k]),
                        local_max ==> is_source,
                        is_source && local_max ==> forall|dd: int|
                            0 <= dd < d ==> match #[trigger] spec_neighbor(
                                shape,
                                w,
                                h,
                                i as int,
                                dd,
                            ) {
                                Some(j) => s[j].elevation <= s[i as int].elevation,
                                None => true,
                            },
                        !local_max ==> exists|dd: int|
                            0 <= dd < 4 && match #[trigger] spec_neighbor(
                                shape,
                                w,
                                h,
                                i as int,
                                dd,
                            ) {
                                Some(j) => s[j].elevation > s[i as int].elevation,
                                None => false,
                            },
                    decreases 4 - d,
                {
                    match grid.neighbor(i, d) {
                        Some(j) => {
                            proof {
                                assert(same_but_river(s[j as int], grid@[j as int]));
                                assert(same_but_river(s[i as int], grid@[i as int]));
                            }
                            if grid.tile(j).elevation > grid.tile(i).elevation {
                                local_max = false;
                            }
                        },
                        None => {},
                    }
                    d = d + 1;
                }
            }
            proof {
                assert(same_but_river(s[i as int], grid@[i as int]));
                if is_source && local_max {
                    assert(is_river_source(s, shape, w, h, i as int));
                }
                if !is_source {
                    if !grid@[i as int].has_river {
                        assert(!s[i as int].has_river);
                        assert(!is_river_source(s, shape, w, h, i as int));
                    }
                }
                if is_source && !local_max {
                    assert(!is_river_source(s, shape, w, h, i as int));
                }
            }
            if local_max {
                proof {
                    assert(is_land_tile(s[i as int]));
                    assert(s[i as int].elevation >= RIVER_SOURCE_MIN);
                }
                // Greedy downhill walk from the source.
                let mut path: Vec<usize> = Vec::new();
                path.push(i);
                let mut cur: usize = i;
                let mut done = false;
                let mut success = false;
                while !done
                    invariant
                        grid.wf(),
                        len == grid@.len(),
                        s.len() == len,
                        shape == grid.spec_shape(),
                        w == grid.spec_width(),
                        h == grid.spec_height(),
                        forall|k: int| 0 <= k < len ==> same_but_river(s[k], #[trigger] grid@[k]),
                        cur < len,
                        path@.len() >= 1,
                        path@[0] == i,
                        !done ==> path@[path@.len() - 1] == cur,
                        river_path_valid(grid@, path@),
                        done && success ==> {
                            let last = path@[path@.len() - 1] as int;
                            is_water_tile(s[last]) || at_map_boundary(shape, w, h, last) || grid@[
                                last
                            ].has_river
                        },
                    decreases grid@[cur as int].elevation as int + 1, (if done {
                        0int
                    } else {
                        1int
                    }),
                {
                    // The lowest neighbor, first in direction order on ties.
                    let mut best: Option<usize> = None;
                    let mut edge = false;
                    let mut d: u32 = 0;
                    while d < 4
                        invariant
                            d <= 4,
                            cur < len,
                            grid.wf(),
                            len == grid@.len(),
                            shape == grid.spec_shape(),
                            w == grid.spec_width(),
                            h == grid.spec_height(),
                            best matches Some(b) ==> b < len,
                            edge ==> at_map_boundary(shape, w, h, cur as int),
                        decreases 4 - d,
                    {
                        match grid.neighbor(cur, d) {
                            Some(j) => {
                                let replace = match best {
                                    Some(b) => grid.tile(j).elevation < grid.tile(b).elevation,
                                    None => true,
                                };
                                if replace {
                                    best = Some(j);
                                }
                            },
                            None => {
                                edge = true;
                                proof {
                                    assert(spec_neighbor(shape, w, h, cur as int, d as int)
                                        is None);
                                }
                            },
                        }
                        d = d + 1;
                    }
                    match best {
                        Some(j) => {
                            if grid.tile(j).elevation < grid.tile(cur).elevation {
                                let ghost prev = path@;
                                path.push(j);
                                proof {
                                    assert forall|k: int| 0 <= k < path@.len() implies (
                                    #[trigger] path@[k]) < len by {
                                        if k < prev.len() {
                                            assert(path@[k] == prev[k]);
                                        } else {
                                            assert(path@[k] == j);
                                        }
                                    }
                                    assert forall|k: int| 0 <= k < path@.len() - 1 implies grid@[
                                        #[trigger] path@[k + 1] as int
                                    ].elevation <= grid@[path@[k] as int].elevation by {
                                        if k < prev.len() - 1 {
                                            assert(path@[k] == prev[k]);
                                            assert(path@[k + 1] == prev[k + 1]);
                                        } else {
                                            assert(path@[k] == prev[k]);
                                            assert(path@[k + 1] == j);
                                            assert(prev[k] == cur);
                                        }
                                    }
                                }
                                let jt = *grid.tile(j);
                                let j_water = match jt.terrain {
                                    Some(k) => matches!(k, crate::grid::Terrain::Ocean)
                                        || matches!(k, crate::grid::Terrain::Coast),
                                    None => false,
                                };
                                if j_water || jt.has_river {
                                    done = true;
                                    success = true;
                                    proof {
                                        assert(same_but_river(s[j as int], grid@[j as int]));
                                        assert(path@[path@.len() - 1] == j);
                                        if j_water {
                                            assert(is_water_tile(s[j as int]));
                                        } else {
                                            assert(grid@[j as int].has_river);
                                        }
                                    }
                                } else {
                                    cur = j;
                                }
                            } else {
                                // No downhill step exists from here.
                                let ct = *grid.tile(cur);
                                let c_water = match ct.terrain {
                                    Some(k) => matches!(k, crate::grid::Terrain::Ocean)
                                        || matches!(k, crate::grid::Terrain::Coast),
                                    None => false,
                                };
                                done = true;
                                success = c_water || edge;
                                proof {
                                    if success {
                                        assert(same_but_river(s[cur as int], grid@[cur as int]));
                                        if c_water {
                                            assert(is_water_tile(s[cur as int]));
                                        }
                                    }
                                }
                            }
                        },
                        None => {
                            done = true;
                            success = edge;
                        },
                    }
                }
                if success {
                    // Mark the course and keep the river.
                    let ghost before_mark = grid@;
                    let mut z: usize = 0;
                    while z < path.len()
                        invariant
                            z <= path@.len(),
                            grid.wf(),
                            len == grid@.len(),
                            s.len() == len,
                            grid.spec_width() == old(grid).spec_width(),
                            grid.spec_height() == old(grid).spec_height(),
                            grid.spec_shape() == old(grid).spec_shape(),
                            forall|k: int| 0 <= k < path@.len() ==> (#[trigger] path@[k]) < len,
                            forall|k: int|
                                0 <= k < len ==> same_but_river(s[k], #[trigger] grid@[k]),
                            forall|k: int|
                                0 <= k < len ==> #[trigger] grid@[k].elevation == before_mark[
                                    k
                                ].elevation,
                            forall|k: int|
                                0 <= k < len ==> ((#[trigger] grid@[k]).has_river <==> (
                                before_mark[k].has_river || exists|z2: int|
                                    0 <= z2 < z && path@[z2] == k)),
                        decreases path@.len() - z,
                    {
                        let ghost entry = grid@;
                        let idx = path[z];
                        let mt = *grid.tile(idx);
                        grid.set_tile(
                            idx,
                            Tile {
                                elevation: mt.elevation,
                                terrain: mt.terrain,
                                resource: mt.resource,
                                resource_quantity: mt.resource_quantity,
                                has_river: true,
                                region: mt.region,
                                wonder: mt.wonder,
                            },
                        );
                        proof {
                            assert forall|k: int| 0 <= k < len implies ((
                            #[trigger] grid@[k]).has_river <==> (before_mark[k].has_river || exists|
                                z2: int,
                            |
                                0 <= z2 < z + 1 && path@[z2] == k)) by {
                                if k == idx {
                                    assert(path@[z as int] == k);
                                } else {
                                    assert(grid@[k] == entry[k]);
                                }
                            }
                        }
                        z = z + 1;
                    }
                    proof {
                        lemma_valid_same_elevations(before_mark, grid@, path@);
                        assert forall|q: int| 0 <= q < rivers@.len() implies river_path_valid(
                            grid@,
                            (#[trigger] rivers@[q]).tiles@,
                        ) by {
                            lemma_valid_same_elevations(before_mark, grid@, rivers@[q].tiles@);
                        }
                    }
                    let ghost pth = path@;
                    let ghost old_rivers = rivers@;
                    rivers.push(River { tiles: path });
                    proof {
                        let qn = old_rivers.len() as int;
                        assert(rivers@[qn].tiles@ == pth);
                        assert forall|q: int| 0 <= q < qn implies rivers@[q] == old_rivers[q] by {}
                        // River flags are exactly the courses.
                        assert forall|k: int| 0 <= k < len implies ((
                        #[trigger] grid@[k]).has_river <==> on_some_course(
                            rivers@,
                            qn + 1,
                            k,
                        )) by {
                            if grid@[k].has_river {
                                if before_mark[k].has_river {
                                    assert(on_some_course(old_rivers, qn, k));
                                    let (q2, z2) = choose|q2: int, z2: int|
                                        0 <= q2 < qn && 0 <= z2 < old_rivers[q2].tiles@.len()
                                            && #[trigger] old_rivers[q2].tiles@[z2] == k;
                                    assert(rivers@[q2].tiles@[z2] == k);
                                    assert(on_some_course(rivers@, qn + 1, k));
                                } else {
                                    let z2 = choose|z2: int|
                                        0 <= z2 < pth.len() && pth[z2] == k;
                                    assert(rivers@[qn].tiles@[z2] == k);
                                    assert(on_some_course(rivers@, qn + 1, k));
                                }
                            }
                            if on_some_course(rivers@, qn + 1, k) {
                                let (q2, z2) = choose|q2: int, z2: int|
                                    0 <= q2 < qn + 1 && 0 <= z2 < rivers@[q2].tiles@.len()
                                        && #[trigger] rivers@[q2].tiles@[z2] == k;
                                if q2 < qn {
                                    assert(old_rivers[q2].tiles@[z2] == k);
                                    assert(on_some_course(old_rivers, qn, k));
                                    assert(before_mark[k].has_river);
                                } else {
                                    assert(pth[z2] == k);
                                }
                                assert(grid@[k].has_river);
                            }
                        }
                        // Terminus of every course, the new one included.
                        assert forall|q: int| 0 <= q < qn + 1 implies terminus_ok(
                            s,
                            shape,
                            w,
                            h,
                            rivers@,
                            q,
                        ) by {
                            if q < qn {
                                assert(terminus_ok(s, shape, w, h, old_rivers, q));
                                let p = old_rivers[q].tiles@;
                                let last = p[p.len() - 1] as int;
                                if on_some_course(old_rivers, q, last) {
                                    let (q2, z2) = choose|q2: int, z2: int|
                                        0 <= q2 < q && 0 <= z2 < old_rivers[q2].tiles@.len()
                                            && #[trigger] old_rivers[q2].tiles@[z2] == last;
                                    assert(rivers@[q2].tiles@[z2] == last);
                                    assert(on_some_course(rivers@, q, last));
                                }
                            } else {
                                let last = pth[pth.len() - 1] as int;
                                if !is_water_tile(s[last]) && !at_map_boundary(shape, w, h, last) {
                                    assert(before_mark[last].has_river);
                                    assert(on_some_course(old_rivers, qn, last));
                                    let (q2, z2) = choose|q2: int, z2: int|
                                        0 <= q2 < qn && 0 <= z2 < old_rivers[q2].tiles@.len()
                                            && #[trigger] old_rivers[q2].tiles@[z2] == last;
                                    assert(rivers@[q2].tiles@[z2] == last);
                                    assert(on_some_course(rivers@, qn, last));
                                }
                            }
                        }
                        // The source at `i` now heads the new course.
                        assert(rivers@[qn].tiles@[0] == i);
                        assert forall|k: int|
                            0 <= k < i + 1 && #[trigger] is_river_source(s, shape, w, h, k)
                            implies (exists|q: int|
                            0 <= q < rivers@.len() && (#[trigger] rivers@[q]).tiles@[0] == k) || (
                        exists|z2: int|
                            0 <= z2 < skipped@.len() && (#[trigger] skipped@[z2]) == k) || grid@[
                            k
                        ].has_river by {
                            if k == i {
                                assert(rivers@[qn].tiles@[0] == k);
                            } else {
                                if exists|q: int|
                                    0 <= q < old_rivers.len() && (
                                    #[trigger] old_rivers[q]).tiles@[0] == k {
                                    let q = choose|q: int|
                                        0 <= q < old_rivers.len() && (
                                        #[trigger] old_rivers[q]).tiles@[0] == k;
                                    assert(rivers@[q].tiles@[0] == k);
                                } else if before_mark[k].has_river {
                                    assert(grid@[k].has_river);
                                }
                            }
                        }
                    }
                } else {
                    let ghost old_skipped = skipped@;
                    skipped.push(i as u32);
                    proof {
                        assert(skipped@[old_skipped.len() as int] == i as u32);
                        assert forall|k: int|
                            0 <= k < i + 1 && #[trigger] is_river_source(s, shape, w, h, k)
                            implies (exists|q: int|
                            0 <= q < rivers@.len() && (#[trigger] rivers@[q]).tiles@[0] == k) || (
                        exists|z2: int|
                            0 <= z2 < skipped@.len() && (#[trigger] skipped@[z2]) == k) || grid@[
                            k
                        ].has_river by {
                            if k == i {
                                assert(skipped@[old_skipped.len() as int] == k);
                            } else {
                                if exists|z2: int|
                                    0 <= z2 < old_skipped.len() && (
                                    #[trigger] old_skipped[z2]) == k {
                                    let z2 = choose|z2: int|
                                        0 <= z2 < old_skipped.len() && (
                                        #[trigger] old_skipped[z2]) == k;
                                    assert(skipped@[z2] == k);
                                }
                            }
                        }
                    }
                }
            }
            i = i + 1;
        }
        proof {
            assert(sources_accounted(s, shape, w, h, rivers@, skipped@, grid@));
        }
        (rivers, skipped)
    }
}

} // verus!
