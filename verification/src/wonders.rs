//! Natural-wonder stage: wonder kinds are tried in a fixed order, up to the
//! configured count. Each kind takes the first tile (lowest row-major
//! index) that satisfies its terrain and adjacency rule, carries no wonder
//! yet, and keeps the minimum distance from every wonder already placed; a
//! kind with no such tile is skipped and reported rather than failing the
//! run. Only wonder fields change, and every placed wonder provably suits
//! its rule and keeps its distance.

use vstd::prelude::*;
use crate::config::MapShape;
use crate::grid::{Grid, Terrain, Tile, WonderKind, is_land_tile, spec_neighbor};

verus! {

/// Least Manhattan distance between two wonders.
pub const MIN_WONDER_DIST: u32 = 3;

/// How many wonder kinds exist.
pub const WONDER_KINDS: u32 = 5;

/// Whether tile `i` has a neighbor of terrain `t`.
pub open spec fn has_neighbor_terrain(
    s: Seq<Tile>,
    shape: MapShape,
    w: int,
    h: int,
    i: int,
    t: Terrain,
) -> bool {
    exists|d: int|
        0 <= d < 4 && match #[trigger] spec_neighbor(shape, w, h, i, d) {
            Some(j) => s[j].terrain == Some(t),
            None => false,
        }
}

/// The terrain and adjacency rule of each wonder kind.
pub open spec fn wonder_suitable(
    s: Seq<Tile>,
    shape: MapShape,
    w: int,
    h: int,
    i: int,
    kind: WonderKind,
) -> bool {
    match kind {
        WonderKind::HighPeak => s[i].terrain == Some(Terrain::Mountain),
        WonderKind::MountainVale => is_land_tile(s[i]) && has_neighbor_terrain(
            s,
            shape,
            w,
            h,
            i,
            Terrain::Mountain,
        ),
        WonderKind::CraterLake => s[i].terrain == Some(Terrain::Hills),
        WonderKind::OldForest => s[i].terrain == Some(Terrain::Plains),
        WonderKind::SunkenReef => s[i].terrain == Some(Terrain::Plains) && has_neighbor_terrain(
            s,
            shape,
            w,
            h,
            i,
            Terrain::Coast,
        ),
    }
}

/// Manhattan distance between the tiles at row-major indices `a` and `b`.
pub open spec fn manhattan(w: int, a: int, b: int) -> int {
    let dx = if a % w >= b % w {
        a % w - b % w
    } else {
        b % w - a % w
    };
    let dy = if a / w >= b / w {
        a / w - b / w
    } else {
        b / w - a / w
    };
    dx + dy
}

/// Whether tile `i` can take `kind` given the placements so far: not yet
/// taken, suitable for the kind, and far enough from every placement.
pub open spec fn wonder_eligible(
    s: Seq<Tile>,
    shape: MapShape,
    w: int,
    h: int,
    placed: Seq<(WonderKind, usize)>,
    kind: WonderKind,
    i: int,
) -> bool {
    &&& !(exists|q: int| 0 <= q < placed.len() && (#[trigger] placed[q]).1 == i)
    &&& wonder_suitable(s, shape, w, h, i, kind)
    &&& forall|q: int|
        0 <= q < placed.len() ==> manhattan(w, i, (#[trigger] placed[q]).1 as int)
            >= MIN_WONDER_DIST
}

/// The first eligible site at or after `i` for `kind`, if any.
pub open spec fn spec_site_from(
    s: Seq<Tile>,
    shape: MapShape,
    w: int,
    h: int,
    placed: Seq<(WonderKind, usize)>,
    kind: WonderKind,
    i: int,
) -> Option<int>
    decreases s.len() - i,
{
    if i >= s.len() {
        None
    } else if wonder_eligible(s, shape, w, h, placed, kind, i) {
        Some(i)
    } else {
        spec_site_from(s, shape, w, h, placed, kind, i + 1)
    }
}

/// The placements and skips after the first `k` kinds of the fixed order
/// have been tried: each kind takes its first eligible tile in row-major
/// order, or is skipped when none exists.
pub open spec fn spec_wonder_rounds(s: Seq<Tile>, shape: MapShape, w: int, h: int, k: int) -> (
    Seq<(WonderKind, usize)>,
    Seq<WonderKind>,
)
    decreases k,
{
    if k <= 0 {
        (Seq::<(WonderKind, usize)>::empty(), Seq::<WonderKind>::empty())
    } else {
        let prev = spec_wonder_rounds(s, shape, w, h, k - 1);
        match spec_site_from(s, shape, w, h, prev.0, spec_kind_at(k - 1), 0) {
            Some(c) => (prev.0.push((spec_kind_at(k - 1), c as usize)), prev.1),
            None => (prev.0, prev.1.push(spec_kind_at(k - 1))),
        }
    }
}

/// Whether `b` is `a` with at most the wonder changed.
pub open spec fn same_but_wonder(a: Tile, b: Tile) -> bool {
    &&& b.elevation == a.elevation
    &&& b.terrain == a.terrain
    &&& b.resource == a.resource
    &&& b.resource_quantity == a.resource_quantity
    &&& b.has_river == a.has_river
    &&& b.region == a.region
}

/// The wonder kind tried at position `k` of the fixed order.
pub open spec fn spec_kind_at(k: int) -> WonderKind {
    if k == 0 {
        WonderKind::HighPeak
    } else if k == 1 {
        WonderKind::MountainVale
    } else if k == 2 {
        WonderKind::CraterLake
    } else if k == 3 {
        WonderKind::OldForest
    } else {
        WonderKind::SunkenReef
    }
}

/// The wonder stage.
pub struct NaturalWonderPlacer;

impl NaturalWonderPlacer {
    /// Places up to `wonder_count` wonders, one per kind in the fixed
    /// order, and returns the placements and the skipped kinds. The result
    /// is pinned exactly: each kind takes its first eligible tile in
    /// row-major order and is skipped precisely when no free, suitable,
    /// distance-respecting tile exists at its turn. Every placement suits
    /// its kind's rule, keeps the minimum distance from every other
    /// placement, and is written onto its tile.
    #[verifier::rlimit(100)]
    pub fn run(grid: &mut Grid, wonder_count: u32) -> (r: (Vec<(WonderKind, usize)>, Vec<
        WonderKind,
    >))
        requires
            old(grid).wf(),
            forall|k: int| 0 <= k < old(grid)@.len() ==> (#[trigger] old(grid)@[k].wonder) is None,
        ensures
            final(grid).wf(),
            final(grid).spec_width() == old(grid).spec_width(),
            final(grid).spec_height() == old(grid).spec_height(),
            final(grid).spec_shape() == old(grid).spec_shape(),
            final(grid)@.len() == old(grid)@.len(),
            forall|k: int|
                0 <= k < final(grid)@.len() ==> same_but_wonder(
                    old(grid)@[k],
                    #[trigger] final(grid)@[k],
                ),
            (r.0@, r.1@) == spec_wonder_rounds(
                old(grid)@,
                old(grid).spec_shape(),
                old(grid).spec_width(),
                old(grid).spec_height(),
                (if wonder_count < WONDER_KINDS {
                    wonder_count as int
                } else {
                    WONDER_KINDS as int
                }),
            ),
            forall|q: int|
                0 <= q < r.0@.len() ==> final(grid)@[(#[trigger] r.0@[q]).1 as int].wonder == Some(
                    r.0@[q].0,
                ),
            forall|q: int|
                0 <= q < r.0@.len() ==> (#[trigger] r.0@[q]).1 < old(grid)@.len()
                    && wonder_suitable(
                    old(grid)@,
                    old(grid).spec_shape(),
                    old(grid).spec_width(),
                    old(grid).spec_height(),
                    r.0@[q].1 as int,
                    r.0@[q].0,
                ),
            forall|q1: int, q2: int|
                0 <= q1 < r.0@.len() && 0 <= q2 < r.0@.len() && q1 != q2 ==> manhattan(
                    old(grid).spec_width(),
                    (#[trigger] r.0@[q1]).1 as int,
                    (#[trigger] r.0@[q2]).1 as int,
                ) >= MIN_WONDER_DIST,
            r.0@.len() + r.1@.len() == (if wonder_count < WONDER_KINDS {
                wonder_count as int
            } else {
                WONDER_KINDS as int
            }),
    {
        let len = grid.len();
        let w = grid.width() as usize;
        let ghost s = grid@;
        let ghost shape = grid.spec_shape();
        let ghost hh = grid.spec_height();
        let mut placed: Vec<(WonderKind, usize)> = Vec::new();
        let mut skipped: Vec<WonderKind> = Vec::new();
        let tries: u32 = if wonder_count < WONDER_KINDS {
            wonder_count
        } else {
            WONDER_KINDS
        };
        let mut kidx: u32 = 0;
        while kidx < tries
            invariant
                kidx <= tries,
                tries <= WONDER_KINDS,
                grid.wf(),
                len == grid@.len(),
                s.len() == len,
                w == grid.spec_width(),
                hh == grid.spec_height(),
                shape == grid.spec_shape(),
                grid.spec_width() == old(grid).spec_width(),
                grid.spec_height() == old(grid).spec_height(),
                grid.spec_shape() == old(grid).spec_shape(),
                s == old(grid)@,
                forall|k: int| 0 <= k < len ==> (#[trigger] s[k].wonder) is None,
                forall|k: int| 0 <= k < len ==> same_but_wonder(s[k], #[trigger] grid@[k]),
                (placed@, skipped@) == spec_wonder_rounds(s, shape, w as int, hh, kidx as int),
                forall|k: int|
                    0 <= k < len && (#[trigger] grid@[k]).wonder is Some ==> exists|q: int|
                        0 <= q < placed@.len() && (#[trigger] placed@[q]).1 == k,
                placed@.len() + skipped@.len() == kidx,
                forall|q: int|
                    0 <= q < placed@.len() ==> grid@[(#[trigger] placed@[q]).1 as int].wonder
                        == Some(placed@[q].0),
                forall|q: int|
                    0 <= q < placed@.len() ==> (#[trigger] placed@[q]).1 < len && wonder_suitable(
                        s,
                        shape,
                        w as int,
                        hh,
                        placed@[q].1 as int,
                        placed@[q].0,
                    ),
                forall|q1: int, q2: int|
                    0 <= q1 < placed@.len() && 0 <= q2 < placed@.len() && q1 != q2 ==> manhattan(
                        w as int,
                        (#[trigger] placed@[q1]).1 as int,
                        (#[trigger] placed@[q2]).1 as int,
                    ) >= MIN_WONDER_DIST,
            decreases tries - kidx,
        {
            let kind = kind_at(kidx);
            let mut site: Option<usize> = None;
            let mut i: usize = 0;
            while i < len && site.is_none()
                invariant
                    i <= len,
                    grid.wf(),
                    len == grid@.len(),
                    s.len() == len,
                    w == grid.spec_width(),
                    hh == grid.spec_height(),
                    shape == grid.spec_shape(),
                    forall|k: int| 0 <= k < len ==> (#[trigger] s[k].wonder) is None,
                    forall|k: int| 0 <= k < len ==> same_but_wonder(s[k], #[trigger] grid@[k]),
                    forall|q: int|
                        0 <= q < placed@.len() ==> (#[trigger] placed@[q]).1 < len,
                    forall|q: int|
                        0 <= q < placed@.len() ==> grid@[(#[trigger] placed@[q]).1 as int].wonder
                            == Some(placed@[q].0),
                    forall|k: int|
                        0 <= k < len && (#[trigger] grid@[k]).wonder is Some ==> exists|q: int|
                            0 <= q < placed@.len() && (#[trigger] placed@[q]).1 == k,
                    kind == spec_kind_at(kidx as int),
                    site is None ==> spec_site_from(s, shape, w as int, hh, placed@, kind, 0)
                        == spec_site_from(s, shape, w as int, hh, placed@, kind, i as int),
                    site matches Some(c) ==> spec_site_from(s, shape, w as int, hh, placed@, kind, 0)
                        == Some(c as int),
                    site matches Some(c) ==> {
                        &&& c < len
                        &&& wonder_suitable(s, shape, w as int, hh, c as int, kind)
                        &&& forall|q: int|
                            0 <= q < placed@.len() ==> manhattan(
                                w as int,
                                c as int,
                                (#[trigger] placed@[q]).1 as int,
                            ) >= MIN_WONDER_DIST && manhattan(
                                w as int,
                                (placed@[q]).1 as int,
                                c as int,
                            ) >= MIN_WONDER_DIST
                    },
                decreases len - i + (if site is None {
                    1int
                } else {
                    0int
                }),
            {
                let free = wonder_free(grid, i);
                let suit = suitable_at(grid, Ghost(s), i, kind);
                let far = far_enough(grid, &placed, i);
                proof {
                    assert(same_but_wonder(s[i as int], grid@[i as int]));
                    if free {
                        assert(!(exists|q: int|
                            0 <= q < placed@.len() && (#[trigger] placed@[q]).1 == i as int))
                            by {
                            if exists|q: int|
                                0 <= q < placed@.len() && (#[trigger] placed@[q]).1 == i as int {
                                let q = choose|q: int|
                                    0 <= q < placed@.len() && (#[trigger] placed@[q]).1
                                        == i as int;
                                assert(grid@[placed@[q].1 as int].wonder == Some(placed@[q].0));
                            }
                        }
                    } else {
                        assert(exists|q: int|
                            0 <= q < placed@.len() && (#[trigger] placed@[q]).1 == i as int);
                    }
                }
                if free && suit && far {
                    proof {
                        assert(wonder_eligible(s, shape, w as int, hh, placed@, kind, i as int));
                        assert(spec_site_from(s, shape, w as int, hh, placed@, kind, i as int)
                            == Some(i as int));
                    }
                    site = Some(i);
                } else {
                    proof {
                        assert(!wonder_eligible(s, shape, w as int, hh, placed@, kind, i as int));
                        assert(spec_site_from(s, shape, w as int, hh, placed@, kind, i as int)
                            == spec_site_from(s, shape, w as int, hh, placed@, kind, i as int + 1));
                    }
                    i = i + 1;
                }
            }
            match site {
                Some(c) => {
                    let t = *grid.tile(c);
                    grid.set_tile(
                        c,
                        Tile {
                            elevation: t.elevation,
                            terrain: t.terrain,
                            resource: t.resource,
                            resource_quantity: t.resource_quantity,
                            has_river: t.has_river,
                            region: t.region,
                            wonder: Some(kind),
                        },
                    );
                    let ghost old_placed = placed@;
                    placed.push((kind, c));
                    proof {
                        assert forall|q: int|
                            0 <= q < placed@.len() implies grid@[(#[trigger] placed@[q]).1 as int]
                            .wonder == Some(placed@[q].0) by {
                            if q < old_placed.len() {
                                assert(placed@[q] == old_placed[q]);
                            } else {
                                assert(placed@[q] == (kind, c));
                            }
                        }
                        assert forall|q1: int, q2: int|
                            0 <= q1 < placed@.len() && 0 <= q2 < placed@.len() && q1 != q2
                            implies manhattan(
                            w as int,
                            (#[trigger] placed@[q1]).1 as int,
                            (#[trigger] placed@[q2]).1 as int,
                        ) >= MIN_WONDER_DIST by {
                            if q1 < old_placed.len() && q2 < old_placed.len() {
                                assert(placed@[q1] == old_placed[q1]);
                                assert(placed@[q2] == old_placed[q2]);
                            } else if q1 < old_placed.len() {
                                assert(placed@[q1] == old_placed[q1]);
                                assert(placed@[q2] == (kind, c));
                            } else {
                                assert(placed@[q1] == (kind, c));
                                assert(placed@[q2] == old_placed[q2]);
                            }
                        }
                        assert forall|k: int|
                            0 <= k < len && (#[trigger] grid@[k]).wonder is Some implies exists|
                            q: int,
                        |
                            0 <= q < placed@.len() && (#[trigger] placed@[q]).1 == k by {
                            if k == c {
                                assert(placed@[old_placed.len() as int].1 == k);
                            } else {
                                let q = choose|q: int|
                                    0 <= q < old_placed.len() && (#[trigger] old_placed[q]).1 == k;
                                assert(placed@[q].1 == k);
                            }
                        }
                        assert(spec_site_from(s, shape, w as int, hh, old_placed, kind, 0)
                            == Some(c as int));
                        assert((placed@, skipped@) == spec_wonder_rounds(
                            s,
                            shape,
                            w as int,
                            hh,
                            kidx as int + 1,
                        ));
                    }
                },
                None => {
                    skipped.push(kind);
                    proof {
                        assert(spec_site_from(s, shape, w as int, hh, placed@, kind, 0) is None);
                        assert((placed@, skipped@) == spec_wonder_rounds(
                            s,
                            shape,
                            w as int,
                            hh,
                            kidx as int + 1,
                        ));
                    }
                },
            }
            kidx = kidx + 1;
        }
        (placed, skipped)
    }
}

/// The wonder kind at position `k` of the fixed order.
fn kind_at(k: u32) -> (r: WonderKind)
    requires
        k < 5,
    ensures
        r == spec_kind_at(k as int),
{
    if k == 0 {
        WonderKind::HighPeak
    } else if k == 1 {
        WonderKind::MountainVale
    } else if k == 2 {
        WonderKind::CraterLake
    } else if k == 3 {
        WonderKind::OldForest
    } else {
        WonderKind::SunkenReef
    }
}

/// Whether tile `i` carries no wonder yet.
fn wonder_free(grid: &Grid, i: usize) -> (r: bool)
    requires
        grid.wf(),
        i < grid@.len(),
    ensures
        r == (grid@[i as int].wonder is None),
{
    grid.tile(i).wonder.is_none()
}

/// Whether tile `i` suits `kind`'s rule; `s` is the pre-stage view, whose
/// terrain the current grid still carries.
fn suitable_at(grid: &Grid, Ghost(s): Ghost<Seq<Tile>>, i: usize, kind: WonderKind) -> (r: bool)
    requires
        grid.wf(),
        i < grid@.len(),
        s.len() == grid@.len(),
        forall|k: int| 0 <= k < grid@.len() ==> same_but_wonder(s[k], #[trigger] grid@[k]),
    ensures
        r == wonder_suitable(
            s,
            grid.spec_shape(),
            grid.spec_width(),
            grid.spec_height(),
            i as int,
            kind,
        ),
{
    let t = *grid.tile(i);
    proof {
        assert(same_but_wonder(s[i as int], grid@[i as int]));
    }
    match kind {
        WonderKind::HighPeak => matches!(t.terrain, Some(Terrain::Mountain)),
        WonderKind::CraterLake => matches!(t.terrain, Some(Terrain::Hills)),
        WonderKind::OldForest => matches!(t.terrain, Some(Terrain::Plains)),
        WonderKind::MountainVale => {
            let land = matches!(t.terrain, Some(Terrain::Plains)) || matches!(
                t.terrain,
                Some(Terrain::Hills),
            ) || matches!(t.terrain, Some(Terrain::Mountain));
            land && neighbor_has_terrain(grid, Ghost(s), i, Terrain::Mountain)
        },
        WonderKind::SunkenReef => {
            let plains = matches!(t.terrain, Some(Terrain::Plains));
            plains && neighbor_has_terrain(grid, Ghost(s), i, Terrain::Coast)
        },
    }
}

/// Whether some neighbor of tile `i` carries terrain `want`.
fn neighbor_has_terrain(grid: &Grid, Ghost(s): Ghost<Seq<Tile>>, i: usize, want: Terrain) -> (r:
    bool)
    requires
        grid.wf(),
        i < grid@.len(),
        s.len() == grid@.len(),
        forall|k: int| 0 <= k < grid@.len() ==> same_but_wonder(s[k], #[trigger] grid@[k]),
    ensures
        r == has_neighbor_terrain(
            s,
            grid.spec_shape(),
            grid.spec_width(),
            grid.spec_height(),
            i as int,
            want,
        ),
{
    let ghost shape = grid.spec_shape();
    let ghost w = grid.spec_width();
    let ghost h = grid.spec_height();
    let mut found = false;
    let mut d: u32 = 0;
    while d < 4
        invariant
            d <= 4,
            i < grid@.len(),
            grid.wf(),
            s.len() == grid@.len(),
            shape == grid.spec_shape(),
            w == grid.spec_width(),
            h == grid.spec_height(),
            forall|k: int| 0 <= k < grid@.len() ==> same_but_wonder(s[k], #[trigger] grid@[k]),
            found ==> has_neighbor_terrain(s, shape, w, h, i as int, want),
            !found ==> forall|dd: int|
                0 <= dd < d ==> match #[trigger] spec_neighbor(shape, w, h, i as int, dd) {
                    Some(j) => s[j].terrain != Some(want),
                    None => true,
                },
        decreases 4 - d,
    {
        match grid.neighbor(i, d) {
            Some(j) => {
                proof {
                    assert(same_but_wonder(s[j as int], grid@[j as int]));
                }
                let jt = grid.tile(j);
                let is_want = match jt.terrain {
                    Some(k) => k == want,
                    None => false,
                };
                if is_want {
                    found = true;
                    proof {
                        assert(has_neighbor_terrain(s, shape, w, h, i as int, want));
                    }
                }
            },
            None => {},
        }
        d = d + 1;
    }
    found
}

/// Whether tile `i` keeps the minimum distance from every placement.
fn far_enough(grid: &Grid, placed: &Vec<(WonderKind, usize)>, i: usize) -> (r: bool)
    requires
        grid.wf(),
        i < grid@.len(),
        forall|q: int| 0 <= q < placed@.len() ==> (#[trigger] placed@[q]).1 < grid@.len(),
    ensures
        r == forall|q: int|
            0 <= q < placed@.len() ==> manhattan(
                grid.spec_width(),
                i as int,
                (#[trigger] placed@[q]).1 as int,
            ) >= MIN_WONDER_DIST,
        r ==> forall|q: int|
            0 <= q < placed@.len() ==> manhattan(
                grid.spec_width(),
                (#[trigger] placed@[q]).1 as int,
                i as int,
            ) >= MIN_WONDER_DIST,
{
    let w = grid.width() as usize;
    let mut q: usize = 0;
    let mut ok = true;
    while q < placed.len()
        invariant
            q <= placed@.len(),
            grid.wf(),
            i < grid@.len(),
            w == grid.spec_width(),
            forall|z: int| 0 <= z < placed@.len() ==> (#[trigger] placed@[z]).1 < grid@.len(),
            ok ==> forall|z: int|
                0 <= z < q ==> manhattan(w as int, i as int, (#[trigger] placed@[z]).1 as int)
                    >= MIN_WONDER_DIST,
            !ok ==> exists|z: int|
                0 <= z < placed@.len() && manhattan(
                    w as int,
                    i as int,
                    (#[trigger] placed@[z]).1 as int,
                ) < MIN_WONDER_DIST,
        decreases placed@.len() - q,
    {
        let other = placed[q].1;
        let xa = i % w;
        let ya = i / w;
        let xb = other % w;
        let yb = other / w;
        let dx = if xa >= xb {
            xa - xb
        } else {
            xb - xa
        };
        let dy = if ya >= yb {
            ya - yb
        } else {
            yb - ya
        };
        if dx < MIN_WONDER_DIST as usize && dy < MIN_WONDER_DIST as usize && dx + dy
            < MIN_WONDER_DIST as usize {
            ok = false;
        }
        q = q + 1;
    }
    proof {
        if ok {
            assert forall|q2: int| 0 <= q2 < placed@.len() implies manhattan(
                grid.spec_width(),
                (#[trigger] placed@[q2]).1 as int,
                i as int,
            ) >= MIN_WONDER_DIST by {
                assert(manhattan(w as int, i as int, placed@[q2].1 as int) >= MIN_WONDER_DIST);
            }
        }
    }
    ok
}

} // verus!
