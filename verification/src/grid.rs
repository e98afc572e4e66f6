//! The shared tile grid: the one data structure every pipeline stage reads
//! and writes, in a fixed row-major layout (index = y * width + x).

use vstd::prelude::*;
use crate::config::MapShape;
use crate::config::MAX_DIM;

verus! {

/// Terrain classification of a tile once the landmass stage has run.
#[derive(Clone, Copy, Debug, PartialEq, Eq, Structural)]
pub enum Terrain {
    /// Water not adjacent to land.
    Ocean,
    /// Water with at least one land neighbor.
    Coast,
    /// Low land.
    Plains,
    /// Middle elevation band of land.
    Hills,
    /// Highest elevation band of land.
    Mountain,
}

/// Whether a terrain is land (any of the three land bands).
pub open spec fn is_land(t: Terrain) -> bool {
    t == Terrain::Plains || t == Terrain::Hills || t == Terrain::Mountain
}

/// Whether a tile has been classified as land.
pub open spec fn is_land_tile(t: Tile) -> bool {
    match t.terrain {
        Some(k) => is_land(k),
        None => false,
    }
}

/// Whether a tile has been classified as water (ocean or coast).
pub open spec fn is_water_tile(t: Tile) -> bool {
    t.terrain == Some(Terrain::Ocean) || t.terrain == Some(Terrain::Coast)
}

/// A placeable resource.
#[derive(Clone, Copy, Debug, PartialEq, Eq, Structural)]
pub enum ResourceKind {
    /// Strategic; placed on hills.
    Iron,
    /// Strategic; placed on plains.
    Horses,
    /// Bonus; placed on plains.
    Wheat,
    /// Bonus; placed on mountains.
    Stone,
}

/// Whether a resource counts toward the per-region strategic guarantee.
pub open spec fn is_strategic(k: ResourceKind) -> bool {
    k == ResourceKind::Iron || k == ResourceKind::Horses
}

/// A natural wonder kind, in the fixed placement order.
#[derive(Clone, Copy, Debug, PartialEq, Eq, Structural)]
pub enum WonderKind {
    /// Needs a mountain tile.
    HighPeak,
    /// Needs a land tile adjacent to a mountain.
    MountainVale,
    /// Needs a hills tile.
    CraterLake,
    /// Needs a plains tile.
    OldForest,
    /// Needs a plains tile adjacent to coast water.
    SunkenReef,
}

/// One map cell. Elevation is fixed point in [0, 2000] (1000 is the noise
/// zero level); fields besides elevation stay unset until their stage runs.
#[derive(Clone, Copy, Debug, PartialEq, Eq, Structural)]
pub struct Tile {
    /// Fixed-point elevation in [0, 2000].
    pub elevation: u32,
    /// Terrain class, set by the landmass stage.
    pub terrain: Option<Terrain>,
    /// Resource on this tile, set by the resource stage.
    pub resource: Option<ResourceKind>,
    /// Quantity of the resource; 0 while no resource is placed.
    pub resource_quantity: u32,
    /// Whether a river crosses this tile, set by the river stage.
    pub has_river: bool,
    /// Region id, set by the partitioner for land tiles.
    pub region: Option<u32>,
    /// Natural wonder on this tile, set by the wonder stage.
    pub wonder: Option<WonderKind>,
}

impl Tile {
    /// A tile before any stage has touched it.
    pub fn unset() -> (r: Tile)
        ensures
            r == Tile::spec_unset(),
    {
        Tile {
            elevation: 0,
            terrain: None,
            resource: None,
            resource_quantity: 0,
            has_river: false,
            region: None,
            wonder: None,
        }
    }

    /// The untouched tile value.
    pub open spec fn spec_unset() -> Tile {
        Tile {
            elevation: 0,
            terrain: None,
            resource: None,
            resource_quantity: 0,
            has_river: false,
            region: None,
            wonder: None,
        }
    }
}

/// Neighbor directions, in the fixed tie-break order the river walk uses:
/// west, east, north, south.
pub const DIRECTIONS: u32 = 4;

/// Row-major index of the neighbor of tile `i` in direction `d`, or `None`
/// at a boundary the shape does not wrap. A cylindrical map wraps west-east;
/// north and south never wrap.
pub open spec fn spec_neighbor(shape: MapShape, w: int, h: int, i: int, d: int) -> Option<int> {
    let x = i % w;
    let y = i / w;
    if d == 0 {
        if x > 0 {
            Some(i - 1)
        } else if shape == MapShape::Cylindrical && w > 1 {
            Some(i + w - 1)
        } else {
            None
        }
    } else if d == 1 {
        if x < w - 1 {
            Some(i + 1)
        } else if shape == MapShape::Cylindrical && w > 1 {
            Some(i - (w - 1))
        } else {
            None
        }
    } else if d == 2 {
        if y > 0 {
            Some(i - w)
        } else {
            None
        }
    } else {
        if y < h - 1 {
            Some(i + w)
        } else {
            None
        }
    }
}

/// The tile grid: fixed dimensions for the run, tiles in row-major order.
/// Its view is the tile sequence.
#[derive(Debug, PartialEq, Eq)]
pub struct Grid {
    width: u32,
    height: u32,
    shape: MapShape,
    tiles: Vec<Tile>,
}

impl View for Grid {
    type V = Seq<Tile>;

    closed spec fn view(&self) -> Seq<Tile> {
        self.tiles@
    }
}

impl Grid {
    /// Tiles per row.
    pub closed spec fn spec_width(&self) -> int {
        self.width as int
    }

    /// Number of rows.
    pub closed spec fn spec_height(&self) -> int {
        self.height as int
    }

    /// Boundary behaviour.
    pub closed spec fn spec_shape(&self) -> MapShape {
        self.shape
    }

    /// Well-formedness: positive bounded dimensions and one tile per cell.
    pub open spec fn wf(&self) -> bool {
        &&& 1 <= self.spec_width() <= MAX_DIM
        &&& 1 <= self.spec_height() <= MAX_DIM
        &&& self@.len() == self.spec_width() * self.spec_height()
    }

    /// A grid of untouched tiles.
    pub fn new(width: u32, height: u32, shape: MapShape) -> (r: Grid)
        requires
            1 <= width <= MAX_DIM,
            1 <= height <= MAX_DIM,
        ensures
            r.wf(),
            r.spec_width() == width,
            r.spec_height() == height,
            r.spec_shape() == shape,
            r@.len() == width * height,
            forall|i: int| 0 <= i < r@.len() ==> r@[i] == Tile::spec_unset(),
    {
        proof {
            assert((width as int) * (height as int) <= 512 * 512) by (nonlinear_arith)
                requires
                    width <= 512,
                    height <= 512,
            ;
        }
        let count = (width as usize) * (height as usize);
        let mut tiles: Vec<Tile> = Vec::new();
        let mut i: usize = 0;
        while i < count
            invariant
                i <= count,
                tiles@.len() == i,
                forall|k: int| 0 <= k < i ==> tiles@[k] == Tile::spec_unset(),
            decreases count - i,
        {
            tiles.push(Tile::unset());
            i = i + 1;
        }
        Grid { width, height, shape, tiles }
    }

    /// Tiles per row.
    pub fn width(&self) -> (r: u32)
        ensures
            r == self.spec_width(),
    {
        self.width
    }

    /// Number of rows.
    pub fn height(&self) -> (r: u32)
        ensures
            r == self.spec_height(),
    {
        self.height
    }

    /// Boundary behaviour.
    pub fn shape(&self) -> (r: MapShape)
        ensures
            r == self.spec_shape(),
    {
        self.shape
    }

    /// Number of tiles.
    pub fn len(&self) -> (r: usize)
        ensures
            r == self@.len(),
    {
        self.tiles.len()
    }

    /// Row-major index of `(x, y)`.
    pub fn index_of(&self, x: u32, y: u32) -> (r: usize)
        requires
            self.wf(),
            x < self.spec_width(),
            y < self.spec_height(),
        ensures
            r == y * self.spec_width() + x,
            r < self@.len(),
    {
        proof {
            assert((y as int) * self.spec_width() + (x as int) < self.spec_width()
                * self.spec_height()) by (nonlinear_arith)
                requires
                    0 <= x < self.spec_width(),
                    0 <= y < self.spec_height(),
            ;
            assert((y as int) * self.spec_width() >= 0) by (nonlinear_arith)
                requires
                    0 <= y,
                    0 < self.spec_width(),
            ;
            assert(self.spec_width() * self.spec_height() <= 512 * 512) by (nonlinear_arith)
                requires
                    self.spec_width() <= 512,
                    self.spec_height() <= 512,
            ;
        }
        (y as usize) * (self.width as usize) + (x as usize)
    }

    /// Read-only access to the tile at row-major index `i`.
    pub fn tile(&self, i: usize) -> (r: &Tile)
        requires
            i < self@.len(),
        ensures
            *r == self@[i as int],
    {
        &self.tiles[i]
    }

    /// Replaces the tile at index `i`; everything else is unchanged.
    pub fn set_tile(&mut self, i: usize, t: Tile)
        requires
            i < old(self)@.len(),
        ensures
            final(self)@ == old(self)@.update(i as int, t),
            final(self).spec_width() == old(self).spec_width(),
            final(self).spec_height() == old(self).spec_height(),
            final(self).spec_shape() == old(self).spec_shape(),
    {
        self.tiles.set(i, t);
    }

    /// Neighbor index of tile `i` in direction `d` (0 west, 1 east,
    /// 2 north, 3 south), as `spec_neighbor` lays it down.
    pub fn neighbor(&self, i: usize, d: u32) -> (r: Option<usize>)
        requires
            self.wf(),
            i < self@.len(),
            d < DIRECTIONS,
        ensures
            r is Some ==> spec_neighbor(
                self.spec_shape(),
                self.spec_width(),
                self.spec_height(),
                i as int,
                d as int,
            ) == Some(r->Some_0 as int),
            r is None ==> spec_neighbor(
                self.spec_shape(),
                self.spec_width(),
                self.spec_height(),
                i as int,
                d as int,
            ) is None,
            r is Some ==> r->Some_0 < self@.len(),
    {
        let w = self.width as usize;
        let x = i % w;
        let y = i / w;
        proof {
            let wi = w as int;
            let hh = self.spec_height();
            let ii = i as int;
            vstd::arithmetic::div_mod::lemma_fundamental_div_mod(ii, wi);
            let qq = ii / wi;
            let rr = ii % wi;
            assert(0 <= qq && qq < hh && ii >= rr && (qq >= 1 ==> ii >= wi)) by (nonlinear_arith)
                requires
                    ii == wi * qq + rr,
                    0 <= rr < wi,
                    0 <= ii < wi * hh,
                    0 < wi,
            ;
            assert(wi * hh <= 512 * 512) by (nonlinear_arith)
                requires
                    0 <= wi <= 512,
                    0 <= hh <= 512,
            ;
            assert(qq <= hh - 2 ==> ii + wi < wi * hh) by (nonlinear_arith)
                requires
                    ii == wi * qq + rr,
                    0 <= rr < wi,
                    0 < wi,
            ;
            assert(qq <= hh - 1 && rr == 0 ==> ii + wi - 1 < wi * hh) by (nonlinear_arith)
                requires
                    ii == wi * qq + rr,
                    0 <= rr < wi,
                    0 < wi,
            ;
            assert(qq <= hh - 1 && rr < wi - 1 ==> ii + 1 < wi * hh) by (nonlinear_arith)
                requires
                    ii == wi * qq + rr,
                    0 <= rr < wi,
                    0 < wi,
            ;
        }
        if d == 0 {
            if x > 0 {
                Some(i - 1)
            } else if self.width > 1 && matches!(self.shape, MapShape::Cylindrical) {
                Some(i + w - 1)
            } else {
                None
            }
        } else if d == 1 {
            if x < w - 1 {
                Some(i + 1)
            } else if self.width > 1 && matches!(self.shape, MapShape::Cylindrical) {
                Some(i - (w - 1))
            } else {
                None
            }
        } else if d == 2 {
            if y > 0 {
                Some(i - w)
            } else {
                None
            }
        } else {
            if y + 1 < self.height as usize {
                Some(i + w)
            } else {
                None
            }
        }
    }
}

/// A river: the row-major indices of the tiles its course crosses, from the
/// source down to the terminus.
#[derive(Debug, PartialEq, Eq)]
pub struct River {
    /// Tile indices from source to terminus.
    pub tiles: Vec<usize>,
}

} // verus!
