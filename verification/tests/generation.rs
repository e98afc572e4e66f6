use mapgen::config::{GenerationConfig, GenerationError, MapShape};
use mapgen::generator::MapGenerator;
use mapgen::grid::Terrain;

fn land_count(m: &mapgen::generator::GeneratedMap) -> usize {
    let mut land = 0;
    for i in 0..m.grid.len() {
        match m.grid.tile(i).terrain {
            Some(Terrain::Plains) | Some(Terrain::Hills) | Some(Terrain::Mountain) => land += 1,
            _ => {}
        }
    }
    land
}

#[test]
fn same_seed_generates_identical_maps() {
    let config = GenerationConfig::standard(42, 20, 20);
    let m1 = MapGenerator::generate(&config).expect("generation succeeds");
    let m2 = MapGenerator::generate(&config).expect("generation succeeds");
    assert_eq!(m1, m2);
}

#[test]
fn scenario_seed_42_meets_land_fraction_and_assigns_all_terrain() {
    let mut config = GenerationConfig::standard(42, 20, 20);
    config.sea_level = 500;
    config.min_land_fraction = 300;
    let m = MapGenerator::generate(&config).expect("generation succeeds");
    assert_eq!(m.grid.len(), 400);
    let mut assigned = 0;
    for i in 0..m.grid.len() {
        if m.grid.tile(i).terrain.is_some() {
            assigned += 1;
        }
    }
    assert_eq!(assigned, 400, "every tile has a terrain, none unassigned");
    let land = land_count(&m);
    assert!(land * 1000 >= 300 * 400, "land fraction at least 0.3");
}

#[test]
fn rivers_are_non_increasing_in_elevation() {
    let config = GenerationConfig::standard(7, 24, 24);
    let m = MapGenerator::generate(&config).expect("generation succeeds");
    for river in &m.rivers {
        assert!(!river.tiles.is_empty());
        for w in river.tiles.windows(2) {
            let a = m.grid.tile(w[0]).elevation;
            let b = m.grid.tile(w[1]).elevation;
            assert!(b <= a, "river elevation never rises along its course");
        }
    }
}

#[test]
fn land_tiles_carry_region_ids_below_the_count() {
    let config = GenerationConfig::standard(11, 16, 16);
    let m = MapGenerator::generate(&config).expect("generation succeeds");
    assert!(m.region_count >= 1);
    for i in 0..m.grid.len() {
        let t = m.grid.tile(i);
        let land = matches!(
            t.terrain,
            Some(Terrain::Plains) | Some(Terrain::Hills) | Some(Terrain::Mountain)
        );
        assert_eq!(land, t.region.is_some());
        if let Some(id) = t.region {
            assert!(id < m.region_count);
        }
    }
}

#[test]
fn regions_are_balanced_on_comparable_landmasses() {
    // Two separate plains blocks of 12 and 20 tiles: the partitioner keeps
    // them as two regions whose sizes stay within the 3x balance bound.
    let mut grid = mapgen::grid::Grid::new(10, 10, MapShape::Flat);
    let mut make_plains = |grid: &mut mapgen::grid::Grid, x0: usize, x1: usize, y0: usize, y1: usize| {
        for y in y0..y1 {
            for x in x0..x1 {
                let i = y * 10 + x;
                let t = *grid.tile(i);
                grid.set_tile(
                    i,
                    mapgen::grid::Tile {
                        elevation: 1000,
                        terrain: Some(Terrain::Plains),
                        ..t
                    },
                );
            }
        }
    };
    make_plains(&mut grid, 1, 5, 1, 4);
    make_plains(&mut grid, 2, 7, 6, 10);
    let n = mapgen::regions::RegionPartitioner::run(&mut grid, 6).expect("land exists");
    let mut sizes = vec![0usize; n as usize];
    for i in 0..grid.len() {
        if let Some(id) = grid.tile(i).region {
            sizes[id as usize] += 1;
        }
    }
    assert_eq!(sizes.iter().sum::<usize>(), 12 + 20);
    let smallest = *sizes.iter().min().expect("at least one region");
    let largest = *sizes.iter().max().expect("at least one region");
    assert!(
        largest <= 3 * smallest,
        "no region exceeds three times the smallest (sizes {:?})",
        sizes
    );
}

#[test]
fn resources_sit_on_compatible_terrain() {
    let config = GenerationConfig::standard(3, 20, 20);
    let m = MapGenerator::generate(&config).expect("generation succeeds");
    for i in 0..m.grid.len() {
        let t = m.grid.tile(i);
        if let Some(kind) = t.resource {
            let ok = match kind {
                mapgen::grid::ResourceKind::Iron => t.terrain == Some(Terrain::Hills),
                mapgen::grid::ResourceKind::Horses => t.terrain == Some(Terrain::Plains),
                mapgen::grid::ResourceKind::Wheat => t.terrain == Some(Terrain::Plains),
                mapgen::grid::ResourceKind::Stone => t.terrain == Some(Terrain::Mountain),
            };
            assert!(ok, "resource {:?} on {:?}", kind, t.terrain);
            assert!(t.resource_quantity >= 1);
        }
    }
}

#[test]
fn invalid_config_is_rejected_up_front() {
    let mut config = GenerationConfig::standard(1, 0, 20);
    assert_eq!(
        MapGenerator::generate(&config),
        Err(GenerationError::InvalidConfig)
    );
    config = GenerationConfig::standard(1, 20, 20);
    config.sea_level = 1001;
    assert_eq!(
        MapGenerator::generate(&config),
        Err(GenerationError::InvalidConfig)
    );
    config = GenerationConfig::standard(1, 20, 20);
    config.min_land_fraction = 2000;
    assert_eq!(
        MapGenerator::generate(&config),
        Err(GenerationError::InvalidConfig)
    );
}

#[test]
fn disabled_river_stage_leaves_no_rivers() {
    let mut config = GenerationConfig::standard(5, 12, 12);
    config.rivers_enabled = false;
    let m = MapGenerator::generate(&config).expect("generation succeeds");
    assert!(m.rivers.is_empty());
    for i in 0..m.grid.len() {
        assert!(!m.grid.tile(i).has_river);
    }
}

#[test]
fn cylindrical_and_flat_maps_both_generate() {
    let mut config = GenerationConfig::standard(9, 16, 12);
    config.shape = MapShape::Cylindrical;
    let m = MapGenerator::generate(&config).expect("cylindrical generation succeeds");
    assert_eq!(m.grid.width(), 16);
    assert_eq!(m.grid.height(), 12);
    config.shape = MapShape::Flat;
    MapGenerator::generate(&config).expect("flat generation succeeds");
}
