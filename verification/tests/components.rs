use mapgen::config::{GenerationError, MapShape};
use mapgen::grid::{Grid, Terrain, Tile, WonderKind};
use mapgen::landmass::LandmassGenerator;
use mapgen::noise::NoiseField;
use mapgen::regions::RegionPartitioner;
use mapgen::resources::ResourcePlacer;
use mapgen::rivers::RiverGenerator;
use mapgen::rng::RandomnessProvider;
use mapgen::wonders::NaturalWonderPlacer;

fn all_plains_grid(width: u32, height: u32) -> Grid {
    let mut grid = Grid::new(width, height, MapShape::Flat);
    for i in 0..grid.len() {
        let t = *grid.tile(i);
        grid.set_tile(
            i,
            Tile {
                elevation: 1000,
                terrain: Some(Terrain::Plains),
                ..t
            },
        );
    }
    grid
}

#[test]
fn noise_sample_is_deterministic() {
    let f1 = NoiseField::new(1234);
    let f2 = NoiseField::new(1234);
    for &(x, y) in &[(0u64, 0u64), (100, 250), (7919, 104729), (1 << 20, 3 << 18)] {
        assert_eq!(f1.sample(x, y), f1.sample(x, y));
        assert_eq!(f1.sample(x, y), f2.sample(x, y));
        assert_eq!(
            f1.sample_octaves(x, y, 4, 500),
            f2.sample_octaves(x, y, 4, 500)
        );
    }
}

#[test]
fn noise_sample_stays_in_range() {
    let f = NoiseField::new(98765);
    for x in 0..64u64 {
        for y in 0..64u64 {
            let s = f.sample(x * 37, y * 91);
            assert!(-1000 <= s && s <= 1000);
            let o = f.sample_octaves(x * 37, y * 91, 6, 700);
            assert!(-1000 <= o && o <= 1000);
        }
    }
}

#[test]
fn different_seeds_give_different_noise() {
    let f1 = NoiseField::new(1);
    let f2 = NoiseField::new(2);
    let mut differs = false;
    for x in 0..32u64 {
        for y in 0..32u64 {
            if f1.sample(x * 53, y * 53) != f2.sample(x * 53, y * 53) {
                differs = true;
            }
        }
    }
    assert!(differs, "two seeds should not give identical fields");
}

#[test]
fn randomness_provider_replays_its_sequence() {
    let mut r1 = RandomnessProvider::new(99);
    let mut r2 = RandomnessProvider::new(99);
    for _ in 0..100 {
        assert_eq!(r1.next_u64(), r2.next_u64());
    }
    let mut r3 = RandomnessProvider::new(99);
    let mut r4 = RandomnessProvider::new(100);
    let mut differs = false;
    for _ in 0..100 {
        if r3.next_u64() != r4.next_u64() {
            differs = true;
        }
    }
    assert!(differs);
}

#[test]
fn next_int_respects_its_bound() {
    let mut rng = RandomnessProvider::new(5);
    for bound in 1..50u64 {
        for _ in 0..20 {
            assert!(rng.next_int(bound) < bound);
        }
    }
    let mut rng = RandomnessProvider::new(5);
    for _ in 0..100 {
        assert!(rng.next_unit() < 1000);
    }
}

#[test]
fn shuffle_keeps_the_elements() {
    let mut rng = RandomnessProvider::new(21);
    let mut v: Vec<u8> = (0..=255).collect();
    rng.shuffle(&mut v);
    assert_eq!(v.len(), 256);
    let mut seen = [false; 256];
    for &b in &v {
        seen[b as usize] = true;
    }
    assert!(seen.iter().all(|&s| s), "a shuffle permutes, losing nothing");
}

#[test]
fn tiles_are_laid_out_row_major() {
    let grid = Grid::new(7, 5, MapShape::Flat);
    assert_eq!(grid.index_of(0, 0), 0);
    assert_eq!(grid.index_of(3, 2), 2 * 7 + 3);
    assert_eq!(grid.index_of(6, 4), grid.len() - 1);
}

#[test]
fn flat_grid_has_no_west_neighbor_at_the_left_edge() {
    let grid = Grid::new(8, 8, MapShape::Flat);
    assert_eq!(grid.neighbor(0, 0), None);
    assert_eq!(grid.neighbor(0, 1), Some(1));
    assert_eq!(grid.neighbor(0, 2), None);
    assert_eq!(grid.neighbor(0, 3), Some(8));
}

#[test]
fn cylindrical_grid_wraps_west_to_east() {
    let grid = Grid::new(8, 8, MapShape::Cylindrical);
    assert_eq!(grid.neighbor(0, 0), Some(7));
    assert_eq!(grid.neighbor(7, 1), Some(0));
    assert_eq!(grid.neighbor(0, 2), None, "north never wraps");
}

#[test]
fn landmass_fails_on_an_all_zero_elevation_grid() {
    let mut grid = Grid::new(10, 10, MapShape::Flat);
    let r = LandmassGenerator::run(&mut grid, 500, 300);
    assert_eq!(r, Err(GenerationError::InsufficientLandmass));
    assert_eq!(grid.tile(0).terrain, None, "failed stage leaves the grid untouched");
}

#[test]
fn landmass_bands_follow_the_elevation_thresholds() {
    // Uniform elevation 1000 with sea level 0.5: the first threshold is
    // 1000 and drowns everything, one retreat lowers it to 900 and all
    // land appears, banded as plains. Single raised tiles land in the
    // hills and mountain bands; a zero-elevation tile next to land
    // becomes coast.
    let mut grid = Grid::new(6, 6, MapShape::Flat);
    for i in 0..grid.len() {
        let t = *grid.tile(i);
        grid.set_tile(i, Tile { elevation: 1000, ..t });
    }
    let hills_at = 14;
    let mountain_at = 21;
    let water_at = 28;
    let t = *grid.tile(hills_at);
    grid.set_tile(hills_at, Tile { elevation: 1500, ..t });
    let t = *grid.tile(mountain_at);
    grid.set_tile(mountain_at, Tile { elevation: 1800, ..t });
    let t = *grid.tile(water_at);
    grid.set_tile(water_at, Tile { elevation: 0, ..t });
    LandmassGenerator::run(&mut grid, 500, 300).expect("one retreat suffices");
    assert_eq!(grid.tile(0).terrain, Some(Terrain::Plains));
    assert_eq!(grid.tile(hills_at).terrain, Some(Terrain::Hills));
    assert_eq!(grid.tile(mountain_at).terrain, Some(Terrain::Mountain));
    assert_eq!(
        grid.tile(water_at).terrain,
        Some(Terrain::Coast),
        "water beside land is coast"
    );
}

#[test]
fn regions_fail_without_land() {
    let mut grid = Grid::new(10, 10, MapShape::Flat);
    let r = RegionPartitioner::run(&mut grid, 4);
    assert_eq!(r, Err(GenerationError::NoValidRegions));
}

#[test]
fn one_plains_block_forms_one_region() {
    let mut grid = all_plains_grid(6, 6);
    let n = RegionPartitioner::run(&mut grid, 4).expect("land exists");
    assert_eq!(n, 1, "one connected landmass cannot be split");
    for i in 0..grid.len() {
        assert_eq!(grid.tile(i).region, Some(0));
    }
}

#[test]
fn river_flows_down_a_ramp_to_the_coast() {
    let mut grid = Grid::new(5, 1, MapShape::Flat);
    let levels = [0u32, 1000, 1100, 1200, 1700];
    for i in 0..5 {
        let t = *grid.tile(i);
        grid.set_tile(
            i,
            Tile {
                elevation: levels[i],
                terrain: Some(if i == 0 { Terrain::Coast } else { Terrain::Plains }),
                ..t
            },
        );
    }
    let (rivers, skipped) = RiverGenerator::run(&mut grid);
    assert!(skipped.is_empty());
    assert_eq!(rivers.len(), 1, "the single qualifying source heads a river");
    assert_eq!(rivers[0].tiles, vec![4, 3, 2, 1, 0], "greedy downhill walk to the water");
    for i in 0..5 {
        assert!(grid.tile(i).has_river, "the whole course is marked");
    }
}

#[test]
fn stranded_source_is_skipped_not_dropped() {
    // A peak whose walk descends into a dry interior basin: the source is
    // reported as skipped, no river is returned, and no flag is set.
    let mut grid = all_plains_grid(5, 5);
    let heights: &[(usize, u32)] = &[(12, 1700), (7, 1600), (13, 1600), (17, 1600), (11, 1000), (6, 1100), (10, 1100), (16, 1100)];
    for &(i, e) in heights {
        let t = *grid.tile(i);
        grid.set_tile(i, Tile { elevation: e, ..t });
    }
    let (rivers, skipped) = RiverGenerator::run(&mut grid);
    assert!(rivers.is_empty());
    assert_eq!(skipped, vec![12], "exactly the stranded source is skipped");
    for i in 0..grid.len() {
        assert!(!grid.tile(i).has_river);
    }
}

#[test]
fn resources_reach_every_open_region_and_under_list_is_exact() {
    // A plains region can always carry a strategic resource.
    let mut grid = all_plains_grid(6, 6);
    let n = RegionPartitioner::run(&mut grid, 4).expect("land exists");
    let mut rng = RandomnessProvider::new(8);
    let under = ResourcePlacer::run(&mut grid, &mut rng, n, 200);
    assert!(under.is_empty(), "plains tiles can carry horses");
    let placed = (0..grid.len()).filter(|&i| grid.tile(i).resource.is_some()).count();
    assert!(placed >= 1, "an open region receives at least one resource");

    // A mountains-only region gets bonus stone but no strategic resource,
    // and is reported as under-resourced.
    let mut grid = Grid::new(4, 4, MapShape::Flat);
    for i in 0..grid.len() {
        let t = *grid.tile(i);
        grid.set_tile(
            i,
            Tile {
                elevation: 1800,
                terrain: Some(Terrain::Mountain),
                ..t
            },
        );
    }
    let n = RegionPartitioner::run(&mut grid, 2).expect("land exists");
    assert_eq!(n, 1);
    let mut rng = RandomnessProvider::new(9);
    let under = ResourcePlacer::run(&mut grid, &mut rng, n, 200);
    assert_eq!(under, vec![0], "no tile can carry a strategic resource");
    let placed = (0..grid.len()).filter(|&i| grid.tile(i).resource.is_some()).count();
    assert!(placed >= 1, "the open region still receives bonus stone");
}

#[test]
fn wonders_skip_mountain_kinds_on_a_mountainless_grid() {
    let mut grid = all_plains_grid(10, 10);
    let (placed, skipped) = NaturalWonderPlacer::run(&mut grid, 5);
    assert!(
        skipped.contains(&WonderKind::HighPeak),
        "no mountain tile, so the mountain-top kind is skipped"
    );
    assert!(
        skipped.contains(&WonderKind::MountainVale),
        "no mountain adjacency, so the vale kind is skipped"
    );
    assert!(skipped.contains(&WonderKind::CraterLake), "no hills");
    assert!(skipped.contains(&WonderKind::SunkenReef), "no coast");
    assert_eq!(placed.len(), 1, "only the plains kind fits");
    assert_eq!(placed[0].0, WonderKind::OldForest);
    assert_eq!(placed.len() + skipped.len(), 5);
    assert_eq!(
        grid.tile(placed[0].1).wonder,
        Some(WonderKind::OldForest),
        "the placement is written onto the grid"
    );
    assert_eq!(placed[0].1, 0, "the first suitable tile in row-major order");
}

#[test]
fn wonders_keep_their_distance() {
    let mut grid = all_plains_grid(12, 12);
    // Make a hills patch and a mountain so more kinds can land.
    for &i in &[30usize, 31, 42] {
        let t = *grid.tile(i);
        grid.set_tile(i, Tile { terrain: Some(Terrain::Hills), ..t });
    }
    let t = *grid.tile(100);
    grid.set_tile(100, Tile { terrain: Some(Terrain::Mountain), ..t });
    let (placed, _skipped) = NaturalWonderPlacer::run(&mut grid, 5);
    let w = 12usize;
    for a in 0..placed.len() {
        for b in 0..placed.len() {
            if a != b {
                let (xa, ya) = (placed[a].1 % w, placed[a].1 / w);
                let (xb, yb) = (placed[b].1 % w, placed[b].1 / w);
                let dist = xa.abs_diff(xb) + ya.abs_diff(yb);
                assert!(dist >= 3, "wonders keep a distance of at least 3");
            }
        }
    }
}
