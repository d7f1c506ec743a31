//! Tests of the phase state machine and of the whole generation pipeline,
//! driven tick by tick as a scheduler would drive it.

use plategen::states::WorldGenState as S;
use plategen::states::{next_state, GameState, WorldGenState};
use plategen::surface::SurfaceLabel;
use plategen::vector::Vec3i;
use plategen::worldgen::WorldGen;

fn torus(w: usize, h: usize) -> plategen::graph::CellGraph {
    let mut neighbors = Vec::new();
    let mut centers = Vec::new();
    for r in 0..h {
        for c in 0..w {
            neighbors.push(vec![
                r * w + (c + w - 1) % w,
                r * w + (c + 1) % w,
                ((r + h - 1) % h) * w + c,
                ((r + 1) % h) * w + c,
            ]);
            centers.push(Vec3i {
                x: c as i64 - (w as i64) / 2,
                y: r as i64 - (h as i64) / 2,
                z: 5,
            });
        }
    }
    plategen::graph::CellGraph::new(neighbors, centers).expect("torus is well formed")
}

fn fixed_omegas(k: usize) -> Vec<Vec3i> {
    (0..k)
        .map(|r| Vec3i {
            x: 1 + r as i64,
            y: 2 * r as i64 - 3,
            z: 7 - r as i64,
        })
        .collect()
}

/// Runs the pipeline to `JustChill`, confirming at every gate.
fn run_generation(w: usize, h: usize, k: usize, ratio: usize) -> WorldGen {
    let g = torus(w, h);
    let mut world = WorldGen::new(g, k, ratio).expect("configuration is valid");
    let omegas = fixed_omegas(k);
    let mut guard = 0usize;
    while world.world_gen_state() != WorldGenState::JustChill {
        let confirm = matches!(
            world.world_gen_state(),
            WorldGenState::FinishedPlates
                | WorldGenState::FinishedPlateBoundaries
                | WorldGenState::FinishedContinents
        );
        world.tick(confirm, false, Some(&omegas));
        guard += 1;
        assert!(guard < 100_000, "generation did not reach JustChill");
    }
    world
}

#[test]
fn transition_table() {
    assert_eq!(next_state(S::SeedPlates, false, false, false), S::GenPlates);
    assert_eq!(next_state(S::GenPlates, false, true, true), S::GenPlates);
    assert_eq!(next_state(S::GenPlates, true, false, false), S::FinishedPlates);
    assert_eq!(next_state(S::FinishedPlates, true, false, false), S::FinishedPlates);
    assert_eq!(next_state(S::FinishedPlates, true, true, false), S::AssignPlateBoundaries);
    assert_eq!(next_state(S::AssignPlateBoundaries, true, false, false), S::FinishedPlateBoundaries);
    assert_eq!(next_state(S::FinishedPlateBoundaries, true, false, true), S::FinishedPlateBoundaries);
    assert_eq!(next_state(S::FinishedPlateBoundaries, true, true, false), S::GenContinents);
    assert_eq!(next_state(S::GenContinents, true, false, false), S::FinishedContinents);
    assert_eq!(next_state(S::FinishedContinents, true, false, false), S::FinishedContinents);
    assert_eq!(next_state(S::FinishedContinents, true, false, true), S::GenContinents);
    assert_eq!(next_state(S::FinishedContinents, true, true, true), S::GenPlateVelocities);
    assert_eq!(next_state(S::GenPlateVelocities, true, false, false), S::JustChill);
    assert_eq!(next_state(S::JustChill, true, false, false), S::JustChill);
    assert_eq!(next_state(S::JustChill, true, true, false), S::Finished);
    assert_eq!(next_state(S::Finished, true, true, true), S::Finished);
}

#[test]
fn new_rejects_bad_configurations() {
    assert!(WorldGen::new(torus(4, 4), 0, 3).is_none());
    assert!(WorldGen::new(torus(4, 4), 4, 0).is_none());
    let empty = plategen::graph::CellGraph::new(Vec::new(), Vec::new()).expect("empty is valid");
    assert!(WorldGen::new(empty, 4, 3).is_none());
    assert!(WorldGen::new(torus(4, 4), 4, 3).is_some());
    // more plates than cells is degenerate but recovered, not refused
    assert!(WorldGen::new(torus(4, 4), 17, 3).is_some());
}

#[test]
fn more_plates_than_cells_is_recovered() {
    // K = 20 on 16 cells: every cell becomes a seed of its own plate and
    // the surplus plates stay empty; the run still completes.
    let g = torus(4, 4);
    let mut world = WorldGen::new(g, 20, 3).expect("degenerate but usable");
    let mut guard = 0usize;
    while world.world_gen_state() != WorldGenState::FinishedPlates {
        world.tick(false, false, None);
        guard += 1;
        assert!(guard < 100_000);
    }
    let mut sizes = vec![0usize; 20];
    for c in 0..16 {
        let p = world.region_id(c).expect("every cell is assigned");
        sizes[p.0] += 1;
    }
    assert_eq!(sizes.iter().filter(|&&s| s == 1).count(), 16);
    assert_eq!(sizes.iter().filter(|&&s| s == 0).count(), 4);
}

#[test]
fn scenario_four_plates_on_twenty_four_cells() {
    // K = 4 on a 24-cell graph: run Stage B to completion; all 24 cells
    // assigned, 4 distinct plates present, each of size >= 1, sizes
    // summing to 24.
    let g = torus(6, 4);
    let mut world = WorldGen::new(g, 4, 3).expect("valid");
    world.tick(false, false, None); // seeding
    assert_eq!(world.world_gen_state(), WorldGenState::GenPlates);
    let mut guard = 0usize;
    while world.world_gen_state() == WorldGenState::GenPlates {
        world.tick(false, false, None);
        guard += 1;
        assert!(guard < 100_000);
    }
    assert_eq!(world.world_gen_state(), WorldGenState::FinishedPlates);
    let mut sizes = [0usize; 4];
    for c in 0..24 {
        let p = world.region_id(c).expect("every cell is assigned");
        sizes[p.0] += 1;
    }
    assert!(sizes.iter().all(|&s| s >= 1));
    assert_eq!(sizes.iter().sum::<usize>(), 24);
}

#[test]
fn full_generation_populates_every_cell() {
    let world = run_generation(10, 8, 6, 3);
    let n = world.num_cells();
    assert_eq!(n, 80);
    for c in 0..n {
        assert!(world.region_id(c).is_some());
        assert!(world.surface_label(c).is_some());
        assert!(world.velocity(c).is_some());
    }
    // the boundary flags agree with a naive recomputation through getters
    for c in 0..n {
        let own = world.region_id(c).unwrap();
        let g = torus(10, 8);
        let mut expect = false;
        for j in 0..g.degree(c) {
            if world.region_id(g.neighbor(c, j)).unwrap() != own {
                expect = true;
            }
        }
        assert_eq!(world.is_boundary(c), expect);
    }
}

#[test]
fn ocean_plate_count_is_third_of_k() {
    let world = run_generation(10, 6, 9, 3);
    let mut ocean_plates = std::collections::BTreeSet::new();
    let mut land_plates = std::collections::BTreeSet::new();
    for c in 0..world.num_cells() {
        let p = world.region_id(c).unwrap().0;
        match world.surface_label(c).unwrap() {
            SurfaceLabel::Sea => {
                ocean_plates.insert(p);
            }
            SurfaceLabel::Land => {
                land_plates.insert(p);
            }
        }
    }
    // no plate carries both labels, and exactly floor(9/3) are ocean
    assert!(ocean_plates.is_disjoint(&land_plates));
    assert_eq!(ocean_plates.len(), 3);
}

#[test]
fn reset_keeps_assignment_and_boundaries() {
    let g = torus(8, 6);
    let k = 6usize;
    let mut world = WorldGen::new(g, k, 3).expect("valid");
    let omegas = fixed_omegas(k);
    let mut guard = 0usize;
    while world.world_gen_state() != WorldGenState::FinishedContinents {
        let confirm = matches!(
            world.world_gen_state(),
            WorldGenState::FinishedPlates | WorldGenState::FinishedPlateBoundaries
        );
        world.tick(confirm, false, Some(&omegas));
        guard += 1;
        assert!(guard < 100_000);
    }
    let n = world.num_cells();
    let regions: Vec<_> = (0..n).map(|c| world.region_id(c)).collect();
    let bounds: Vec<_> = (0..n).map(|c| world.is_boundary(c)).collect();
    for _ in 0..3 {
        // reset: back to GenContinents with labels cleared
        world.tick(false, true, None);
        assert_eq!(world.world_gen_state(), WorldGenState::GenContinents);
        for c in 0..n {
            assert!(world.surface_label(c).is_none());
        }
        // the classifier runs again and re-establishes the ocean fraction
        world.tick(false, false, None);
        assert_eq!(world.world_gen_state(), WorldGenState::FinishedContinents);
        let mut ocean_plates = std::collections::BTreeSet::new();
        for c in 0..n {
            if world.surface_label(c) == Some(SurfaceLabel::Sea) {
                ocean_plates.insert(world.region_id(c).unwrap().0);
            }
        }
        assert_eq!(ocean_plates.len(), k / 3);
        // the assignment and the boundary flags never moved
        for c in 0..n {
            assert_eq!(world.region_id(c), regions[c]);
            assert_eq!(world.is_boundary(c), bounds[c]);
        }
    }
}

#[test]
fn velocities_wait_for_a_usable_draw() {
    let g = torus(6, 4);
    let k = 4usize;
    let mut world = WorldGen::new(g, k, 3).expect("valid");
    let mut guard = 0usize;
    while world.world_gen_state() != WorldGenState::GenPlateVelocities {
        let confirm = true;
        world.tick(confirm, false, None);
        guard += 1;
        assert!(guard < 100_000);
    }
    // no draw, a draw of the wrong arity, an unbounded draw: all hold
    world.tick(false, false, None);
    assert_eq!(world.world_gen_state(), WorldGenState::GenPlateVelocities);
    let short = fixed_omegas(k - 1);
    world.tick(false, false, Some(&short));
    assert_eq!(world.world_gen_state(), WorldGenState::GenPlateVelocities);
    let huge = vec![
        Vec3i { x: i64::MAX / 2, y: 0, z: 0 };
        k
    ];
    world.tick(false, false, Some(&huge));
    assert_eq!(world.world_gen_state(), WorldGenState::GenPlateVelocities);
    // a usable draw advances, and the field is the exact cross product
    let omegas = fixed_omegas(k);
    world.tick(false, false, Some(&omegas));
    assert_eq!(world.world_gen_state(), WorldGenState::JustChill);
    let g2 = torus(6, 4);
    for c in 0..world.num_cells() {
        let o = omegas[world.region_id(c).unwrap().0];
        let p = g2.center(c);
        let v = world.velocity(c).unwrap().velocity;
        assert_eq!(v.x, o.y * p.z - o.z * p.y);
        assert_eq!(v.y, o.z * p.x - o.x * p.z);
        assert_eq!(v.z, o.x * p.y - o.y * p.x);
        assert_eq!(v.x * p.x + v.y * p.y + v.z * p.z, 0);
    }
}

#[test]
fn finishing_enters_the_simulation() {
    let mut world = run_generation(6, 4, 4, 3);
    assert_eq!(world.game_state(), GameState::WorldGen);
    world.tick(false, false, None);
    assert_eq!(world.world_gen_state(), WorldGenState::JustChill);
    world.tick(true, false, None);
    assert_eq!(world.world_gen_state(), WorldGenState::Finished);
    assert_eq!(world.game_state(), GameState::Simulation);
    // terminal: further ticks change nothing
    world.tick(true, true, None);
    assert_eq!(world.world_gen_state(), WorldGenState::Finished);
}
