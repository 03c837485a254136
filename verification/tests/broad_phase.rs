use physics_engine::broad_phase::{GridCoord, UniformGridBroadPhase};

/// The cell of a position on a grid of the given cell size.
fn cell_at(x: f32, y: f32, z: f32, cell_size: f32) -> GridCoord {
    GridCoord {
        x: (x / cell_size).floor() as i32,
        y: (y / cell_size).floor() as i32,
        z: (z / cell_size).floor() as i32,
    }
}

/// Puts the pair in ascending order, so that answers can be compared.
fn ordered(pair: (usize, usize)) -> (usize, usize) {
    if pair.0 <= pair.1 {
        pair
    } else {
        (pair.1, pair.0)
    }
}

fn sorted_pairs(grid: &UniformGridBroadPhase) -> Vec<(usize, usize)> {
    let mut pairs: Vec<(usize, usize)> =
        grid.get_potential_pairs().into_iter().map(ordered).collect();
    pairs.sort();
    pairs
}

#[test]
fn test_neighbor_coords() {
    let grid = UniformGridBroadPhase::new();
    let coord = GridCoord { x: 0, y: 0, z: 0 };
    let neighbors = grid.get_neighbor_coords(&coord);
    assert_eq!(neighbors.len(), 27); // 3^3 = 27 neighbors in 3D
}

#[test]
fn test_are_neighbor_cells() {
    let a = GridCoord { x: 0, y: 0, z: 0 };
    let b = GridCoord { x: 1, y: 1, z: 1 };
    assert!(UniformGridBroadPhase::are_neighbor_cells(&a, &b));

    let c = GridCoord { x: 2, y: 2, z: 2 };
    assert!(!UniformGridBroadPhase::are_neighbor_cells(&a, &c));
}

#[test]
fn test_grid_coord_computation() {
    let mut grid = UniformGridBroadPhase::new();
    let cells = vec![
        cell_at(3.0, 4.0, 5.0, 2.0),    // Cell (1,2,2)
        cell_at(-3.0, -4.0, -5.0, 2.0), // Cell (-2,-2,-3)
    ];
    assert_eq!(cells[0], GridCoord { x: 1, y: 2, z: 2 });
    assert_eq!(cells[1], GridCoord { x: -2, y: -2, z: -3 });

    grid.update(&cells);
    let pairs = grid.get_potential_pairs();

    // Bodies are far apart (more than 2 cells away), should not generate pairs
    assert!(pairs.is_empty());
}

#[test]
fn test_neighbor_computation() {
    let mut grid = UniformGridBroadPhase::new();
    let cells = vec![
        cell_at(1.0, 1.0, 1.0, 2.0), // Cell (0,0,0)
        cell_at(3.0, 1.0, 1.0, 2.0), // Cell (1,0,0) - adjacent to the first
        cell_at(5.0, 1.0, 1.0, 2.0), // Cell (2,0,0) - not adjacent to the first
    ];

    grid.update(&cells);
    let pairs = grid.get_potential_pairs();

    assert_eq!(pairs.len(), 2);
    assert_eq!(sorted_pairs(&grid), vec![(0, 1), (1, 2)]);
}

#[test]
fn test_body_insertion() {
    let mut grid = UniformGridBroadPhase::new();
    let cells = vec![
        cell_at(1.0, 1.0, 1.0, 2.0),    // Cell (0,0,0)
        cell_at(5.0, 5.0, 5.0, 2.0),    // Cell (2,2,2)
        cell_at(-3.0, -3.0, -3.0, 2.0), // Cell (-2,-2,-2)
    ];

    grid.update(&cells);
    let pairs = grid.get_potential_pairs();

    // Since bodies are more than one cell apart, no pairs should be generated
    assert!(pairs.is_empty());
    assert_eq!(grid.body_count(), 3);
    assert_eq!(grid.cell_of(1), Some(GridCoord { x: 2, y: 2, z: 2 }));
    assert_eq!(grid.cell_of(3), None);
}

#[test]
fn test_collision_pair_generation() {
    let mut grid = UniformGridBroadPhase::new();
    let cells = vec![
        cell_at(1.0, 1.0, 1.0, 2.0), // Cell (0,0,0)
        cell_at(1.5, 1.5, 1.5, 2.0), // Cell (0,0,0)
        cell_at(3.0, 3.0, 3.0, 2.0), // Cell (1,1,1)
    ];

    grid.update(&cells);
    let pairs = grid.get_potential_pairs();

    // One pair in the shared cell, and the diagonal neighbour pairs with both
    assert_eq!(pairs.len(), 3);
    assert_eq!(sorted_pairs(&grid), vec![(0, 1), (0, 2), (1, 2)]);
}

#[test]
fn test_boundary_cases() {
    let mut grid = UniformGridBroadPhase::new();
    let cells = vec![
        cell_at(2.0, 2.0, 2.0, 2.0), // Exactly on cell boundary
        cell_at(2.1, 2.1, 2.1, 2.0), // Just over boundary
        cell_at(1.9, 1.9, 1.9, 2.0), // Just under boundary
    ];

    grid.update(&cells);
    let pairs = grid.get_potential_pairs();

    assert_eq!(pairs.len(), 3); // Should get all possible pairs
}

#[test]
fn test_empty_grid() {
    let mut grid = UniformGridBroadPhase::new();
    let cells: Vec<GridCoord> = Vec::new();

    grid.update(&cells);
    let pairs = grid.get_potential_pairs();

    assert!(pairs.is_empty());
}

#[test]
fn test_single_body() {
    let mut grid = UniformGridBroadPhase::new();
    let cells = vec![cell_at(1.0, 1.0, 1.0, 2.0)];

    grid.update(&cells);
    let pairs = grid.get_potential_pairs();

    assert!(pairs.is_empty());
}

#[test]
fn neighbor_coords_are_ordered_by_step() {
    let grid = UniformGridBroadPhase::new();
    let neighbors = grid.get_neighbor_coords(&GridCoord { x: 4, y: -7, z: 0 });
    assert_eq!(neighbors[0], GridCoord { x: 3, y: -8, z: -1 });
    assert_eq!(neighbors[1], GridCoord { x: 3, y: -8, z: 0 });
    assert_eq!(neighbors[3], GridCoord { x: 3, y: -7, z: -1 });
    assert_eq!(neighbors[9], GridCoord { x: 4, y: -8, z: -1 });
    assert_eq!(neighbors[13], GridCoord { x: 4, y: -7, z: 0 });
    assert_eq!(neighbors[26], GridCoord { x: 5, y: -6, z: 1 });
    for (t, n) in neighbors.iter().enumerate() {
        assert!(UniformGridBroadPhase::are_neighbor_cells(&neighbors[13], n));
        assert!(neighbors.iter().position(|m| m == n) == Some(t));
    }
}

#[test]
fn neighbor_test_does_not_overflow_at_the_extremes() {
    let low = GridCoord { x: i32::MIN, y: 0, z: 0 };
    let high = GridCoord { x: i32::MAX, y: 0, z: 0 };
    let next = GridCoord { x: i32::MAX - 1, y: 1, z: -1 };
    assert!(!UniformGridBroadPhase::are_neighbor_cells(&low, &high));
    assert!(!UniformGridBroadPhase::are_neighbor_cells(&high, &low));
    assert!(UniformGridBroadPhase::are_neighbor_cells(&high, &next));
    assert!(UniformGridBroadPhase::are_neighbor_cells(&low, &low));
}

#[test]
fn lattice_interior_body_has_26_partners() {
    // 5 x 5 x 5 bodies, one cell apart; body index = 25 x + 5 y + z.
    let mut cells = Vec::new();
    for x in 0..5 {
        for y in 0..5 {
            for z in 0..5 {
                cells.push(GridCoord { x, y, z });
            }
        }
    }
    let mut grid = UniformGridBroadPhase::new();
    grid.update(&cells);
    let pairs = sorted_pairs(&grid);

    let partners_of = |body: usize| -> Vec<usize> {
        let mut found: Vec<usize> = pairs
            .iter()
            .filter(|p| p.0 == body || p.1 == body)
            .map(|p| if p.0 == body { p.1 } else { p.0 })
            .collect();
        found.sort();
        found
    };

    // Interior point (2,2,2): exactly its 26 geometric neighbours.
    let centre = 25 * 2 + 5 * 2 + 2;
    let mut expected = Vec::new();
    for x in 1..4 {
        for y in 1..4 {
            for z in 1..4 {
                let body = 25 * x + 5 * y + z;
                if body != centre {
                    expected.push(body);
                }
            }
        }
    }
    expected.sort();
    assert_eq!(expected.len(), 26);
    assert_eq!(partners_of(centre), expected);

    // Every interior point has 26 partners, a corner has 7.
    for x in 1..4 {
        for y in 1..4 {
            for z in 1..4 {
                assert_eq!(partners_of(25 * x + 5 * y + z).len(), 26);
            }
        }
    }
    assert_eq!(partners_of(0).len(), 7);

    // Unordered neighbouring cell pairs of a 5^3 lattice: (13^3 - 125) / 2.
    assert_eq!(pairs.len(), 1036);
    let mut unique = pairs.clone();
    unique.dedup();
    assert_eq!(unique.len(), pairs.len());
}

#[test]
fn lattice_of_a_thousand_bodies() {
    let mut cells = Vec::new();
    for x in 0..10 {
        for y in 0..10 {
            for z in 0..10 {
                cells.push(cell_at(x as f32 * 2.0, y as f32 * 2.0, z as f32 * 2.0, 2.0));
            }
        }
    }
    let mut grid = UniformGridBroadPhase::new();
    grid.update(&cells);
    let pairs = sorted_pairs(&grid);
    // Unordered neighbouring cell pairs of a 10^3 lattice: (28^3 - 1000) / 2.
    assert_eq!(pairs.len(), 10476);
    let mut unique = pairs.clone();
    unique.dedup();
    assert_eq!(unique.len(), 10476);
}

#[test]
fn isolated_body_yields_no_pairs() {
    let mut cells = vec![
        GridCoord { x: 0, y: 0, z: 0 },
        GridCoord { x: 0, y: 1, z: 0 },
        GridCoord { x: 1, y: 1, z: 1 },
    ];
    cells.push(GridCoord { x: 100, y: -50, z: 7 });
    let mut grid = UniformGridBroadPhase::new();
    grid.update(&cells);
    let pairs = sorted_pairs(&grid);
    assert_eq!(pairs, vec![(0, 1), (0, 2), (1, 2)]);
    assert!(pairs.iter().all(|p| p.0 != 3 && p.1 != 3));
}

#[test]
fn update_rebuilds_from_scratch() {
    let mut grid = UniformGridBroadPhase::new();
    grid.update(&[GridCoord { x: 0, y: 0, z: 0 }, GridCoord { x: 0, y: 0, z: 0 }]);
    assert_eq!(sorted_pairs(&grid), vec![(0, 1)]);
    grid.update(&[GridCoord { x: 0, y: 0, z: 0 }, GridCoord { x: 5, y: 0, z: 0 }]);
    assert!(grid.get_potential_pairs().is_empty());
    assert_eq!(grid.body_count(), 2);
    grid.update(&[]);
    assert_eq!(grid.body_count(), 0);
    assert_eq!(grid.cell_of(0), None);
}

#[test]
fn shared_cell_and_neighbours_are_each_paired_once() {
    // Two bodies in one cell, two in the next, one far away.
    let cells = vec![
        GridCoord { x: 0, y: 0, z: 0 },
        GridCoord { x: 1, y: 0, z: 0 },
        GridCoord { x: 0, y: 0, z: 0 },
        GridCoord { x: 1, y: 0, z: 0 },
        GridCoord { x: -9, y: 0, z: 0 },
    ];
    let mut grid = UniformGridBroadPhase::new();
    grid.update(&cells);
    assert_eq!(
        sorted_pairs(&grid),
        vec![(0, 1), (0, 2), (0, 3), (1, 2), (1, 3), (2, 3)]
    );
}
