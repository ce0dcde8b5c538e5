use rand::rngs::StdRng;
use rand::SeedableRng;
use tile_grid::v2;
use tile_grid::Grid;
use tile_grid::SpawnPolicy;

fn board_of(rows: [[u64; 4]; 4]) -> Grid {
    let mut grid = Grid::empty();
    for row in 0..4 {
        for column in 0..4 {
            grid.set(&v2::new(row as i32, column as i32), rows[row][column]);
        }
    }
    grid
}

fn values_of(grid: &Grid) -> [[u64; 4]; 4] {
    let mut rows = [[0u64; 4]; 4];
    for row in 0..4 {
        for column in 0..4 {
            rows[row][column] = grid.at(&v2::new(row as i32, column as i32));
        }
    }
    rows
}

fn seeded(seed: u8) -> StdRng {
    StdRng::from_seed([seed; 32])
}

fn changed_cells(before: &[[u64; 4]; 4], after: &[[u64; 4]; 4]) -> Vec<(usize, usize)> {
    let mut cells = Vec::new();
    for row in 0..4 {
        for column in 0..4 {
            if before[row][column] != after[row][column] {
                cells.push((row, column));
            }
        }
    }
    cells
}

#[test]
fn spawn_leaves_a_full_grid_as_it_is() {
    let rows = [[2, 4, 2, 4], [4, 2, 4, 2], [2, 4, 2, 4], [4, 2, 4, 2]];
    for seed in 0..16 {
        let mut grid = board_of(rows);
        grid.insert_random_tile(&mut seeded(seed), &SpawnPolicy::even());
        assert_eq!(values_of(&grid), rows);
    }
}

#[test]
fn spawn_fills_one_empty_cell() {
    let rows = [[2, 0, 0, 4], [0, 8, 0, 0], [0, 0, 0, 0], [16, 0, 0, 2]];
    for seed in 0..64 {
        let mut grid = board_of(rows);
        grid.insert_random_tile(&mut seeded(seed), &SpawnPolicy::even());
        let after = values_of(&grid);
        let cells = changed_cells(&rows, &after);
        assert_eq!(cells.len(), 1);
        let (row, column) = cells[0];
        assert_eq!(rows[row][column], 0);
        assert!(after[row][column] == 2 || after[row][column] == 4);
    }
}

#[test]
fn spawn_fills_the_last_empty_cell() {
    let rows = [[2, 4, 2, 4], [4, 2, 4, 2], [2, 4, 0, 4], [4, 2, 4, 2]];
    for seed in 0..32 {
        let mut grid = board_of(rows);
        assert!(!grid.is_full());
        grid.insert_random_tile(&mut seeded(seed), &SpawnPolicy::even());
        assert!(grid.is_full());
        assert_eq!(changed_cells(&rows, &values_of(&grid)), vec![(2, 2)]);
    }
}

#[test]
fn spawn_reaches_more_than_one_cell_and_both_values() {
    let mut cells = Vec::new();
    let mut twos = 0;
    let mut fours = 0;
    for seed in 0..64 {
        let mut grid = Grid::empty();
        grid.insert_random_tile(&mut seeded(seed), &SpawnPolicy::even());
        let after = values_of(&grid);
        let changed = changed_cells(&[[0; 4]; 4], &after);
        assert_eq!(changed.len(), 1);
        let (row, column) = changed[0];
        if after[row][column] == 2 {
            twos += 1;
        } else {
            assert_eq!(after[row][column], 4);
            fours += 1;
        }
        if !cells.contains(&changed[0]) {
            cells.push(changed[0]);
        }
    }
    assert!(cells.len() > 1);
    assert!(twos > 0);
    assert!(fours > 0);
}

#[test]
fn spawn_follows_the_seed() {
    for seed in 0..8 {
        let mut first = Grid::empty();
        let mut second = Grid::empty();
        let mut first_rng = seeded(seed);
        let mut second_rng = seeded(seed);
        for _ in 0..16 {
            first.insert_random_tile(&mut first_rng, &SpawnPolicy::even());
            second.insert_random_tile(&mut second_rng, &SpawnPolicy::even());
            assert_eq!(values_of(&first), values_of(&second));
        }
        assert!(first.is_full());
    }
}

#[test]
fn a_policy_without_fours_spawns_twos() {
    let policy = SpawnPolicy::new(0, 10).unwrap();
    let mut rng = seeded(3);
    let mut grid = Grid::empty();
    for _ in 0..16 {
        grid.insert_random_tile(&mut rng, &policy);
    }
    assert_eq!(values_of(&grid), [[2; 4]; 4]);
}

#[test]
fn a_policy_of_fours_spawns_fours() {
    let policy = SpawnPolicy::new(10, 10).unwrap();
    let mut rng = seeded(4);
    let mut grid = Grid::empty();
    for _ in 0..16 {
        grid.insert_random_tile(&mut rng, &policy);
    }
    assert_eq!(values_of(&grid), [[4; 4]; 4]);
}

#[test]
fn a_policy_needs_a_chance() {
    assert!(SpawnPolicy::new(0, 0).is_none());
    assert!(SpawnPolicy::new(1, 0).is_none());
    assert!(SpawnPolicy::new(3, 2).is_none());
    let tenth = SpawnPolicy::new(1, 10).unwrap();
    assert_eq!(tenth.fours(), 1);
    assert_eq!(tenth.out_of(), 10);
    let even = SpawnPolicy::even();
    assert_eq!(even.fours(), 1);
    assert_eq!(even.out_of(), 2);
}

#[test]
fn a_policy_gives_fours_for_the_first_rolls() {
    let policy = SpawnPolicy::new(3, 10).unwrap();
    assert_eq!(policy.tile_for(0), 4);
    assert_eq!(policy.tile_for(2), 4);
    assert_eq!(policy.tile_for(3), 2);
    assert_eq!(policy.tile_for(9), 2);
    let even = SpawnPolicy::even();
    assert_eq!(even.tile_for(0), 4);
    assert_eq!(even.tile_for(1), 2);
}

#[test]
fn place_tile_counts_the_empty_cells_row_by_row() {
    let rows = [[2, 0, 0, 4], [0, 8, 0, 0], [0, 0, 0, 0], [16, 0, 0, 2]];
    let mut first = board_of(rows);
    assert_eq!(first.place_tile(0, 2), Some(v2::new(0, 1)));
    assert_eq!(first.at(&v2::new(0, 1)), 2);
    let mut third = board_of(rows);
    assert_eq!(third.place_tile(2, 4), Some(v2::new(1, 0)));
    assert_eq!(third.at(&v2::new(1, 0)), 4);
    let mut last = board_of(rows);
    assert_eq!(last.place_tile(10, 2), Some(v2::new(3, 2)));
    assert_eq!(
        values_of(&last),
        [[2, 0, 0, 4], [0, 8, 0, 0], [0, 0, 0, 0], [16, 0, 2, 2]]
    );
}

#[test]
fn place_tile_needs_an_empty_cell() {
    let rows = [[2, 0, 0, 4], [0, 8, 0, 0], [0, 0, 0, 0], [16, 0, 0, 2]];
    let mut grid = board_of(rows);
    assert_eq!(grid.place_tile(11, 2), None);
    assert_eq!(values_of(&grid), rows);
    let full = [[2, 4, 2, 4], [4, 2, 4, 2], [2, 4, 2, 4], [4, 2, 4, 2]];
    let mut grid = board_of(full);
    assert_eq!(grid.place_tile(0, 2), None);
    assert_eq!(values_of(&grid), full);
}

#[test]
fn empty_count_counts_the_empty_cells() {
    assert_eq!(Grid::empty().empty_count(), 16);
    let grid = board_of([[2, 0, 0, 4], [0, 8, 0, 0], [0, 0, 0, 0], [16, 0, 0, 2]]);
    assert_eq!(grid.empty_count(), 11);
    let full = board_of([[2, 4, 2, 4], [4, 2, 4, 2], [2, 4, 2, 4], [4, 2, 4, 2]]);
    assert_eq!(full.empty_count(), 0);
}
