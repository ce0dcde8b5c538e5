use rand::rngs::StdRng;
use rand::SeedableRng;
use std::collections::VecDeque;
use tile_grid::make_moves;
use tile_grid::v2;
use tile_grid::Direction;
use tile_grid::Grid;
use tile_grid::SpawnPolicy;

fn game_of(rows: [[u64; 4]; 4]) -> Grid {
    let mut grid = Grid::empty();
    for row in 0..4 {
        for column in 0..4 {
            grid.set(&v2::new(row as i32, column as i32), rows[row][column]);
        }
    }
    grid
}

fn cells_of(grid: &Grid) -> [[u64; 4]; 4] {
    let mut rows = [[0u64; 4]; 4];
    for row in 0..4 {
        for column in 0..4 {
            rows[row][column] = grid.at(&v2::new(row as i32, column as i32));
        }
    }
    rows
}

fn rng_of(seed: u8) -> StdRng {
    StdRng::from_seed([seed; 32])
}

#[test]
fn a_full_grid_without_a_move_is_the_end() {
    let grid = game_of([[2, 4, 2, 4], [4, 2, 4, 2], [2, 4, 2, 4], [4, 2, 4, 2]]);
    assert!(grid.is_full());
    for dir in [Direction::North, Direction::West, Direction::South, Direction::East] {
        let mut scratch = grid;
        assert!(!scratch.shift(dir));
    }
    assert!(grid.is_game_over());
}

#[test]
fn a_full_grid_with_a_merge_is_not_the_end() {
    let sideways = game_of([[2, 4, 2, 4], [4, 2, 4, 2], [2, 4, 8, 8], [4, 2, 4, 2]]);
    assert!(sideways.is_full());
    assert!(!sideways.is_game_over());
    let upright = game_of([[2, 4, 2, 4], [4, 2, 4, 2], [2, 4, 2, 16], [4, 2, 4, 16]]);
    assert!(upright.is_full());
    assert!(!upright.is_game_over());
}

#[test]
fn a_grid_with_an_empty_cell_is_not_the_end() {
    let grid = game_of([[2, 4, 2, 4], [4, 2, 4, 2], [2, 4, 2, 4], [4, 2, 4, 0]]);
    assert!(!grid.is_full());
    assert!(!grid.is_game_over());
    assert!(!Grid::empty().is_game_over());
}

#[test]
fn is_game_over_leaves_the_grid_alone() {
    let rows = [[2, 2, 4, 4], [0, 0, 0, 0], [8, 0, 8, 0], [2, 4, 2, 4]];
    let grid = game_of(rows);
    assert!(!grid.is_game_over());
    assert_eq!(cells_of(&grid), rows);
}

#[test]
fn a_turn_that_moves_spawns_a_tile() {
    for seed in 0..16 {
        let mut grid = game_of([[2, 2, 0, 0], [0, 0, 0, 0], [0, 4, 0, 0], [0, 0, 0, 0]]);
        let moved = grid.play_turn(Direction::East, &mut rng_of(seed), &SpawnPolicy::even());
        assert!(moved);
        let cells = cells_of(&grid);
        assert_eq!(cells[0][3], 4);
        assert_eq!(cells[2][3], 4);
        assert_eq!(grid.empty_count(), 13);
        let total = grid.checked_total().unwrap();
        assert!(total == 10 || total == 12);
    }
}

#[test]
fn a_turn_that_moves_nothing_spawns_nothing() {
    let rows = [[2, 0, 0, 0], [4, 0, 0, 0], [0, 0, 0, 0], [0, 0, 0, 0]];
    for seed in 0..16 {
        let mut grid = game_of(rows);
        let moved = grid.play_turn(Direction::West, &mut rng_of(seed), &SpawnPolicy::even());
        assert!(!moved);
        assert_eq!(cells_of(&grid), rows);
    }
}

#[test]
fn make_moves_empties_the_queue() {
    let mut grid = Grid::empty();
    let mut rng = rng_of(7);
    let policy = SpawnPolicy::even();
    grid.insert_random_tile(&mut rng, &policy);
    let mut queue = VecDeque::new();
    queue.push_back(Direction::West);
    queue.push_back(Direction::North);
    queue.push_back(Direction::East);
    queue.push_back(Direction::South);
    make_moves(&mut grid, &mut queue, &mut rng, &policy);
    assert!(queue.is_empty());
    make_moves(&mut grid, &mut queue, &mut rng, &policy);
    assert!(queue.is_empty());
    let tiles = 16 - grid.empty_count();
    assert!(tiles >= 1 && tiles <= 5);
}

#[test]
fn make_moves_skips_the_spawn_after_an_idle_move() {
    let rows = [[2, 0, 0, 0], [0, 0, 0, 0], [0, 0, 0, 0], [0, 0, 0, 0]];
    let mut grid = game_of(rows);
    let mut queue = VecDeque::new();
    queue.push_back(Direction::West);
    queue.push_back(Direction::North);
    queue.push_back(Direction::West);
    make_moves(&mut grid, &mut queue, &mut rng_of(1), &SpawnPolicy::even());
    assert!(queue.is_empty());
    assert_eq!(cells_of(&grid), rows);
}

#[test]
fn make_moves_takes_the_moves_in_their_order() {
    let twos = SpawnPolicy::new(0, 1).unwrap();
    let rows = [[2, 4, 2, 4], [4, 2, 4, 2], [2, 4, 2, 4], [2, 2, 2, 4]];
    for seed in 0..8 {
        let mut grid = game_of(rows);
        let mut queue = VecDeque::new();
        queue.push_back(Direction::East);
        queue.push_back(Direction::West);
        make_moves(&mut grid, &mut queue, &mut rng_of(seed), &twos);
        assert!(queue.is_empty());
        let cells = cells_of(&grid);
        assert_eq!([cells[0], cells[1], cells[2]], [rows[0], rows[1], rows[2]]);
        assert_eq!([cells[3][0], cells[3][1]], [4, 8]);
        assert!([cells[3][2], cells[3][3]] == [2, 0] || [cells[3][2], cells[3][3]] == [0, 2]);
        let mut other = game_of(rows);
        queue.push_back(Direction::West);
        queue.push_back(Direction::East);
        make_moves(&mut other, &mut queue, &mut rng_of(seed), &twos);
        assert!(queue.is_empty());
        assert_eq!(
            cells_of(&other),
            [[2, 4, 2, 4], [4, 2, 4, 2], [2, 4, 2, 4], [4, 2, 4, 2]]
        );
    }
}

#[test]
fn a_game_keeps_its_tiles_powers_of_two() {
    let policy = SpawnPolicy::new(1, 10).unwrap();
    let mut rng = rng_of(11);
    let mut grid = Grid::empty();
    grid.insert_random_tile(&mut rng, &policy);
    let dirs = [Direction::West, Direction::North, Direction::East, Direction::South];
    let mut queue = VecDeque::new();
    for round in 0..200 {
        if grid.is_game_over() {
            break;
        }
        queue.push_back(dirs[round % 4]);
        queue.push_back(dirs[(round / 3) % 4]);
        let before = grid.checked_total().unwrap();
        make_moves(&mut grid, &mut queue, &mut rng, &policy);
        assert!(queue.is_empty());
        let after = grid.checked_total().unwrap();
        assert!(after >= before && after <= before + 8);
        for row in cells_of(&grid) {
            for value in row {
                assert!(value == 0 || (value >= 2 && value.is_power_of_two()));
            }
        }
    }
}

#[test]
fn can_move_tells_what_a_move_would_do() {
    let boards = [
        [[0, 0, 0, 0], [0, 0, 0, 0], [0, 0, 0, 0], [0, 0, 0, 0]],
        [[2, 0, 0, 0], [0, 0, 0, 0], [0, 0, 0, 0], [0, 0, 0, 0]],
        [[2, 4, 2, 4], [4, 2, 4, 2], [2, 4, 2, 4], [4, 2, 4, 2]],
        [[2, 4, 2, 4], [4, 2, 4, 2], [2, 4, 8, 8], [4, 2, 4, 2]],
        [[2, 4, 2, 4], [4, 2, 4, 2], [2, 4, 2, 16], [4, 2, 4, 16]],
        [[2, 4, 8, 16], [0, 0, 0, 0], [0, 0, 0, 0], [0, 0, 0, 0]],
        [[2, 0, 0, 0], [4, 0, 0, 0], [8, 0, 0, 0], [16, 0, 0, 0]],
        [[0, 0, 0, 2], [0, 0, 0, 2], [0, 0, 0, 4], [0, 0, 0, 4]],
        [[0, 0, 0, 0], [0, 0, 0, 0], [0, 0, 0, 0], [2, 4, 4, 2]],
    ];
    for rows in boards {
        for dir in [Direction::North, Direction::West, Direction::South, Direction::East] {
            let grid = game_of(rows);
            let mut scratch = grid;
            let moved = scratch.shift(dir);
            assert_eq!(grid.can_move(dir), moved);
            assert_eq!(moved, cells_of(&scratch) != rows);
            assert_eq!(cells_of(&grid), rows);
        }
    }
}

#[test]
fn can_move_sees_slides_and_merges() {
    let at_the_west_wall = game_of([[2, 0, 0, 0], [4, 0, 0, 0], [8, 0, 0, 0], [16, 0, 0, 0]]);
    assert!(!at_the_west_wall.can_move(Direction::West));
    assert!(at_the_west_wall.can_move(Direction::East));
    assert!(!at_the_west_wall.can_move(Direction::North));
    assert!(!at_the_west_wall.can_move(Direction::South));
    let a_pair = game_of([[2, 4, 2, 4], [4, 2, 4, 2], [2, 4, 8, 8], [4, 2, 4, 2]]);
    assert!(a_pair.can_move(Direction::West));
    assert!(a_pair.can_move(Direction::East));
    assert!(!a_pair.can_move(Direction::North));
    assert!(!a_pair.can_move(Direction::South));
}
