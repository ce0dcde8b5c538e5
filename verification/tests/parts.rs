use tile_grid::BetterRange;
use tile_grid::Direction;
use tile_grid::GRID_SIZE;
use tile_grid::Grid;
use tile_grid::Stack;
use tile_grid::input::Key;
use tile_grid::input::direction_of;
use tile_grid::layout::Rgb;
use tile_grid::layout::TILE_PADDING;
use tile_grid::layout::TILE_SIZE;
use tile_grid::layout::WINDOW_SIZE;
use tile_grid::layout::cell_color;
use tile_grid::layout::centered_start;
use tile_grid::layout::grid_to_real;
use tile_grid::layout::text_color;
use tile_grid::layout::window_color;
use tile_grid::step::step_for;
use tile_grid::v2;

fn items_of(mut range: BetterRange) -> Vec<i32> {
    let mut items = Vec::new();
    while let Some(item) = range.next() {
        items.push(item);
        assert!(items.len() <= 16);
    }
    assert_eq!(range.next(), None);
    items
}

#[test]
fn a_place_holds_its_row_and_column() {
    let place = v2::new(3, -1);
    assert_eq!(place.row, 3);
    assert_eq!(place.column, -1);
    assert_eq!(place, v2 { row: 3, column: -1 });
}

#[test]
fn a_range_runs_upwards() {
    let range = BetterRange::new(1, 3);
    assert_eq!(range.step, 1);
    assert_eq!(items_of(range), vec![1, 2, 3]);
}

#[test]
fn a_range_runs_downwards() {
    let range = BetterRange::new(2, 0);
    assert_eq!(range.step, -1);
    assert_eq!(items_of(range), vec![2, 1, 0]);
    assert_eq!(items_of(BetterRange::new(-3, -4)), vec![-3, -4]);
}

#[test]
fn the_empty_grid_holds_no_tile() {
    let grid = Grid::empty();
    for row in 0..GRID_SIZE {
        for column in 0..GRID_SIZE {
            assert_eq!(grid.at(&v2::new(row as i32, column as i32)), 0);
        }
    }
    assert!(!grid.is_full());
    assert_eq!(grid.checked_total(), Some(0));
}

#[test]
fn set_changes_the_cell_that_it_names() {
    let mut grid = Grid::empty();
    grid.set(&v2::new(2, 1), 64);
    for row in 0..4 {
        for column in 0..4 {
            let expected = if (row, column) == (2, 1) { 64 } else { 0 };
            assert_eq!(grid.at(&v2::new(row, column)), expected);
        }
    }
    grid.set(&v2::new(2, 1), 0);
    assert_eq!(grid.at(&v2::new(2, 1)), 0);
}

#[test]
fn a_grid_is_full_when_no_cell_is_empty() {
    let mut grid = Grid::empty();
    for row in 0..4 {
        for column in 0..4 {
            assert!(!grid.is_full());
            grid.set(&v2::new(row, column), 2);
        }
    }
    assert!(grid.is_full());
    grid.set(&v2::new(3, 3), 0);
    assert!(!grid.is_full());
    grid.set(&v2::new(3, 3), 4);
    grid.set(&v2::new(0, 0), 0);
    assert!(!grid.is_full());
}

#[test]
fn checked_total_adds_the_tiles() {
    let mut grid = Grid::empty();
    grid.set(&v2::new(0, 0), 2);
    grid.set(&v2::new(1, 3), 4);
    grid.set(&v2::new(3, 2), 1024);
    assert_eq!(grid.checked_total(), Some(1030));
    grid.set(&v2::new(2, 2), u64::MAX - 1030);
    assert_eq!(grid.checked_total(), Some(u64::MAX));
    grid.set(&v2::new(0, 1), 1);
    assert_eq!(grid.checked_total(), None);
}

#[test]
fn the_window_holds_four_tiles_and_five_gaps() {
    assert_eq!(TILE_SIZE, 128);
    assert_eq!(TILE_PADDING, 16);
    assert_eq!(WINDOW_SIZE, 592);
}

#[test]
fn a_cell_starts_after_the_tiles_and_gaps_before_it() {
    assert_eq!(grid_to_real((0, 0)), (16, 16));
    assert_eq!(grid_to_real((1, 2)), (160, 304));
    assert_eq!(grid_to_real((3, 3)), (448, 448));
}

#[test]
fn a_text_is_centered_on_its_tile() {
    assert_eq!(centered_start(16, 40), 60);
    assert_eq!(centered_start(160, 41), 204);
    assert_eq!(centered_start(0, 400), -136);
}

#[test]
fn the_tiles_up_to_2048_have_a_colour() {
    assert_eq!(cell_color(0), Some(Rgb { red: 0xCD, green: 0xC0, blue: 0xB4 }));
    assert_eq!(cell_color(2), Some(Rgb { red: 0xEE, green: 0xE4, blue: 0xDA }));
    assert_eq!(cell_color(4), Some(Rgb { red: 0xED, green: 0xE0, blue: 0xC8 }));
    assert_eq!(cell_color(8), Some(Rgb { red: 0xF2, green: 0xB1, blue: 0x79 }));
    assert_eq!(cell_color(16), Some(Rgb { red: 0xF5, green: 0x95, blue: 0x63 }));
    assert_eq!(cell_color(32), Some(Rgb { red: 0xF5, green: 0x7C, blue: 0x5F }));
    assert_eq!(cell_color(64), Some(Rgb { red: 0xF6, green: 0x5D, blue: 0x3B }));
    assert_eq!(cell_color(128), Some(Rgb { red: 0xEC, green: 0xCF, blue: 0x6D }));
    assert_eq!(cell_color(256), Some(Rgb { red: 0xED, green: 0xCC, blue: 0x63 }));
    assert_eq!(cell_color(512), Some(Rgb { red: 0xEC, green: 0xC8, blue: 0x50 }));
    assert_eq!(cell_color(1024), Some(Rgb { red: 0xED, green: 0xC4, blue: 0x3F }));
    assert_eq!(cell_color(2048), Some(Rgb { red: 0xEE, green: 0xC2, blue: 0x2E }));
    assert_eq!(cell_color(4096), None);
    assert_eq!(cell_color(3), None);
}

#[test]
fn the_text_is_dark_on_the_lightest_tiles() {
    let dark = Rgb { red: 0x78, green: 0x6F, blue: 0x66 };
    let light = Rgb { red: 0xFD, green: 0xF3, blue: 0xF1 };
    assert_eq!(text_color(2), dark);
    assert_eq!(text_color(4), dark);
    assert_eq!(text_color(8), light);
    assert_eq!(text_color(2048), light);
    assert_eq!(window_color(), Rgb { red: 0xBB, green: 0xAD, blue: 0xA0 });
}

#[test]
fn the_top_of_a_stack_is_its_last_item() {
    let mut stack: Vec<u32> = Vec::new();
    assert_eq!(stack.top(), None);
    stack.push(3);
    assert_eq!(stack.top(), Some(&3));
    stack.push(5);
    assert_eq!(stack.top(), Some(&5));
    stack.pop();
    assert_eq!(stack.top(), Some(&3));
}

#[test]
fn the_keys_ask_for_their_moves() {
    assert_eq!(direction_of(Key::W), Direction::North);
    assert_eq!(direction_of(Key::Up), Direction::North);
    assert_eq!(direction_of(Key::A), Direction::West);
    assert_eq!(direction_of(Key::Left), Direction::West);
    assert_eq!(direction_of(Key::S), Direction::South);
    assert_eq!(direction_of(Key::Down), Direction::South);
    assert_eq!(direction_of(Key::D), Direction::East);
    assert_eq!(direction_of(Key::Right), Direction::East);
}

#[test]
fn the_steps_lead_to_the_edges() {
    assert_eq!(step_for(Direction::North), v2::new(-1, 0));
    assert_eq!(step_for(Direction::West), v2::new(0, -1));
    assert_eq!(step_for(Direction::South), v2::new(1, 0));
    assert_eq!(step_for(Direction::East), v2::new(0, 1));
}
