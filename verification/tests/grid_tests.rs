use battlesnake_core::classes::{Battlesnake, Board, Board2d, Coord};

fn c(x: u32, y: u32) -> Coord {
    Coord { x, y }
}

fn snake(id: &str, body: Vec<Coord>, health: u32) -> Battlesnake {
    let head = body[0];
    let length = body.len() as u32;
    Battlesnake {
        id: id.to_string(),
        name: id.to_string(),
        health,
        body,
        head,
        length,
        latency: "0".to_string(),
        shout: None,
    }
}

fn empty_board(width: u32, height: u32) -> Board {
    Board { height, width, food: vec![], snakes: vec![], hazards: vec![] }
}

#[test]
fn grid_has_one_cell_per_coordinate() {
    let board = empty_board(3, 2);
    let grid = Board2d::new(&board, 14, false);
    assert_eq!(grid.width, 3);
    assert_eq!(grid.height, 2);
    assert_eq!(grid.cells.len(), 6);
    for x in 0..3u32 {
        for y in 0..2u32 {
            let cell = grid.get_cell(c(x, y));
            assert_eq!(cell.coord.x, x);
            assert_eq!(cell.coord.y, y);
            assert!(cell.snake.is_none());
            assert_eq!(cell.hazard, 0);
            assert!(!cell.food);
        }
    }
}

#[test]
fn hazard_sums_per_occurrence() {
    let mut board = empty_board(3, 3);
    board.hazards = vec![c(1, 1), c(0, 0), c(1, 1)];
    let grid = Board2d::new(&board, 14, false);
    assert_eq!(grid.get_cell(c(1, 1)).hazard, 28);
    assert_eq!(grid.get_cell(c(0, 0)).hazard, 14);
    assert_eq!(grid.get_cell(c(2, 2)).hazard, 0);
}

#[test]
fn negative_damage_gives_negative_net_hazard() {
    let mut board = empty_board(3, 3);
    board.hazards = vec![c(2, 0), c(2, 0)];
    let grid = Board2d::new(&board, -5, false);
    assert_eq!(grid.get_cell(c(2, 0)).hazard, -10);
    assert_eq!(grid.get_cell(c(0, 2)).hazard, 0);
}

#[test]
fn food_marks_cells_and_coexists_with_hazard() {
    let mut board = empty_board(4, 4);
    board.food = vec![c(1, 2), c(3, 3)];
    board.hazards = vec![c(1, 2)];
    let grid = Board2d::new(&board, 9, false);
    assert!(grid.get_cell(c(1, 2)).food);
    assert_eq!(grid.get_cell(c(1, 2)).hazard, 9);
    assert!(grid.get_cell(c(3, 3)).food);
    assert!(!grid.get_cell(c(0, 0)).food);
}

#[test]
fn occupant_is_last_entity_in_order() {
    let mut board = empty_board(4, 4);
    let first = snake("first", vec![c(1, 1), c(1, 0)], 90);
    let second = snake("second", vec![c(1, 1), c(2, 1)], 80);
    board.snakes = vec![first, second];
    let grid = Board2d::new(&board, 0, false);
    let occupant = grid.get_cell(c(1, 1)).snake.as_ref().expect("occupied");
    assert_eq!(occupant.id, "second");
    assert_eq!(occupant.health, 80);
    let other = grid.get_cell(c(1, 0)).snake.as_ref().expect("occupied");
    assert_eq!(other.id, "first");
    assert!(grid.get_cell(c(3, 3)).snake.is_none());
}

#[test]
fn self_overlap_keeps_the_same_entity() {
    let mut board = empty_board(3, 3);
    let grown = snake("grown", vec![c(0, 0), c(0, 1), c(0, 1)], 100);
    board.snakes = vec![grown];
    let grid = Board2d::new(&board, 0, false);
    let occupant = grid.get_cell(c(0, 1)).snake.as_ref().expect("occupied");
    assert_eq!(occupant.id, "grown");
    assert_eq!(occupant.body.len(), 3);
}

#[test]
fn checked_lookup_rejects_out_of_range() {
    let board = empty_board(2, 3);
    let grid = Board2d::new(&board, 0, false);
    assert!(grid.get_cell_checked(c(2, 0)).is_none());
    assert!(grid.get_cell_checked(c(0, 3)).is_none());
    let cell = grid.get_cell_checked(c(1, 2)).expect("in range");
    assert_eq!(cell.coord.x, 1);
    assert_eq!(cell.coord.y, 2);
}

#[test]
fn render_prints_rows_top_down() {
    let mut board = empty_board(2, 2);
    board.food = vec![c(1, 0)];
    board.snakes = vec![snake("s", vec![c(0, 1)], 50)];
    let grid = Board2d::new(&board, 0, false);
    assert_eq!(grid.render(), "s x \nx f ");
}

#[test]
fn render_priority_occupant_then_food_then_hazard() {
    let mut board = empty_board(4, 1);
    board.food = vec![c(0, 0), c(1, 0)];
    board.hazards = vec![c(0, 0), c(2, 0)];
    board.snakes = vec![snake("s", vec![c(3, 0)], 50)];
    let grid = Board2d::new(&board, 7, false);
    // food on a damaging cell, plain food, plain hazard, occupant
    assert_eq!(grid.render(), "F f h s ");
}
