use battlesnake_core::classes::{
    Battlesnake, Board, Board2d, Coord, Direction, RoyaleSettings, Ruleset, RulesetSettings,
    SquadSettings,
};
use battlesnake_core::logic::{choose_move, compute_safe_moves};

fn c(x: u32, y: u32) -> Coord {
    Coord { x, y }
}

fn snake(id: &str, body: Vec<Coord>, health: u32) -> Battlesnake {
    let head = body[0];
    let length = body.len() as u32;
    Battlesnake {
        id: id.to_string(),
        name: id.to_string(),
        health,
        body,
        head,
        length,
        latency: "0".to_string(),
        shout: None,
    }
}

fn ruleset(name: &str) -> Ruleset {
    Ruleset {
        name: name.to_string(),
        version: "v1".to_string(),
        settings: RulesetSettings {
            foodSpawnChance: 15,
            minimumFood: 1,
            hazardDamagePerTurn: 14,
            royale: RoyaleSettings { shrinkEveryNTurns: 25 },
            squad: SquadSettings {
                allowBodyCollisions: false,
                sharedElimination: false,
                sharedHealth: false,
                sharedLength: false,
            },
        },
    }
}

#[test]
fn neck_rule_excludes_down_on_open_board() {
    // 3x3 non-wrapped board, head at (1,1), neck at (1,0): up, left and
    // right are reported safe; down is excluded by the neck rule alone.
    let me = snake("me", vec![c(1, 1), c(1, 0)], 100);
    let board = Board {
        height: 3,
        width: 3,
        food: vec![],
        snakes: vec![snake("me", vec![c(1, 1), c(1, 0)], 100)],
        hazards: vec![],
    };
    let grid = Board2d::new(&board, 14, false);
    let flags = compute_safe_moves(&grid, &me);
    assert!(flags.up);
    assert!(flags.left);
    assert!(flags.right);
    assert!(!flags.down);
    let chosen = choose_move(&grid, &me);
    assert!(matches!(chosen, Direction::Up | Direction::Left | Direction::Right));
}

#[test]
fn every_neck_direction_is_excluded() {
    let grid = {
        let board = Board { height: 5, width: 5, food: vec![], snakes: vec![], hazards: vec![] };
        Board2d::new(&board, 0, false)
    };
    let from_left = snake("a", vec![c(2, 2), c(1, 2)], 100);
    assert!(!compute_safe_moves(&grid, &from_left).left);
    let from_right = snake("b", vec![c(2, 2), c(3, 2)], 100);
    assert!(!compute_safe_moves(&grid, &from_right).right);
    let from_below = snake("c", vec![c(2, 2), c(2, 1)], 100);
    assert!(!compute_safe_moves(&grid, &from_below).down);
    let from_above = snake("d", vec![c(2, 2), c(2, 3)], 100);
    assert!(!compute_safe_moves(&grid, &from_above).up);
}

#[test]
fn blocked_on_all_sides_defaults_to_up() {
    // Neighbors of (1,1) are all occupied; down is also neck-excluded, so
    // every flag is false and the documented fallback applies.
    let me = snake("me", vec![c(1, 1), c(1, 0)], 100);
    let wall = snake("wall", vec![c(0, 1), c(1, 0), c(2, 1), c(1, 2)], 100);
    let board = Board {
        height: 3,
        width: 3,
        food: vec![],
        snakes: vec![snake("me", vec![c(1, 1), c(1, 0)], 100), wall],
        hazards: vec![],
    };
    let grid = Board2d::new(&board, 14, false);
    let flags = compute_safe_moves(&grid, &me);
    assert!(!flags.up && !flags.down && !flags.left && !flags.right);
    assert_eq!(choose_move(&grid, &me), Direction::Up);
}

#[test]
fn zero_edge_probes_every_reachable_neighbor() {
    // At x == 0 the left destination is off-board and unsafe without a
    // probe, while the right neighbor is still probed and found occupied.
    let me = snake("me", vec![c(0, 1), c(0, 2)], 100);
    let wall = snake("wall", vec![c(1, 1)], 100);
    let board = Board {
        height: 3,
        width: 3,
        food: vec![],
        snakes: vec![snake("me", vec![c(0, 1), c(0, 2)], 100), wall],
        hazards: vec![],
    };
    let grid = Board2d::new(&board, 14, false);
    let flags = compute_safe_moves(&grid, &me);
    assert!(!flags.left); // off-board
    assert!(!flags.up); // neck above the head
    assert!(!flags.right); // (1,1) is occupied
    assert!(flags.down);
}

#[test]
fn cornered_at_zero_edge_defaults_to_up() {
    // Head at (0,1) on a 3x2 board: left and up lead off-board, down is
    // neck-excluded, and the right neighbor is occupied, so every direction
    // is unsafe and the documented fallback answers up.
    let me = snake("me", vec![c(0, 1), c(0, 0)], 100);
    let wall = snake("wall", vec![c(1, 1)], 100);
    let board = Board {
        height: 2,
        width: 3,
        food: vec![],
        snakes: vec![snake("me", vec![c(0, 1), c(0, 0)], 100), wall],
        hazards: vec![],
    };
    let grid = Board2d::new(&board, 14, false);
    let flags = compute_safe_moves(&grid, &me);
    assert!(!flags.up && !flags.down && !flags.left && !flags.right);
    assert_eq!(choose_move(&grid, &me), Direction::Up);
}

#[test]
fn ruleset_name_decides_topology() {
    assert!(ruleset("wrapped").is_wrapped());
    assert!(!ruleset("standard").is_wrapped());
    assert!(!ruleset("royale").is_wrapped());
}
