//! The movement resolver: destination computation with optional toroidal
//! wrap-around, the per-direction safety predicate, and the application of a
//! move to an entity (health accounting, growth, liveness).

use vstd::prelude::*;
use crate::classes::{Battlesnake, Board2d, Coord, Direction, coord_in_range};

verus! {

/// What `safe_move` decides: the target is on the board and no entity
/// occupies its cell. Hazard and food play no part.
pub open spec fn spec_safe_move(b: Board2d, x: u32, y: u32) -> bool {
    &&& x < b.width
    &&& y < b.height
    &&& b.cell_at(x as int, y as int).snake is None
}

/// Returns true when moving onto `(x, y)` does not mean (almost) certain
/// death: the coordinate is on the board and its cell holds no entity body.
pub fn safe_move(x: u32, y: u32, b: &Board2d) -> (r: bool)
    requires
        b.wf(),
    ensures
        r == spec_safe_move(*b, x, y),
{
    if x > b.width - 1 {
        return false;
    } else if y > b.height - 1 {
        return false;
    }
    let cell = b.get_cell(Coord { x, y });
    if cell.snake.is_some() {
        return false;
    }
    true
}

/// The destination of one step from `start` in `dir` on a `width` by
/// `height` board: at an edge, the opposite side when `wrapped`, otherwise no
/// destination; elsewhere the adjacent coordinate.
pub open spec fn spec_resolve(
    start: Coord,
    dir: Direction,
    width: u32,
    height: u32,
    wrapped: bool,
) -> Option<Coord> {
    match dir {
        Direction::Up => if start.y == height - 1 {
            if wrapped {
                Some(Coord { x: start.x, y: 0 })
            } else {
                None
            }
        } else {
            Some(Coord { x: start.x, y: (start.y + 1) as u32 })
        },
        Direction::Down => if start.y == 0 {
            if wrapped {
                Some(Coord { x: start.x, y: (height - 1) as u32 })
            } else {
                None
            }
        } else {
            Some(Coord { x: start.x, y: (start.y - 1) as u32 })
        },
        Direction::Left => if start.x == 0 {
            if wrapped {
                Some(Coord { x: (width - 1) as u32, y: start.y })
            } else {
                None
            }
        } else {
            Some(Coord { x: (start.x - 1) as u32, y: start.y })
        },
        Direction::Right => if start.x == width - 1 {
            if wrapped {
                Some(Coord { x: 0, y: start.y })
            } else {
                None
            }
        } else {
            Some(Coord { x: (start.x + 1) as u32, y: start.y })
        },
    }
}

/// The coordinate one step from `start_coord` in `dir`, or `None` when the
/// step leaves a non-wrapped board. Boundary checks come before any
/// arithmetic on the unsigned fields, so nothing can underflow or overflow.
pub fn get_coord_after_move(start_coord: &Coord, dir: Direction, b: &Board2d) -> (r: Option<
    Coord,
>)
    requires
        b.wf(),
        coord_in_range(*start_coord, b.width, b.height),
    ensures
        r == spec_resolve(*start_coord, dir, b.width, b.height, b.is_wrapped),
        match r {
            Some(c) => coord_in_range(c, b.width, b.height),
            None => !b.is_wrapped,
        },
{
    match dir {
        Direction::Up => {
            let x = start_coord.x;
            if start_coord.y == b.height - 1 {
                if b.is_wrapped {
                    Some(Coord { x, y: 0 })
                } else {
                    None
                }
            } else {
                Some(Coord { x, y: start_coord.y + 1 })
            }
        },
        Direction::Down => {
            let x = start_coord.x;
            if start_coord.y == 0 {
                if b.is_wrapped {
                    Some(Coord { x, y: b.height - 1 })
                } else {
                    None
                }
            } else {
                Some(Coord { x, y: start_coord.y - 1 })
            }
        },
        Direction::Left => {
            let y = start_coord.y;
            if start_coord.x == 0 {
                if b.is_wrapped {
                    Some(Coord { x: b.width - 1, y })
                } else {
                    None
                }
            } else {
                Some(Coord { x: start_coord.x - 1, y })
            }
        },
        Direction::Right => {
            let y = start_coord.y;
            if start_coord.x == b.width - 1 {
                if b.is_wrapped {
                    Some(Coord { x: 0, y })
                } else {
                    None
                }
            } else {
                Some(Coord { x: start_coord.x + 1, y })
            }
        },
    }
}

/// Law: wrap-around at every edge. In wrapped mode a step off an edge
/// re-enters from the opposite side; in non-wrapped mode the same step has no
/// destination.
pub proof fn lemma_resolve_wrap(start: Coord, width: u32, height: u32)
    requires
        0 < width,
        0 < height,
        coord_in_range(start, width, height),
    ensures
        start.y == height - 1 ==> spec_resolve(start, Direction::Up, width, height, true)
            == Some(Coord { x: start.x, y: 0 }) && spec_resolve(
            start,
            Direction::Up,
            width,
            height,
            false,
        ) is None,
        start.y == 0 ==> spec_resolve(start, Direction::Down, width, height, true) == Some(
            Coord { x: start.x, y: (height - 1) as u32 },
        ) && spec_resolve(start, Direction::Down, width, height, false) is None,
        start.x == 0 ==> spec_resolve(start, Direction::Left, width, height, true) == Some(
            Coord { x: (width - 1) as u32, y: start.y },
        ) && spec_resolve(start, Direction::Left, width, height, false) is None,
        start.x == width - 1 ==> spec_resolve(start, Direction::Right, width, height, true)
            == Some(Coord { x: 0, y: start.y }) && spec_resolve(
            start,
            Direction::Right,
            width,
            height,
            false,
        ) is None,
{
}

/// The health an entity is left with after stepping onto a cell without food:
/// positive hazard subtracts (floored at zero), negative hazard heals (capped
/// at 100), and a hazard-free step costs the one point of per-turn decay.
pub open spec fn spec_health_after(health: int, hazard: int) -> int {
    if hazard > 0 {
        if hazard >= health {
            0
        } else {
            health - hazard
        }
    } else if hazard < 0 {
        if health - hazard > 100 {
            100
        } else {
            health - hazard
        }
    } else {
        health - 1
    }
}

/// Move `snake` one step in `dir`: the tail is dropped and the destination
/// prepended as the new head segment. On food the body regrows its tail
/// duplicate, health resets to 100 and `length` rises by one; otherwise the
/// destination's hazard is applied to health. Returns whether the entity is
/// still alive; with no destination the entity is unchanged and not alive.
pub fn move_snake(b: &Board2d, snake: &mut Battlesnake, dir: Direction) -> (alive: bool)
    requires
        b.wf(),
        coord_in_range(old(snake).head, b.width, b.height),
        1 <= old(snake).health <= 100,
        old(snake).body@.len() >= 1,
        old(snake).length < u32::MAX,
    ensures
        final(snake).id == old(snake).id,
        final(snake).name == old(snake).name,
        final(snake).head == old(snake).head,
        final(snake).latency == old(snake).latency,
        final(snake).shout == old(snake).shout,
        ({
            let dest = spec_resolve(old(snake).head, dir, b.width, b.height, b.is_wrapped);
            match dest {
                None => !alive && *final(snake) == *old(snake),
                Some(d) => {
                    let cell = b.cell_at(d.x as int, d.y as int);
                    let shifted = seq![d] + old(snake).body@.drop_last();
                    if cell.food {
                        &&& final(snake).body@ == shifted.push(shifted.last())
                        &&& final(snake).health == 100
                        &&& final(snake).length == old(snake).length + 1
                        &&& alive
                    } else {
                        &&& final(snake).body@ == shifted
                        &&& final(snake).length == old(snake).length
                        &&& final(snake).health == spec_health_after(
                            old(snake).health as int,
                            cell.hazard as int,
                        )
                        &&& alive == (final(snake).health > 0)
                    }
                },
            }
        }),
{
    let new_head = get_coord_after_move(&snake.head, dir, b);
    match new_head {
        Some(head) => {
            let cell = b.get_cell(head);
            snake.body.pop();
            snake.body.insert(0, cell.coord);
            proof {
                assert(snake.body@ =~= seq![head] + old(snake).body@.drop_last());
            }
            if cell.food {
                snake.health = 100;
                snake.length = snake.length + 1;
                let last = snake.body[snake.body.len() - 1];
                snake.body.push(last);
                true
            } else {
                if cell.hazard != 0 {
                    if cell.hazard > 0 {
                        let health_signed: i32 = snake.health as i32;
                        if cell.hazard >= health_signed {
                            snake.health = 0;
                        } else {
                            snake.health = (health_signed - cell.hazard) as u32;
                        }
                    } else {
                        let healed: i64 = snake.health as i64 - cell.hazard as i64;
                        if healed > 100 {
                            snake.health = 100;
                        } else {
                            snake.health = healed as u32;
                        }
                    }
                } else {
                    snake.health = snake.health - 1;
                }
                snake.health > 0
            }
        },
        None => false,
    }
}

} // verus!
