//! The per-turn decision step: evaluate the four candidate directions from
//! the entity's head (neck exclusion, then the safety predicate) and pick one
//! of the surviving candidates at random, defaulting to up when none survive.

use vstd::prelude::*;
use crate::classes::{Battlesnake, Board2d, Coord, Direction, coord_in_range};
use crate::util::{safe_move, spec_safe_move};

verus! {

/// Relies on rand::random: an arbitrary value of the type, driven by the
/// thread-local generator; nothing is promised of which value comes back.
pub assume_specification<T>[ rand::random::<T> ]() -> (r: T)
    where
        rand::distributions::Standard: rand::distributions::Distribution<T>,
;

/// The verdict on each of the four candidate directions for one turn.
#[derive(Clone, Copy, PartialEq, Eq, Structural, Debug)]
pub struct MoveFlags {
    pub up: bool,
    pub down: bool,
    pub left: bool,
    pub right: bool,
}

/// Whether the neck rule leaves `d` open: the direction pointing back onto
/// the body segment behind the head is excluded, all others stay.
pub open spec fn neck_allows(head: Coord, neck: Coord, d: Direction) -> bool {
    match d {
        Direction::Left => !(neck.x < head.x),
        Direction::Right => !(neck.x > head.x),
        Direction::Down => !(neck.x == head.x && neck.y < head.y),
        Direction::Up => !(neck.x == head.x && neck.y > head.y),
    }
}

/// The verdict on one direction: the neck rule must leave it open, and the
/// destination must pass the safety predicate. All four head-neighbors are
/// checked; at `x == 0` (and likewise `y == 0`) the underflow guard replaces
/// the left (down) probe, since the destination there lies off a non-wrapped
/// board and is unsafe without a lookup.
pub open spec fn spec_move_flag(b: Board2d, head: Coord, neck: Coord, d: Direction) -> bool {
    match d {
        Direction::Left => neck_allows(head, neck, d) && head.x != 0 && spec_safe_move(
            b,
            (head.x - 1) as u32,
            head.y,
        ),
        Direction::Right => neck_allows(head, neck, d) && spec_safe_move(
            b,
            (head.x + 1) as u32,
            head.y,
        ),
        Direction::Down => neck_allows(head, neck, d) && head.y != 0 && spec_safe_move(
            b,
            head.x,
            (head.y - 1) as u32,
        ),
        Direction::Up => neck_allows(head, neck, d) && spec_safe_move(
            b,
            head.x,
            (head.y + 1) as u32,
        ),
    }
}

/// All four verdicts at once.
pub open spec fn spec_move_flags(b: Board2d, head: Coord, neck: Coord) -> MoveFlags {
    MoveFlags {
        up: spec_move_flag(b, head, neck, Direction::Up),
        down: spec_move_flag(b, head, neck, Direction::Down),
        left: spec_move_flag(b, head, neck, Direction::Left),
        right: spec_move_flag(b, head, neck, Direction::Right),
    }
}

/// The flag `flags` holds for direction `d`.
pub open spec fn spec_flag_of(flags: MoveFlags, d: Direction) -> bool {
    match d {
        Direction::Up => flags.up,
        Direction::Down => flags.down,
        Direction::Left => flags.left,
        Direction::Right => flags.right,
    }
}

/// Evaluate the four candidate directions from the head (`body[0]`): first
/// the neck exclusion against `body[1]`, then the safety predicate on each
/// of the four neighbors, with underflow guards before the subtractions (at
/// the zero edges the left and down destinations are off-board and unsafe).
pub fn compute_safe_moves(b: &Board2d, you: &Battlesnake) -> (flags: MoveFlags)
    requires
        b.wf(),
        you.body@.len() >= 2,
        coord_in_range(you.body@[0], b.width, b.height),
    ensures
        flags == spec_move_flags(*b, you.body@[0], you.body@[1]),
{
    let my_head = you.body[0];
    let my_neck = you.body[1];
    let mut up = true;
    let mut down = true;
    let mut left = true;
    let mut right = true;

    if my_neck.x < my_head.x {
        left = false;
    } else if my_neck.x > my_head.x {
        right = false;
    } else if my_neck.y < my_head.y {
        down = false;
    } else if my_neck.y > my_head.y {
        up = false;
    }

    if my_head.x == 0 {
        left = false;
    } else {
        if !safe_move(my_head.x - 1, my_head.y, b) {
            left = false;
        }
    }
    if !safe_move(my_head.x + 1, my_head.y, b) {
        right = false;
    }
    if my_head.y == 0 {
        down = false;
    } else {
        if !safe_move(my_head.x, my_head.y - 1, b) {
            down = false;
        }
    }
    if !safe_move(my_head.x, my_head.y + 1, b) {
        up = false;
    }

    MoveFlags { up, down, left, right }
}

/// Pick a move for the turn: one of the directions whose flag survived,
/// chosen at random, or up when every direction failed (the documented
/// fallback for the degenerate state).
pub fn choose_move(b: &Board2d, you: &Battlesnake) -> (d: Direction)
    requires
        b.wf(),
        you.body@.len() >= 2,
        coord_in_range(you.body@[0], b.width, b.height),
    ensures
        ({
            let flags = spec_move_flags(*b, you.body@[0], you.body@[1]);
            &&& (flags.up || flags.down || flags.left || flags.right) ==> spec_flag_of(flags, d)
            &&& !(flags.up || flags.down || flags.left || flags.right) ==> d == Direction::Up
        }),
{
    let flags = compute_safe_moves(b, you);
    let mut candidates: Vec<Direction> = Vec::new();
    if flags.up {
        candidates.push(Direction::Up);
    }
    if flags.down {
        candidates.push(Direction::Down);
    }
    if flags.left {
        candidates.push(Direction::Left);
    }
    if flags.right {
        candidates.push(Direction::Right);
    }
    proof {
        assert(candidates@.len() > 0 <==> (flags.up || flags.down || flags.left || flags.right));
    }
    if candidates.len() == 0 {
        Direction::Up
    } else {
        let r: u64 = rand::random::<u64>();
        let idx: usize = (r % (candidates.len() as u64)) as usize;
        candidates[idx]
    }
}

} // verus!
