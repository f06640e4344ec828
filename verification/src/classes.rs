//! The data model: coordinates, entities, the wire-shaped board, and the dense
//! per-turn grid (`Board2d`) built from it.

use vstd::prelude::*;
use vstd::arithmetic::div_mod::{lemma_fundamental_div_mod, lemma_fundamental_div_mod_converse};
use vstd::string::StringExecFns;

verus! {

/// A board coordinate. `x` grows to the right, `y` grows upward.
#[derive(Clone, Copy, PartialEq, Eq, Structural, Debug)]
pub struct Coord {
    pub x: u32,
    pub y: u32,
}

/// One of the four cardinal moves an entity can make in a turn.
#[derive(Clone, Copy, PartialEq, Eq, Structural, Debug)]
pub enum Direction {
    Up,
    Down,
    Left,
    Right,
}

/// Whether `c` lies on a board of the given dimensions.
pub open spec fn coord_in_range(c: Coord, width: u32, height: u32) -> bool {
    c.x < width && c.y < height
}

/// One competing entity, as it arrives in the turn payload. The head is
/// `body[0]`; `length` is tracked independently of `body.len()` and only the
/// food rule moves it.
#[derive(Debug)]
pub struct Battlesnake {
    pub id: String,
    pub name: String,
    pub health: u32,
    pub body: Vec<Coord>,
    pub head: Coord,
    pub length: u32,
    pub latency: String,
    pub shout: Option<String>,
}

/// The mathematical abstraction of a [`Battlesnake`]: the same fields with
/// strings and vectors replaced by their sequences.
pub struct BattlesnakeView {
    pub id: Seq<char>,
    pub name: Seq<char>,
    pub health: u32,
    pub body: Seq<Coord>,
    pub head: Coord,
    pub length: u32,
    pub latency: Seq<char>,
    pub shout: Option<Seq<char>>,
}

/// The view of an optional shout message.
pub open spec fn opt_string_view(o: Option<String>) -> Option<Seq<char>> {
    match o {
        Some(s) => Some(s@),
        None => None,
    }
}

impl View for Battlesnake {
    type V = BattlesnakeView;

    open spec fn view(&self) -> BattlesnakeView {
        BattlesnakeView {
            id: self.id@,
            name: self.name@,
            health: self.health,
            body: self.body@,
            head: self.head,
            length: self.length,
            latency: self.latency@,
            shout: opt_string_view(self.shout),
        }
    }
}

/// The board as the turn payload carries it: dimensions plus the food,
/// entity and hazard lists. Input-only; the grid is built from it.
#[derive(Debug)]
pub struct Board {
    pub height: u32,
    pub width: u32,
    pub food: Vec<Coord>,
    pub snakes: Vec<Battlesnake>,
    pub hazards: Vec<Coord>,
}

/// Game-wide metadata from the turn payload.
#[derive(Debug)]
pub struct Game {
    pub id: String,
    pub ruleset: Ruleset,
    pub timeout: u32,
}

/// The ruleset block of the payload; the core reads its name (topology) and
/// the hazard damage scalar.
#[derive(Debug)]
pub struct Ruleset {
    pub name: String,
    pub version: String,
    pub settings: RulesetSettings,
}

#[allow(non_snake_case)]
#[derive(Debug)]
pub struct RulesetSettings {
    pub foodSpawnChance: u32,
    pub minimumFood: u32,
    pub hazardDamagePerTurn: i32,
    pub royale: RoyaleSettings,
    pub squad: SquadSettings,
}

#[allow(non_snake_case)]
#[derive(Debug)]
pub struct RoyaleSettings {
    pub shrinkEveryNTurns: u32,
}

#[allow(non_snake_case)]
#[derive(Debug)]
pub struct SquadSettings {
    pub allowBodyCollisions: bool,
    pub sharedElimination: bool,
    pub sharedHealth: bool,
    pub sharedLength: bool,
}

/// One full turn notification.
#[derive(Debug)]
pub struct GameState {
    pub game: Game,
    pub turn: u32,
    pub board: Board,
    pub you: Battlesnake,
}

impl Ruleset {
    /// The topology flag: board edges are connected exactly when the ruleset
    /// is named "wrapped".
    pub fn is_wrapped(&self) -> (r: bool)
        ensures
            r == (self.name@ == "wrapped"@),
    {
        let w = String::from_str("wrapped");
        self.name == w
    }
}

/// One coordinate's denormalized snapshot for a single turn: which entity
/// covers it (if any), the accumulated signed hazard, and whether food is
/// present.
#[derive(Debug)]
pub struct Board2dCell {
    pub coord: Coord,
    pub snake: Option<Battlesnake>,
    pub hazard: i32,
    pub food: bool,
}

/// The dense per-turn grid: one cell per coordinate, linearized with an
/// `x`-major stride of `height` (cell of `(x, y)` sits at `x * height + y`).
#[derive(Debug)]
pub struct Board2d {
    pub height: u32,
    pub width: u32,
    pub is_wrapped: bool,
    pub cells: Vec<Board2dCell>,
}

/// `|x|` over the mathematical integers.
pub open spec fn abs_of(x: int) -> int {
    if x >= 0 {
        x
    } else {
        -x
    }
}

/// How many entries of `s` equal `c`.
pub open spec fn coord_count(s: Seq<Coord>, c: Coord) -> int
    decreases s.len(),
{
    if s.len() == 0 {
        0
    } else {
        coord_count(s.drop_last(), c) + if s.last() == c {
            1int
        } else {
            0int
        }
    }
}

/// The occupant a coordinate ends up with after every entity's body has been
/// written into the grid in order: the last entity (in list order) with a
/// segment at `c` wins; `None` when no entity covers `c`.
pub open spec fn occupant(snakes: Seq<Battlesnake>, c: Coord) -> Option<BattlesnakeView>
    decreases snakes.len(),
{
    if snakes.len() == 0 {
        None
    } else if snakes.last().body@.contains(c) {
        Some(snakes.last()@)
    } else {
        occupant(snakes.drop_last(), c)
    }
}

/// The view of a cell's occupant field.
pub open spec fn occupant_view(o: Option<Battlesnake>) -> Option<BattlesnakeView> {
    match o {
        Some(b) => Some(b@),
        None => None,
    }
}

/// The shape every grid keeps: one cell per coordinate, and the cell stored at
/// a coordinate's index carries that coordinate.
pub open spec fn cells_shape(cells: Seq<Board2dCell>, width: u32, height: u32) -> bool {
    &&& cells.len() == width * height
    &&& forall|x: int, y: int|
        0 <= x < width && 0 <= y < height ==> (#[trigger] cells[x * height + y]).coord == (Coord {
            x: x as u32,
            y: y as u32,
        })
}

/// Every count is between zero and the list's length.
pub proof fn lemma_coord_count_bounds(s: Seq<Coord>, c: Coord)
    ensures
        0 <= coord_count(s, c) <= s.len(),
    decreases s.len(),
{
    if s.len() > 0 {
        lemma_coord_count_bounds(s.drop_last(), c);
    }
}

/// Extending the list by one entry raises the count by one when the entry is
/// `c` and leaves it unchanged otherwise.
pub proof fn lemma_coord_count_push(s: Seq<Coord>, v: Coord, c: Coord)
    ensures
        coord_count(s.push(v), c) == coord_count(s, c) + if v == c {
            1int
        } else {
            0int
        },
{
    assert(s.push(v).drop_last() =~= s);
    assert(s.push(v).last() == v);
}

/// The index of every in-range coordinate lies within the cell array.
pub proof fn lemma_cell_index_bounds(x: int, y: int, width: int, height: int)
    requires
        0 <= x < width,
        0 <= y < height,
    ensures
        0 <= x * height + y < width * height,
{
    assert(0 <= x * height + y < width * height) by (nonlinear_arith)
        requires
            0 <= x < width,
            0 <= y < height,
    ;
}

/// Two in-range coordinates with the same index are the same coordinate.
pub proof fn lemma_cell_index_injective(
    x1: int,
    y1: int,
    x2: int,
    y2: int,
    width: int,
    height: int,
)
    requires
        0 <= x1 < width,
        0 <= y1 < height,
        0 <= x2 < width,
        0 <= y2 < height,
        x1 * height + y1 == x2 * height + y2,
    ensures
        x1 == x2,
        y1 == y2,
{
    lemma_fundamental_div_mod_converse(x1 * height + y1, height, x1, y1);
    lemma_fundamental_div_mod_converse(x2 * height + y2, height, x2, y2);
}

/// Law: the linearization `(x, y) |-> x * height + y` is a bijection between
/// the in-range coordinates and the cell indices `[0, width * height)`: it
/// stays in bounds, distinct coordinates get distinct indices, and every index
/// is the image of an in-range coordinate.
pub proof fn lemma_grid_bijection(width: int, height: int)
    requires
        0 < width,
        0 < height,
    ensures
        forall|x: int, y: int|
            0 <= x < width && 0 <= y < height ==> 0 <= #[trigger] (x * height + y) < width
                * height,
        forall|x1: int, y1: int, x2: int, y2: int|
            0 <= x1 < width && 0 <= y1 < height && 0 <= x2 < width && 0 <= y2 < height && #[trigger] (
            x1 * height + y1) == #[trigger] (x2 * height + y2) ==> x1 == x2 && y1 == y2,
        forall|i: int|
            0 <= i < width * height ==> {
                let x = #[trigger] (i / height);
                let y = i % height;
                0 <= x < width && 0 <= y < height && x * height + y == i
            },
{
    assert forall|x: int, y: int| 0 <= x < width && 0 <= y < height implies 0 <= #[trigger] (x
        * height + y) < width * height by {
        lemma_cell_index_bounds(x, y, width, height);
    }
    assert forall|x1: int, y1: int, x2: int, y2: int|
        0 <= x1 < width && 0 <= y1 < height && 0 <= x2 < width && 0 <= y2 < height && #[trigger] (x1
        * height + y1) == #[trigger] (x2 * height + y2) implies x1 == x2 && y1 == y2 by {
        lemma_cell_index_injective(x1, y1, x2, y2, width, height);
    }
    assert forall|i: int| 0 <= i < width * height implies {
        let x = #[trigger] (i / height);
        let y = i % height;
        0 <= x < width && 0 <= y < height && x * height + y == i
    } by {
        lemma_fundamental_div_mod(i, height);
        let x = i / height;
        let y = i % height;
        assert(0 <= y < height) by (nonlinear_arith)
            requires
                height > 0,
                y == i % height,
        ;
        assert(0 <= x && x < width) by (nonlinear_arith)
            requires
                i == height * x + y,
                0 <= y < height,
                0 <= i < width * height,
                height > 0,
        ;
        assert(x * height + y == i) by (nonlinear_arith)
            requires
                i == height * x + y,
        ;
    }
}

impl Board2d {
    /// The grid's cells as a sequence, for specification purposes.
    pub open spec fn spec_cells(self) -> Seq<Board2dCell> {
        self.cells@
    }

    /// Well-formedness: positive dimensions whose product fits the index
    /// type, and a cell array in the canonical shape.
    pub open spec fn wf(self) -> bool {
        &&& 0 < self.width
        &&& 0 < self.height
        &&& self.width * self.height <= u32::MAX
        &&& cells_shape(self.spec_cells(), self.width, self.height)
    }

    /// The cell stored for coordinate `(x, y)`.
    pub open spec fn cell_at(self, x: int, y: int) -> Board2dCell {
        self.spec_cells()[x * self.height + y]
    }

    /// Look a cell up by coordinate. The coordinate must be in range: callers
    /// bounds-check first (see `get_cell_checked` for the checked form).
    pub fn get_cell(&self, c: Coord) -> (cell: &Board2dCell)
        requires
            self.wf(),
            coord_in_range(c, self.width, self.height),
        ensures
            *cell == self.cell_at(c.x as int, c.y as int),
    {
        proof {
            lemma_cell_index_bounds(c.x as int, c.y as int, self.width as int, self.height as int);
        }
        let index: usize = (c.x as usize) * (self.height as usize) + (c.y as usize);
        &self.cells[index]
    }

    /// The checked lookup: `None` exactly when the coordinate is out of
    /// range, otherwise the same cell `get_cell` returns.
    pub fn get_cell_checked(&self, c: Coord) -> (cell: Option<&Board2dCell>)
        requires
            self.wf(),
        ensures
            match cell {
                Some(cell) => coord_in_range(c, self.width, self.height) && *cell == self.cell_at(
                    c.x as int,
                    c.y as int,
                ),
                None => !coord_in_range(c, self.width, self.height),
            },
    {
        if c.x < self.width && c.y < self.height {
            Some(self.get_cell(c))
        } else {
            None
        }
    }
}

impl Board2d {
    /// Build the per-turn grid from the board payload: one blank cell per
    /// coordinate, then food flags, then hazard accumulation (each hazard
    /// entry adds `hazard_damage`, which may be negative), then occupancy with
    /// the last entity in list order winning every overlap.
    pub fn new(board: &Board, hazard_damage: i32, is_wrapped: bool) -> (grid: Self)
        requires
            0 < board.width,
            0 < board.height,
            board.width * board.height <= u32::MAX,
            forall|k: int|
                0 <= k < board.food@.len() ==> coord_in_range(
                    #[trigger] board.food@[k],
                    board.width,
                    board.height,
                ),
            forall|k: int|
                0 <= k < board.hazards@.len() ==> coord_in_range(
                    #[trigger] board.hazards@[k],
                    board.width,
                    board.height,
                ),
            forall|s: int, j: int|
                0 <= s < board.snakes@.len() && 0 <= j < board.snakes@[s].body@.len()
                    ==> coord_in_range(
                    #[trigger] board.snakes@[s].body@[j],
                    board.width,
                    board.height,
                ),
            board.hazards@.len() * abs_of(hazard_damage as int) <= i32::MAX,
        ensures
            grid.width == board.width,
            grid.height == board.height,
            grid.is_wrapped == is_wrapped,
            grid.wf(),
            forall|x: int, y: int|
                0 <= x < board.width && 0 <= y < board.height ==> {
                    let cell = #[trigger] grid.cell_at(x, y);
                    let c = Coord { x: x as u32, y: y as u32 };
                    &&& cell.food == board.food@.contains(c)
                    &&& cell.hazard == hazard_damage * coord_count(board.hazards@, c)
                    &&& occupant_view(cell.snake) == occupant(board.snakes@, c)
                },
    {
        let width = board.width;
        let height = board.height;
        let size: u32 = width * height;
        let mut arr: Vec<Board2dCell> = Vec::new();

        let mut index: u32 = 0;
        while index < size
            invariant
                index <= size,
                size == width * height,
                width == board.width,
                height == board.height,
                0 < width,
                0 < height,
                arr@.len() == index,
                forall|k: int|
                    0 <= k < index ==> {
                        let cell = #[trigger] arr@[k];
                        &&& cell.coord.x == k / (height as int)
                        &&& cell.coord.y == k % (height as int)
                        &&& cell.snake is None
                        &&& cell.hazard == 0
                        &&& cell.food == false
                    },
            decreases size - index,
        {
            let x = index / height;
            let y = index % height;
            arr.push(Board2dCell { coord: Coord { x, y }, snake: None, hazard: 0, food: false });
            index = index + 1;
        }

        proof {
            assert forall|x: int, y: int| 0 <= x < width && 0 <= y < height implies {
                let cell = #[trigger] arr@[x * height + y];
                &&& cell.coord == (Coord { x: x as u32, y: y as u32 })
                &&& cell.snake is None
                &&& cell.hazard == 0
                &&& cell.food == false
            } by {
                lemma_cell_index_bounds(x, y, width as int, height as int);
                lemma_fundamental_div_mod_converse(
                    x * (height as int) + y,
                    height as int,
                    x,
                    y,
                );
            }
            assert(cells_shape(arr@, width, height));
        }

        let nfood = board.food.len();
        let mut i: usize = 0;
        while i < nfood
            invariant
                i <= nfood,
                nfood == board.food@.len(),
                size == width * height,
                width == board.width,
                height == board.height,
                0 < width,
                0 < height,
                width * height <= u32::MAX,
                arr@.len() == width * height,
                cells_shape(arr@, width, height),
                forall|k: int|
                    0 <= k < board.food@.len() ==> coord_in_range(
                        #[trigger] board.food@[k],
                        width,
                        height,
                    ),
                forall|x: int, y: int|
                    0 <= x < width && 0 <= y < height ==> {
                        let cell = #[trigger] arr@[x * height + y];
                        &&& cell.snake is None
                        &&& cell.hazard == 0
                        &&& cell.food == board.food@.take(i as int).contains(
                            Coord { x: x as u32, y: y as u32 },
                        )
                    },
            decreases nfood - i,
        {
            let f = board.food[i];
            proof {
                lemma_cell_index_bounds(f.x as int, f.y as int, width as int, height as int);
            }
            let idx: usize = (f.x as usize) * (height as usize) + (f.y as usize);
            let ghost arr0 = arr@;
            arr[idx].food = true;
            proof {
                assert(arr@.len() == arr0.len());
                assert(arr@[idx as int].coord == arr0[idx as int].coord);
                assert(arr@[idx as int].hazard == arr0[idx as int].hazard);
                assert(arr@[idx as int].snake == arr0[idx as int].snake);
                assert(arr@[idx as int].food == true);
                assert(forall|k: int| 0 <= k < arr0.len() && k != idx ==> arr@[k] == arr0[k]);
                assert(board.food@.take(i as int + 1) =~= board.food@.take(i as int).push(f));
                assert forall|x: int, y: int| 0 <= x < width && 0 <= y < height implies {
                    let cell = #[trigger] arr@[x * height + y];
                    &&& cell.coord == (Coord { x: x as u32, y: y as u32 })
                    &&& cell.snake is None
                    &&& cell.hazard == 0
                    &&& cell.food == board.food@.take(i as int + 1).contains(
                        Coord { x: x as u32, y: y as u32 },
                    )
                } by {
                    let c = Coord { x: x as u32, y: y as u32 };
                    let prefix = board.food@.take(i as int);
                    let extended = board.food@.take(i as int + 1);
                    lemma_cell_index_bounds(x, y, width as int, height as int);
                    if x * height + y == idx {
                        lemma_cell_index_injective(
                            x,
                            y,
                            f.x as int,
                            f.y as int,
                            width as int,
                            height as int,
                        );
                        assert(c == f);
                        assert(extended[i as int] == c);
                        assert(extended.contains(c));
                    } else {
                        if c == f {
                            assert(x * height + y == idx);
                        }
                        assert(c != f);
                        if prefix.contains(c) {
                            let k = choose|k: int| 0 <= k < prefix.len() && prefix[k] == c;
                            assert(extended[k] == c);
                            assert(extended.contains(c));
                        }
                        if extended.contains(c) {
                            let k = choose|k: int| 0 <= k < extended.len() && extended[k] == c;
                            assert(k != i);
                            assert(prefix[k] == c);
                            assert(prefix.contains(c));
                        }
                    }
                }
                assert(cells_shape(arr@, width, height));
            }
            i = i + 1;
        }

        proof {
            assert(board.food@.take(nfood as int) =~= board.food@);
        }

        let nhaz = board.hazards.len();
        let mut i: usize = 0;
        while i < nhaz
            invariant
                i <= nhaz,
                nhaz == board.hazards@.len(),
                size == width * height,
                width == board.width,
                height == board.height,
                0 < width,
                0 < height,
                width * height <= u32::MAX,
                arr@.len() == width * height,
                cells_shape(arr@, width, height),
                forall|k: int|
                    0 <= k < board.hazards@.len() ==> coord_in_range(
                        #[trigger] board.hazards@[k],
                        width,
                        height,
                    ),
                board.hazards@.len() * abs_of(hazard_damage as int) <= i32::MAX,
                forall|x: int, y: int|
                    0 <= x < width && 0 <= y < height ==> {
                        let cell = #[trigger] arr@[x * height + y];
                        &&& cell.snake is None
                        &&& cell.food == board.food@.contains(
                            Coord { x: x as u32, y: y as u32 },
                        )
                        &&& cell.hazard == hazard_damage * coord_count(
                            board.hazards@.take(i as int),
                            Coord { x: x as u32, y: y as u32 },
                        )
                    },
            decreases nhaz - i,
        {
            let hz = board.hazards[i];
            proof {
                lemma_cell_index_bounds(hz.x as int, hz.y as int, width as int, height as int);
            }
            let idx: usize = (hz.x as usize) * (height as usize) + (hz.y as usize);
            proof {
                let d = hazard_damage as int;
                let a = abs_of(d);
                let cnt = coord_count(board.hazards@.take(i as int), hz);
                lemma_coord_count_bounds(board.hazards@.take(i as int), hz);
                assert(cnt + 1 <= board.hazards@.len());
                assert(i32::MIN <= d * cnt + d <= i32::MAX) by (nonlinear_arith)
                    requires
                        0 <= cnt + 1,
                        cnt + 1 <= board.hazards@.len(),
                        board.hazards@.len() * a <= i32::MAX,
                        -a <= d <= a,
                        i32::MIN <= -(i32::MAX as int),
                ;
            }
            let prior = arr[idx].hazard;
            let ghost arr0 = arr@;
            arr[idx].hazard = prior + hazard_damage;
            proof {
                assert(arr@.len() == arr0.len());
                assert(arr@[idx as int].coord == arr0[idx as int].coord);
                assert(arr@[idx as int].food == arr0[idx as int].food);
                assert(arr@[idx as int].snake == arr0[idx as int].snake);
                assert(arr@[idx as int].hazard == arr0[idx as int].hazard + hazard_damage);
                assert(forall|k: int| 0 <= k < arr0.len() && k != idx ==> arr@[k] == arr0[k]);
                assert(board.hazards@.take(i as int + 1) =~= board.hazards@.take(i as int).push(
                    hz,
                ));
                assert forall|x: int, y: int| 0 <= x < width && 0 <= y < height implies {
                    let cell = #[trigger] arr@[x * height + y];
                    &&& cell.coord == (Coord { x: x as u32, y: y as u32 })
                    &&& cell.snake is None
                    &&& cell.food == board.food@.contains(Coord { x: x as u32, y: y as u32 })
                    &&& cell.hazard == hazard_damage * coord_count(
                        board.hazards@.take(i as int + 1),
                        Coord { x: x as u32, y: y as u32 },
                    )
                } by {
                    let c = Coord { x: x as u32, y: y as u32 };
                    lemma_cell_index_bounds(x, y, width as int, height as int);
                    lemma_coord_count_push(board.hazards@.take(i as int), hz, c);
                    let cnt = coord_count(board.hazards@.take(i as int), c);
                    if x * height + y == idx {
                        lemma_cell_index_injective(
                            x,
                            y,
                            hz.x as int,
                            hz.y as int,
                            width as int,
                            height as int,
                        );
                        assert(c == hz);
                        assert(coord_count(board.hazards@.take(i as int + 1), c) == cnt + 1);
                        assert(hazard_damage * (cnt + 1) == hazard_damage * cnt + hazard_damage)
                            by (nonlinear_arith);
                    } else {
                        if c == hz {
                            assert(x * height + y == idx);
                        }
                        assert(c != hz);
                    }
                }
                assert(cells_shape(arr@, width, height));
            }
            i = i + 1;
        }

        proof {
            assert(board.hazards@.take(nhaz as int) =~= board.hazards@);
        }

        let nsnakes = board.snakes.len();
        let mut s: usize = 0;
        while s < nsnakes
            invariant
                s <= nsnakes,
                nsnakes == board.snakes@.len(),
                size == width * height,
                width == board.width,
                height == board.height,
                0 < width,
                0 < height,
                width * height <= u32::MAX,
                arr@.len() == width * height,
                cells_shape(arr@, width, height),
                forall|k: int, j: int|
                    0 <= k < board.snakes@.len() && 0 <= j < board.snakes@[k].body@.len()
                        ==> coord_in_range(#[trigger] board.snakes@[k].body@[j], width, height),
                forall|x: int, y: int|
                    0 <= x < width && 0 <= y < height ==> {
                        let cell = #[trigger] arr@[x * height + y];
                        let c = Coord { x: x as u32, y: y as u32 };
                        &&& cell.food == board.food@.contains(c)
                        &&& cell.hazard == hazard_damage * coord_count(board.hazards@, c)
                        &&& occupant_view(cell.snake) == occupant(board.snakes@.take(s as int), c)
                    },
            decreases nsnakes - s,
        {
            let snake = &board.snakes[s];
            let nbody = snake.body.len();
            let mut j: usize = 0;
            while j < nbody
                invariant
                    j <= nbody,
                    s < nsnakes,
                    nsnakes == board.snakes@.len(),
                    snake == board.snakes@[s as int],
                    nbody == snake.body@.len(),
                    size == width * height,
                    width == board.width,
                    height == board.height,
                    0 < width,
                    0 < height,
                    width * height <= u32::MAX,
                    arr@.len() == width * height,
                    cells_shape(arr@, width, height),
                    forall|k: int, l: int|
                        0 <= k < board.snakes@.len() && 0 <= l < board.snakes@[k].body@.len()
                            ==> coord_in_range(
                            #[trigger] board.snakes@[k].body@[l],
                            width,
                            height,
                        ),
                    forall|x: int, y: int|
                        0 <= x < width && 0 <= y < height ==> {
                            let cell = #[trigger] arr@[x * height + y];
                            let c = Coord { x: x as u32, y: y as u32 };
                            &&& cell.food == board.food@.contains(c)
                            &&& cell.hazard == hazard_damage * coord_count(board.hazards@, c)
                            &&& occupant_view(cell.snake) == if snake.body@.take(
                                j as int,
                            ).contains(c) {
                                Some(snake@)
                            } else {
                                occupant(board.snakes@.take(s as int), c)
                            }
                        },
                decreases nbody - j,
            {
                let seg = snake.body[j];
                proof {
                    lemma_cell_index_bounds(seg.x as int, seg.y as int, width as int, height as int);
                }
                let idx: usize = (seg.x as usize) * (height as usize) + (seg.y as usize);
                let snap = clone_snake(snake);
                let ghost snap_view = snap@;
                let ghost arr0 = arr@;
                arr[idx].snake = Some(snap);
                proof {
                    assert(arr@.len() == arr0.len());
                    assert(arr@[idx as int].coord == arr0[idx as int].coord);
                    assert(arr@[idx as int].food == arr0[idx as int].food);
                    assert(arr@[idx as int].hazard == arr0[idx as int].hazard);
                    assert(occupant_view(arr@[idx as int].snake) == Some(snap_view));
                    assert(forall|k: int| 0 <= k < arr0.len() && k != idx ==> arr@[k] == arr0[k]);
                    assert(snake.body@.take(j as int + 1) =~= snake.body@.take(j as int).push(seg));
                    assert forall|x: int, y: int| 0 <= x < width && 0 <= y < height implies {
                        let cell = #[trigger] arr@[x * height + y];
                        let c = Coord { x: x as u32, y: y as u32 };
                        &&& cell.coord == c
                        &&& cell.food == board.food@.contains(c)
                        &&& cell.hazard == hazard_damage * coord_count(board.hazards@, c)
                        &&& occupant_view(cell.snake) == if snake.body@.take(j as int + 1).contains(
                            c,
                        ) {
                            Some(snake@)
                        } else {
                            occupant(board.snakes@.take(s as int), c)
                        }
                    } by {
                        let c = Coord { x: x as u32, y: y as u32 };
                        let prefix = snake.body@.take(j as int);
                        let extended = snake.body@.take(j as int + 1);
                        lemma_cell_index_bounds(x, y, width as int, height as int);
                        if x * height + y == idx {
                            lemma_cell_index_injective(
                                x,
                                y,
                                seg.x as int,
                                seg.y as int,
                                width as int,
                                height as int,
                            );
                            assert(c == seg);
                            assert(extended[j as int] == c);
                            assert(extended.contains(c));
                        } else {
                            if c == seg {
                                assert(x * height + y == idx);
                            }
                            assert(c != seg);
                            if prefix.contains(c) {
                                let k = choose|k: int| 0 <= k < prefix.len() && prefix[k] == c;
                                assert(extended[k] == c);
                                assert(extended.contains(c));
                            }
                            if extended.contains(c) {
                                let k = choose|k: int|
                                    0 <= k < extended.len() && extended[k] == c;
                                assert(k != j);
                                assert(prefix[k] == c);
                                assert(prefix.contains(c));
                            }
                        }
                    }
                    assert(cells_shape(arr@, width, height));
                }
                j = j + 1;
            }
            proof {
                assert(snake.body@.take(nbody as int) =~= snake.body@);
                let longer = board.snakes@.take(s as int + 1);
                assert(longer.drop_last() =~= board.snakes@.take(s as int));
                assert(longer.last() == board.snakes@[s as int]);
                assert forall|x: int, y: int| 0 <= x < width && 0 <= y < height implies {
                    let cell = #[trigger] arr@[x * height + y];
                    let c = Coord { x: x as u32, y: y as u32 };
                    occupant_view(cell.snake) == occupant(board.snakes@.take(s as int + 1), c)
                } by {
                    let c = Coord { x: x as u32, y: y as u32 };
                    lemma_cell_index_bounds(x, y, width as int, height as int);
                    assert(occupant(longer, c) == if longer.last().body@.contains(c) {
                        Some(longer.last()@)
                    } else {
                        occupant(longer.drop_last(), c)
                    });
                }
            }
            s = s + 1;
        }

        proof {
            assert(board.snakes@.take(nsnakes as int) =~= board.snakes@);
        }

        Self { height, width, is_wrapped, cells: arr }
    }
}

/// The symbol a cell prints as, by priority: occupant, then food on a
/// damaging cell, then plain food, then damaging hazard, then empty.
pub open spec fn cell_symbol(cell: Board2dCell) -> Seq<char> {
    if cell.snake is Some {
        "s "@
    } else if cell.food {
        if cell.hazard > 0 {
            "F "@
        } else {
            "f "@
        }
    } else if cell.hazard > 0 {
        "h "@
    } else {
        "x "@
    }
}

impl Board2d {
    /// The first `upto` symbols of row `y`, left to right.
    pub open spec fn render_row(self, y: int, upto: int) -> Seq<char>
        decreases upto,
    {
        if upto <= 0 {
            Seq::empty()
        } else {
            self.render_row(y, upto - 1) + cell_symbol(self.cell_at(upto - 1, y))
        }
    }

    /// The rows from the top (`height - 1`) down to `k`, each followed by a
    /// newline except the bottom row.
    pub open spec fn render_down_to(self, k: int) -> Seq<char>
        decreases self.height - k,
    {
        if k >= self.height {
            Seq::empty()
        } else {
            self.render_down_to(k + 1) + self.render_row(k, self.width as int) + (if k != 0 {
                "\n"@
            } else {
                Seq::empty()
            })
        }
    }

    /// The whole textual grid, top row first.
    pub open spec fn spec_render(self) -> Seq<char> {
        self.render_down_to(0)
    }

    /// A textual picture of the grid, one row per `y` from top to bottom
    /// (debug aid; not part of the decision logic).
    pub fn render(&self) -> (s: String)
        requires
            self.wf(),
        ensures
            s@ == self.spec_render(),
    {
        let mut s = String::new();
        let mut j: u32 = self.height;
        while j > 0
            invariant
                self.wf(),
                j <= self.height,
                s@ == self.render_down_to(j as int),
            decreases j,
        {
            let y: u32 = j - 1;
            let mut i: u32 = 0;
            while i < self.width
                invariant
                    self.wf(),
                    j == y + 1,
                    y < self.height,
                    i <= self.width,
                    s@ == self.render_down_to(j as int) + self.render_row(y as int, i as int),
                decreases self.width - i,
            {
                let cell = self.get_cell(Coord { x: i, y });
                if cell.snake.is_some() {
                    s.append("s ");
                } else if cell.food {
                    if cell.hazard > 0 {
                        s.append("F ");
                    } else {
                        s.append("f ");
                    }
                } else if cell.hazard > 0 {
                    s.append("h ");
                } else {
                    s.append("x ");
                }
                i = i + 1;
            }
            if y != 0 {
                s.append("\n");
            }
            j = y;
            proof {
                assert(s@ == self.render_down_to(j as int));
            }
        }
        s
    }
}

/// A field-for-field copy of an entity, used to snapshot it into a cell.
fn clone_snake(s: &Battlesnake) -> (r: Battlesnake)
    ensures
        r@ == s@,
{
    let body = s.body.clone();
    let shout = match &s.shout {
        Some(m) => Some(m.clone()),
        None => None,
    };
    let r = Battlesnake {
        id: s.id.clone(),
        name: s.name.clone(),
        health: s.health,
        body,
        head: s.head,
        length: s.length,
        latency: s.latency.clone(),
        shout,
    };
    proof {
        assert(r.body@ =~= s.body@);
        assert(r@ == s@);
    }
    r
}

} // verus!
