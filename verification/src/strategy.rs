//! A territory-capture strategy for a grid game: plan a rectangle that
//! gains territory while staying clear of enemies, walk its corners, and
//! replan whenever home territory is reached again.
//!
//! The game's world is modelled with the library's own plain types: cells
//! as coordinate pairs, players as their position, territory and trail.

use vstd::prelude::*;

verus! {

/// The map is square, this many cells per side.
pub const MAP_SIZE_CELLS: i32 = 31;

/// The score no candidate rectangle can fall below.
pub const MIN_SCORE: i32 = -10000;

/// One map cell.
#[derive(Clone, Copy, Debug, PartialEq, Eq, Structural)]
pub struct Cell(pub i32, pub i32);

/// A facing on the map.
#[derive(Clone, Copy, Debug, PartialEq, Eq, Structural)]
pub enum Direction {
    Left,
    Right,
    Up,
    Down,
}

/// The opposite facing.
pub open spec fn opposite_of(d: Direction) -> Direction {
    match d {
        Direction::Left => Direction::Right,
        Direction::Right => Direction::Left,
        Direction::Up => Direction::Down,
        Direction::Down => Direction::Up,
    }
}

/// The facing from one cell towards another: sideways first, then
/// vertically; a cell faces up towards itself.
pub open spec fn dir_to(from: Cell, to: Cell) -> Direction {
    if to.0 > from.0 {
        Direction::Right
    } else if to.0 < from.0 {
        Direction::Left
    } else if to.1 < from.1 {
        Direction::Down
    } else {
        Direction::Up
    }
}

/// Absolute value.
pub open spec fn abs_of(v: int) -> int {
    if v < 0 {
        -v
    } else {
        v
    }
}

/// Distance along one axis.
pub open spec fn dist_of(a: int, b: int) -> int {
    abs_of(a - b)
}

/// The city-block distance between two cells.
pub open spec fn manhattan(a: Cell, b: Cell) -> int {
    dist_of(a.0 as int, b.0 as int) + dist_of(a.1 as int, b.1 as int)
}

/// The smaller of two values.
pub open spec fn min2(a: int, b: int) -> int {
    if a < b {
        a
    } else {
        b
    }
}

/// Whether `c` lies between the two borders, in either order.
pub open spec fn between_of(c: int, a: int, b: int) -> bool {
    (c >= a && c <= b) || (c >= b && c <= a)
}

/// Whether a sequence of cells holds `c`.
pub open spec fn contains_cell(s: Seq<Cell>, c: Cell) -> bool {
    exists|i: int| 0 <= i < s.len() && s[i] == c
}

/// One player: where it stands, the cells it owns, and its current trail.
pub struct Player {
    pub position: Cell,
    pub territory: Vec<Cell>,
    pub lines: Vec<Cell>,
}

/// What the strategy sees each tick: its own player and the enemies.
pub struct World {
    pub me: Player,
    pub enemies: Vec<Player>,
}

/// A cell within the map.
pub open spec fn cell_in_map(c: Cell) -> bool {
    0 <= c.0 < MAP_SIZE_CELLS && 0 <= c.1 < MAP_SIZE_CELLS
}

/// Every standing position lies within the map.
pub open spec fn world_wf(w: World) -> bool {
    &&& cell_in_map(w.me.position)
    &&& forall|i: int|
        0 <= i < w.enemies@.len() ==> cell_in_map((#[trigger] w.enemies@[i]).position)
}

/// Whether the player stands on its own territory.
pub open spec fn own_territory_of(w: World) -> bool {
    contains_cell(w.me.territory@, w.me.position)
}

/// Whether any enemy's trail crosses `c`.
pub open spec fn enemy_lines_at(w: World, c: Cell) -> bool {
    exists|i: int| 0 <= i < w.enemies@.len() && contains_cell((#[trigger] w.enemies@[i]).lines@, c)
}

/// Whether any enemy owns `c`.
pub open spec fn enemy_territory_at(w: World, c: Cell) -> bool {
    exists|i: int|
        0 <= i < w.enemies@.len() && contains_cell((#[trigger] w.enemies@[i]).territory@, c)
}

/// What taking one cell is worth: an enemy trail is worth most, then enemy
/// territory, then free ground; owned ground is worth nothing.
pub open spec fn cell_gain(w: World, c: Cell) -> int {
    if enemy_lines_at(w, c) {
        5
    } else if enemy_territory_at(w, c) {
        3
    } else if !contains_cell(w.me.territory@, c) {
        1
    } else {
        0
    }
}

/// The gain of one column of the rectangle, rows `y_from..=y_to`.
pub open spec fn col_gain(w: World, x: int, y_from: int, y_to: int) -> int
    decreases y_to - y_from + 1,
{
    if y_to < y_from {
        0
    } else {
        col_gain(w, x, y_from, y_to - 1) + cell_gain(w, Cell(x as i32, y_to as i32))
    }
}

/// The gain of the rectangle's columns `x_from..=x_to`.
pub open spec fn rect_gain(w: World, x_from: int, y_from: int, x_to: int, y_to: int) -> int
    decreases x_to - x_from + 1,
{
    if x_to < x_from {
        0
    } else {
        rect_gain(w, x_from, y_from, x_to - 1, y_to) + col_gain(w, x_to, y_from, y_to)
    }
}

/// The gain of the rectangle spanned by the player and `dst`.
pub open spec fn new_territory_of(w: World, dst: Cell) -> int {
    rect_gain(
        w,
        min2(w.me.position.0 as int, dst.0 as int),
        min2(w.me.position.1 as int, dst.1 as int),
        if (w.me.position.0 as int) < (dst.0 as int) {
            dst.0 as int
        } else {
            w.me.position.0 as int
        },
        if (w.me.position.1 as int) < (dst.1 as int) {
            dst.1 as int
        } else {
            w.me.position.1 as int
        },
    )
}

/// How fast one enemy can cut the planned rectangle: the distance to the
/// nearest border it stands across from, or to the nearest corner.
pub open spec fn enemy_threat(e: Player, x0: int, y0: int, x1: int, y1: int) -> int {
    let xe = e.position.0 as int;
    let ye = e.position.1 as int;
    if between_of(xe, x1, x0) {
        min2(dist_of(ye, y1), dist_of(ye, y0))
    } else if between_of(ye, y1, y0) {
        min2(dist_of(xe, x1), dist_of(xe, x0))
    } else {
        min2(
            min2(manhattan(Cell(x0 as i32, y0 as i32), e.position), manhattan(Cell(x1 as i32, y1 as i32), e.position)),
            min2(manhattan(Cell(x0 as i32, y1 as i32), e.position), manhattan(Cell(x1 as i32, y0 as i32), e.position)),
        )
    }
}

/// The least threat among the first `k` enemies, starting from the
/// worst-case bound of a whole map crossing.
pub open spec fn min_threat_upto(es: Seq<Player>, x0: int, y0: int, x1: int, y1: int, k: int) -> int
    decreases k,
{
    if k <= 0 {
        961
    } else {
        min2(min_threat_upto(es, x0, y0, x1, y1, k - 1), enemy_threat(es[k - 1], x0, y0, x1, y1))
    }
}

/// How dangerous the rectangle towards `(x1, y1)` is: the moves it takes to
/// walk it, less the enemies' fastest cut.
pub open spec fn danger_of(w: World, x0: int, y0: int, x1: int, y1: int) -> int {
    (dist_of(x1, x0) + 2 + dist_of(y1, y0)) * 2 - min_threat_upto(
        w.enemies@,
        x0,
        y0,
        x1,
        y1,
        w.enemies@.len() as int,
    )
}

/// Whether the rectangle towards `(x, y)` is worth scoring at all: it must
/// span more than one cell on both axes.
pub open spec fn eligible(w: World, x: int, y: int) -> bool {
    let x0 = w.me.position.0 as int;
    let y0 = w.me.position.1 as int;
    &&& abs_of(x - x0 + 1) * abs_of(y - y0 + 1) > 1
    &&& x != x0
    &&& y != y0
}

/// The score of the rectangle towards `(x, y)`: gain weighted against
/// squared danger; a rectangle that gains nothing scores just above the
/// floor.
pub open spec fn route_score_of(w: World, x: int, y: int) -> int {
    let gain = new_territory_of(w, Cell(x as i32, y as i32));
    if gain <= 0 {
        MIN_SCORE + 1
    } else {
        3 * gain - danger_of(w, w.me.position.0 as int, w.me.position.1 as int, x, y) * danger_of(
            w,
            w.me.position.0 as int,
            w.me.position.1 as int,
            x,
            y,
        )
    }
}

/// Scan order of the candidate cells: column-major, as the planner visits
/// them.
pub open spec fn earlier(x1: int, y1: int, x2: int, y2: int) -> bool {
    x1 < x2 || (x1 == x2 && y1 < y2)
}

/// What the planner returns: the first candidate attaining the best score,
/// or the off-map marker when nothing is eligible.
pub open spec fn plan_post(w: World, r: Cell) -> bool {
    if exists|x: int, y: int|
        0 <= x < 31 && 0 <= y < 31 && eligible(w, x, y) && route_score_of(w, x, y) > MIN_SCORE {
        &&& 0 <= r.0 < 31
        &&& 0 <= r.1 < 31
        &&& eligible(w, r.0 as int, r.1 as int)
        &&& route_score_of(w, r.0 as int, r.1 as int) > MIN_SCORE
        &&& forall|x: int, y: int|
            0 <= x < 31 && 0 <= y < 31 && #[trigger] eligible(w, x, y) ==> route_score_of(w, x, y)
                <= route_score_of(w, r.0 as int, r.1 as int)
        &&& forall|x: int, y: int|
            0 <= x < 31 && 0 <= y < 31 && #[trigger] eligible(w, x, y) && earlier(
                x,
                y,
                r.0 as int,
                r.1 as int,
            ) ==> route_score_of(w, x, y) < route_score_of(w, r.0 as int, r.1 as int)
    } else {
        r == Cell(-1i32, -1i32)
    }
}

/// The corner tour towards `plan` from `start`: around the far corner on
/// the axis that avoids an immediate turnabout.
pub open spec fn route_of(plan: Cell, start: Cell, prev: Direction) -> Seq<Cell> {
    let x_route = Cell(plan.0, start.1);
    let y_route = Cell(start.0, plan.1);
    if opposite_of(dir_to(start, x_route)) == prev {
        seq![y_route, plan, x_route, start]
    } else {
        seq![x_route, plan, y_route, start]
    }
}

/// The strategy's private state between ticks.
pub struct Strategy {
    cur_goal_index: usize,
    plan: Cell,
    goals: Vec<Cell>,
    previous_direction: Direction,
    got_new_territory: bool,
}

/// Whether a cell sequence holds `c`.
fn contains_cell_vec(cells: &Vec<Cell>, c: Cell) -> (r: bool)
    ensures
        r == contains_cell(cells@, c),
{
    let n = cells.len();
    let mut i: usize = 0;
    while i < n
        invariant
            n == cells@.len(),
            i <= n,
            forall|j: int| 0 <= j < i ==> cells@[j] != c,
        decreases n - i,
    {
        if cells[i].0 == c.0 && cells[i].1 == c.1 {
            return true;
        }
        i += 1;
    }
    false
}

/// Whether any enemy's trail crosses `c`.
fn any_enemy_lines(enemies: &Vec<Player>, c: Cell) -> (r: bool)
    ensures
        r == exists|i: int|
            0 <= i < enemies@.len() && contains_cell((#[trigger] enemies@[i]).lines@, c),
{
    let n = enemies.len();
    let mut i: usize = 0;
    while i < n
        invariant
            n == enemies@.len(),
            i <= n,
            forall|j: int| 0 <= j < i ==> !contains_cell((#[trigger] enemies@[j]).lines@, c),
        decreases n - i,
    {
        if contains_cell_vec(&enemies[i].lines, c) {
            return true;
        }
        i += 1;
    }
    false
}

/// Whether any enemy owns `c`.
fn any_enemy_territory(enemies: &Vec<Player>, c: Cell) -> (r: bool)
    ensures
        r == exists|i: int|
            0 <= i < enemies@.len() && contains_cell((#[trigger] enemies@[i]).territory@, c),
{
    let n = enemies.len();
    let mut i: usize = 0;
    while i < n
        invariant
            n == enemies@.len(),
            i <= n,
            forall|j: int| 0 <= j < i ==> !contains_cell((#[trigger] enemies@[j]).territory@, c),
        decreases n - i,
    {
        if contains_cell_vec(&enemies[i].territory, c) {
            return true;
        }
        i += 1;
    }
    false
}

/// What taking one cell is worth.
fn cell_gain_exec(world: &World, c: Cell) -> (r: i32)
    ensures
        r as int == cell_gain(*world, c),
        0 <= r <= 5,
{
    if any_enemy_lines(&world.enemies, c) {
        5
    } else if any_enemy_territory(&world.enemies, c) {
        3
    } else if !contains_cell_vec(&world.me.territory, c) {
        1
    } else {
        0
    }
}

/// The gain of the rectangle spanned by the player and `dst`.
fn count_new_territory(world: &World, dst: Cell) -> (r: i32)
    requires
        world_wf(*world),
        cell_in_map(dst),
    ensures
        r as int == new_territory_of(*world, dst),
        0 <= r <= 4805,
{
    let x0 = world.me.position.0;
    let y0 = world.me.position.1;
    let x_from = if x0 < dst.0 {
        x0
    } else {
        dst.0
    };
    let y_from = if y0 < dst.1 {
        y0
    } else {
        dst.1
    };
    let x_to = if x0 < dst.0 {
        dst.0
    } else {
        x0
    };
    let y_to = if y0 < dst.1 {
        dst.1
    } else {
        y0
    };
    let mut count: i32 = 0;
    let mut x = x_from;
    while x <= x_to
        invariant
            0 <= x_from <= x,
            x_from <= x_to < 31,
            0 <= y_from <= y_to < 31,
            x <= x_to + 1,
            count as int == rect_gain(*world, x_from as int, y_from as int, x - 1, y_to as int),
            0 <= count <= (x - x_from) * 31 * 5,
        decreases x_to + 1 - x,
    {
        let mut y = y_from;
        let ghost col_base = count as int;
        while y <= y_to
            invariant
                0 <= x_from <= x <= x_to < 31,
                0 <= y_from <= y,
                y_from <= y_to < 31,
                y <= y_to + 1,
                count as int == col_base + col_gain(*world, x as int, y_from as int, y - 1),
                col_base == rect_gain(*world, x_from as int, y_from as int, x - 1, y_to as int),
                0 <= col_base <= (x - x_from) * 31 * 5,
                col_base <= count as int <= col_base + (y - y_from) * 5,
            decreases y_to + 1 - y,
        {
            let g = cell_gain_exec(world, Cell(x, y));
            count = count + g;
            y = y + 1;
        }
        proof {
            assert(count as int == rect_gain(
                *world,
                x_from as int,
                y_from as int,
                x as int,
                y_to as int,
            ));
            assert((x + 1 - x_from) * 31 * 5 == (x - x_from) * 31 * 5 + 31 * 5) by (nonlinear_arith);
            assert((y_to + 1 - y_from) * 5 <= 31 * 5) by (nonlinear_arith)
                requires
                    0 <= y_from <= y_to < 31,
            ;
        }
        x = x + 1;
    }
    proof {
        assert((x_to + 1 - x_from) * 31 * 5 <= 31 * 31 * 5) by (nonlinear_arith)
            requires
                0 <= x_from <= x_to < 31,
        ;
    }
    count
}

/// How dangerous the rectangle from the player towards `(x1, y1)` is.
fn calculate_danger(x0: i32, y0: i32, x1: i32, y1: i32, world: &World) -> (r: i32)
    requires
        world_wf(*world),
        0 <= x0 < 31,
        0 <= y0 < 31,
        0 <= x1 < 31,
        0 <= y1 < 31,
    ensures
        r as int == danger_of(*world, x0 as int, y0 as int, x1 as int, y1 as int),
        -961 <= r <= 124,
{
    let number_moves = ((if x1 > x0 {
        x1 - x0
    } else {
        x0 - x1
    }) + 2 + (if y1 > y0 {
        y1 - y0
    } else {
        y0 - y1
    })) * 2;
    let n = world.enemies.len();
    let mut moves_to_kill: i32 = 961;
    let mut i: usize = 0;
    while i < n
        invariant
            n == world.enemies@.len(),
            i <= n,
            world_wf(*world),
            0 <= x0 < 31,
            0 <= y0 < 31,
            0 <= x1 < 31,
            0 <= y1 < 31,
            moves_to_kill as int == min_threat_upto(
                world.enemies@,
                x0 as int,
                y0 as int,
                x1 as int,
                y1 as int,
                i as int,
            ),
            0 <= moves_to_kill <= 961,
        decreases n - i,
    {
        let e = &world.enemies[i];
        let xe = e.position.0;
        let ye = e.position.1;
        let threat: i32 = if (xe >= x1 && xe <= x0) || (xe >= x0 && xe <= x1) {
            let d1 = if ye > y1 {
                ye - y1
            } else {
                y1 - ye
            };
            let d0 = if ye > y0 {
                ye - y0
            } else {
                y0 - ye
            };
            if d1 < d0 {
                d1
            } else {
                d0
            }
        } else if (ye >= y1 && ye <= y0) || (ye >= y0 && ye <= y1) {
            let d1 = if xe > x1 {
                xe - x1
            } else {
                x1 - xe
            };
            let d0 = if xe > x0 {
                xe - x0
            } else {
                x0 - xe
            };
            if d1 < d0 {
                d1
            } else {
                d0
            }
        } else {
            let c00 = (if xe > x0 {
                xe - x0
            } else {
                x0 - xe
            }) + (if ye > y0 {
                ye - y0
            } else {
                y0 - ye
            });
            let c11 = (if xe > x1 {
                xe - x1
            } else {
                x1 - xe
            }) + (if ye > y1 {
                ye - y1
            } else {
                y1 - ye
            });
            let c01 = (if xe > x0 {
                xe - x0
            } else {
                x0 - xe
            }) + (if ye > y1 {
                ye - y1
            } else {
                y1 - ye
            });
            let c10 = (if xe > x1 {
                xe - x1
            } else {
                x1 - xe
            }) + (if ye > y0 {
                ye - y0
            } else {
                y0 - ye
            });
            let a = if c00 < c11 {
                c00
            } else {
                c11
            };
            let b = if c01 < c10 {
                c01
            } else {
                c10
            };
            if a < b {
                a
            } else {
                b
            }
        };
        proof {
            assert(threat as int == enemy_threat(
                world.enemies@[i as int],
                x0 as int,
                y0 as int,
                x1 as int,
                y1 as int,
            ));
        }
        if threat < moves_to_kill {
            moves_to_kill = threat;
        }
        i += 1;
    }
    number_moves - moves_to_kill
}

impl Strategy {
    /// The strategy's state is coherent: either no tour is planned yet, or
    /// a four-corner tour is underway.
    pub open spec fn wf(&self) -> bool {
        self.goals_view().len() == 0 || (self.goals_view().len() == 4 && self.goal_index() < 4)
    }

    /// The planned tour.
    pub closed spec fn goals_view(&self) -> Seq<Cell> {
        self.goals@
    }

    /// The current tour corner.
    pub closed spec fn goal_index(&self) -> int {
        self.cur_goal_index as int
    }

    /// The planned far corner.
    pub closed spec fn plan_view(&self) -> Cell {
        self.plan
    }

    /// The facing chosen on the last tick.
    pub closed spec fn prev_direction(&self) -> Direction {
        self.previous_direction
    }

    /// Whether home territory had been left when last seen.
    pub closed spec fn territory_flag(&self) -> bool {
        self.got_new_territory
    }

    /// A fresh strategy: no tour yet, facing left, ready to replan.
    pub fn new() -> (r: Self)
        ensures
            r.wf(),
            r.goals_view().len() == 0,
            r.goal_index() == 0,
            r.plan_view() == Cell(-1i32, -1i32),
            r.prev_direction() == Direction::Left,
            r.territory_flag(),
    {
        Strategy {
            plan: Cell(-1i32, -1i32),
            cur_goal_index: 0,
            previous_direction: Direction::Left,
            goals: Vec::new(),
            got_new_territory: true,
        }
    }

    /// Picks the rectangle corner with the best score, scanning the map
    /// column by column; the first best candidate wins.
    fn plan_route(world: &World) -> (r: Cell)
        requires
            world_wf(*world),
        ensures
            plan_post(*world, r),
    {
        let mut best_route = Cell(-1i32, -1i32);
        let mut best_route_score: i32 = MIN_SCORE;
        let mut x: i32 = 0;
        while x < 31
            invariant
                world_wf(*world),
                0 <= x <= 31,
                MIN_SCORE <= best_route_score,
                best_route == Cell(-1i32, -1i32) ==> best_route_score == MIN_SCORE && forall|
                    a: int,
                    b: int,
                |
                    0 <= a < x && 0 <= b < 31 && #[trigger] eligible(*world, a, b)
                        ==> route_score_of(*world, a, b) <= MIN_SCORE,
                best_route != Cell(-1i32, -1i32) ==> 0 <= best_route.0 < x && 0 <= best_route.1 < 31
                    && best_route_score > MIN_SCORE && eligible(
                    *world,
                    best_route.0 as int,
                    best_route.1 as int,
                ) && best_route_score as int == route_score_of(
                    *world,
                    best_route.0 as int,
                    best_route.1 as int,
                ) && (forall|a: int, b: int|
                    0 <= a < x && 0 <= b < 31 && #[trigger] eligible(*world, a, b)
                        ==> route_score_of(*world, a, b) <= best_route_score as int) && (forall|
                    a: int,
                    b: int,
                |
                    0 <= a < x && 0 <= b < 31 && #[trigger] eligible(*world, a, b) && earlier(
                        a,
                        b,
                        best_route.0 as int,
                        best_route.1 as int,
                    ) ==> route_score_of(*world, a, b) < best_route_score as int),
            decreases 31 - x,
        {
            let mut y: i32 = 0;
            while y < 31
                invariant
                    world_wf(*world),
                    0 <= x < 31,
                    0 <= y <= 31,
                    MIN_SCORE <= best_route_score,
                    best_route == Cell(-1i32, -1i32) ==> best_route_score == MIN_SCORE && forall|
                        a: int,
                        b: int,
                    |
                        0 <= a < 31 && 0 <= b < 31 && (a < x || (a == x && b < y))
                            && #[trigger] eligible(*world, a, b) ==> route_score_of(*world, a, b)
                            <= MIN_SCORE,
                    best_route != Cell(-1i32, -1i32) ==> 0 <= best_route.0 < 31 && 0 <= best_route.1 < 31
                        && (best_route.0 < x || (best_route.0 == x && best_route.1 < y))
                        && best_route_score > MIN_SCORE && eligible(
                        *world,
                        best_route.0 as int,
                        best_route.1 as int,
                    ) && best_route_score as int == route_score_of(
                        *world,
                        best_route.0 as int,
                        best_route.1 as int,
                    ) && (forall|a: int, b: int|
                        0 <= a < 31 && 0 <= b < 31 && (a < x || (a == x && b < y))
                            && #[trigger] eligible(*world, a, b) ==> route_score_of(*world, a, b)
                            <= best_route_score as int) && (forall|a: int, b: int|
                        0 <= a < 31 && 0 <= b < 31 && (a < x || (a == x && b < y))
                            && #[trigger] eligible(*world, a, b) && earlier(
                            a,
                            b,
                            best_route.0 as int,
                            best_route.1 as int,
                        ) ==> route_score_of(*world, a, b) < best_route_score as int),
                decreases 31 - y,
            {
                let x0 = world.me.position.0;
                let y0 = world.me.position.1;
                let dx = if x - x0 + 1 < 0 {
                    -(x - x0 + 1)
                } else {
                    x - x0 + 1
                };
                let dy = if y - y0 + 1 < 0 {
                    -(y - y0 + 1)
                } else {
                    y - y0 + 1
                };
                proof {
                    assert(dx * dy <= 32 * 32) by (nonlinear_arith)
                        requires
                            0 <= dx <= 32,
                            0 <= dy <= 32,
                    ;
                    assert(dx * dy >= 0) by (nonlinear_arith)
                        requires
                            0 <= dx,
                            0 <= dy,
                    ;
                }
                let rectangle_square = dx * dy;
                if !(rectangle_square <= 1 || x == x0 || y == y0) {
                    let rect_score = count_new_territory(world, Cell(x, y));
                    let danger = calculate_danger(x0, y0, x, y, world);
                    proof {
                        assert(danger * danger <= 961 * 961) by (nonlinear_arith)
                            requires
                                -961 <= danger <= 961,
                        ;
                        assert(danger * danger >= 0) by (nonlinear_arith);
                    }
                    let mut route_score: i32 = 3 * rect_score - danger * danger;
                    if rect_score <= 0 {
                        route_score = MIN_SCORE + 1;
                    }
                    proof {
                        assert(route_score as int == route_score_of(*world, x as int, y as int));
                    }
                    if route_score > best_route_score {
                        best_route = Cell(x, y);
                        best_route_score = route_score;
                    }
                }
                y = y + 1;
            }
            x = x + 1;
        }
        proof {
            if best_route == Cell(-1i32, -1i32) {
                assert(forall|a: int, b: int|
                    0 <= a < 31 && 0 <= b < 31 && #[trigger] eligible(*world, a, b)
                        ==> route_score_of(*world, a, b) <= MIN_SCORE);
            } else {
                assert(eligible(*world, best_route.0 as int, best_route.1 as int)
                    && route_score_of(*world, best_route.0 as int, best_route.1 as int)
                    > MIN_SCORE);
            }
        }
        best_route
    }

    /// The four-corner tour towards the planned cell.
    fn create_route(&mut self, start: Cell) -> (r: Vec<Cell>)
        ensures
            *final (self) == *old(self),
            r@ == route_of(old(self).plan_view(), start, old(self).prev_direction()),
    {
        let x_route = Cell(self.plan.0, start.1);
        let y_route = Cell(start.0, self.plan.1);
        let towards = if x_route.0 > start.0 {
            Direction::Right
        } else if x_route.0 < start.0 {
            Direction::Left
        } else if x_route.1 < start.1 {
            Direction::Down
        } else {
            Direction::Up
        };
        let opposite = match towards {
            Direction::Left => Direction::Right,
            Direction::Right => Direction::Left,
            Direction::Up => Direction::Down,
            Direction::Down => Direction::Up,
        };
        let r = if opposite == self.previous_direction {
            vec![y_route, self.plan, x_route, start]
        } else {
            vec![x_route, self.plan, y_route, start]
        };
        proof {
            assert(r@ =~= route_of(self.plan, start, self.previous_direction));
        }
        r
    }

    /// Faces the current goal and remembers the facing.
    fn make_move(&mut self, position: Cell) -> (r: Direction)
        requires
            0 <= old(self).goal_index() < old(self).goals_view().len(),
        ensures
            r == dir_to(position, old(self).goals_view()[old(self).goal_index()]),
            final (self).prev_direction() == r,
            final (self).goals_view() == old(self).goals_view(),
            final (self).goal_index() == old(self).goal_index(),
            final (self).plan_view() == old(self).plan_view(),
            final (self).territory_flag() == old(self).territory_flag(),
            final (self).wf() == old(self).wf(),
    {
        let goal = self.goals[self.cur_goal_index];
        let d = if goal.0 > position.0 {
            Direction::Right
        } else if goal.0 < position.0 {
            Direction::Left
        } else if goal.1 < position.1 {
            Direction::Down
        } else {
            Direction::Up
        };
        self.previous_direction = d;
        d
    }

    /// One tick: replan the tour when home territory has just been regained
    /// or the tour is done, advance to the next corner when one is reached,
    /// and face the current corner.
    pub fn on_tick(&mut self, world: World) -> (r: Direction)
        requires
            world_wf(world),
            old(self).wf(),
            old(self).goals_view().len() == 0 ==> old(self).territory_flag() && own_territory_of(
                world,
            ),
        ensures
            final (self).wf(),
            final (self).goals_view().len() == 4,
            ({
                let replanned = (old(self).territory_flag() && own_territory_of(world)) || (old(
                    self,
                ).goals_view().len() > 0 && world.me.position == old(self).goals_view().last());
                &&& replanned ==> plan_post(world, final (self).plan_view()) && final (
                self).goals_view() == route_of(
                    final (self).plan_view(),
                    world.me.position,
                    old(self).prev_direction(),
                )
                &&& replanned ==> final (self).goal_index() == 0
                &&& !replanned ==> final (self).goals_view() == old(self).goals_view() && final (
                self).plan_view() == old(self).plan_view()
                &&& (!replanned && world.me.position == old(self).goals_view()[old(
                self).goal_index()]) ==> final (self).goal_index() == old(self).goal_index() + 1
                &&& (!replanned && world.me.position != old(self).goals_view()[old(
                self).goal_index()]) ==> final (self).goal_index() == old(self).goal_index()
            }),
            final (self).territory_flag() == !own_territory_of(world),
            r == dir_to(
                world.me.position,
                final (self).goals_view()[final (self).goal_index()],
            ),
            final (self).prev_direction() == r,
    {
        let my_pos = world.me.position;
        let on_own = contains_cell_vec(&world.me.territory, my_pos);
        let replan = if self.got_new_territory && on_own {
            true
        } else if self.goals.len() > 0 {
            let last = self.goals[self.goals.len() - 1];
            my_pos.0 == last.0 && my_pos.1 == last.1
        } else {
            false
        };
        proof {
            if self.goals@.len() == 0 {
                assert(self.got_new_territory && own_territory_of(world));
            }
        }
        if replan {
            self.plan = Self::plan_route(&world);
            let route = self.create_route(my_pos);
            self.goals = route;
            self.cur_goal_index = 0;
        } else {
            let goal = self.goals[self.cur_goal_index];
            if my_pos.0 == goal.0 && my_pos.1 == goal.1 {
                proof {
                    assert(my_pos != self.goals@.last());
                    assert(self.cur_goal_index != 3);
                }
                self.cur_goal_index = self.cur_goal_index + 1;
            }
        }
        self.got_new_territory = !on_own;
        self.make_move(my_pos)
    }
}

impl Default for Strategy {
    /// A fresh strategy.
    fn default() -> (r: Self)
        ensures
            r.wf(),
            r.goals_view().len() == 0,
            r.territory_flag(),
    {
        Strategy::new()
    }
}

} // verus!
