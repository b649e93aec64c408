//! Falling obstacles.

use vstd::prelude::*;
use crate::config::{GameGrid, HEIGHT, MAX_DURATION, OBS_ICON, WIDTH, in_grid};

verus! {

#[derive(Clone, Copy, Debug, PartialEq, Eq, Structural)]
pub enum Shape {
    Unit,
    Triangle,
    Brick { width: usize, height: usize },
}

impl Default for Shape {
    fn default() -> (s: Self)
        ensures
            s == Shape::Unit,
    {
        Shape::Unit
    }
}

/// The cell of the board at column `x` and row `y`.
pub open spec fn grid_cell(g: GameGrid, x: int, y: int) -> char {
    g@[y]@[x]
}

/// The cells `(x, y) .. (x, y + h)` of one column, top to bottom.
pub open spec fn column_cells(x: int, y: int, h: int) -> Seq<(usize, usize)> {
    Seq::new(h as nat, |j: int| (x as usize, (y + j) as usize))
}

/// The cells of the first `w` columns of a brick with top-left corner `(x, y)`
/// and height `h`, column by column.
pub open spec fn brick_cells(x: int, y: int, w: int, h: int) -> Seq<(usize, usize)>
    decreases w,
{
    if w <= 0 {
        Seq::empty()
    } else {
        brick_cells(x, y, w - 1, h) + column_cells(x + w - 1, y, h)
    }
}

/// Every cell of a brick lies within its rows and columns.
pub proof fn lemma_brick_cells_bounds(x: int, y: int, w: int, h: int)
    requires
        0 <= x,
        0 <= y,
        0 <= h,
        h == 0 || x + w - 1 <= usize::MAX,
        y + h - 1 <= usize::MAX,
    ensures
        forall|i: int|
            0 <= i < brick_cells(x, y, w, h).len() ==> x <= #[trigger] brick_cells(
                x,
                y,
                w,
                h,
            )[i].0 < x + w && y <= brick_cells(x, y, w, h)[i].1 < y + h,
    decreases w,
{
    if w > 0 {
        lemma_brick_cells_bounds(x, y, w - 1, h);
        let prev = brick_cells(x, y, w - 1, h);
        let col = column_cells(x + w - 1, y, h);
        assert forall|i: int|
            0 <= i < brick_cells(x, y, w, h).len() implies x <= #[trigger] brick_cells(
            x,
            y,
            w,
            h,
        )[i].0 < x + w && y <= brick_cells(x, y, w, h)[i].1 < y + h by {
            if i < prev.len() {
                assert(brick_cells(x, y, w, h)[i] == prev[i]);
            } else {
                let k = i - prev.len();
                assert(0 <= k < h);
                assert(brick_cells(x, y, w, h)[i] == col[k]);
                assert(col[k] == ((x + w - 1) as usize, (y + k) as usize));
            }
        }
    }
}

/// The cells that an obstacle of `shape` anchored at `(x, y)` covers.
pub open spec fn shape_cells(x: int, y: int, shape: Shape) -> Seq<(usize, usize)> {
    match shape {
        Shape::Unit => seq![(x as usize, y as usize)],
        Shape::Triangle => seq![
            (x as usize, y as usize),
            ((x - 1) as usize, (y + 1) as usize),
            ((x + 1) as usize, (y + 1) as usize),
        ],
        Shape::Brick { width, height } => brick_cells(x, y, width as int, height as int),
    }
}

/// The anchor `(x, y)` leaves room for `shape` within the range of `usize`.
pub open spec fn shape_fits(x: int, y: int, shape: Shape) -> bool {
    match shape {
        Shape::Unit => true,
        Shape::Triangle => 1 <= x && x + 1 <= usize::MAX && y + 1 <= usize::MAX,
        Shape::Brick { width, height } => width == 0 || height == 0 || (x + width - 1
            <= usize::MAX && y + height - 1 <= usize::MAX),
    }
}

pub struct Obstacle {
    pub cells: Vec<(usize, usize)>,
    /// Time between two steps down, in nanoseconds.
    pub move_after: u128,
    /// Time since the last step down, in nanoseconds.
    pub time_since_move: u128,
}

/// What an obstacle is: its cells and its clock.
#[verifier::ext_equal]
pub struct ObstacleView {
    pub cells: Seq<(usize, usize)>,
    pub move_after: u128,
    pub time_since_move: u128,
}

impl View for Obstacle {
    type V = ObstacleView;

    open spec fn view(&self) -> ObstacleView {
        ObstacleView {
            cells: self.cells@,
            move_after: self.move_after,
            time_since_move: self.time_since_move,
        }
    }
}

impl ObstacleView {
    /// The obstacle after `dt` more nanoseconds: once `move_after` has passed
    /// since its last step it steps one row down.
    pub open spec fn step(self, dt: int) -> ObstacleView {
        let t = self.time_since_move + dt;
        if t >= self.move_after {
            ObstacleView {
                cells: cells_down(self.cells),
                move_after: self.move_after,
                time_since_move: (t - self.move_after) as u128,
            }
        } else {
            ObstacleView { cells: self.cells, move_after: self.move_after, time_since_move: t as u128 }
        }
    }

    pub open spec fn covers(self, x: int, y: int) -> bool {
        covers(self.cells, x, y)
    }

    /// Some cell of the obstacle lies in row `row` or below it.
    pub open spec fn reaches_row(self, row: int) -> bool {
        exists|i: int| 0 <= i < self.cells.len() && #[trigger] self.cells[i].1 >= row
    }

    /// Some cell of the obstacle lies above the bottom edge of the board.
    pub open spec fn above_bottom(self) -> bool {
        exists|i: int| 0 <= i < self.cells.len() && #[trigger] self.cells[i].1 < HEIGHT
    }
}

/// Whether one of `cells` is `(x, y)`.
pub open spec fn covers(cells: Seq<(usize, usize)>, x: int, y: int) -> bool {
    exists|i: int| 0 <= i < cells.len() && cells[i].0 == x && cells[i].1 == y
}

/// The cells one row lower.
pub open spec fn cells_down(cells: Seq<(usize, usize)>) -> Seq<(usize, usize)> {
    cells.map_values(|c: (usize, usize)| (c.0, (c.1 + 1) as usize))
}

impl Obstacle {
    pub fn new(x: usize, y: usize, move_after: u128, shape: Shape) -> (o: Self)
        requires
            shape_fits(x as int, y as int, shape),
        ensures
            o@ == (ObstacleView {
                cells: shape_cells(x as int, y as int, shape),
                move_after,
                time_since_move: 0,
            }),
    {
        let cells = match shape {
            Shape::Unit => vec![(x, y)],
            Shape::Triangle => vec![(x, y), (x - 1, y + 1), (x + 1, y + 1)],
            Shape::Brick { width, height } => {
                let mut out: Vec<(usize, usize)> = Vec::new();
                let mut dx: usize = 0;
                while dx < width
                    invariant
                        dx <= width,
                        width == 0 || height == 0 || (x + width - 1 <= usize::MAX && y + height
                            - 1 <= usize::MAX),
                        out@ == brick_cells(x as int, y as int, dx as int, height as int),
                    decreases width - dx,
                {
                    let mut dy: usize = 0;
                    while dy < height
                        invariant
                            dx < width,
                            dy <= height,
                            x + width - 1 <= usize::MAX || height == 0,
                            y + height - 1 <= usize::MAX || height == 0,
                            out@ == brick_cells(x as int, y as int, dx as int, height as int)
                                + column_cells(x + dx, y as int, dy as int),
                        decreases height - dy,
                    {
                        out.push((x + dx, y + dy));
                        proof {
                            assert(column_cells(x + dx, y as int, dy + 1) =~= column_cells(
                                x + dx,
                                y as int,
                                dy as int,
                            ).push(((x + dx) as usize, (y + dy) as usize)));
                        }
                        dy += 1;
                    }
                    proof {
                        assert(column_cells(x + dx, y as int, height as int) =~= column_cells(
                            x + dx,
                            y as int,
                            dy as int,
                        ));
                    }
                    dx += 1;
                }
                out
            },
        };
        let o = Obstacle { cells, move_after, time_since_move: 0 };
        assert(o@ =~= ObstacleView {
            cells: shape_cells(x as int, y as int, shape),
            move_after,
            time_since_move: 0,
        });
        o
    }

    /// Advances the obstacle's clock by `dt`; once `move_after` has passed it
    /// steps one row down.
    pub fn move_obstacle(&mut self, dt: u128)
        requires
            old(self).time_since_move + dt <= MAX_DURATION,
            forall|i: int|
                0 <= i < old(self).cells.len() ==> #[trigger] old(self).cells@[i].1 < usize::MAX,
        ensures
            final(self)@ == old(self)@.step(dt as int),
    {
        self.time_since_move = self.time_since_move + dt;
        if self.time_since_move >= self.move_after {
            self.time_since_move = self.time_since_move - self.move_after;
            let n = self.cells.len();
            let mut i: usize = 0;
            while i < n
                invariant
                    n == self.cells.len(),
                    n == old(self).cells.len(),
                    i <= n,
                    self.move_after == old(self).move_after,
                    self.time_since_move == old(self).time_since_move + dt - old(self).move_after,
                    forall|j: int|
                        0 <= j < n ==> #[trigger] old(self).cells@[j].1 < usize::MAX,
                    forall|j: int|
                        0 <= j < i ==> #[trigger] self.cells@[j] == (
                            old(self).cells@[j].0,
                            (old(self).cells@[j].1 + 1) as usize,
                        ),
                    forall|j: int| i <= j < n ==> #[trigger] self.cells@[j] == old(self).cells@[j],
                decreases n - i,
            {
                let (cx, cy) = self.cells[i];
                self.cells.set(i, (cx, cy + 1));
                i += 1;
            }
            proof {
                assert(self.cells@ =~= cells_down(old(self).cells@));
            }
        }
    }

    /// Whether one of the obstacle's cells is `(x, y)`.
    pub fn covers_cell(&self, x: usize, y: usize) -> (r: bool)
        ensures
            r == self@.covers(x as int, y as int),
    {
        let mut i: usize = 0;
        while i < self.cells.len()
            invariant
                i <= self.cells.len(),
                forall|j: int| 0 <= j < i ==> #[trigger] self.cells@[j] != (x, y),
            decreases self.cells.len() - i,
        {
            let (cx, cy) = self.cells[i];
            if cx == x && cy == y {
                return true;
            }
            i += 1;
        }
        false
    }

    /// Appends to `out` the obstacle's cells that lie in the first `w`
    /// columns and the first `h` rows.
    pub fn push_cells_within(&self, out: &mut Vec<(usize, usize)>, w: usize, h: usize)
        ensures
            forall|c: (usize, usize)|
                #[trigger] final(out)@.contains(c) <==> old(out)@.contains(c) || (c.0 < w && c.1
                    < h && self@.covers(c.0 as int, c.1 as int)),
    {
        let mut i: usize = 0;
        while i < self.cells.len()
            invariant
                i <= self.cells.len(),
                forall|c: (usize, usize)|
                    #[trigger] out@.contains(c) <==> old(out)@.contains(c) || (c.0 < w && c.1 < h
                        && covers(self.cells@.take(i as int), c.0 as int, c.1 as int)),
            decreases self.cells.len() - i,
        {
            let (x, y) = self.cells[i];
            let ghost before = out@;
            if x < w && y < h {
                out.push((x, y));
            }
            proof {
                let t = self.cells@.take(i + 1);
                let p = self.cells@.take(i as int);
                assert forall|c: (usize, usize)|
                    #[trigger] out@.contains(c) <==> old(out)@.contains(c) || (c.0 < w && c.1 < h
                        && covers(t, c.0 as int, c.1 as int)) by {
                    if covers(t, c.0 as int, c.1 as int) {
                        let k = choose|k: int| 0 <= k < t.len() && t[k].0 == c.0 && t[k].1 == c.1;
                        if k < i {
                            assert(p[k] == t[k]);
                        }
                    }
                    if covers(p, c.0 as int, c.1 as int) {
                        let k = choose|k: int| 0 <= k < p.len() && p[k].0 == c.0 && p[k].1 == c.1;
                        assert(t[k] == p[k]);
                    }
                    if c == (x, y) {
                        assert(t[i as int] == (x, y));
                    }
                    if out@.contains(c) && !before.contains(c) {
                        assert(out@ == before.push((x, y)));
                        let k = choose|k: int| 0 <= k < out@.len() && out@[k] == c;
                        assert(k == before.len());
                    }
                    if before.contains(c) {
                        let k = choose|k: int| 0 <= k < before.len() && before[k] == c;
                        assert(out@[k] == c);
                    }
                    if c == (x, y) && x < w && y < h {
                        assert(out@[before.len() as int] == c);
                    }
                }
            }
            i += 1;
        }
        assert(self.cells@.take(self.cells.len() as int) =~= self.cells@);
    }

    /// Whether some cell of the obstacle lies in row `row` or below it.
    pub fn reaches_row(&self, row: usize) -> (r: bool)
        ensures
            r == self@.reaches_row(row as int),
    {
        let mut i: usize = 0;
        while i < self.cells.len()
            invariant
                i <= self.cells.len(),
                forall|j: int| 0 <= j < i ==> #[trigger] self.cells@[j].1 < row,
            decreases self.cells.len() - i,
        {
            if self.cells[i].1 >= row {
                assert(self@.cells[i as int].1 >= row);
                return true;
            }
            i += 1;
        }
        false
    }

    /// Whether some cell of the obstacle lies above the bottom edge of the
    /// board.
    pub fn above_bottom(&self) -> (r: bool)
        ensures
            r == self@.above_bottom(),
    {
        let mut i: usize = 0;
        while i < self.cells.len()
            invariant
                i <= self.cells.len(),
                forall|j: int| 0 <= j < i ==> #[trigger] self.cells@[j].1 >= HEIGHT,
            decreases self.cells.len() - i,
        {
            if self.cells[i].1 < HEIGHT {
                assert(self@.cells[i as int].1 < HEIGHT);
                return true;
            }
            i += 1;
        }
        false
    }

    /// Draws the obstacle's cells that lie on the board.
    pub fn render(&self, game_grid: &mut GameGrid)
        ensures
            forall|x: int, y: int|
                #![trigger grid_cell(*final(game_grid), x, y)]
                in_grid(x, y) ==> grid_cell(*final(game_grid), x, y) == if covers(
                    self.cells@,
                    x,
                    y,
                ) {
                    OBS_ICON
                } else {
                    grid_cell(*old(game_grid), x, y)
                },
    {
        let n = self.cells.len();
        let mut i: usize = 0;
        while i < n
            invariant
                n == self.cells.len(),
                i <= n,
                forall|x: int, y: int|
                    #![trigger grid_cell(*game_grid, x, y)]
                    in_grid(x, y) ==> grid_cell(*game_grid, x, y) == if covers(
                        self.cells@.take(i as int),
                        x,
                        y,
                    ) {
                        OBS_ICON
                    } else {
                        grid_cell(*old(game_grid), x, y)
                    },
            decreases n - i,
        {
            let (x, y) = self.cells[i];
            let ghost prev = *game_grid;
            if y < HEIGHT && x < WIDTH {
                game_grid[y][x] = OBS_ICON;
                assert forall|cx: int, cy: int| in_grid(cx, cy) implies grid_cell(*game_grid, cx, cy) == if cx == x && cy == y { OBS_ICON } else { grid_cell(prev, cx, cy) } by {
                    if cy != y {
                        assert(game_grid@[cy] == prev@[cy]);
                    }
                }
            }
            proof {
                let s = self.cells@.take(i + 1);
                assert forall|cx: int, cy: int| in_grid(cx, cy) && covers(s, cx, cy) implies covers(self.cells@.take(i as int), cx, cy) || (cx == x && cy == y) by {
                    let k = choose|k: int| 0 <= k < s.len() && s[k].0 == cx && s[k].1 == cy;
                    if k < i {
                        assert(self.cells@.take(i as int)[k] == s[k]);
                    }
                }
                assert forall|cx: int, cy: int| covers(self.cells@.take(i as int), cx, cy) implies covers(s, cx, cy) by {
                    let k = choose|k: int| 0 <= k < i && self.cells@.take(i as int)[k].0 == cx && self.cells@.take(i as int)[k].1 == cy;
                    assert(s[k] == self.cells@.take(i as int)[k]);
                }
                if in_grid(x as int, y as int) {
                    assert(s[i as int] == (x, y));
                    assert(covers(s, x as int, y as int));
                }
            }
            i += 1;
        }
        proof {
            assert(self.cells@.take(n as int) =~= self.cells@);
        }
    }
}

} // verus!
