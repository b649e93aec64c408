//! The rules of the game as mathematics: what a game is, the bounds it
//! keeps, and what each key and each tick make of it.

use vstd::prelude::*;
use crate::config::keybinds;
use crate::config::{
    BARRIER_ICON, BG_ICON, DASH_ICONS_LEN, DASH_LENGTH, GameGrid, HEIGHT, INCREASE_SPEED_BY,
    INIT_SPEED, INIT_SPEEDUP_AFTER, MAX_SPEED, NANOS_PER_SEC, OBS_ICON, PLAYER_ICON, SLOW_SPEEDUP,
    SPAWN_AFTER_MS, ULT_DESTROY_FROM_ROW, ULT_DURATION, WIDTH, dash_icon_spec, in_grid,
    spawn_table,
};
use crate::dash::{Cell, DashEffect, burst_map, lemma_trail_map, trail_map, trail_marked_len};
use crate::obstacle::{ObstacleView, Shape, grid_cell, shape_cells, shape_fits};
use crate::player::{HDirection, Player, PlayerState, VDirection};
use crate::ultimate::{Ultimate, ultimate_after};

verus! {

/// Game time after which obstacle ids could run out: `u64::MAX` spawn
/// periods, about 117 billion years.
pub const MAX_GAME_TIME: u128 = 3_689_348_814_741_910_323_000_000_000;

/// `MAX_GAME_TIME` is `u64::MAX` spawn periods.
pub proof fn lemma_max_game_time()
    ensures
        MAX_GAME_TIME == u64::MAX * SPAWN_AFTER_MS,
{
}

/// How many rows below its top cell an obstacle can reach.
pub const SHAPE_SPAN: usize = 5;

/// Everything a game holds but its random number generator.
#[verifier::ext_equal]
pub struct AppView {
    pub game_grid: GameGrid,
    pub exit: bool,
    pub game_over: bool,
    pub wants_restart: bool,
    pub player: Player,
    pub ultimate: Ultimate,
    pub obstacles: Map<u64, ObstacleView>,
    /// The id the next obstacle gets.
    pub obs_id: u64,
    /// Fall speed of new obstacles, in hundredths of a cell per second.
    pub obs_speed: u64,
    /// Time until the next speedup, counted from the last one.
    pub speedup_after: u128,
    pub time_after_spawn: u128,
    pub time_after_speedup: u128,
    /// The trail effects, by cell.
    pub dashes: Map<Cell, DashEffect>,
    /// Game time so far.
    pub elapsed_time: u128,
}

/// The obstacle keeps to the rows a spawned shape can span.
pub open spec fn obstacle_fits(o: ObstacleView) -> bool {
    &&& forall|i: int| 0 <= i < o.cells.len() ==> #[trigger] o.cells[i].1 < HEIGHT + SHAPE_SPAN
    &&& forall|i: int, j: int|
        0 <= i < o.cells.len() && 0 <= j < o.cells.len() ==> #[trigger] o.cells[i].1
            <= #[trigger] o.cells[j].1 + SHAPE_SPAN
}

impl AppView {
    /// The bounds that every game keeps.
    pub open spec fn inv(self) -> bool {
        &&& self.player.x < WIDTH
        &&& self.player.y < HEIGHT
        &&& self.ultimate.wf()
        &&& self.ultimate.is_active_spec() ==> self.player.y == HEIGHT - 1
        &&& forall|k: Cell| #[trigger]
            self.dashes.contains_key(k) ==> in_grid(k.0 as int, k.1 as int)
                && self.dashes[k].time_since_change <= self.elapsed_time
        &&& forall|id: u64| #[trigger]
            self.obstacles.contains_key(id) ==> id < self.obs_id && obstacle_fits(
                self.obstacles[id],
            ) && self.obstacles[id].time_since_move <= self.elapsed_time
        &&& INIT_SPEED <= self.obs_speed <= MAX_SPEED
        &&& self.time_after_spawn + self.obs_id * SPAWN_AFTER_MS <= self.elapsed_time
        &&& self.time_after_speedup <= self.elapsed_time
        &&& self.speedup_after <= self.elapsed_time + INIT_SPEEDUP_AFTER
        &&& self.elapsed_time <= MAX_GAME_TIME
    }
}

/// The game at its start.
pub open spec fn fresh_game() -> AppView {
    AppView {
        game_grid: [[BG_ICON; WIDTH]; HEIGHT],
        exit: false,
        game_over: false,
        wants_restart: false,
        player: Player { x: WIDTH / 2, y: (HEIGHT - 1) as usize, move_state: PlayerState::Idle },
        ultimate: Ultimate::Charging(0),
        obstacles: Map::empty(),
        obs_id: 0,
        obs_speed: INIT_SPEED,
        speedup_after: INIT_SPEEDUP_AFTER,
        time_after_spawn: 0,
        time_after_speedup: 0,
        dashes: Map::empty(),
        elapsed_time: 0,
    }
}

/// Some obstacle of `obs` covers `(x, y)`.
pub open spec fn occupied(obs: Map<u64, ObstacleView>, x: int, y: int) -> bool {
    exists|id: u64| #[trigger] obs.contains_key(id) && obs[id].covers(x, y)
}

/// `x` moved `n` columns in direction `d`, wrapping around the board.
pub open spec fn wrap_step(x: int, d: HDirection, n: int) -> int {
    match d {
        HDirection::Left => (x - n) % (WIDTH as int),
        HDirection::Right => (x + n) % (WIDTH as int),
    }
}

/// The cells a dash from `(x, y)` in direction `d` sweeps, the start first.
pub open spec fn dash_trail(x: int, y: int, d: HDirection) -> Seq<Cell> {
    Seq::new((DASH_LENGTH + 1) as nat, |i: int| (wrap_step(x, d, i) as usize, y as usize))
}

/// The player after carrying out its move for this tick; `grounded` holds
/// while the ultimate's barrier keeps it from rising.
pub open spec fn moved_player(p: Player, grounded: bool) -> Player {
    let x = match p.move_state {
        PlayerState::Moving(HDirection::Left) => (p.x + WIDTH - 1) % (WIDTH as int),
        PlayerState::Moving(HDirection::Right) => (p.x + 1) % (WIDTH as int),
        PlayerState::Dashing(HDirection::Left) => (p.x + WIDTH - DASH_LENGTH) % (WIDTH as int),
        PlayerState::Dashing(HDirection::Right) => (p.x + DASH_LENGTH) % (WIDTH as int),
        _ => p.x as int,
    };
    let y = match p.move_state {
        PlayerState::Flying(VDirection::Up) => if grounded || p.y == 0 {
            p.y as int
        } else {
            p.y - 1
        },
        PlayerState::Flying(VDirection::Down) => if p.y + 1 < HEIGHT {
            p.y + 1
        } else {
            HEIGHT - 1
        },
        _ => p.y as int,
    };
    Player { x: x as usize, y: y as usize, move_state: p.move_state }
}

/// The cells where the player meets what lies on the board this tick: its
/// own cell or, once a dash has carried it to its end, the whole path the
/// dash swept, from the end back to the start.
pub open spec fn hit_cells(p: Player) -> Seq<Cell> {
    match p.move_state {
        PlayerState::Dashing(d) => dash_trail(p.x as int, p.y as int, d.opposite_spec()),
        _ => seq![(p.x, p.y)],
    }
}

/// Whether the player hits an obstacle of `obs`: some obstacle covers one of
/// the player's hit cells.
pub open spec fn collides(p: Player, obs: Map<u64, ObstacleView>) -> bool {
    exists|i: int|
        0 <= i < hit_cells(p).len() && #[trigger] occupied(
            obs,
            hit_cells(p)[i].0 as int,
            hit_cells(p)[i].1 as int,
        )
}

/// The obstacles of `obs` that `pred` does not pick.
pub open spec fn spared(obs: Map<u64, ObstacleView>, pred: spec_fn(ObstacleView) -> bool) -> Map<
    u64,
    ObstacleView,
> {
    Map::new(|id: u64| obs.contains_key(id) && !pred(obs[id]), |id: u64| obs[id])
}

/// The cells of the board covered by an obstacle of `obs` that `pred` picks.
pub open spec fn doomed_cells(obs: Map<u64, ObstacleView>, pred: spec_fn(ObstacleView) -> bool) -> Set<
    Cell,
> {
    Set::new(
        |c: Cell|
            in_grid(c.0 as int, c.1 as int) && exists|id: u64|
                #![trigger obs[id]]
                obs.contains_key(id) && pred(obs[id]) && obs[id].covers(c.0 as int, c.1 as int),
    )
}

/// The obstacles of `obs` after falling for `dt` nanoseconds, without those
/// that left the board through its bottom edge.
pub open spec fn fallen(obs: Map<u64, ObstacleView>, dt: int) -> Map<u64, ObstacleView> {
    Map::new(
        |id: u64| obs.contains_key(id) && obs[id].step(dt).above_bottom(),
        |id: u64| obs[id].step(dt),
    )
}

/// Picks the obstacles that reach the rows the ultimate sweeps.
pub open spec fn reaches_ult_rows() -> spec_fn(ObstacleView) -> bool {
    |o: ObstacleView| o.reaches_row(ULT_DESTROY_FROM_ROW as int)
}

/// Picks the obstacles that cover one of `cells`.
pub open spec fn touches_any(cells: Seq<Cell>) -> spec_fn(ObstacleView) -> bool {
    |o: ObstacleView|
        exists|i: int|
            0 <= i < cells.len() && #[trigger] o.covers(cells[i].0 as int, cells[i].1 as int)
}

/// The trail effects after the player's move: a dash lays its trail, from
/// the player's new cell back along the path it swept.
pub open spec fn dashes_after_move(v: AppView) -> Map<Cell, DashEffect> {
    let p = moved_player(v.player, v.ultimate.is_active_spec());
    match v.player.move_state {
        PlayerState::Dashing(d) => trail_map(
            v.dashes,
            dash_trail(p.x as int, p.y as int, d.opposite_spec()),
            trail_marked_len(),
        ),
        _ => v.dashes,
    }
}

/// The cells whose trail effects a tick clears: the player's cell, and every
/// obstacle cell up to one column and one row past the board.
pub open spec fn collision_targets(v: AppView) -> Set<Cell> {
    Set::new(
        |c: Cell|
            c == (v.player.x, v.player.y) || (c.0 <= WIDTH && c.1 <= HEIGHT && occupied(
                v.obstacles,
                c.0 as int,
                c.1 as int,
            )),
    )
}

/// Time between two steps down of an obstacle falling at `speed` hundredths
/// of a cell per second, in nanoseconds.
pub open spec fn fall_interval(speed: int) -> int {
    (NANOS_PER_SEC * 100) / speed
}

/// How many rows `shape` spans.
pub open spec fn shape_rows(shape: Shape) -> int {
    match shape {
        Shape::Unit => 1,
        Shape::Triangle => 2,
        Shape::Brick { width, height } => height as int,
    }
}

/// An obstacle of `shape` can spawn in column `x` of the top row.
pub open spec fn spawn_spot(x: int, shape: Shape) -> bool {
    &&& 0 <= x < WIDTH
    &&& (shape == Shape::Triangle || shape_fits(x, 0, shape))
    &&& shape_rows(shape) <= SHAPE_SPAN + 1
}

/// The cells of a new obstacle of `shape` in column `x` of the top row. A
/// triangle in column 0 has its left arm one column left of the board; that
/// cell is left out, as obstacles fall straight down and it would stay off
/// the board, where nothing draws it, meets it or vaporizes it.
pub open spec fn spawn_cells(x: int, shape: Shape) -> Seq<Cell> {
    if shape == Shape::Triangle && x == 0 {
        seq![(0usize, 0usize), (1usize, 1usize)]
    } else {
        shape_cells(x, 0, shape)
    }
}

/// A new obstacle of `shape` in column `x` of the top row, falling at `speed`.
pub open spec fn spawned_obstacle(x: int, shape: Shape, speed: int) -> ObstacleView {
    ObstacleView {
        cells: spawn_cells(x, shape),
        move_after: fall_interval(speed) as u128,
        time_since_move: 0,
    }
}

/// `v` after spawning an obstacle of `shape` in column `x`.
pub open spec fn after_spawn(v: AppView, x: int, shape: Shape) -> AppView {
    AppView {
        time_after_spawn: (v.time_after_spawn - SPAWN_AFTER_MS) as u128,
        obstacles: v.obstacles.insert(v.obs_id, spawned_obstacle(x, shape, v.obs_speed as int)),
        obs_id: (v.obs_id + 1) as u64,
        ..v
    }
}

/// The first column, and one past the last, from which the column of a new
/// obstacle is drawn: the whole top row.
pub open spec fn spawn_columns_spec() -> (int, int) {
    (0, WIDTH as int)
}

/// A shape the spawn table can draw, in a column of its spawn range.
pub open spec fn spawn_choice(x: int, shape: Shape) -> bool {
    &&& weighted_in(spawn_table(), shape)
    &&& spawn_columns_spec().0 <= x < spawn_columns_spec().1
    &&& spawn_spot(x, shape)
}

/// `v` after the spawn and speedup timers ran for `dt`, an obstacle of
/// `shape` in column `x` spawning if its timer ran out.
pub open spec fn timers_after(v: AppView, dt: int, x: int, shape: Shape) -> AppView {
    let v1 = AppView {
        time_after_spawn: (v.time_after_spawn + dt) as u128,
        time_after_speedup: (v.time_after_speedup + dt) as u128,
        ..v
    };
    let v2 = if v1.time_after_spawn >= SPAWN_AFTER_MS {
        after_spawn(v1, x, shape)
    } else {
        v1
    };
    if v2.time_after_speedup >= v2.speedup_after {
        AppView {
            time_after_speedup: (v2.time_after_speedup - v2.speedup_after) as u128,
            obs_speed: if v2.obs_speed + INCREASE_SPEED_BY < MAX_SPEED {
                (v2.obs_speed + INCREASE_SPEED_BY) as u64
            } else {
                MAX_SPEED
            },
            speedup_after: (v2.speedup_after + SLOW_SPEEDUP) as u128,
            ..v2
        }
    } else {
        v2
    }
}

/// The icon the board shows at `(x, y)` for the game `v`: the ultimate's
/// barrier above the player, then obstacles, then trail effects, then the
/// player, over the background.
pub open spec fn shown(v: AppView, x: int, y: int) -> char {
    if v.ultimate.barrier_visible_spec() && y == v.player.y - 1 {
        BARRIER_ICON
    } else if occupied(v.obstacles, x, y) {
        OBS_ICON
    } else if v.dashes.contains_key((x as usize, y as usize)) {
        dash_icon_spec(v.dashes[(x as usize, y as usize)].state_idx as int)
    } else if x == v.player.x && y == v.player.y {
        PLAYER_ICON
    } else {
        BG_ICON
    }
}

/// `g` shows the game `v` on every cell of the board.
pub open spec fn shows(g: GameGrid, v: AppView) -> bool {
    forall|x: int, y: int| #![trigger grid_cell(g, x, y)] in_grid(x, y) ==> grid_cell(g, x, y) == shown(v, x, y)
}

/// `v` after trying to fire the ultimate.
pub open spec fn ultimate_fired(v: AppView) -> AppView {
    if v.ultimate is Ready {
        AppView {
            ultimate: Ultimate::Active(ULT_DURATION),
            player: Player { y: (HEIGHT - 1) as usize, ..v.player },
            obstacles: spared(v.obstacles, reaches_ult_rows()),
            dashes: burst_map(v.dashes, doomed_cells(v.obstacles, reaches_ult_rows())),
            ..v
        }
    } else {
        v
    }
}

/// `v` with the player asked to do `s` during this tick.
pub open spec fn with_move(v: AppView, s: PlayerState) -> AppView {
    AppView { player: Player { move_state: s, ..v.player }, ..v }
}

/// `v` after the key `key` was pressed.
pub open spec fn after_key(v: AppView, key: char) -> AppView {
    if key == keybinds::QUIT {
        AppView { exit: true, ..v }
    } else if key == keybinds::RESTART {
        AppView { wants_restart: v.wants_restart || v.game_over, ..v }
    } else if key == keybinds::LEFT {
        with_move(v, PlayerState::Moving(HDirection::Left))
    } else if key == keybinds::RIGHT {
        with_move(v, PlayerState::Moving(HDirection::Right))
    } else if key == keybinds::DASH_LEFT {
        with_move(v, PlayerState::Dashing(HDirection::Left))
    } else if key == keybinds::DASH_RIGHT {
        with_move(v, PlayerState::Dashing(HDirection::Right))
    } else if key == keybinds::UP {
        with_move(v, PlayerState::Flying(VDirection::Up))
    } else if key == keybinds::DOWN {
        with_move(v, PlayerState::Flying(VDirection::Down))
    } else if key == keybinds::ULTIMATE {
        ultimate_fired(v)
    } else {
        v
    }
}

/// The first stage of a tick: the ultimate charges or counts down, and the
/// obstacles fall.
pub open spec fn stage_fall(v: AppView, dt: int) -> AppView {
    AppView {
        ultimate: ultimate_after(v.ultimate, dt, v.player.altitude_spec()),
        obstacles: fallen(v.obstacles, dt),
        ..v
    }
}

/// The second stage: the player moves.
pub open spec fn stage_move(v: AppView) -> AppView {
    AppView {
        player: moved_player(v.player, v.ultimate.is_active_spec()),
        dashes: dashes_after_move(v),
        ..v
    }
}

/// The third stage: an active ultimate vaporizes every obstacle that would
/// hit the player, on its cell or along the path of its dash; otherwise
/// hitting an obstacle ends the game.
pub open spec fn stage_hit(v: AppView) -> AppView {
    if v.ultimate.is_active_spec() {
        AppView {
            obstacles: spared(v.obstacles, touches_any(hit_cells(v.player))),
            dashes: burst_map(v.dashes, doomed_cells(v.obstacles, touches_any(hit_cells(v.player)))),
            ..v
        }
    } else {
        AppView { game_over: collides(v.player, v.obstacles), ..v }
    }
}

/// The trail effects of `m` after `dt` nanoseconds, without those that
/// faded out.
pub open spec fn faded(m: Map<Cell, DashEffect>, dt: int) -> Map<Cell, DashEffect> {
    Map::new(
        |k: Cell| m.contains_key(k) && m[k].tick(dt).state_idx < DASH_ICONS_LEN,
        |k: Cell| m[k].tick(dt),
    )
}

/// The fifth stage: trail effects fade.
pub open spec fn stage_fade(v: AppView, dt: int) -> AppView {
    AppView { dashes: faded(v.dashes, dt), ..v }
}

/// The sixth stage: trail effects under the player or an obstacle are
/// cleared.
pub open spec fn stage_clear(v: AppView) -> AppView {
    AppView {
        dashes: Map::new(
            |k: Cell| v.dashes.contains_key(k) && !collision_targets(v).contains(k),
            |k: Cell| v.dashes[k],
        ),
        ..v
    }
}

/// The game `v` after a tick of `dt` nanoseconds in which an obstacle of
/// `shape` spawns in column `x` if the spawn timer runs out. The board is
/// left as it was; a tick redraws it.
pub open spec fn after_tick(v: AppView, dt: int, x: int, shape: Shape) -> AppView {
    let v3 = stage_hit(stage_move(stage_fall(v, dt)));
    let v6 = stage_clear(stage_fade(timers_after(v3, dt, x, shape), dt));
    AppView {
        elapsed_time: (v6.elapsed_time + dt) as u128,
        player: Player { move_state: PlayerState::Idle, ..v6.player },
        ..v6
    }
}

/// Sum of the weights of `table`.
pub open spec fn total_weight(table: Seq<(Shape, u32)>) -> int
    decreases table.len(),
{
    if table.len() == 0 {
        0
    } else {
        total_weight(table.drop_last()) + table.last().1
    }
}

/// `shape` is the shape of an entry of `table` with a positive weight.
pub open spec fn weighted_in(table: Seq<(Shape, u32)>, shape: Shape) -> bool {
    exists|i: int| 0 <= i < table.len() && table[i].0 == shape && table[i].1 > 0
}

pub proof fn lemma_wrap_left(a: int)
    ensures
        (a % (WIDTH as int) + WIDTH - 1) % (WIDTH as int) == (a - 1) % (WIDTH as int),
{
    vstd::arithmetic::div_mod::lemma_add_mod_noop(a, WIDTH - 1, WIDTH as int);
    vstd::arithmetic::div_mod::lemma_mod_add_multiples_vanish(a - 1, WIDTH as int);
}

pub proof fn lemma_wrap_right(a: int)
    ensures
        (a % (WIDTH as int) + 1) % (WIDTH as int) == (a + 1) % (WIDTH as int),
{
    vstd::arithmetic::div_mod::lemma_add_mod_noop(a, 1, WIDTH as int);
}

pub proof fn lemma_spawned_fits(x: int, shape: Shape, speed: int)
    requires
        spawn_spot(x, shape),
    ensures
        obstacle_fits(spawned_obstacle(x, shape, speed)),
{
    let cells = spawn_cells(x, shape);
    match shape {
        Shape::Brick { width, height } => {
            crate::obstacle::lemma_brick_cells_bounds(x, 0, width as int, height as int);
            assert forall|i: int| 0 <= i < cells.len() implies #[trigger] cells[i].1 <= SHAPE_SPAN by {
                let b = crate::obstacle::brick_cells(x, 0, width as int, height as int);
                assert(cells == b);
                assert(x <= b[i].0);
                assert(cells[i].1 < height);
            }
        },
        _ => {},
    }
}

/// Firing the ultimate keeps the bounds of a game.
pub proof fn lemma_fired_keeps_inv(v: AppView)
    requires
        v.inv(),
    ensures
        ultimate_fired(v).inv(),
{
    let w = ultimate_fired(v);
    if v.ultimate is Ready {
        assert forall|k: Cell| #[trigger] w.dashes.contains_key(k) implies in_grid(k.0 as int, k.1 as int)
            && w.dashes[k].time_since_change <= w.elapsed_time by {
            if !doomed_cells(v.obstacles, reaches_ult_rows()).contains(k) {
                assert(v.dashes.contains_key(k));
            }
        }
        assert forall|id: u64| #[trigger] w.obstacles.contains_key(id) implies id < w.obs_id
            && obstacle_fits(w.obstacles[id]) && w.obstacles[id].time_since_move <= w.elapsed_time by {
            assert(v.obstacles.contains_key(id));
        }
    }
}

/// A falling obstacle that is still on the board keeps to its rows.
pub proof fn lemma_step_fits(o: ObstacleView, dt: int)
    requires
        obstacle_fits(o),
        o.step(dt).above_bottom(),
    ensures
        obstacle_fits(o.step(dt)),
{
    let t = o.step(dt);
    if o.time_since_move + dt >= o.move_after {
        let j = choose|j: int| 0 <= j < t.cells.len() && #[trigger] t.cells[j].1 < HEIGHT;
        assert forall|i: int| 0 <= i < t.cells.len() implies #[trigger] t.cells[i].1 < HEIGHT
            + SHAPE_SPAN by {
            assert(o.cells[i].1 <= o.cells[j].1 + SHAPE_SPAN);
            assert(t.cells[i].1 == o.cells[i].1 + 1);
            assert(t.cells[j].1 == o.cells[j].1 + 1);
        }
        assert forall|i: int, k: int|
            0 <= i < t.cells.len() && 0 <= k < t.cells.len() implies #[trigger] t.cells[i].1
            <= #[trigger] t.cells[k].1 + SHAPE_SPAN by {
            assert(o.cells[i].1 <= o.cells[k].1 + SHAPE_SPAN);
            assert(t.cells[i].1 == o.cells[i].1 + 1);
            assert(t.cells[k].1 == o.cells[k].1 + 1);
        }
    }
}

/// The cells of a dash trail from a cell of the board lie on the board.
pub proof fn lemma_trail_on_board(x: int, y: int, d: HDirection)
    requires
        in_grid(x, y),
    ensures
        forall|i: int|
            0 <= i < dash_trail(x, y, d).len() ==> in_grid(
                (#[trigger] dash_trail(x, y, d)[i]).0 as int,
                dash_trail(x, y, d)[i].1 as int,
            ),
{
}

/// The stages of a tick up to the hit keep the bounds that the rest of the
/// tick needs.
pub proof fn lemma_hit_keeps(v: AppView, dt: int)
    requires
        v.inv(),
        0 <= dt,
        v.elapsed_time + dt <= MAX_GAME_TIME,
    ensures
        ({
            let w = stage_hit(stage_move(stage_fall(v, dt)));
            &&& w.player.x < WIDTH
            &&& w.player.y < HEIGHT
            &&& w.ultimate.wf()
            &&& w.ultimate.is_active_spec() ==> w.player.y == HEIGHT - 1
            &&& forall|k: Cell| #[trigger]
                w.dashes.contains_key(k) ==> in_grid(k.0 as int, k.1 as int)
                    && w.dashes[k].time_since_change <= v.elapsed_time
            &&& forall|id: u64| #[trigger]
                w.obstacles.contains_key(id) ==> id < v.obs_id && obstacle_fits(w.obstacles[id])
                    && w.obstacles[id].time_since_move <= v.elapsed_time + dt
            &&& w.obs_id == v.obs_id
            &&& w.obs_speed == v.obs_speed
            &&& w.time_after_spawn == v.time_after_spawn
            &&& w.time_after_speedup == v.time_after_speedup
            &&& w.speedup_after == v.speedup_after
            &&& w.elapsed_time == v.elapsed_time
        }),
{
    let v1 = stage_fall(v, dt);
    let v2 = stage_move(v1);
    let v3 = stage_hit(v2);
    assert forall|id: u64| #[trigger] v1.obstacles.contains_key(id) implies id < v.obs_id
        && obstacle_fits(v1.obstacles[id]) && v1.obstacles[id].time_since_move <= v.elapsed_time
        + dt by {
        lemma_step_fits(v.obstacles[id], dt);
    }
    match v1.player.move_state {
        PlayerState::Dashing(d) => {
            let p = v2.player;
            let trail = dash_trail(p.x as int, p.y as int, d.opposite_spec());
            lemma_trail_map(v1.dashes, trail, trail_marked_len());
            lemma_trail_on_board(p.x as int, p.y as int, d.opposite_spec());
            assert forall|k: Cell| #[trigger] v2.dashes.contains_key(k) implies in_grid(
                k.0 as int,
                k.1 as int,
            ) && v2.dashes[k].time_since_change <= v.elapsed_time by {
                if trail.subrange(0, trail_marked_len()).contains(k) {
                    let i = choose|i: int|
                        0 <= i < trail_marked_len() && trail.subrange(0, trail_marked_len())[i]
                            == k;
                    assert(trail[i] == k);
                }
            }
        },
        _ => {},
    }
    assert forall|k: Cell| #[trigger] v3.dashes.contains_key(k) implies in_grid(
        k.0 as int,
        k.1 as int,
    ) && v3.dashes[k].time_since_change <= v.elapsed_time by {
        if v2.ultimate.is_active_spec() {
            if !doomed_cells(v2.obstacles, touches_any(hit_cells(v2.player))).contains(
                k,
            ) {
                assert(v2.dashes.contains_key(k));
            }
        }
    }
    assert forall|id: u64| #[trigger] v3.obstacles.contains_key(id) implies id < v.obs_id
        && obstacle_fits(v3.obstacles[id]) && v3.obstacles[id].time_since_move <= v.elapsed_time
        + dt by {
        assert(v2.obstacles.contains_key(id));
    }
}

/// A tick keeps the bounds of a game.
pub proof fn lemma_tick_keeps(v: AppView, dt: int, x: int, shape: Shape)
    requires
        v.inv(),
        0 <= dt,
        v.elapsed_time + dt <= MAX_GAME_TIME,
        spawn_choice(x, shape),
    ensures
        after_tick(v, dt, x, shape).inv(),
{
    lemma_hit_keeps(v, dt);
    let v3 = stage_hit(stage_move(stage_fall(v, dt)));
    let v4 = timers_after(v3, dt, x, shape);
    let v5 = stage_fade(v4, dt);
    let v6 = stage_clear(v5);
    let w = after_tick(v, dt, x, shape);
    lemma_spawned_fits(x, shape, v.obs_speed as int);
    assert forall|id: u64| #[trigger] v4.obstacles.contains_key(id) implies id < v4.obs_id
        && obstacle_fits(v4.obstacles[id]) && v4.obstacles[id].time_since_move <= v.elapsed_time
        + dt by {
        if id != v3.obs_id || v4.obs_id == v3.obs_id {
            assert(v3.obstacles.contains_key(id));
        }
    }
    assert forall|k: Cell| #[trigger] v6.dashes.contains_key(k) implies in_grid(k.0 as int, k.1 as int)
        && v6.dashes[k].time_since_change <= v.elapsed_time + dt by {
        assert(v5.dashes.contains_key(k));
        assert(v4.dashes.contains_key(k));
    }
    assert forall|k: Cell| #[trigger] w.dashes.contains_key(k) implies in_grid(k.0 as int, k.1 as int)
        && w.dashes[k].time_since_change <= w.elapsed_time by {
        assert(v6.dashes.contains_key(k));
    }
    assert forall|id: u64| #[trigger] w.obstacles.contains_key(id) implies id < w.obs_id
        && obstacle_fits(w.obstacles[id]) && w.obstacles[id].time_since_move <= w.elapsed_time by {
        assert(v4.obstacles.contains_key(id));
    }
}

} // verus!
