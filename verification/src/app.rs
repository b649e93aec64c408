//! One game: the player, the falling obstacles, the dash trails and the
//! ultimate, and how they change from key to key and from tick to tick.
//! The rules these functions follow are stated in `rules`.

use vstd::prelude::*;
use std::collections::HashMap;
use rand::Rng;
use rand::rngs::ThreadRng;
use rand::seq::IndexedRandom;
use vstd::std_specs::iter::IteratorSpec;
use crate::config::keybinds;
use crate::config::{
    BARRIER_ICON, BG_ICON, DASH_LENGTH, GameGrid, HEIGHT, INCREASE_SPEED_BY, INIT_SPEED,
    INIT_SPEEDUP_AFTER, MAX_DURATION, MAX_SPEED, NANOS_PER_SEC, OBS_ICON, PLAYER_ICON,
    SLOW_SPEEDUP, SPAWN_AFTER_MS, TICK_RATE, ULT_DESTROY_FROM_ROW, WIDTH, in_grid, spawn_shapes,
    spawn_table,
};
use crate::dash::{Cell, DashEffectCollection, burst_map, trail_map, trail_marked_len};
use crate::obstacle::{Obstacle, ObstacleView, Shape, grid_cell};
use crate::player::{HDirection, Player, PlayerState, VDirection};
use crate::rules::{
    AppView, MAX_GAME_TIME, after_key, after_spawn, after_tick, collides, collision_targets,
    dash_trail, dashes_after_move, doomed_cells, fallen, fresh_game, lemma_fired_keeps_inv,
    lemma_hit_keeps, lemma_spawned_fits, lemma_tick_keeps, lemma_wrap_left, lemma_wrap_right,
    moved_player, obstacle_fits, occupied, reaches_ult_rows, shows, spared, spawn_choice,
    spawn_spot, stage_clear, stage_fade, stage_fall, stage_hit, timers_after, total_weight,
    touches_any, hit_cells, spawn_columns_spec, ultimate_fired, weighted_in, wrap_step,
};
use crate::ultimate::Ultimate;

verus! {

broadcast use vstd::std_specs::hash::group_hash_axioms;

/// rand's thread-local generator, carried through as an opaque value.
#[verifier::external_type_specification]
#[verifier::external_body]
pub struct ExThreadRng(rand::rngs::ThreadRng);

/// A game in progress, seen by its contracts as an `AppView`, with the
/// generator that draws the spawns.
pub struct App {
    game_grid: GameGrid,
    exit: bool,
    game_over: bool,
    wants_restart: bool,
    player: Player,
    ultimate: Ultimate,
    obstacles: HashMap<u64, Obstacle>,
    obs_id: u64,
    obs_speed: u64,
    speedup_after: u128,
    time_after_spawn: u128,
    time_after_speedup: u128,
    dash_collection: DashEffectCollection,
    elapsed_time: u128,
    rng: ThreadRng,
}

impl View for App {
    type V = AppView;

    closed spec fn view(&self) -> AppView {
        AppView {
            game_grid: self.game_grid,
            exit: self.exit,
            game_over: self.game_over,
            wants_restart: self.wants_restart,
            player: self.player,
            ultimate: self.ultimate,
            obstacles: Map::new(
                |id: u64| self.obstacles@.contains_key(id),
                |id: u64| self.obstacles@[id]@,
            ),
            obs_id: self.obs_id,
            obs_speed: self.obs_speed,
            speedup_after: self.speedup_after,
            time_after_spawn: self.time_after_spawn,
            time_after_speedup: self.time_after_speedup,
            dashes: self.dash_collection@,
            elapsed_time: self.elapsed_time,
        }
    }
}

/// Whether `obs` covers one of `cells`.
fn covers_any(obs: &Obstacle, cells: &[Cell]) -> (r: bool)
    ensures
        r == (touches_any(cells@))(obs@),
{
    let mut i: usize = 0;
    while i < cells.len()
        invariant
            i <= cells.len(),
            forall|j: int|
                0 <= j < i ==> !#[trigger] obs@.covers(cells@[j].0 as int, cells@[j].1 as int),
        decreases cells.len() - i,
    {
        let (x, y) = cells[i];
        if obs.covers_cell(x, y) {
            assert(obs@.covers(cells@[i as int].0 as int, cells@[i as int].1 as int));
            return true;
        }
        i += 1;
    }
    false
}

/// Which obstacles a sweep of the ultimate vaporizes.
#[derive(Debug)]
pub enum Sweep {
    /// Those reaching the rows at or below `ULT_DESTROY_FROM_ROW`.
    LowerRows,
    /// Those covering one of the given cells.
    Cells(Vec<Cell>),
}

impl Sweep {
    pub open spec fn picks_spec(self) -> spec_fn(ObstacleView) -> bool {
        match self {
            Sweep::LowerRows => reaches_ult_rows(),
            Sweep::Cells(cells) => touches_any(cells@),
        }
    }

    pub fn picks(&self, obs: &Obstacle) -> (r: bool)
        ensures
            r == (self.picks_spec())(obs@),
    {
        match self {
            Sweep::LowerRows => obs.reaches_row(ULT_DESTROY_FROM_ROW),
            Sweep::Cells(cells) => covers_any(obs, cells.as_slice()),
        }
    }
}

/// Taking one more id of a list without duplicates adds exactly that id,
/// which was not taken before.
proof fn lemma_take_next(ids: Seq<u64>, i: int)
    requires
        ids.no_duplicates(),
        0 <= i < ids.len(),
    ensures
        ids.take(i + 1) == ids.take(i).push(ids[i]),
        !ids.take(i).contains(ids[i]),
        forall|x: u64| #[trigger]
            ids.take(i + 1).contains(x) <==> ids.take(i).contains(x) || x == ids[i],
{
    let taken = ids.take(i);
    let taken_next = ids.take(i + 1);
    let id = ids[i];
    assert(taken_next =~= taken.push(id));
    assert(!taken.contains(id)) by {
        if taken.contains(id) {
            let k = choose|k: int| 0 <= k < taken.len() && taken[k] == id;
            assert(ids[k] == ids[i]);
        }
    }
    assert forall|x: u64| #[trigger] taken_next.contains(x) <==> taken.contains(x) || x == id by {
        if taken_next.contains(x) {
            let k = choose|k: int| 0 <= k < taken_next.len() && taken_next[k] == x;
            if k < i {
                assert(taken[k] == x);
            }
        }
        if taken.contains(x) {
            let k = choose|k: int| 0 <= k < taken.len() && taken[k] == x;
            assert(taken_next[k] == x);
        }
        if x == id {
            assert(taken_next[i] == x);
        }
    }
}

/// The range of columns from which the column of a new obstacle is drawn.
pub fn spawn_columns() -> (r: (usize, usize))
    ensures
        r.0 == spawn_columns_spec().0,
        r.1 == spawn_columns_spec().1,
{
    (0, WIDTH)
}

/// Draws `x` anywhere from `lo` up to, but not including, `hi`.
///
/// Calls `rand::Rng::random_range` on the thread-local generator; trusted to
/// return a value of the range, as rand documents. Which value comes back is
/// left open.
#[verifier::external_body]
fn random_between(rng: &mut ThreadRng, lo: usize, hi: usize) -> (x: usize)
    requires
        lo < hi,
    ensures
        lo <= x < hi,
{
    rng.random_range(lo..hi)
}

/// The thread-local random number generator.
///
/// Calls `rand::rng`; nothing is claimed of the generator it returns.
#[verifier::external_body]
fn thread_rng() -> ThreadRng {
    rand::rng()
}

/// Draws one shape of `table` with a probability proportional to its weight.
///
/// Calls `rand::seq::IndexedRandom::choose_weighted`, whose error (an empty
/// table, a zero or overflowing total weight) the `requires` rules out.
/// Trusted to return the shape of an entry with a positive weight, as the
/// sampling by cumulative weights in rand's `WeightedIndex` does. Which entry
/// comes back is left open.
#[verifier::external_body]
fn choose_weighted_shape(rng: &mut ThreadRng, table: &[(Shape, u32)]) -> (shape: Shape)
    requires
        0 < total_weight(table@) <= u32::MAX,
    ensures
        weighted_in(table@, shape),
{
    table.choose_weighted(rng, |item| item.1).unwrap().0
}

impl App {
    pub fn new() -> (app: Self)
        ensures
            app.inv(),
            app@ == fresh_game(),
    {
        let app = App {
            game_grid: [[BG_ICON; WIDTH]; HEIGHT],
            exit: false,
            game_over: false,
            wants_restart: false,
            player: Player { x: WIDTH / 2, y: HEIGHT - 1, move_state: PlayerState::Idle },
            ultimate: Ultimate::default(),
            obstacles: HashMap::new(),
            obs_id: 0,
            obs_speed: INIT_SPEED,
            speedup_after: INIT_SPEEDUP_AFTER,
            time_after_spawn: 0,
            time_after_speedup: 0,
            dash_collection: DashEffectCollection::default(),
            elapsed_time: 0,
            rng: thread_rng(),
        };
        assert(app@.obstacles =~= Map::empty());
        app
    }

    /// The ids of all obstacles, each once.
    fn obstacle_ids(&self) -> (ids: Vec<u64>)
        ensures
            ids@.to_set() == self.obstacles@.dom(),
            ids@.no_duplicates(),
    {
        let mut ids: Vec<u64> = Vec::new();
        let ks = self.obstacles.keys();
        let ghost all = IteratorSpec::remaining(&ks);
        for k in it: ks
            invariant
                it.seq() == all,
                ids@ == it.seq().take(it.index() as int).unref(),
        {
            ids.push(*k);
        }
        assert(ids@ =~= all.unref());
        ids
    }

    /// Whether some obstacle covers `(x, y)`.
    fn obstacle_at(&self, x: usize, y: usize) -> (r: bool)
        ensures
            r == occupied(self@.obstacles, x as int, y as int),
    {
        let ids = self.obstacle_ids();
        let mut i: usize = 0;
        while i < ids.len()
            invariant
                i <= ids.len(),
                ids@.to_set() == self.obstacles@.dom(),
                forall|j: int|
                    0 <= j < i ==> !(#[trigger] self@.obstacles[ids@[j]]).covers(x as int, y as int),
            decreases ids.len() - i,
        {
            let id = ids[i];
            assert(ids@.to_set().contains(id));
            match self.obstacles.get(&id) {
                Some(o) => {
                    if o.covers_cell(x, y) {
                        assert(self@.obstacles.contains_key(id));
                        return true;
                    }
                },
                None => {},
            }
            i += 1;
        }
        proof {
            if occupied(self@.obstacles, x as int, y as int) {
                let id = choose|id: u64| #[trigger]
                    self@.obstacles.contains_key(id) && self@.obstacles[id].covers(x as int, y as int);
                assert(ids@.to_set().contains(id));
                let j = choose|j: int| 0 <= j < ids@.len() && ids@[j] == id;
                assert(!self@.obstacles[ids@[j]].covers(x as int, y as int));
            }
        }
        false
    }

    fn go_left(&mut self)
        requires
            old(self).player.x < WIDTH,
        ensures
            final(self).dash_collection == old(self).dash_collection,
            final(self)@ == (AppView {
                player: Player {
                    x: ((old(self)@.player.x + WIDTH - 1) % (WIDTH as int)) as usize,
                    ..old(self)@.player
                },
                ..old(self)@
            }),
    {
        self.player.x = (self.player.x + WIDTH - 1) % WIDTH;
    }

    fn go_right(&mut self)
        requires
            old(self).player.x < WIDTH,
        ensures
            final(self).dash_collection == old(self).dash_collection,
            final(self)@ == (AppView {
                player: Player {
                    x: ((old(self)@.player.x + 1) % (WIDTH as int)) as usize,
                    ..old(self)@.player
                },
                ..old(self)@
            }),
    {
        self.player.x = (self.player.x + 1) % WIDTH;
    }

    fn go_up(&mut self)
        ensures
            final(self).dash_collection == old(self).dash_collection,
            final(self)@ == (AppView {
                player: Player {
                    y: if old(self)@.ultimate.is_active_spec() || old(self)@.player.y == 0 {
                        old(self)@.player.y
                    } else {
                        (old(self)@.player.y - 1) as usize
                    },
                    ..old(self)@.player
                },
                ..old(self)@
            }),
    {
        if self.ultimate.is_active() {
            return;  // the barrier keeps the player grounded
        }
        self.player.y = self.player.y.saturating_sub(1);
    }

    fn go_down(&mut self)
        requires
            old(self).player.y < HEIGHT,
        ensures
            final(self).dash_collection == old(self).dash_collection,
            final(self)@ == (AppView {
                player: Player {
                    y: if old(self)@.player.y + 1 < HEIGHT {
                        (old(self)@.player.y + 1) as usize
                    } else {
                        (HEIGHT - 1) as usize
                    },
                    ..old(self)@.player
                },
                ..old(self)@
            }),
    {
        self.player.y = (self.player.y + 1).min(HEIGHT - 1);
    }

    /// The cells a dash from the player's position in direction `p_dir`
    /// sweeps, in the order it sweeps them.
    fn construct_dash_cells(&self, p_dir: HDirection) -> (out: Vec<Cell>)
        requires
            self.player.x < WIDTH,
        ensures
            out@ == dash_trail(self.player.x as int, self.player.y as int, p_dir),
    {
        let mut out: Vec<Cell> = vec![(self.player.x, self.player.y)];
        let mut px = self.player.x;
        let py = self.player.y;
        let ghost x = self.player.x as int;
        let ghost trail = dash_trail(x, py as int, p_dir);
        assert(out@ =~= trail.take(1));
        let mut i: usize = 0;
        while i < DASH_LENGTH
            invariant
                i <= DASH_LENGTH,
                x == self.player.x,
                x < WIDTH,
                trail == dash_trail(x, py as int, p_dir),
                px == wrap_step(x, p_dir, i as int),
                out@ == trail.take(i + 1),
            decreases DASH_LENGTH - i,
        {
            match p_dir {
                HDirection::Left => {
                    proof {
                        lemma_wrap_left(x - i);
                    }
                    px = (px + WIDTH - 1) % WIDTH;
                },
                HDirection::Right => {
                    proof {
                        lemma_wrap_right(x + i);
                    }
                    px = (px + 1) % WIDTH;
                },
            }
            out.push((px, py));
            i += 1;
            assert(out@ =~= trail.take(i + 1));
        }
        assert(out@ =~= trail);
        out
    }

    /// Vaporizes every obstacle that `doomed` picks, leaving a fade effect on
    /// its cells that lie on the board.
    fn destroy_obstacles(&mut self, sweep: Sweep)
        requires
            old(self).dash_collection.wf(),
        ensures
            final(self).dash_collection.wf(),
            final(self)@ == (AppView {
                obstacles: spared(old(self)@.obstacles, sweep.picks_spec()),
                dashes: burst_map(
                    old(self)@.dashes,
                    doomed_cells(old(self)@.obstacles, sweep.picks_spec()),
                ),
                ..old(self)@
            }),
    {
        let ghost pred = sweep.picks_spec();
        let ghost old_obs = self@.obstacles;
        let ids = self.obstacle_ids();
        let mut vaporize_cells: Vec<Cell> = Vec::new();
        let mut i: usize = 0;
        while i < ids.len()
            invariant
                i <= ids.len(),
                ids@.to_set() == old(self).obstacles@.dom(),
                ids@.no_duplicates(),
                old_obs == old(self)@.obstacles,
                pred == sweep.picks_spec(),
                self@ == (AppView {
                    obstacles: Map::new(
                        |id: u64|
                            old_obs.contains_key(id) && !(ids@.take(i as int).contains(id)
                                && pred(old_obs[id])),
                        |id: u64| old_obs[id],
                    ),
                    ..old(self)@
                }),
                self.dash_collection == old(self).dash_collection,
                forall|c: Cell| #[trigger]
                    vaporize_cells@.contains(c) <==> in_grid(c.0 as int, c.1 as int) && exists|
                        id: u64,
                    |
                        #![trigger old_obs[id]]
                        ids@.take(i as int).contains(id) && old_obs.contains_key(id) && pred(
                            old_obs[id],
                        ) && old_obs[id].covers(c.0 as int, c.1 as int),
            decreases ids.len() - i,
        {
            let id = ids[i];
            let ghost before = self@;
            let ghost cells_before = vaporize_cells@;
            let ghost taken = ids@.take(i as int);
            let ghost taken_next = ids@.take(i + 1);
            proof {
                lemma_take_next(ids@, i as int);
                assert(ids@.to_set().contains(id));
            }
            let ghost cur = self.obstacles@;
            assert(before.obstacles.contains_key(id));
            assert(cur.contains_key(id));
            assert(before.obstacles[id] == old_obs[id]);
            assert(before.obstacles[id] == cur[id]@);
            let is_doomed = match self.obstacles.get(&id) {
                Some(obs) => {
                    let r = sweep.picks(obs);
                    assert(r == pred(old_obs[id]));
                    r
                },
                None => false,
            };
            assert(is_doomed == pred(old_obs[id]));
            if is_doomed {
                match self.obstacles.remove(&id) {
                    Some(obs) => {
                        assert(obs@ == old_obs[id]);
                        obs.push_cells_within(&mut vaporize_cells, WIDTH, HEIGHT);
                    },
                    None => {},
                }
                assert(self.obstacles@ == cur.remove(id));
            }
            proof {
                assert forall|x: u64| #[trigger] self@.obstacles.contains_key(x) <==> (old_obs.contains_key(x) && !(taken_next.contains(x) && pred(old_obs[x]))) by {
                    assert(before.obstacles.contains_key(x) <==> cur.contains_key(x));
                }
                assert forall|x: u64| #[trigger] self@.obstacles.contains_key(x) implies self@.obstacles[x] == old_obs[x] by {
                    assert(before.obstacles.contains_key(x));
                    assert(self.obstacles@[x] == cur[x]);
                    assert(before.obstacles[x] == cur[x]@);
                }
                assert(self@.obstacles =~= Map::new(
                    |x: u64|
                        old_obs.contains_key(x) && !(taken_next.contains(x) && pred(old_obs[x])),
                    |x: u64| old_obs[x],
                ));
                assert forall|c: Cell| #[trigger]
                    vaporize_cells@.contains(c) <==> in_grid(c.0 as int, c.1 as int) && exists|
                        x: u64,
                    |
                        #![trigger old_obs[x]]
                        taken_next.contains(x) && old_obs.contains_key(x) && pred(old_obs[x])
                            && old_obs[x].covers(c.0 as int, c.1 as int) by {
                    if in_grid(c.0 as int, c.1 as int) && exists|x: u64|
                        #![trigger old_obs[x]]
                        taken_next.contains(x) && old_obs.contains_key(x) && pred(old_obs[x])
                            && old_obs[x].covers(c.0 as int, c.1 as int) {
                        let x = choose|x: u64|
                            #![trigger old_obs[x]]
                            taken_next.contains(x) && old_obs.contains_key(x) && pred(old_obs[x])
                                && old_obs[x].covers(c.0 as int, c.1 as int);
                        if x != id {
                            assert(cells_before.contains(c));
                        }
                    }
                }
                assert(self@ =~= AppView {
                    obstacles: Map::new(
                        |x: u64|
                            old_obs.contains_key(x) && !(taken_next.contains(x) && pred(
                                old_obs[x],
                            )),
                        |x: u64| old_obs[x],
                    ),
                    ..old(self)@
                });
            }
            i += 1;
        }
        proof {
            assert(ids@.take(ids.len() as int) =~= ids@);
            assert forall|x: u64| ids@.contains(x) <==> old_obs.contains_key(x) by {
                assert(ids@.to_set().contains(x) <==> ids@.contains(x));
            }
            assert(vaporize_cells@.to_set() =~= doomed_cells(old_obs, pred));
        }
        self.dash_collection.add_burst(vaporize_cells);
        proof {
            assert(self@ =~= AppView {
                obstacles: spared(old_obs, pred),
                dashes: burst_map(old(self)@.dashes, doomed_cells(old_obs, pred)),
                ..old(self)@
            });
        }
    }

    /// Vaporizes the obstacles that reach the lower part of the board; done
    /// once when the ultimate fires.
    fn destroy_lower_obstacles(&mut self)
        requires
            old(self).dash_collection.wf(),
        ensures
            final(self).dash_collection.wf(),
            final(self)@ == (AppView {
                obstacles: spared(old(self)@.obstacles, reaches_ult_rows()),
                dashes: burst_map(
                    old(self)@.dashes,
                    doomed_cells(old(self)@.obstacles, reaches_ult_rows()),
                ),
                ..old(self)@
            }),
    {
        self.destroy_obstacles(Sweep::LowerRows);
    }

    /// While the ultimate runs: vaporizes every obstacle that would have hit
    /// the player, on its cell or, after a dash, anywhere on the path it
    /// swept.
    fn destroy_touching_obstacles(&mut self)
        requires
            old(self).player.x < WIDTH,
            old(self).dash_collection.wf(),
        ensures
            final(self).dash_collection.wf(),
            final(self)@ == (AppView {
                obstacles: spared(old(self)@.obstacles, touches_any(hit_cells(old(self)@.player))),
                dashes: burst_map(
                    old(self)@.dashes,
                    doomed_cells(old(self)@.obstacles, touches_any(hit_cells(old(self)@.player))),
                ),
                ..old(self)@
            }),
    {
        let cells = self.hit_cells();
        self.destroy_obstacles(Sweep::Cells(cells));
    }

    /// The cells where the player meets what lies on the board this tick.
    fn hit_cells(&self) -> (cells: Vec<Cell>)
        requires
            self.player.x < WIDTH,
        ensures
            cells@ == hit_cells(self@.player),
    {
        match self.player.move_state {
            PlayerState::Dashing(p_dir) => {
                // `move_player()` already moved the player to the dash destination.
                // Use the opposite direction to find the path it swept.
                let direction = p_dir.opposite();
                self.construct_dash_cells(direction)
            },
            _ => {
                let cells = vec![self.player.position()];
                assert(cells@ =~= hit_cells(self@.player));
                cells
            },
        }
    }

    /// Lets every obstacle fall for `dt` nanoseconds; obstacles that have
    /// left the board through its bottom edge are dropped.
    fn update_obstacles(&mut self, dt: u128)
        requires
            forall|id: u64| #[trigger]
                old(self)@.obstacles.contains_key(id) ==> obstacle_fits(old(self)@.obstacles[id])
                    && old(self)@.obstacles[id].time_since_move + dt <= MAX_DURATION,
        ensures
            final(self).dash_collection == old(self).dash_collection,
            final(self)@ == (AppView {
                obstacles: fallen(old(self)@.obstacles, dt as int),
                ..old(self)@
            }),
    {
        let ghost old_obs = self@.obstacles;
        let ids = self.obstacle_ids();
        let mut i: usize = 0;
        while i < ids.len()
            invariant
                i <= ids.len(),
                ids@.to_set() == old(self).obstacles@.dom(),
                ids@.no_duplicates(),
                old_obs == old(self)@.obstacles,
                forall|id: u64| #[trigger]
                    old_obs.contains_key(id) ==> obstacle_fits(old_obs[id])
                        && old_obs[id].time_since_move + dt <= MAX_DURATION,
                self@ == (AppView {
                    obstacles: Map::new(
                        |id: u64|
                            old_obs.contains_key(id) && (!ids@.take(i as int).contains(id)
                                || old_obs[id].step(dt as int).above_bottom()),
                        |id: u64|
                            if ids@.take(i as int).contains(id) {
                                old_obs[id].step(dt as int)
                            } else {
                                old_obs[id]
                            },
                    ),
                    ..old(self)@
                }),
                self.dash_collection == old(self).dash_collection,
            decreases ids.len() - i,
        {
            let id = ids[i];
            let ghost before = self@;
            let ghost taken = ids@.take(i as int);
            let ghost taken_next = ids@.take(i + 1);
            proof {
                lemma_take_next(ids@, i as int);
                assert(ids@.to_set().contains(id));
            }
            let ghost cur = self.obstacles@;
            assert(before.obstacles.contains_key(id));
            assert(before.obstacles[id] == old_obs[id]);
            assert(before.obstacles[id] == cur[id]@);
            match self.obstacles.remove(&id) {
                Some(mut obs) => {
                    assert(obs@ == old_obs[id]);
                    assert(forall|j: int|
                        0 <= j < obs@.cells.len() ==> #[trigger] obs@.cells[j].1 < usize::MAX);
                    obs.move_obstacle(dt);
                    if obs.above_bottom() {
                        self.obstacles.insert(id, obs);
                    }
                },
                None => {},
            }
            proof {
                let target = Map::new(
                    |x: u64|
                        old_obs.contains_key(x) && (!taken_next.contains(x) || old_obs[x].step(
                            dt as int,
                        ).above_bottom()),
                    |x: u64|
                        if taken_next.contains(x) {
                            old_obs[x].step(dt as int)
                        } else {
                            old_obs[x]
                        },
                );
                assert forall|x: u64| #[trigger]
                    self@.obstacles.contains_key(x) <==> target.contains_key(x) by {
                    assert(before.obstacles.contains_key(x) <==> cur.contains_key(x));
                }
                assert forall|x: u64| #[trigger]
                    self@.obstacles.contains_key(x) implies self@.obstacles[x] == target[x] by {
                    if x != id {
                        assert(before.obstacles.contains_key(x));
                        assert(self.obstacles@[x] == cur[x]);
                        assert(before.obstacles[x] == cur[x]@);
                    }
                }
                assert(self@.obstacles =~= target);
                assert(self@ =~= AppView { obstacles: target, ..old(self)@ });
            }
            i += 1;
        }
        proof {
            assert(ids@.take(ids.len() as int) =~= ids@);
            assert forall|x: u64| ids@.contains(x) <==> old_obs.contains_key(x) by {
                assert(ids@.to_set().contains(x) <==> ids@.contains(x));
            }
            assert(self@.obstacles =~= fallen(old_obs, dt as int));
        }
    }

    /// Whether an obstacle covers one of `targets`.
    fn check_collision_helper(&self, targets: &[Cell]) -> (r: bool)
        ensures
            r == exists|i: int|
                0 <= i < targets@.len() && #[trigger] occupied(
                    self@.obstacles,
                    targets@[i].0 as int,
                    targets@[i].1 as int,
                ),
    {
        let mut i: usize = 0;
        while i < targets.len()
            invariant
                i <= targets.len(),
                forall|j: int|
                    0 <= j < i ==> !#[trigger] occupied(
                        self@.obstacles,
                        targets@[j].0 as int,
                        targets@[j].1 as int,
                    ),
            decreases targets.len() - i,
        {
            let (tx, ty) = targets[i];
            if self.obstacle_at(tx, ty) {
                return true;
            }
            i += 1;
        }
        false
    }

    /// Whether the player hits an obstacle.
    fn check_collision(&self) -> (r: bool)
        requires
            self.player.x < WIDTH,
        ensures
            r == collides(self@.player, self@.obstacles),
    {
        let cells = self.hit_cells();
        self.check_collision_helper(cells.as_slice())
    }

    fn dash_left(&mut self)
        requires
            old(self).player.x < WIDTH,
            old(self).dash_collection.wf(),
        ensures
            final(self).dash_collection.wf(),
            final(self)@ == (AppView {
                player: Player {
                    x: ((old(self)@.player.x + WIDTH - DASH_LENGTH) % (WIDTH as int)) as usize,
                    ..old(self)@.player
                },
                dashes: trail_map(
                    old(self)@.dashes,
                    dash_trail(
                        (old(self)@.player.x + WIDTH - DASH_LENGTH) % (WIDTH as int),
                        old(self)@.player.y as int,
                        HDirection::Right,
                    ),
                    trail_marked_len(),
                ),
                ..old(self)@
            }),
    {
        self.player.x = (self.player.x + WIDTH - DASH_LENGTH) % WIDTH;

        let cells = self.construct_dash_cells(HDirection::Right);
        self.dash_collection.add(cells);
    }

    fn dash_right(&mut self)
        requires
            old(self).player.x < WIDTH,
            old(self).dash_collection.wf(),
        ensures
            final(self).dash_collection.wf(),
            final(self)@ == (AppView {
                player: Player {
                    x: ((old(self)@.player.x + DASH_LENGTH) % (WIDTH as int)) as usize,
                    ..old(self)@.player
                },
                dashes: trail_map(
                    old(self)@.dashes,
                    dash_trail(
                        (old(self)@.player.x + DASH_LENGTH) % (WIDTH as int),
                        old(self)@.player.y as int,
                        HDirection::Left,
                    ),
                    trail_marked_len(),
                ),
                ..old(self)@
            }),
    {
        self.player.x = (self.player.x + DASH_LENGTH) % WIDTH;

        let cells = self.construct_dash_cells(HDirection::Left);
        self.dash_collection.add(cells);
    }

    /// Carries out the move the player was asked for during this tick.
    fn move_player(&mut self)
        requires
            old(self).player.x < WIDTH,
            old(self).player.y < HEIGHT,
            old(self).dash_collection.wf(),
            old(self).ultimate.is_active_spec() ==> old(self).player.y == HEIGHT - 1,
        ensures
            final(self).dash_collection.wf(),
            final(self)@ == (AppView {
                player: moved_player(old(self)@.player, old(self)@.ultimate.is_active_spec()),
                dashes: dashes_after_move(old(self)@),
                ..old(self)@
            }),
            final(self).player.x < WIDTH,
            final(self).player.y < HEIGHT,
            final(self).ultimate.is_active_spec() ==> final(self).player.y == HEIGHT - 1,
    {
        match self.player.move_state {
            PlayerState::Moving(h_dir) => match h_dir {
                HDirection::Left => self.go_left(),
                HDirection::Right => self.go_right(),
            },
            PlayerState::Dashing(h_dir) => match h_dir {
                HDirection::Left => self.dash_left(),
                HDirection::Right => self.dash_right(),
            },
            PlayerState::Flying(v_dir) => match v_dir {
                VDirection::Up => self.go_up(),
                VDirection::Down => self.go_down(),
            },
            PlayerState::Idle => (),
        }
        proof {
            assert(self@ =~= AppView {
                player: moved_player(old(self)@.player, old(self)@.ultimate.is_active_spec()),
                dashes: dashes_after_move(old(self)@),
                ..old(self)@
            });
        }
    }

    /// Drops the trail effects on each of `targets`.
    fn drop_colliding_dashes_helper(&mut self, targets: &[Cell])
        requires
            old(self).dash_collection.wf(),
        ensures
            final(self).dash_collection.wf(),
            final(self)@ == (AppView {
                dashes: Map::new(
                    |k: Cell| old(self)@.dashes.contains_key(k) && !targets@.contains(k),
                    |k: Cell| old(self)@.dashes[k],
                ),
                ..old(self)@
            }),
    {
        self.dash_collection.remove_cells(targets);
    }

    /// Drops the trail effects on the player's cell and on every obstacle
    /// cell.
    fn drop_colliding_dashes(&mut self)
        requires
            old(self).dash_collection.wf(),
        ensures
            final(self).dash_collection.wf(),
            final(self)@ == (AppView {
                dashes: Map::new(
                    |k: Cell|
                        old(self)@.dashes.contains_key(k) && !collision_targets(old(self)@).contains(
                            k,
                        ),
                    |k: Cell| old(self)@.dashes[k],
                ),
                ..old(self)@
            }),
    {
        // Player + obstacles
        let mut targets: Vec<Cell> = vec![self.player.position()];
        let ghost obs = self@.obstacles;
        let ids = self.obstacle_ids();
        let mut i: usize = 0;
        while i < ids.len()
            invariant
                i <= ids.len(),
                ids@.to_set() == self.obstacles@.dom(),
                obs == self@.obstacles,
                forall|c: Cell| #[trigger]
                    targets@.contains(c) <==> c == (self.player.x, self.player.y) || (c.0 <= WIDTH
                        && c.1 <= HEIGHT && exists|j: int|
                        0 <= j < i && #[trigger] obs[ids@[j]].covers(c.0 as int, c.1 as int)),
            decreases ids.len() - i,
        {
            let id = ids[i];
            assert(ids@.to_set().contains(id));
            let ghost before = targets@;
            match self.obstacles.get(&id) {
                Some(o) => {
                    assert(o@ == obs[id]);
                    o.push_cells_within(&mut targets, WIDTH + 1, HEIGHT + 1);
                },
                None => {},
            }
            proof {
                assert forall|c: Cell| #[trigger]
                    targets@.contains(c) <==> c == (self.player.x, self.player.y) || (c.0 <= WIDTH
                        && c.1 <= HEIGHT && exists|j: int|
                        0 <= j < i + 1 && #[trigger] obs[ids@[j]].covers(c.0 as int, c.1 as int)) by {
                    if exists|j: int|
                        0 <= j < i + 1 && #[trigger] obs[ids@[j]].covers(c.0 as int, c.1 as int) {
                        let j = choose|j: int|
                            0 <= j < i + 1 && #[trigger] obs[ids@[j]].covers(c.0 as int, c.1 as int);
                        if j < i {
                            assert(before.contains(c) || !(c.0 <= WIDTH && c.1 <= HEIGHT));
                        }
                    }
                }
            }
            i += 1;
        }
        proof {
            assert forall|c: Cell| #[trigger]
                targets@.contains(c) <==> collision_targets(self@).contains(c) by {
                if c.0 <= WIDTH && c.1 <= HEIGHT && occupied(obs, c.0 as int, c.1 as int) {
                    let id = choose|id: u64| #[trigger]
                        obs.contains_key(id) && obs[id].covers(c.0 as int, c.1 as int);
                    assert(ids@.to_set().contains(id));
                    let j = choose|j: int| 0 <= j < ids@.len() && ids@[j] == id;
                    assert(obs[ids@[j]].covers(c.0 as int, c.1 as int));
                }
                if c.0 <= WIDTH && c.1 <= HEIGHT && exists|j: int|
                    0 <= j < ids.len() && #[trigger] obs[ids@[j]].covers(c.0 as int, c.1 as int) {
                    let j = choose|j: int|
                        0 <= j < ids.len() && #[trigger] obs[ids@[j]].covers(c.0 as int, c.1 as int);
                    assert(ids@.to_set().contains(ids@[j]));
                    assert(obs.contains_key(ids@[j]));
                }
            }
        }
        self.drop_colliding_dashes_helper(targets.as_slice());
        proof {
            assert(self@.dashes =~= Map::new(
                |k: Cell| old(self)@.dashes.contains_key(k) && !collision_targets(old(self)@).contains(k),
                |k: Cell| old(self)@.dashes[k],
            ));
        }
    }

    /// The bounds that every game keeps.
    pub closed spec fn inv(&self) -> bool {
        &&& self@.inv()
        &&& self.dashes_wf()
    }

    /// The trail effects are stored well.
    pub closed spec fn dashes_wf(&self) -> bool {
        self.dash_collection.wf()
    }

    fn add_obstacle(&mut self, obs: Obstacle)
        requires
            old(self).obs_id < u64::MAX,
        ensures
            final(self).dash_collection == old(self).dash_collection,
            final(self)@ == (AppView {
                obstacles: old(self)@.obstacles.insert(old(self)@.obs_id, obs@),
                obs_id: (old(self)@.obs_id + 1) as u64,
                ..old(self)@
            }),
    {
        self.obstacles.insert(self.obs_id, obs);
        self.obs_id += 1;
        proof {
            assert(self@.obstacles =~= old(self)@.obstacles.insert(old(self)@.obs_id, obs@));
        }
    }

    /// Spawns an obstacle of `shape` in column `x` of the top row, once the
    /// spawn timer has run out; the column and the shape are the random draws.
    pub fn spawn_obstacle_at(&mut self, x: usize, shape: Shape)
        requires
            old(self)@.time_after_spawn >= SPAWN_AFTER_MS,
            old(self)@.time_after_spawn + old(self)@.obs_id * SPAWN_AFTER_MS <= MAX_GAME_TIME,
            old(self)@.obs_speed >= INIT_SPEED,
            spawn_spot(x as int, shape),
        ensures
            final(self)@ == after_spawn(old(self)@, x as int, shape),
            final(self).dashes_wf() == old(self).dashes_wf(),
            old(self).inv() ==> final(self).inv(),
    {
        self.time_after_spawn = self.time_after_spawn - SPAWN_AFTER_MS;
        let move_after = NANOS_PER_SEC * 100 / (self.obs_speed as u128);
        let obs = if x == 0 && shape == Shape::Triangle {
            // The left arm would stand one column left of the board.
            Obstacle { cells: vec![(0, 0), (1, 1)], move_after, time_since_move: 0 }
        } else {
            Obstacle::new(x, 0, move_after, shape)
        };
        proof {
            assert(obs@.cells =~= crate::rules::spawn_cells(x as int, shape));
            lemma_spawned_fits(x as int, shape, self.obs_speed as int);
            assert((self.obs_id + 1) * SPAWN_AFTER_MS <= MAX_GAME_TIME);
        }
        self.add_obstacle(obs);
        proof {
            assert(self@ =~= after_spawn(old(self)@, x as int, shape));
        }
    }

    /// Spawns an obstacle of a random spawnable shape in a random column of
    /// the top row.
    fn spawn_obstacle(&mut self)
        requires
            old(self)@.time_after_spawn >= SPAWN_AFTER_MS,
            old(self)@.time_after_spawn + old(self)@.obs_id * SPAWN_AFTER_MS <= MAX_GAME_TIME,
            old(self)@.obs_speed >= INIT_SPEED,
        ensures
            exists|x: usize, shape: Shape|
                spawn_choice(x as int, shape) && final(self)@ == after_spawn(
                    old(self)@,
                    x as int,
                    shape,
                ),
            final(self).dashes_wf() == old(self).dashes_wf(),
            old(self).inv() ==> final(self).inv(),
    {
        let table = spawn_shapes();
        proof {
            reveal_with_fuel(total_weight, 6);
            assert(total_weight(table@) == 100);
        }
        let shape = choose_weighted_shape(&mut self.rng, table.as_slice());
        let (lo, hi) = spawn_columns();
        let x = random_between(&mut self.rng, lo, hi);
        proof {
            let i = choose|i: int|
                0 <= i < spawn_table().len() && spawn_table()[i].0 == shape && spawn_table()[i].1
                    > 0;
            assert(i == 0 || i == 1 || i == 2 || i == 3 || i == 4);
            assert(spawn_spot(x as int, shape));
        }
        self.spawn_obstacle_at(x, shape);
        assert(spawn_choice(x as int, shape) && self@ == after_spawn(old(self)@, x as int, shape));
    }

    /// Advances the spawn and speedup timers by `dt`: spawns an obstacle once
    /// `SPAWN_AFTER_MS` has gathered, and speeds up new obstacles, each time a
    /// little later than the time before.
    fn try_spawn_obstacle(&mut self, dt: u128)
        requires
            old(self)@.time_after_spawn + old(self)@.obs_id * SPAWN_AFTER_MS + dt <= MAX_GAME_TIME,
            old(self)@.time_after_speedup + dt <= MAX_GAME_TIME,
            old(self)@.speedup_after <= MAX_GAME_TIME + INIT_SPEEDUP_AFTER,
            INIT_SPEED <= old(self)@.obs_speed <= MAX_SPEED,
        ensures
            exists|x: usize, shape: Shape|
                spawn_choice(x as int, shape) && final(self)@ == timers_after(
                    old(self)@,
                    dt as int,
                    x as int,
                    shape,
                ),
            final(self).dashes_wf() == old(self).dashes_wf(),
    {
        self.time_after_spawn = self.time_after_spawn + dt;
        self.time_after_speedup = self.time_after_speedup + dt;
        let ghost v1 = self@;
        let ghost mut sx: usize = 0;
        let ghost mut sshape: Shape = Shape::Unit;
        if self.time_after_spawn >= SPAWN_AFTER_MS {
            self.spawn_obstacle();
            proof {
                let (x, shape) = choose|x: usize, shape: Shape|
                    spawn_choice(x as int, shape) && self@ == after_spawn(v1, x as int, shape);
                sx = x;
                sshape = shape;
            }
        } else {
            proof {
                assert(spawn_choice(0, Shape::Unit));
            }
        }
        let ghost v2 = self@;
        if self.time_after_speedup >= self.speedup_after {
            self.time_after_speedup = self.time_after_speedup - self.speedup_after;

            self.obs_speed = MAX_SPEED.min(self.obs_speed + INCREASE_SPEED_BY);
            self.speedup_after = self.speedup_after + SLOW_SPEEDUP;
        }
        proof {
            assert(spawn_choice(sx as int, sshape));
            assert(self@ =~= timers_after(old(self)@, dt as int, sx as int, sshape));
        }
    }

    /// Puts the player on the board.
    fn init_game(&mut self)
        requires
            old(self).player.x < WIDTH,
            old(self).player.y < HEIGHT,
        ensures
            final(self).dashes_wf() == old(self).dashes_wf(),
            final(self)@ == (AppView { game_grid: final(self)@.game_grid, ..old(self)@ }),
            forall|x: int, y: int|
                #![trigger grid_cell(final(self)@.game_grid, x, y)]
                in_grid(x, y) ==> grid_cell(final(self)@.game_grid, x, y) == if x
                    == old(self)@.player.x && y == old(self)@.player.y {
                    PLAYER_ICON
                } else {
                    grid_cell(old(self)@.game_grid, x, y)
                },
    {
        let ghost prev = self.game_grid;
        self.game_grid[self.player.y][self.player.x] = PLAYER_ICON;
        proof {
            assert forall|x: int, y: int| in_grid(x, y) implies grid_cell(self.game_grid, x, y)
                == if x == self.player.x && y == self.player.y {
                PLAYER_ICON
            } else {
                grid_cell(prev, x, y)
            } by {
                if y != self.player.y {
                    assert(self.game_grid@[y] == prev@[y]);
                }
            }
            assert(self@ =~= AppView { game_grid: self@.game_grid, ..old(self)@ });
        }
    }

    /// Redraws the board from the state of the game.
    fn update_grid(&mut self)
        requires
            old(self).player.x < WIDTH,
            old(self).player.y < HEIGHT,
            old(self).ultimate.is_active_spec() ==> old(self).player.y == HEIGHT - 1,
            old(self).dash_collection.wf(),
            old(self).dash_collection.on_board(),
        ensures
            final(self).dash_collection == old(self).dash_collection,
            final(self)@ == (AppView { game_grid: final(self)@.game_grid, ..old(self)@ }),
            shows(final(self)@.game_grid, old(self)@),
    {
        let ghost v = self@;
        self.game_grid = [[BG_ICON; WIDTH]; HEIGHT];
        let ghost blank = self.game_grid;

        self.game_grid[self.player.y][self.player.x] = PLAYER_ICON;
        proof {
            assert forall|x: int, y: int| in_grid(x, y) implies grid_cell(self.game_grid, x, y)
                == if x == v.player.x && y == v.player.y {
                PLAYER_ICON
            } else {
                BG_ICON
            } by {
                if y != self.player.y {
                    assert(self.game_grid@[y] == blank@[y]);
                }
            }
        }

        self.dash_collection.render(&mut self.game_grid);

        let ghost after_dash = self.game_grid;
        let ids = self.obstacle_ids();
        let mut i: usize = 0;
        while i < ids.len()
            invariant
                i <= ids.len(),
                ids@.to_set() == self.obstacles@.dom(),
                v == (AppView { game_grid: v.game_grid, ..self@ }),
                self.dash_collection == old(self).dash_collection,
                forall|x: int, y: int|
                    #![trigger grid_cell(self.game_grid, x, y)]
                    in_grid(x, y) ==> grid_cell(self.game_grid, x, y) == if exists|j: int|
                        0 <= j < i && #[trigger] v.obstacles[ids@[j]].covers(x, y) {
                        OBS_ICON
                    } else {
                        grid_cell(after_dash, x, y)
                    },
            decreases ids.len() - i,
        {
            let id = ids[i];
            assert(ids@.to_set().contains(id));
            let ghost before = self.game_grid;
            assert(v.obstacles.contains_key(id));
            match self.obstacles.get(&id) {
                Some(obs) => {
                    assert(obs@ == v.obstacles[id]);
                    obs.render(&mut self.game_grid);
                },
                None => {
                    assert(false);
                },
            }
            proof {
                assert forall|x: int, y: int| in_grid(x, y) implies grid_cell(self.game_grid, x, y)
                    == if exists|j: int|
                    0 <= j < i + 1 && #[trigger] v.obstacles[ids@[j]].covers(x, y) {
                    OBS_ICON
                } else {
                    grid_cell(after_dash, x, y)
                } by {
                    if v.obstacles[ids@[i as int]].covers(x, y) {
                        assert(grid_cell(self.game_grid, x, y) == OBS_ICON);
                    } else {
                        assert(grid_cell(self.game_grid, x, y) == grid_cell(before, x, y));
                        if exists|j: int| 0 <= j < i + 1 && #[trigger] v.obstacles[ids@[j]].covers(x, y) {
                            let j = choose|j: int|
                                0 <= j < i + 1 && #[trigger] v.obstacles[ids@[j]].covers(x, y);
                            assert(j < i);
                        }
                    }
                }
            }
            i += 1;
        }
        proof {
            assert forall|x: int, y: int| in_grid(x, y) implies (exists|j: int|
                0 <= j < ids.len() && #[trigger] v.obstacles[ids@[j]].covers(x, y)) == occupied(
                v.obstacles,
                x,
                y,
            ) by {
                if occupied(v.obstacles, x, y) {
                    let id = choose|id: u64| #[trigger]
                        v.obstacles.contains_key(id) && v.obstacles[id].covers(x, y);
                    assert(v.obstacles == self@.obstacles);
                    assert(self.obstacles@.contains_key(id));
                    assert(ids@.to_set().contains(id));
                    let j = choose|j: int| 0 <= j < ids@.len() && ids@[j] == id;
                    assert(v.obstacles[ids@[j]].covers(x, y));
                }
                if exists|j: int| 0 <= j < ids.len() && #[trigger] v.obstacles[ids@[j]].covers(x, y) {
                    let j = choose|j: int|
                        0 <= j < ids.len() && #[trigger] v.obstacles[ids@[j]].covers(x, y);
                    assert(ids@.to_set().contains(ids@[j]));
                    assert(self.obstacles@.contains_key(ids@[j]));
                    assert(v.obstacles == self@.obstacles);
                    assert(v.obstacles.contains_key(ids@[j]));
                }
            }
        }

        if self.ultimate.barrier_visible() {
            assert(self.player.y == HEIGHT - 1);
            let ghost before = self.game_grid;
            self.game_grid[self.player.y - 1] = [BARRIER_ICON; WIDTH];
            proof {
                assert forall|x: int, y: int| in_grid(x, y) && y != self.player.y - 1 implies grid_cell(
                    self.game_grid,
                    x,
                    y,
                ) == grid_cell(before, x, y) by {
                    assert(self.game_grid@[y] == before@[y]);
                }
            }
        }
        proof {
            assert(self@ =~= AppView { game_grid: self@.game_grid, ..old(self)@ });
        }
    }

    fn exit(&mut self)
        ensures
            final(self).dashes_wf() == old(self).dashes_wf(),
            final(self)@ == (AppView { exit: true, ..old(self)@ }),
    {
        self.exit = true;
    }

    /// Fires the ultimate if it is ready: the player is slammed to the
    /// ground and the obstacles in the lower part of the board vaporize.
    fn try_use_ultimate(&mut self)
        requires
            old(self).dash_collection.wf(),
        ensures
            final(self).dash_collection.wf(),
            final(self)@ == ultimate_fired(old(self)@),
    {
        if self.ultimate.activate() {
            self.player.y = HEIGHT - 1;  // slam to the ground
            self.destroy_lower_obstacles();
        }
    }

    /// Reacts to a key press.
    pub fn handle_key_event(&mut self, key: char)
        requires
            old(self).inv(),
        ensures
            final(self).inv(),
            final(self)@ == after_key(old(self)@, key),
    {
        if key == keybinds::QUIT {
            self.exit();
        } else if key == keybinds::RESTART {
            if self.game_over {
                self.wants_restart = true;
            }
        } else if key == keybinds::LEFT {
            self.player.move_state = PlayerState::Moving(HDirection::Left);
        } else if key == keybinds::RIGHT {
            self.player.move_state = PlayerState::Moving(HDirection::Right);
        } else if key == keybinds::DASH_LEFT {
            self.player.move_state = PlayerState::Dashing(HDirection::Left);
        } else if key == keybinds::DASH_RIGHT {
            self.player.move_state = PlayerState::Dashing(HDirection::Right);
        } else if key == keybinds::UP {
            self.player.move_state = PlayerState::Flying(VDirection::Up);
        } else if key == keybinds::DOWN {
            self.player.move_state = PlayerState::Flying(VDirection::Down);
        } else if key == keybinds::ULTIMATE {
            let ghost v = self@;
            self.try_use_ultimate();
            proof {
                lemma_fired_keeps_inv(v);
            }
        }
        proof {
            assert(self@ =~= after_key(old(self)@, key));
        }
    }

    /// The score: hundredths of a second survived.
    pub fn get_final_score(&self) -> (score: u128)
        ensures
            score == self@.elapsed_time / 10_000_000,
    {
        self.elapsed_time / 1_000_000 / 10
    }

    /// Starts a new game.
    fn restart_game(&mut self)
        ensures
            final(self).inv(),
            final(self)@ == fresh_game(),
    {
        *self = App::new();
    }

    /// Advances the game by one tick of `dt` nanoseconds.
    #[verifier::rlimit(40)]
    pub fn update_game(&mut self, dt: u128)
        requires
            old(self).inv(),
            old(self)@.elapsed_time + dt <= MAX_GAME_TIME,
        ensures
            final(self).inv(),
            exists|x: usize, shape: Shape|
                spawn_choice(x as int, shape) && final(self)@ == (AppView {
                    game_grid: final(self)@.game_grid,
                    ..after_tick(old(self)@, dt as int, x as int, shape)
                }),
            shows(final(self)@.game_grid, final(self)@),
            final(self)@.elapsed_time == old(self)@.elapsed_time + dt,
            final(self)@.player.move_state == PlayerState::Idle,
            final(self)@.ultimate.is_active_spec() ==> final(self)@.game_over == old(self)@.game_over,
            forall|k: Cell| #[trigger]
                final(self)@.dashes.contains_key(k) ==> k != (final(self)@.player.x, final(self)@.player.y)
                    && !occupied(final(self)@.obstacles, k.0 as int, k.1 as int),
    {
        let ghost v0 = self@;
        let altitude = self.player.altitude();
        self.ultimate.update(dt, altitude);
        proof {
            assert forall|id: u64| #[trigger] self@.obstacles.contains_key(id) implies obstacle_fits(
                self@.obstacles[id],
            ) && self@.obstacles[id].time_since_move + dt <= MAX_DURATION by {
                assert(v0.obstacles.contains_key(id));
            }
        }
        self.update_obstacles(dt);
        let ghost v1 = self@;
        proof {
            assert(v1 == stage_fall(v0, dt as int));
        }
        self.move_player();
        let ghost v2 = self@;

        if self.ultimate.is_active() {
            self.destroy_touching_obstacles();
        } else {
            self.game_over = self.check_collision();
        }
        let ghost v3 = self@;
        proof {
            assert(v3 =~= stage_hit(v2));
            lemma_hit_keeps(v0, dt as int);
        }

        self.try_spawn_obstacle(dt);
        let ghost v4 = self@;
        let ghost (sx, sshape) = choose|x: usize, shape: Shape|
            spawn_choice(x as int, shape) && v4 == timers_after(v3, dt as int, x as int, shape);

        proof {
            assert forall|k: Cell| #[trigger] self.dash_collection@.contains_key(k) implies self.dash_collection@[k].time_since_change + dt <= MAX_DURATION by {
                assert(v3.dashes.contains_key(k));
            }
        }
        self.dash_collection.update(dt);
        self.drop_colliding_dashes();
        let ghost v6 = self@;
        proof {
            lemma_tick_keeps(v0, dt as int, sx as int, sshape);
            assert(v6 =~= stage_clear(stage_fade(v4, dt as int)));
        }

        self.update_grid();

        self.elapsed_time = self.elapsed_time + dt;
        self.player.move_state = PlayerState::Idle;
        proof {
            assert(self@ =~= AppView {
                game_grid: self@.game_grid,
                ..after_tick(v0, dt as int, sx as int, sshape)
            });
            assert(spawn_choice(sx as int, sshape));
            assert forall|k: Cell| #[trigger] self@.dashes.contains_key(k) implies k != (self@.player.x, self@.player.y)
                && !occupied(self@.obstacles, k.0 as int, k.1 as int) by {
                assert(!collision_targets(v6).contains(k));
                assert(in_grid(k.0 as int, k.1 as int));
            }
        }
    }

    /// Starts a fresh run: draws the player on the board.
    pub fn start(&mut self)
        requires
            old(self).inv(),
        ensures
            final(self).inv(),
            final(self)@ == (AppView { game_grid: final(self)@.game_grid, ..old(self)@ }),
            forall|x: int, y: int|
                #![trigger grid_cell(final(self)@.game_grid, x, y)]
                in_grid(x, y) ==> grid_cell(final(self)@.game_grid, x, y) == if x
                    == old(self)@.player.x && y == old(self)@.player.y {
                    PLAYER_ICON
                } else {
                    grid_cell(old(self)@.game_grid, x, y)
                },
    {
        self.init_game();
    }

    /// The decisions of one pass of the main loop: reacts to the key pressed,
    /// if any; advances the game once `TICK_RATE` has passed since the last
    /// update, unless it is over; restarts it once it is over and a restart
    /// was asked for. Tells whether the clock of the last update restarts.
    pub fn frame(&mut self, key: Option<char>, since_update: u128) -> (restart_clock: bool)
        requires
            old(self).inv(),
            old(self)@.elapsed_time + since_update <= MAX_GAME_TIME,
        ensures
            final(self).inv(),
            ({
                let k = match key {
                    Some(c) => after_key(old(self)@, c),
                    None => old(self)@,
                };
                let updates = !k.game_over && since_update >= TICK_RATE;
                &&& updates ==> restart_clock && exists|x: usize, shape: Shape|
                    #![trigger spawn_choice(x as int, shape)]
                    spawn_choice(x as int, shape) && {
                        let t = after_tick(k, since_update as int, x as int, shape);
                        if t.game_over && t.wants_restart {
                            final(self)@ == fresh_game()
                        } else {
                            final(self)@ == (AppView { game_grid: final(self)@.game_grid, ..t })
                        }
                    }
                &&& !updates && !(k.game_over && k.wants_restart) ==> !restart_clock && final(self)@ == k
                &&& !updates && k.game_over && k.wants_restart ==> restart_clock && final(self)@ == fresh_game()
            }),
    {
        match key {
            Some(c) => self.handle_key_event(c),
            None => {},
        }
        let mut restart_clock = false;
        if !self.game_over && since_update >= TICK_RATE {
            self.update_game(since_update);
            restart_clock = true;
        }
        if self.game_over && self.wants_restart {
            self.restart_game();
            restart_clock = true;
        }
        restart_clock
    }

    pub fn game_grid(&self) -> (g: &GameGrid)
        ensures
            *g == self@.game_grid,
    {
        &self.game_grid
    }

    pub fn is_game_over(&self) -> (r: bool)
        ensures
            r == self@.game_over,
    {
        self.game_over
    }

    /// Whether the player asked to quit.
    pub fn should_exit(&self) -> (r: bool)
        ensures
            r == self@.exit,
    {
        self.exit
    }

    /// Fall speed of new obstacles, in hundredths of a cell per second.
    pub fn obs_speed(&self) -> (r: u64)
        ensures
            r == self@.obs_speed,
    {
        self.obs_speed
    }

    pub fn ultimate(&self) -> (u: Ultimate)
        ensures
            u == self@.ultimate,
    {
        self.ultimate
    }

    pub fn player(&self) -> (p: Player)
        ensures
            p == self@.player,
    {
        self.player
    }

    /// Game time so far, in nanoseconds.
    pub fn elapsed_time(&self) -> (t: u128)
        ensures
            t == self@.elapsed_time,
    {
        self.elapsed_time
    }

    /// How many obstacles are on the board.
    pub fn obstacle_count(&self) -> (n: usize)
        ensures
            n == self@.obstacles.dom().len(),
    {
        proof {
            assert(self@.obstacles.dom() =~= self.obstacles@.dom());
        }
        self.obstacles.len()
    }
}

impl Default for App {
    fn default() -> (app: Self)
        ensures
            app.inv(),
            app@ == fresh_game(),
    {
        App::new()
    }
}

} // verus!
