//! Properties that hold across the operations of the game.

use vstd::prelude::*;
use crate::config::keybinds;
use crate::config::{
    DASH_ICONS_LEN, DASH_LENGTH, HEIGHT, INIT_SPEED, MAX_SPEED, NANOS_PER_SEC,
    ULT_DESTROY_FROM_ROW, WIDTH,
};
use crate::dash::{Cell, DashEffect, trail_map, trail_marked_len, trail_stage};
use crate::rules::{
    AppView, after_key, after_spawn, after_tick, collides, dash_trail, hit_cells, moved_player,
    occupied, stage_fall, stage_hit, stage_move, touches_any,
};
use crate::obstacle::{ObstacleView, Shape};
use crate::player::{HDirection, Player, PlayerState, VDirection};
use crate::ultimate::{
    FULL_CHARGE, START_BLINK, STOP_BLINK, Ultimate, barrier_shown, charged, ultimate_after,
};

verus! {

/// Adding a multiple of the board's width to a column changes nothing once
/// it is wrapped around the board.
proof fn lemma_wrap_shift(a: int, b: int)
    ensures
        ((a % (WIDTH as int)) + b) % (WIDTH as int) == (a + b) % (WIDTH as int),
        (a + WIDTH) % (WIDTH as int) == a % (WIDTH as int),
{
    vstd::arithmetic::div_mod::lemma_add_mod_noop_right(b, a, WIDTH as int);
    vstd::arithmetic::div_mod::lemma_mod_add_multiples_vanish(a, WIDTH as int);
}

/// A dash from `(x, y)` in direction `d` sweeps `DASH_LENGTH + 1` distinct
/// cells of row `y`: the `i`-th lies `i` columns from the start in the
/// direction of the dash, wrapping around the board.
pub proof fn lemma_dash_trail_cells(x: int, y: int, d: HDirection)
    requires
        0 <= x < WIDTH,
        0 <= y < HEIGHT,
    ensures
        dash_trail(x, y, d).len() == DASH_LENGTH + 1,
        forall|i: int|
            0 <= i <= DASH_LENGTH ==> #[trigger] dash_trail(x, y, d)[i] == (
                (if d == HDirection::Right {
                    (x + i) % (WIDTH as int)
                } else {
                    (x + WIDTH - i) % (WIDTH as int)
                }) as usize,
                y as usize,
            ),
        forall|i: int, j: int|
            0 <= i < j <= DASH_LENGTH ==> #[trigger] dash_trail(x, y, d)[i]
                != #[trigger] dash_trail(x, y, d)[j],
{
    let t = dash_trail(x, y, d);
    assert forall|i: int| 0 <= i <= DASH_LENGTH implies #[trigger] t[i] == (
        (if d == HDirection::Right {
            (x + i) % (WIDTH as int)
        } else {
            (x + WIDTH - i) % (WIDTH as int)
        }) as usize,
        y as usize,
    ) by {
        lemma_wrap_shift(x - i, 0);
    }
    assert forall|i: int, j: int| 0 <= i < j <= DASH_LENGTH implies #[trigger] t[i]
        != #[trigger] t[j] by {
        lemma_wrap_shift(x - i, 0);
        lemma_wrap_shift(x - j, 0);
    }
}

/// The column `i` cells back from where a dash from column `x` in
/// direction `d` lands, wrapping around the board: `i == 0` is the landing
/// column and `i == DASH_LENGTH` the column the dash started from.
pub open spec fn swept_column(x: int, d: HDirection, i: int) -> int {
    if d == HDirection::Right {
        (x + DASH_LENGTH - i) % (WIDTH as int)
    } else {
        (x + WIDTH - DASH_LENGTH + i) % (WIDTH as int)
    }
}

/// Once a dash has landed, the cells met along it, and its trail, run from
/// the landing cell back to the start, one column at a time.
proof fn lemma_landed_trail(p: Player, d: HDirection, grounded: bool)
    requires
        p.x < WIDTH,
        p.y < HEIGHT,
        p.move_state == PlayerState::Dashing(d),
    ensures
        ({
            let q = moved_player(p, grounded);
            let t = dash_trail(q.x as int, q.y as int, d.opposite_spec());
            &&& hit_cells(q) == t
            &&& t.len() == DASH_LENGTH + 1
            &&& forall|i: int|
                0 <= i <= DASH_LENGTH ==> #[trigger] t[i] == (
                    swept_column(p.x as int, d, i) as usize,
                    p.y,
                )
            &&& forall|i: int, j: int| 0 <= i < j <= DASH_LENGTH ==> #[trigger] t[i] != #[trigger] t[j]
        }),
{
    let q = moved_player(p, grounded);
    lemma_dash_trail_cells(q.x as int, q.y as int, d.opposite_spec());
    let t = dash_trail(q.x as int, q.y as int, d.opposite_spec());
    assert forall|i: int| 0 <= i <= DASH_LENGTH implies #[trigger] t[i] == (
        swept_column(p.x as int, d, i) as usize,
        p.y,
    ) by {
        if d == HDirection::Right {
            lemma_wrap_shift(p.x + DASH_LENGTH, WIDTH - i);
            lemma_wrap_shift(p.x + DASH_LENGTH - i, 0);
        } else {
            lemma_wrap_shift(p.x + WIDTH - DASH_LENGTH, i);
        }
    }
}

/// A dash meets every obstacle along the whole path it sweeps. When no
/// ultimate runs, the tick ends the game exactly when, once the obstacles
/// have fallen, one of them covers a cell of the player's row from the
/// landing cell back to the start of the dash.
pub proof fn lemma_dash_hits_along_path(v: AppView, dt: int, x: int, shape: Shape, d: HDirection)
    requires
        v.player.x < WIDTH,
        v.player.y < HEIGHT,
        v.player.move_state == PlayerState::Dashing(d),
        !stage_fall(v, dt).ultimate.is_active_spec(),
    ensures
        after_tick(v, dt, x, shape).game_over <==> exists|i: int, id: u64|
            0 <= i <= DASH_LENGTH && #[trigger] stage_fall(v, dt).obstacles[id].covers(
                swept_column(v.player.x as int, d, i),
                v.player.y as int,
            ) && stage_fall(v, dt).obstacles.contains_key(id),
{
    let v1 = stage_fall(v, dt);
    let v2 = stage_move(v1);
    let q = v2.player;
    lemma_landed_trail(v1.player, d, v1.ultimate.is_active_spec());
    let t = hit_cells(q);
    let obs = v1.obstacles;
    assert(after_tick(v, dt, x, shape).game_over == collides(q, obs));
    if collides(q, obs) {
        let i = choose|i: int|
            0 <= i < t.len() && #[trigger] occupied(obs, t[i].0 as int, t[i].1 as int);
        let id = choose|id: u64| #[trigger]
            obs.contains_key(id) && obs[id].covers(t[i].0 as int, t[i].1 as int);
        assert(t[i] == (swept_column(v.player.x as int, d, i) as usize, v.player.y));
        assert(obs[id].covers(swept_column(v.player.x as int, d, i), v.player.y as int));
    }
    if exists|i: int, id: u64|
        0 <= i <= DASH_LENGTH && #[trigger] obs[id].covers(
            swept_column(v.player.x as int, d, i),
            v.player.y as int,
        ) && obs.contains_key(id) {
        let (i, id) = choose|i: int, id: u64|
            0 <= i <= DASH_LENGTH && #[trigger] obs[id].covers(
                swept_column(v.player.x as int, d, i),
                v.player.y as int,
            ) && obs.contains_key(id);
        assert(t[i] == (swept_column(v.player.x as int, d, i) as usize, v.player.y));
        assert(occupied(obs, t[i].0 as int, t[i].1 as int));
    }
}

/// Without a dash the player meets only what lies on its own cell. When no
/// ultimate runs, the tick ends the game exactly when, once the obstacles
/// have fallen and the player has moved, an obstacle covers the player's cell.
pub proof fn lemma_step_hits_own_cell(v: AppView, dt: int, x: int, shape: Shape)
    requires
        !(v.player.move_state is Dashing),
        !stage_fall(v, dt).ultimate.is_active_spec(),
    ensures
        ({
            let p = stage_move(stage_fall(v, dt)).player;
            after_tick(v, dt, x, shape).game_over <==> exists|id: u64|
                #[trigger] stage_fall(v, dt).obstacles.contains_key(id) && stage_fall(
                    v,
                    dt,
                ).obstacles[id].covers(p.x as int, p.y as int)
        }),
{
    let v1 = stage_fall(v, dt);
    let p = stage_move(v1).player;
    let t = hit_cells(p);
    assert(t == seq![(p.x, p.y)]);
    if collides(p, v1.obstacles) {
        let i = choose|i: int|
            0 <= i < t.len() && #[trigger] occupied(v1.obstacles, t[i].0 as int, t[i].1 as int);
        assert(i == 0);
    }
    if occupied(v1.obstacles, p.x as int, p.y as int) {
        assert(occupied(v1.obstacles, t[0].0 as int, t[0].1 as int));
    }
}

/// Marking the cells of a trail, all distinct, gives the `i`-th cell the
/// stage `trail_stage(i)` and leaves every other cell as it was.
proof fn lemma_trail_map_distinct(m: Map<Cell, DashEffect>, cells: Seq<Cell>, n: int)
    requires
        0 <= n <= cells.len(),
        forall|i: int, j: int| 0 <= i < j < cells.len() ==> #[trigger] cells[i] != #[trigger] cells[j],
    ensures
        forall|i: int|
            0 <= i < n ==> trail_map(m, cells, n).contains_key(#[trigger] cells[i])
                && trail_map(m, cells, n)[cells[i]] == DashEffect::fresh(trail_stage(i)),
        forall|c: Cell|
            (forall|i: int| 0 <= i < n ==> cells[i] != c) ==> (#[trigger] trail_map(
                m,
                cells,
                n,
            ).contains_key(c) == m.contains_key(c) && (m.contains_key(c) ==> trail_map(
                m,
                cells,
                n,
            )[c] == m[c])),
    decreases n,
{
    if n > 0 {
        lemma_trail_map_distinct(m, cells, n - 1);
        assert forall|i: int| 0 <= i < n implies trail_map(m, cells, n).contains_key(
            #[trigger] cells[i],
        ) && trail_map(m, cells, n)[cells[i]] == DashEffect::fresh(trail_stage(i)) by {
            if i < n - 1 {
                assert(cells[i] != cells[n - 1]);
            }
        }
        assert forall|c: Cell| (forall|i: int| 0 <= i < n ==> cells[i] != c) implies (
        #[trigger] trail_map(m, cells, n).contains_key(c) == m.contains_key(c) && (m.contains_key(c)
            ==> trail_map(m, cells, n)[c] == m[c])) by {
            assert(cells[n - 1] != c);
            assert(forall|i: int| 0 <= i < n - 1 ==> cells[i] != c);
            assert(trail_map(m, cells, n - 1).contains_key(c) == m.contains_key(c));
            assert(trail_map(m, cells, n) == trail_map(m, cells, n - 1).insert(
                cells[n - 1],
                DashEffect::fresh(trail_stage(n - 1)),
            ));
        }
    }
}

/// A dash lays its trail behind the player. Counted from the landing cell
/// back towards the start, the first two cells get the newest fade stage,
/// the next two the second, the next two the third and the three after
/// them the oldest, each just begun; the start cell, and every cell off
/// the path, keep the effect they had.
pub proof fn lemma_dash_lays_trail(v: AppView, d: HDirection)
    requires
        v.player.x < WIDTH,
        v.player.y < HEIGHT,
        v.player.move_state == PlayerState::Dashing(d),
    ensures
        forall|i: int|
            0 <= i < DASH_LENGTH ==> {
                let c = (#[trigger] swept_column(v.player.x as int, d, i) as usize, v.player.y);
                &&& stage_move(v).dashes.contains_key(c)
                &&& stage_move(v).dashes[c] == DashEffect {
                    state_idx: (if i < 8 {
                        i / 2
                    } else {
                        3
                    }) as usize,
                    time_since_change: 0,
                }
            },
        forall|c: Cell|
            (forall|i: int|
                0 <= i < DASH_LENGTH ==> c != (
                    swept_column(v.player.x as int, d, i) as usize,
                    v.player.y,
                )) ==> (#[trigger] stage_move(v).dashes.contains_key(c) == v.dashes.contains_key(c)
                && (v.dashes.contains_key(c) ==> stage_move(v).dashes[c] == v.dashes[c])),
{
    let q = moved_player(v.player, v.ultimate.is_active_spec());
    lemma_landed_trail(v.player, d, v.ultimate.is_active_spec());
    let t = dash_trail(q.x as int, q.y as int, d.opposite_spec());
    assert(trail_marked_len() == DASH_LENGTH);
    lemma_trail_map_distinct(v.dashes, t, DASH_LENGTH as int);
    assert forall|i: int| 0 <= i < DASH_LENGTH implies {
        let c = (#[trigger] swept_column(v.player.x as int, d, i) as usize, v.player.y);
        &&& stage_move(v).dashes.contains_key(c)
        &&& stage_move(v).dashes[c] == DashEffect {
            state_idx: (if i < 8 {
                i / 2
            } else {
                3
            }) as usize,
            time_since_change: 0,
        }
    } by {
        assert(t[i] == (swept_column(v.player.x as int, d, i) as usize, v.player.y));
    }
    assert forall|c: Cell|
        (forall|i: int|
            0 <= i < DASH_LENGTH ==> c != (
                swept_column(v.player.x as int, d, i) as usize,
                v.player.y,
            )) implies (#[trigger] stage_move(v).dashes.contains_key(c) == v.dashes.contains_key(c)
        && (v.dashes.contains_key(c) ==> stage_move(v).dashes[c] == v.dashes[c])) by {
        assert forall|i: int| 0 <= i < DASH_LENGTH implies t[i] != c by {
            assert(t[i] == (swept_column(v.player.x as int, d, i) as usize, v.player.y));
        }
        assert(trail_map(v.dashes, t, DASH_LENGTH as int).contains_key(c) == v.dashes.contains_key(c));
        assert(stage_move(v).dashes == trail_map(v.dashes, t, trail_marked_len()));
    }
}

/// A new obstacle falls at the speed new obstacles have when it spawns: it
/// steps down once every `100 * NANOS_PER_SEC / obs_speed` nanoseconds.
pub proof fn lemma_spawn_falls_at_game_speed(v: AppView, x: int, shape: Shape)
    requires
        0 < v.obs_speed,
    ensures
        after_spawn(v, x, shape).obstacles.contains_key(v.obs_id),
        after_spawn(v, x, shape).obstacles[v.obs_id].move_after == 100 * NANOS_PER_SEC
            / (v.obs_speed as int),
        after_spawn(v, x, shape).obstacles[v.obs_id].time_since_move == 0,
{
}

/// The faster the game, the faster what spawns in it falls: of two
/// obstacles spawned at speeds in the game's range, the one spawned at the
/// higher speed steps down strictly more often.
pub proof fn lemma_faster_game_faster_spawns(
    v: AppView,
    w: AppView,
    x: int,
    shape: Shape,
    x2: int,
    shape2: Shape,
)
    requires
        INIT_SPEED <= v.obs_speed < w.obs_speed <= MAX_SPEED,
    ensures
        after_spawn(w, x2, shape2).obstacles[w.obs_id].move_after < after_spawn(
            v,
            x,
            shape,
        ).obstacles[v.obs_id].move_after,
{
    let a = v.obs_speed as int;
    let b = w.obs_speed as int;
    let n = 100 * NANOS_PER_SEC as int;
    let qb = n / b;
    vstd::arithmetic::div_mod::lemma_fundamental_div_mod(n, b);
    vstd::arithmetic::div_mod::lemma_div_is_ordered_by_denominator(n, b, MAX_SPEED as int);
    assert(n / (MAX_SPEED as int) == 15463120);
    assert(a * (qb + 1) <= n) by (nonlinear_arith)
        requires
            n == b * qb + n % b,
            0 <= n % b,
            1 <= a < b,
            qb >= a,
    ;
    vstd::arithmetic::div_mod::lemma_div_is_ordered(a * (qb + 1), n, a);
    vstd::arithmetic::div_mod::lemma_div_multiples_vanish(qb + 1, a);
}

/// Falling drops an obstacle only once it has left the board: after its
/// step it is kept, as stepped, exactly when one of its cells is still on a
/// row above the bottom edge.
pub proof fn lemma_fall_keeps_what_is_on_board(v: AppView, dt: int, id: u64)
    requires
        v.obstacles.contains_key(id),
    ensures
        stage_fall(v, dt).obstacles.contains_key(id) <==> exists|i: int|
            0 <= i < v.obstacles[id].step(dt).cells.len() && #[trigger] v.obstacles[id].step(
                dt,
            ).cells[i].1 < HEIGHT,
        stage_fall(v, dt).obstacles.contains_key(id) ==> stage_fall(v, dt).obstacles[id]
            == v.obstacles[id].step(dt),
{
}

/// Firing a ready ultimate vaporizes exactly the obstacles with a cell on
/// row `ULT_DESTROY_FROM_ROW` or below; the others stay as they were, so no
/// obstacle is left on those rows.
pub proof fn lemma_ultimate_clears_lower_rows(v: AppView)
    requires
        v.ultimate is Ready,
    ensures
        forall|id: u64| #[trigger]
            after_key(v, keybinds::ULTIMATE).obstacles.contains_key(id) <==> v.obstacles.contains_key(id)
                && forall|i: int|
                0 <= i < v.obstacles[id].cells.len() ==> #[trigger] v.obstacles[id].cells[i].1
                    < ULT_DESTROY_FROM_ROW,
        forall|id: u64| #[trigger]
            after_key(v, keybinds::ULTIMATE).obstacles.contains_key(id) ==> after_key(
                v,
                keybinds::ULTIMATE,
            ).obstacles[id] == v.obstacles[id],
        forall|id: u64, i: int|
            after_key(v, keybinds::ULTIMATE).obstacles.contains_key(id) && 0 <= i < after_key(
                v,
                keybinds::ULTIMATE,
            ).obstacles[id].cells.len() ==> #[trigger] after_key(
                v,
                keybinds::ULTIMATE,
            ).obstacles[id].cells[i].1 < ULT_DESTROY_FROM_ROW,
{
    let w = after_key(v, keybinds::ULTIMATE);
    assert forall|id: u64| #[trigger] w.obstacles.contains_key(id) <==> v.obstacles.contains_key(id)
        && forall|i: int|
        0 <= i < v.obstacles[id].cells.len() ==> #[trigger] v.obstacles[id].cells[i].1
            < ULT_DESTROY_FROM_ROW by {
        if v.obstacles.contains_key(id) && !w.obstacles.contains_key(id) {
            assert(v.obstacles[id].reaches_row(ULT_DESTROY_FROM_ROW as int));
        }
    }
}

/// Turning around twice faces the original way.
pub proof fn lemma_opposite_involutive(d: HDirection)
    ensures
        d.opposite_spec().opposite_spec() == d,
        d.opposite_spec() != d,
{
}

/// A step, or a dash, in one direction followed by one in the other brings
/// the player back to its column.
pub proof fn lemma_moves_undo(p: Player, d: HDirection, grounded: bool)
    requires
        p.x < WIDTH,
    ensures
        ({
            let p1 = moved_player(Player { move_state: PlayerState::Moving(d), ..p }, grounded);
            let p2 = moved_player(
                Player { move_state: PlayerState::Moving(d.opposite_spec()), ..p1 },
                grounded,
            );
            p2.x == p.x && p2.y == p.y
        }),
        ({
            let p1 = moved_player(Player { move_state: PlayerState::Dashing(d), ..p }, grounded);
            let p2 = moved_player(
                Player { move_state: PlayerState::Dashing(d.opposite_spec()), ..p1 },
                grounded,
            );
            p2.x == p.x && p2.y == p.y
        }),
{
    let w = WIDTH as int;
    lemma_wrap_shift(p.x as int, 0);
    lemma_wrap_shift(p.x + 1, w - 1);
    lemma_wrap_shift(p.x + w - 1, 1);
    lemma_wrap_shift(p.x + DASH_LENGTH, w - DASH_LENGTH);
    lemma_wrap_shift(p.x + w - DASH_LENGTH, DASH_LENGTH as int);
}

/// A move keeps the player on the board: columns wrap around, rows stop at
/// the top and at the ground, and a player held down by the barrier
/// (`grounded`) stays on the ground row.
pub proof fn lemma_move_keeps_bounds(p: Player, grounded: bool)
    requires
        p.x < WIDTH,
        p.y < HEIGHT,
        grounded ==> p.y == HEIGHT - 1,
    ensures
        moved_player(p, grounded).x < WIDTH,
        moved_player(p, grounded).y < HEIGHT,
        grounded ==> moved_player(p, grounded).y == HEIGHT - 1,
        p.move_state == PlayerState::Flying(VDirection::Up) && grounded ==> moved_player(
            p,
            grounded,
        ) == p,
{
}

/// The trail a dash leaves starts at the player's new cell and runs back to
/// the cell the dash started from.
pub proof fn lemma_dash_trail_joins(p: Player, d: HDirection, grounded: bool)
    requires
        p.x < WIDTH,
        p.move_state == PlayerState::Dashing(d),
    ensures
        ({
            let q = moved_player(p, grounded);
            let trail = dash_trail(q.x as int, q.y as int, d.opposite_spec());
            &&& trail.len() == DASH_LENGTH + 1
            &&& trail[0] == (q.x, q.y)
            &&& trail[DASH_LENGTH as int] == (p.x, p.y)
        }),
{
    let q = moved_player(p, grounded);
    let trail = dash_trail(q.x as int, q.y as int, d.opposite_spec());
    assert(trail[0] == (q.x, q.y));
    assert(trail[DASH_LENGTH as int] == (p.x, p.y));
}

/// Along a dash trail the fade stages never go back: the cells next to the
/// player are the newest, the far end the oldest.
pub proof fn lemma_trail_fades_outward(i: int, j: int)
    requires
        0 <= i <= j < trail_marked_len(),
    ensures
        trail_stage(i) <= trail_stage(j) < DASH_ICONS_LEN,
{
}

/// A trail effect only ever fades, by at most one stage per tick.
pub proof fn lemma_fade_is_monotone(e: DashEffect, dt: int)
    requires
        0 <= dt,
        e.state_idx < DASH_ICONS_LEN,
    ensures
        e.state_idx <= e.tick(dt).state_idx <= e.state_idx + 1,
{
}

/// The countdown of an active ultimate does not depend on how the time is
/// split into ticks.
pub proof fn lemma_countdown_composes(left: u128, d1: int, d2: int, a1: int, a2: int, a: int)
    requires
        0 <= d1 < left,
        0 <= d2,
    ensures
        ultimate_after(ultimate_after(Ultimate::Active(left), d1, a1), d2, a2) == ultimate_after(
            Ultimate::Active(left),
            d1 + d2,
            a,
        ),
{
}

/// Below a full bar the charge grows linearly with the time spent aloft,
/// and faster the higher the player flies.
pub proof fn lemma_charge_linear(c: int, a1: int, a2: int, dt: int)
    requires
        0 <= c,
        0 <= a1 <= a2,
        0 <= dt,
    ensures
        c + a2 * dt < FULL_CHARGE ==> charged(c, a2, dt) == c + a2 * dt,
        charged(c, a1, dt) <= charged(c, a2, dt),
        charged(c, a1, dt) <= FULL_CHARGE,
{
    assert(a1 * dt <= a2 * dt) by (nonlinear_arith)
        requires
            0 <= a1 <= a2,
            0 <= dt,
    ;
}

/// The barrier shows steadily at first and is gone in the last moments.
pub proof fn lemma_barrier_schedule(left: int)
    ensures
        left > START_BLINK ==> barrier_shown(left),
        left <= STOP_BLINK ==> !barrier_shown(left),
{
}

/// An obstacle only ever falls: each cell stays or moves one row down.
pub proof fn lemma_obstacles_only_fall(o: ObstacleView, dt: int, i: int)
    requires
        0 <= i < o.cells.len(),
        o.cells[i].1 < usize::MAX,
    ensures
        o.step(dt).cells.len() == o.cells.len(),
        o.step(dt).cells[i].0 == o.cells[i].0,
        o.step(dt).cells[i].1 == o.cells[i].1 || o.step(dt).cells[i].1 == o.cells[i].1 + 1,
{
}

/// The score never goes down from one tick to the next.
pub proof fn lemma_score_never_drops(v: AppView, dt: int, x: int, shape: Shape)
    requires
        0 <= dt,
        v.elapsed_time + dt <= u128::MAX,
    ensures
        after_tick(v, dt, x, shape).elapsed_time / 10_000_000 >= v.elapsed_time / 10_000_000,
{
    let w = after_tick(v, dt, x, shape);
    assert(w.elapsed_time >= v.elapsed_time);
    vstd::arithmetic::div_mod::lemma_div_is_ordered(
        v.elapsed_time as int,
        w.elapsed_time as int,
        10_000_000,
    );
}

/// New obstacles never get slower, and never faster than `MAX_SPEED`.
pub proof fn lemma_speed_only_rises(v: AppView, dt: int, x: int, shape: Shape)
    requires
        v.obs_speed <= MAX_SPEED,
    ensures
        v.obs_speed <= after_tick(v, dt, x, shape).obs_speed <= MAX_SPEED,
{
}

/// A tick spawns at most one obstacle, however long it lasts.
pub proof fn lemma_one_spawn_per_tick(v: AppView, dt: int, x: int, shape: Shape)
    requires
        v.obs_id < u64::MAX,
    ensures
        v.obs_id <= after_tick(v, dt, x, shape).obs_id <= v.obs_id + 1,
{
}

/// While the ultimate runs, nothing is left that would hit the player:
/// every obstacle on its cell, or on the path of its dash, is vaporized.
pub proof fn lemma_active_ultimate_clears_hits(v: AppView)
    requires
        v.ultimate is Active,
    ensures
        !collides(stage_hit(v).player, stage_hit(v).obstacles),
{
    let w = stage_hit(v);
    let cells = hit_cells(v.player);
    if collides(w.player, w.obstacles) {
        let i = choose|i: int|
            0 <= i < hit_cells(w.player).len() && #[trigger] occupied(
                w.obstacles,
                hit_cells(w.player)[i].0 as int,
                hit_cells(w.player)[i].1 as int,
            );
        let id = choose|id: u64| #[trigger]
            w.obstacles.contains_key(id) && w.obstacles[id].covers(
                cells[i].0 as int,
                cells[i].1 as int,
            );
        assert((touches_any(cells))(v.obstacles[id]));
    }
}

/// While the ultimate stays active through a tick, nothing the player
/// touches ends the game.
pub proof fn lemma_invincible_while_active(v: AppView, dt: int, x: int, shape: Shape)
    requires
        after_tick(v, dt, x, shape).ultimate is Active,
    ensures
        after_tick(v, dt, x, shape).game_over == v.game_over,
{
}

} // verus!
