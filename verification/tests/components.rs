use todge::config::keybinds::label;
use todge::config::{
    dash_icon, spawn_shapes, GameGrid, BG_ICON, DASH_LENGTH, HEIGHT, OBS_ICON, WIDTH,
};
use todge::dash::{DashEffect, DashEffectCollection};
use todge::obstacle::{Obstacle, Shape};
use todge::player::{HDirection, Player, PlayerState};
use todge::ultimate::{Ultimate, FULL_CHARGE};

const MS: u128 = 1_000_000;

fn blank() -> GameGrid {
    [[BG_ICON; WIDTH]; HEIGHT]
}

#[test]
fn label_names_space() {
    assert_eq!(label(' '), "space");
    assert_eq!(label('q'), "q");
    assert_eq!(label('J'), "J");
}

#[test]
fn opposite_directions() {
    assert_eq!(HDirection::Left.opposite(), HDirection::Right);
    assert_eq!(HDirection::Right.opposite(), HDirection::Left);
    assert_eq!(HDirection::Left.opposite().opposite(), HDirection::Left);
}

#[test]
fn player_position_and_altitude() {
    let p = Player { x: 3, y: 7, move_state: PlayerState::Idle };
    assert_eq!(p.position(), (3, 7));
    assert_eq!(p.altitude(), HEIGHT - 1 - 7);
    let ground = Player { x: 0, y: HEIGHT - 1, move_state: PlayerState::Idle };
    assert_eq!(ground.altitude(), 0);
    let d = Player::default();
    assert_eq!(d.position(), (0, 0));
    assert_eq!(d.move_state, PlayerState::Idle);
}

#[test]
fn obstacle_shapes() {
    let unit = Obstacle::new(4, 2, 10, Shape::Unit);
    assert_eq!(unit.cells, vec![(4, 2)]);
    assert_eq!(unit.move_after, 10);
    assert_eq!(unit.time_since_move, 0);

    let tri = Obstacle::new(4, 2, 10, Shape::Triangle);
    assert_eq!(tri.cells, vec![(4, 2), (3, 3), (5, 3)]);

    let brick = Obstacle::new(4, 2, 10, Shape::Brick { width: 2, height: 3 });
    assert_eq!(
        brick.cells,
        vec![(4, 2), (4, 3), (4, 4), (5, 2), (5, 3), (5, 4)]
    );

    let empty = Obstacle::new(4, 2, 10, Shape::Brick { width: 0, height: 3 });
    assert!(empty.cells.is_empty());
}

#[test]
fn obstacle_moves_once_its_time_has_come() {
    let mut o = Obstacle::new(1, 1, 100, Shape::Triangle);
    o.move_obstacle(60);
    assert_eq!(o.cells, vec![(1, 1), (0, 2), (2, 2)]);
    assert_eq!(o.time_since_move, 60);
    o.move_obstacle(60);
    assert_eq!(o.cells, vec![(1, 2), (0, 3), (2, 3)]);
    assert_eq!(o.time_since_move, 20);
    // A long pause still moves it a single row.
    o.move_obstacle(1000);
    assert_eq!(o.cells, vec![(1, 3), (0, 4), (2, 4)]);
    assert_eq!(o.time_since_move, 920);
}

#[test]
fn obstacle_renders_only_on_board_cells() {
    let o = Obstacle {
        cells: vec![(0, 0), (WIDTH - 1, HEIGHT - 1), (WIDTH, 3), (2, HEIGHT + 4)],
        move_after: 1,
        time_since_move: 0,
    };
    let mut g = blank();
    o.render(&mut g);
    assert_eq!(g[0][0], OBS_ICON);
    assert_eq!(g[HEIGHT - 1][WIDTH - 1], OBS_ICON);
    let count = g.iter().flatten().filter(|&&c| c == OBS_ICON).count();
    assert_eq!(count, 2);
}

#[test]
fn obstacle_cell_queries() {
    let o = Obstacle::new(10, 12, 5, Shape::Brick { width: 2, height: 3 });
    assert!(o.covers_cell(11, 14));
    assert!(!o.covers_cell(12, 14));
    assert!(o.reaches_row(14));
    assert!(!o.reaches_row(15));
    assert!(o.above_bottom());
    let low = Obstacle::new(0, HEIGHT, 5, Shape::Unit);
    assert!(!low.above_bottom());
}

fn trail() -> Vec<(usize, usize)> {
    (0..=DASH_LENGTH).map(|i| (10 + i, 5)).collect()
}

#[test]
fn dash_trail_fades_from_the_player_outward() {
    let mut d = DashEffectCollection::default();
    d.add(trail());
    let mut g = blank();
    d.render(&mut g);
    let expected = ['█', '█', '▓', '▓', '▒', '▒', '░', '░', '░', BG_ICON];
    for (i, &c) in expected.iter().enumerate() {
        assert_eq!(g[5][10 + i], c, "cell {}", i);
    }
}

#[test]
fn dash_effects_fade_then_vanish() {
    let mut d = DashEffectCollection::default();
    d.add(trail());
    d.update(50 * MS);
    let mut g = blank();
    d.render(&mut g);
    assert_eq!(g[5][10], '█');
    d.update(50 * MS);
    let mut g = blank();
    d.render(&mut g);
    assert_eq!(g[5][10], '▓');
    assert_eq!(g[5][12], '▒');
    assert_eq!(g[5][16], BG_ICON); // stage 3 faded out
    d.update(100 * MS);
    d.update(100 * MS);
    let mut g = blank();
    d.render(&mut g);
    assert_eq!(g[5][10], '░');
    d.update(100 * MS);
    let mut g = blank();
    d.render(&mut g);
    assert!(g.iter().flatten().all(|&c| c == BG_ICON));
}

#[test]
fn burst_and_removal() {
    let mut d = DashEffectCollection::default();
    d.add_burst(vec![(1, 1), (2, 2), (1, 1)]);
    d.remove_cells(&[(2, 2), (7, 7)]);
    let mut g = blank();
    d.render(&mut g);
    assert_eq!(g[1][1], '█');
    assert_eq!(g[2][2], BG_ICON);
    let marked = g.iter().flatten().filter(|&&c| c != BG_ICON).count();
    assert_eq!(marked, 1);
}

#[test]
fn effects_on_mirrored_cells_stay_apart() {
    let mut d = DashEffectCollection::default();
    d.add_burst(vec![(0, 1), (1, 0)]);
    d.remove_cells(&[(1, 0)]);
    let mut g = blank();
    d.render(&mut g);
    assert_eq!(g[1][0], '█');
    assert_eq!(g[0][1], BG_ICON);
}

#[test]
fn dash_effect_default_is_new() {
    let e = DashEffect::default();
    assert_eq!(e.state_idx, 0);
    assert_eq!(e.time_since_change, 0);
}

#[test]
fn dash_icons_in_order() {
    assert_eq!(dash_icon(0), '█');
    assert_eq!(dash_icon(1), '▓');
    assert_eq!(dash_icon(2), '▒');
    assert_eq!(dash_icon(3), '░');
}

#[test]
fn spawn_table_weights() {
    let t = spawn_shapes();
    assert_eq!(t.iter().map(|e| e.1).sum::<u32>(), 100);
    assert_eq!(t[0], (Shape::Unit, 45));
    assert_eq!(t[4], (Shape::Brick { width: 10, height: 3 }, 10));
}

#[test]
fn ultimate_charges_with_altitude() {
    let mut u = Ultimate::default();
    assert_eq!(u, Ultimate::Charging(0));
    u.update(1_000_000_000, 0);
    assert_eq!(u, Ultimate::Charging(0));
    u.update(1_000_000_000, 19);
    assert_eq!(u, Ultimate::Charging(19_000_000_000));
    u.update(2_000_000_000, 19);
    assert_eq!(u, Ultimate::Charging(FULL_CHARGE));
    assert!(!u.is_active());
    u.update(1, 0);
    assert_eq!(u, Ultimate::Ready);
    u.update(5_000_000_000, 19);
    assert_eq!(u, Ultimate::Ready);
}

#[test]
fn ultimate_huge_altitude_fills_the_bar() {
    let mut u = Ultimate::Charging(5);
    u.update(u128::MAX / 2, usize::MAX);
    assert_eq!(u, Ultimate::Charging(FULL_CHARGE));
}

#[test]
fn ultimate_fires_only_when_ready() {
    let mut u = Ultimate::Charging(10);
    assert!(!u.activate());
    assert_eq!(u, Ultimate::Charging(10));
    let mut r = Ultimate::Ready;
    assert!(r.activate());
    assert_eq!(r, Ultimate::Active(5_000_000_000));
    assert!(r.is_active());
    assert!(!r.activate());
}

#[test]
fn ultimate_runs_out() {
    let mut u = Ultimate::Active(100);
    u.update(40, 3);
    assert_eq!(u, Ultimate::Active(60));
    u.update(60, 3);
    assert_eq!(u, Ultimate::Charging(0));
    let mut v = Ultimate::Active(100);
    v.update(1000, 3);
    assert_eq!(v, Ultimate::Charging(0));
}

#[test]
fn barrier_blinks_then_vanishes() {
    assert!(Ultimate::Active(4_000 * MS).barrier_visible());
    assert!(Ultimate::Active(3_000 * MS + 1).barrier_visible());
    // phase 18 at one second left: hidden
    assert!(!Ultimate::Active(1_000 * MS).barrier_visible());
    // phase 13 at half a second left: shown
    assert!(Ultimate::Active(500 * MS).barrier_visible());
    assert!(!Ultimate::Active(200 * MS).barrier_visible());
    assert!(!Ultimate::Active(0).barrier_visible());
    assert!(!Ultimate::Ready.barrier_visible());
    assert!(!Ultimate::Charging(0).barrier_visible());
}

#[test]
fn ultimate_update_outside_its_bounds() {
    let mut u = Ultimate::Active(10_000_000_000);
    u.update(1_000_000_000, 0);
    assert_eq!(u, Ultimate::Active(9_000_000_000));
    let mut c = Ultimate::Charging(FULL_CHARGE + 7);
    c.update(1, 1);
    assert_eq!(c, Ultimate::Ready);
}
