use todge::config::keybinds;
use todge::config::{BG_ICON, HEIGHT, OBS_ICON, PLAYER_ICON, TICK_RATE, WIDTH};
use todge::app::{spawn_columns, App, Sweep};
use todge::obstacle::Obstacle;
use todge::obstacle::Shape;
use todge::player::PlayerState;
use todge::ultimate::Ultimate;

const MS: u128 = 1_000_000;

fn tick(app: &mut App) {
    app.update_game(TICK_RATE);
}

#[test]
fn new_game() {
    let app = App::new();
    let p = app.player();
    assert_eq!(p.position(), (WIDTH / 2, HEIGHT - 1));
    assert_eq!(app.ultimate(), Ultimate::Charging(0));
    assert!(!app.is_game_over());
    assert!(!app.should_exit());
    assert_eq!(app.obs_speed(), 500);
    assert_eq!(app.elapsed_time(), 0);
    assert_eq!(app.get_final_score(), 0);
    assert_eq!(app.obstacle_count(), 0);
    assert!(app.game_grid().iter().flatten().all(|&c| c == BG_ICON));
}

#[test]
fn start_draws_the_player() {
    let mut app = App::new();
    app.start();
    let g = app.game_grid();
    assert_eq!(g[HEIGHT - 1][WIDTH / 2], PLAYER_ICON);
    assert_eq!(g.iter().flatten().filter(|&&c| c == PLAYER_ICON).count(), 1);
}

#[test]
fn keys_set_the_move_of_the_tick() {
    let mut app = App::new();
    app.handle_key_event(keybinds::LEFT);
    assert!(matches!(app.player().move_state, PlayerState::Moving(_)));
    tick(&mut app);
    assert_eq!(app.player().x, WIDTH / 2 - 1);
    assert_eq!(app.player().move_state, PlayerState::Idle);
    app.handle_key_event(keybinds::RIGHT);
    tick(&mut app);
    app.handle_key_event(keybinds::RIGHT);
    tick(&mut app);
    assert_eq!(app.player().x, WIDTH / 2 + 1);
    // An unbound key does nothing.
    app.handle_key_event('x');
    tick(&mut app);
    assert_eq!(app.player().x, WIDTH / 2 + 1);
}

#[test]
fn walking_wraps_around() {
    let mut app = App::new();
    for _ in 0..WIDTH / 2 {
        app.handle_key_event(keybinds::LEFT);
        tick(&mut app);
    }
    assert_eq!(app.player().x, 0);
    app.handle_key_event(keybinds::LEFT);
    tick(&mut app);
    assert_eq!(app.player().x, WIDTH - 1);
}

#[test]
fn flying_up_and_down() {
    let mut app = App::new();
    app.handle_key_event(keybinds::UP);
    tick(&mut app);
    app.handle_key_event(keybinds::UP);
    tick(&mut app);
    assert_eq!(app.player().y, HEIGHT - 3);
    app.handle_key_event(keybinds::DOWN);
    tick(&mut app);
    assert_eq!(app.player().y, HEIGHT - 2);
    app.handle_key_event(keybinds::DOWN);
    tick(&mut app);
    app.handle_key_event(keybinds::DOWN);
    tick(&mut app);
    assert_eq!(app.player().y, HEIGHT - 1);
    // Aloft, the ultimate charges.
    app.handle_key_event(keybinds::UP);
    tick(&mut app);
    tick(&mut app);
    assert!(matches!(app.ultimate(), Ultimate::Charging(c) if c > 0));
}

#[test]
fn dash_left_leaves_a_trail() {
    let mut app = App::new();
    app.handle_key_event(keybinds::DASH_LEFT);
    tick(&mut app);
    let x = app.player().x;
    assert_eq!(x, WIDTH / 2 - 9);
    let g = app.game_grid();
    let row = &g[HEIGHT - 1];
    assert_eq!(row[x], PLAYER_ICON);
    let expected = ['█', '▓', '▓', '▒', '▒', '░', '░', '░', BG_ICON];
    for (i, &c) in expected.iter().enumerate() {
        assert_eq!(row[x + 1 + i], c, "cell {}", i + 1);
    }
}

#[test]
fn dash_right_wraps_and_leaves_a_trail() {
    let mut app = App::new();
    for _ in 0..3 {
        app.handle_key_event(keybinds::DASH_RIGHT);
        tick(&mut app);
    }
    let x = app.player().x;
    assert_eq!(x, (WIDTH / 2 + 27) % WIDTH);
    let row = app.game_grid()[HEIGHT - 1];
    assert_eq!(row[x], PLAYER_ICON);
    assert_eq!(row[(x + WIDTH - 1) % WIDTH], '█');
}

#[test]
fn quit_and_restart_keys() {
    let mut app = App::new();
    app.handle_key_event(keybinds::RESTART);
    assert!(!app.is_game_over());
    app.handle_key_event(keybinds::QUIT);
    assert!(app.should_exit());
}

#[test]
fn ultimate_key_needs_a_ready_ultimate() {
    let mut app = App::new();
    app.handle_key_event(keybinds::ULTIMATE);
    assert_eq!(app.ultimate(), Ultimate::Charging(0));
}

#[test]
fn ultimate_slams_the_player_down_and_shields_it() {
    let mut app = App::new();
    // Fly to the top row, then hover until the bar is full.
    for _ in 0..HEIGHT - 1 {
        app.handle_key_event(keybinds::UP);
        tick(&mut app);
    }
    while !matches!(app.ultimate(), Ultimate::Ready) {
        app.handle_key_event(keybinds::UP);
        app.update_game(10 * MS);
        if app.is_game_over() {
            return; // a falling obstacle ended the run first
        }
    }
    assert_eq!(app.player().y, 0);
    app.handle_key_event(keybinds::ULTIMATE);
    assert_eq!(app.player().y, HEIGHT - 1);
    assert!(matches!(app.ultimate(), Ultimate::Active(_)));
    // The barrier keeps the player on the ground.
    app.handle_key_event(keybinds::UP);
    tick(&mut app);
    assert_eq!(app.player().y, HEIGHT - 1);
    // The barrier is drawn right above the player.
    assert!(app.game_grid()[HEIGHT - 2].iter().all(|&c| c == '='));
}

#[test]
fn spawned_obstacle_falls_and_is_drawn() {
    let mut app = App::new();
    // A long tick lets the spawn timer run over twice.
    app.update_game(400 * MS);
    assert!(app.obstacle_count() >= 1);
    let before = app.obstacle_count();
    app.spawn_obstacle_at(0, Shape::Unit);
    assert_eq!(app.obstacle_count(), before + 1);
    tick(&mut app);
    assert_eq!(app.game_grid()[0][0], OBS_ICON);
}

#[test]
fn running_into_an_obstacle_ends_the_game() {
    let mut app = App::new();
    app.update_game(400 * MS);
    let x = app.player().x;
    app.spawn_obstacle_at(x, Shape::Brick { width: 1, height: 6 });
    let mut ticks = 0;
    while !app.is_game_over() && ticks < 200 {
        app.handle_key_event(keybinds::UP);
        tick(&mut app);
        ticks += 1;
    }
    assert!(app.is_game_over());
    let score = app.get_final_score();
    assert_eq!(score, app.elapsed_time() / 10_000_000);
    // A finished game waits for a restart.
    assert!(!app.frame(None, TICK_RATE) || app.is_game_over());
    app.handle_key_event(keybinds::RESTART);
    assert!(app.frame(None, 0));
    assert!(!app.is_game_over());
    assert_eq!(app.elapsed_time(), 0);
    assert_eq!(app.obstacle_count(), 0);
}

#[test]
fn score_counts_hundredths_of_a_second() {
    let mut app = App::new();
    app.update_game(150 * MS);
    assert_eq!(app.get_final_score(), 15);
}

#[test]
fn frame_waits_for_the_tick_rate() {
    let mut app = App::new();
    assert!(!app.frame(Some(keybinds::LEFT), TICK_RATE - 1));
    assert_eq!(app.player().x, WIDTH / 2);
    assert!(app.frame(None, TICK_RATE));
    assert_eq!(app.player().x, WIDTH / 2 - 1);
    assert_eq!(app.elapsed_time(), TICK_RATE);
}

#[test]
fn default_is_new() {
    let app = App::default();
    assert_eq!(app.player().position(), (WIDTH / 2, HEIGHT - 1));
    assert_eq!(app.elapsed_time(), 0);
}

#[test]
fn dash_there_and_back() {
    let mut app = App::new();
    app.handle_key_event(keybinds::DASH_LEFT);
    tick(&mut app);
    app.handle_key_event(keybinds::DASH_RIGHT);
    tick(&mut app);
    assert_eq!(app.player().position(), (WIDTH / 2, HEIGHT - 1));
}

#[test]
fn long_tick_spawns_once_and_speeds_up() {
    let mut app = App::new();
    app.update_game(1_000 * MS);
    assert_eq!(app.obstacle_count(), 1);
    assert_eq!(app.obs_speed(), 600);
    assert_eq!(app.get_final_score(), 100);
}

#[test]
fn speed_is_capped() {
    let mut app = App::new();
    for _ in 0..200 {
        app.update_game(10_000 * MS);
    }
    assert_eq!(app.obs_speed(), 6467);
}

#[test]
fn spawn_columns_cover_the_top_row() {
    assert_eq!(spawn_columns(), (0, WIDTH));
}

#[test]
fn triangle_spawns_in_the_first_column() {
    let mut app = App::new();
    app.update_game(400 * MS);
    app.spawn_obstacle_at(0, Shape::Triangle);
    tick(&mut app);
    let g = app.game_grid();
    assert_eq!(g[0][0], OBS_ICON);
    assert_eq!(g[1][1], OBS_ICON);
}

#[test]
fn sweeps_pick_obstacles() {
    let o = Obstacle::new(5, 15, 1, Shape::Brick { width: 2, height: 2 });
    assert!(Sweep::Cells(vec![(0, 0), (6, 16)]).picks(&o));
    assert!(!Sweep::Cells(vec![(0, 0), (7, 16)]).picks(&o));
    assert!(!Sweep::Cells(vec![]).picks(&o));
    assert!(Sweep::LowerRows.picks(&o));
    let high = Obstacle::new(5, 0, 1, Shape::Unit);
    assert!(!Sweep::LowerRows.picks(&high));
}
