//! Board size, icons, timings and spawn tables.
//!
//! Every duration is a count of nanoseconds held in a `u128`, and every speed
//! is a count of hundredths of a cell per second.

use vstd::prelude::*;
use crate::obstacle::Shape;

pub mod keybinds;

verus! {

pub const WIDTH: usize = 50;

pub const HEIGHT: usize = 20;

/// The board, indexed as `grid[y][x]`.
pub type GameGrid = [[char; WIDTH]; HEIGHT];

/// One update of the game every 15 ms (about 66.67 frames per second).
pub const TICK_RATE: u128 = 15_000_000;

pub const BG_ICON: char = '.';

pub const PLAYER_ICON: char = '@';

pub const OBS_ICON: char = '■';

pub const BARRIER_ICON: char = '=';

pub const DASH_LENGTH: usize = 9;

/// Number of fade stages of a dash trail.
pub const DASH_ICONS_LEN: usize = 4;

/// Time a dash trail cell spends in one fade stage.
pub const DASH_EFFECT_CHANGE: u128 = 100_000_000;

/// How long the ultimate stays active.
pub const ULT_DURATION: u128 = 5_000_000_000;

/// Rows at or below this are swept when the ultimate fires.
pub const ULT_DESTROY_FROM_ROW: usize = 14;

pub const ULT_BAR_WIDTH: usize = 20;

/// A new obstacle appears every 200 ms.
pub const SPAWN_AFTER_MS: u128 = 200_000_000;

/// Initial fall speed: 5 cells per second.
pub const INIT_SPEED: u64 = 500;

/// Each speedup adds one cell per second.
pub const INCREASE_SPEED_BY: u64 = 100;

/// The first speedup comes after one second.
pub const INIT_SPEEDUP_AFTER: u128 = 1_000_000_000;

/// Each speedup waits 100 ms longer than the one before.
pub const SLOW_SPEEDUP: u128 = 100_000_000;

/// The fall speed never exceeds 64.67 cells per second.
pub const MAX_SPEED: u64 = 6467;

/// The largest value a `std::time::Duration` holds, in nanoseconds.
pub const MAX_DURATION: u128 = 18_446_744_073_709_551_615_999_999_999;

/// Nanoseconds in one second.
pub const NANOS_PER_SEC: u128 = 1_000_000_000;

/// How the constants above derive from one another.
pub proof fn lemma_constants()
    ensures
        ULT_DESTROY_FROM_ROW == HEIGHT - HEIGHT / 3,
        MAX_DURATION == u64::MAX * NANOS_PER_SEC + (NANOS_PER_SEC - 1),
        DASH_LENGTH / DASH_ICONS_LEN >= 1,
{
}

/// The icon of fade stage `idx` of a dash trail, from the newest to the oldest.
pub open spec fn dash_icon_spec(idx: int) -> char {
    if idx == 0 {
        '█'
    } else if idx == 1 {
        '▓'
    } else if idx == 2 {
        '▒'
    } else {
        '░'
    }
}

pub fn dash_icon(idx: usize) -> (c: char)
    requires
        idx < DASH_ICONS_LEN,
    ensures
        c == dash_icon_spec(idx as int),
{
    match idx {
        0 => '█',
        1 => '▓',
        2 => '▒',
        _ => '░',
    }
}

/// The shapes that spawn, each with its relative weight.
pub open spec fn spawn_table() -> Seq<(Shape, u32)> {
    seq![
        (Shape::Unit, 45u32),
        (Shape::Triangle, 10u32),
        (Shape::Brick { width: 5, height: 2 }, 25u32),
        (Shape::Brick { width: 2, height: 6 }, 10u32),
        (Shape::Brick { width: 10, height: 3 }, 10u32),
    ]
}

pub fn spawn_shapes() -> (t: [(Shape, u32); 5])
    ensures
        t@ == spawn_table(),
{
    let t = [
        (Shape::Unit, 45u32),
        (Shape::Triangle, 10u32),
        (Shape::Brick { width: 5, height: 2 }, 25u32),
        (Shape::Brick { width: 2, height: 6 }, 10u32),
        (Shape::Brick { width: 10, height: 3 }, 10u32),
    ];
    assert(t@ =~= spawn_table());
    t
}

pub open spec fn in_grid(x: int, y: int) -> bool {
    0 <= x < WIDTH && 0 <= y < HEIGHT
}

} // verus!
