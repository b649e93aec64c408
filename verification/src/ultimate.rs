//! The ultimate ability: it charges while the player is above the ground and,
//! once ready, can be fired to clear the lower board and shield the player.

use vstd::prelude::*;
use crate::config::{HEIGHT, NANOS_PER_SEC, ULT_DURATION};

verus! {

/// The barrier shows steadily while more than 3 s of the ultimate remain.
pub const START_BLINK: u128 = 3_000_000_000;

/// The barrier is hidden during the last 200 ms.
pub const STOP_BLINK: u128 = 200_000_000;

/// Blink period at full scale.
pub const BLINK_TIME: u128 = 200_000_000;

/// Charging slows down by this factor.
pub const SLOW_CHARGING: u128 = 2;

/// Charge of a full bar, in altitude-nanoseconds: a player held at the top
/// row, `HEIGHT - 1` cells above the ground, fills the bar in
/// `SLOW_CHARGING` seconds.
pub const FULL_CHARGE: u128 = 38_000_000_000;

/// `FULL_CHARGE` is `HEIGHT - 1` rows held for `SLOW_CHARGING` seconds.
pub proof fn lemma_full_charge()
    ensures
        FULL_CHARGE == (HEIGHT - 1) * SLOW_CHARGING * NANOS_PER_SEC,
{
}

/// The ultimate's state machine.
///
/// The charge of a `Charging` ultimate is counted in altitude-nanoseconds:
/// each tick adds the player's altitude times the tick's length. The bar is
/// full, and the ultimate becomes `Ready` on the next tick, once the charge
/// reaches `FULL_CHARGE`; the fraction of the bar shown is
/// `charge / FULL_CHARGE`.
#[derive(Clone, Copy, Debug, PartialEq, Eq, Structural)]
pub enum Ultimate {
    Charging(u128),
    Ready,
    /// Nanoseconds of activity left.
    Active(u128),
}

impl Default for Ultimate {
    fn default() -> (u: Self)
        ensures
            u == Ultimate::Charging(0),
    {
        Ultimate::Charging(0)
    }
}

/// The charge after `dt` nanoseconds at `altitude`; a charge past a full bar
/// counts as a full bar.
pub open spec fn charged(charge: int, altitude: int, dt: int) -> int {
    if charge + altitude * dt >= FULL_CHARGE {
        FULL_CHARGE as int
    } else {
        charge + altitude * dt
    }
}

/// The state after `dt` nanoseconds with the player at `altitude`.
pub open spec fn ultimate_after(u: Ultimate, dt: int, altitude: int) -> Ultimate {
    match u {
        Ultimate::Charging(c) => if c >= FULL_CHARGE {
            Ultimate::Ready
        } else {
            Ultimate::Charging(charged(c as int, altitude, dt) as u128)
        },
        Ultimate::Ready => Ultimate::Ready,
        Ultimate::Active(left) => if left <= dt {
            Ultimate::Charging(0)
        } else {
            Ultimate::Active((left - dt) as u128)
        },
    }
}

/// `left / (BLINK_TIME * (CAP_T + SCALE_T * left / START_BLINK))` rounded
/// down, with `CAP_T = 1/10` and `SCALE_T = 1/2`: the number of blink
/// half-periods that fit in the time left. The period shrinks as the end
/// approaches, so the barrier flickers faster and faster.
pub open spec fn blink_phase(left: int) -> int {
    (20 * START_BLINK * left) / (BLINK_TIME * (2 * START_BLINK + 10 * left))
}

/// Whether the barrier is drawn with `left` nanoseconds of activity left.
pub open spec fn barrier_shown(left: int) -> bool {
    if left > START_BLINK {
        true
    } else if left > STOP_BLINK {
        blink_phase(left) % 2 == 1
    } else {
        false
    }
}

impl Ultimate {
    pub open spec fn is_active_spec(&self) -> bool {
        self is Active
    }

    pub open spec fn barrier_visible_spec(&self) -> bool {
        match *self {
            Ultimate::Active(left) => barrier_shown(left as int),
            _ => false,
        }
    }

    /// The state stays within its bounds.
    pub open spec fn wf(&self) -> bool {
        match *self {
            Ultimate::Charging(c) => c <= FULL_CHARGE,
            Ultimate::Ready => true,
            Ultimate::Active(left) => left <= ULT_DURATION,
        }
    }

    pub fn is_active(&self) -> (r: bool)
        ensures
            r == self.is_active_spec(),
    {
        match self {
            Ultimate::Active(_) => true,
            _ => false,
        }
    }

    /// Charges, or counts down, by `dt` nanoseconds.
    pub fn update(&mut self, dt: u128, altitude: usize)
        ensures
            old(self).wf() ==> final(self).wf(),
            *final(self) == ultimate_after(*old(self), dt as int, altitude as int),
    {
        match *self {
            Ultimate::Charging(c) => {
                if c >= FULL_CHARGE {
                    *self = Ultimate::Ready;
                } else {
                    let room = FULL_CHARGE - c;
                    let next = match (altitude as u128).checked_mul(dt) {
                        Some(gain) => if gain >= room {
                            FULL_CHARGE
                        } else {
                            c + gain
                        },
                        None => {
                            assert(altitude * dt >= room) by (nonlinear_arith)
                                requires
                                    altitude * dt > u128::MAX,
                                    room <= FULL_CHARGE,
                            ;
                            FULL_CHARGE
                        },
                    };
                    *self = Ultimate::Charging(next);
                }
            },
            Ultimate::Ready => {},
            Ultimate::Active(left) => {
                let rest = left.saturating_sub(dt);
                if rest == 0 {
                    *self = Ultimate::Charging(0);
                } else {
                    *self = Ultimate::Active(rest);
                }
            },
        }
    }

    /// Fires a ready ultimate; tells whether it fired.
    pub fn activate(&mut self) -> (fired: bool)
        ensures
            fired == (*old(self) is Ready),
            fired ==> *final(self) == Ultimate::Active(ULT_DURATION),
            !fired ==> *final(self) == *old(self),
    {
        match self {
            Ultimate::Ready => {
                *self = Ultimate::Active(ULT_DURATION);
                true
            },
            _ => false,
        }
    }

    /// Whether the barrier above the player is drawn: steadily at first, then
    /// blinking ever faster, and not at all in the last moments.
    pub fn barrier_visible(&self) -> (r: bool)
        ensures
            r == self.barrier_visible_spec(),
    {
        match *self {
            Ultimate::Active(left) => {
                if left > START_BLINK {
                    true
                } else if left > STOP_BLINK {
                    assert(20 * START_BLINK * left <= 20 * START_BLINK * START_BLINK)
                        by (nonlinear_arith)
                        requires
                            left <= START_BLINK,
                    ;
                    let phase = (20 * START_BLINK * left) / (BLINK_TIME * (2 * START_BLINK + 10
                        * left));
                    phase % 2 == 1
                } else {
                    false
                }
            },
            _ => false,
        }
    }
}

} // verus!
