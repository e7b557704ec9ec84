use vstd::prelude::*;
use rand::Rng;
use crate::game::{bot_turn_taken, Game, CHANCE_MAX, CHANCE_MIN};

verus! {

/// Relies on rand's `thread_rng` and `Rng::gen_range` on an inclusive range:
/// the value drawn lies within the bounds (the range is never empty here).
#[verifier::external_body]
fn draw_between(lo: i64, hi: i64) -> (r: i64)
    requires
        lo <= hi,
    ensures
        lo <= r <= hi,
{
    rand::thread_rng().gen_range(lo..=hi)
}

/// Sides of the die.
pub const DIE_SIDES: i64 = 6;

/// A fair die roll.
pub fn roll_die() -> (r: u64)
    ensures
        1 <= r <= DIE_SIDES,
{
    draw_between(1, DIE_SIDES) as u64
}

/// A chance tile's cash change.
pub fn chance_delta() -> (r: i64)
    ensures
        CHANCE_MIN <= r <= CHANCE_MAX,
{
    draw_between(CHANCE_MIN, CHANCE_MAX)
}

impl Game {
    /// One tick of automated play with a fresh die roll and chance draw.
    pub fn play_bot_turn(&mut self)
        requires
            old(self).wf(),
            old(self).fits(),
        ensures
            final(self).wf(),
            exists|roll: int, delta: int|
                1 <= roll <= DIE_SIDES && CHANCE_MIN <= delta <= CHANCE_MAX && #[trigger] bot_turn_taken(
                    *old(self),
                    *final(self),
                    roll,
                    delta,
                ),
    {
        let roll = roll_die();
        let delta = chance_delta();
        self.bot_turn(roll, delta);
    }
}

} // verus!
