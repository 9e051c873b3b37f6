//! State that belongs to the game as a whole: the economy and the wave clock.

use vstd::prelude::*;
use bevy::time::{Timer, TimerMode};
use std::time::Duration;

verus! {

/// Lives of the player when the game starts.
pub const STARTING_HEALTH: i32 = 20;

/// Money of the player when the game starts.
pub const STARTING_MONEY: i32 = 100;

/// Milliseconds between two waves.
pub const WAVE_PERIOD: u32 = 2000;

/// The economy: what the player has left, has scored and can spend.
#[derive(Clone, Copy, Debug, PartialEq, Eq, Structural)]
pub struct GameState {
    /// Lives left. Each enemy that reaches the end of the route takes one;
    /// nothing stops the count at zero.
    pub player_health: i32,
    /// Points scored.
    pub score: i32,
    /// Money to spend on towers.
    pub money: i32,
}

impl Default for GameState {
    /// The economy at the start of a game.
    fn default() -> (state: GameState)
        ensures
            state == (GameState {
                player_health: STARTING_HEALTH,
                score: 0,
                money: STARTING_MONEY,
            }),
    {
        GameState { player_health: STARTING_HEALTH, score: 0, money: STARTING_MONEY }
    }
}

/// Runs `bevy::time::Timer::tick` once on a repeating timer of `duration`
/// milliseconds that has `elapsed` of them behind it, and gives back what
/// the timer then holds: the milliseconds elapsed and `just_finished()`.
///
/// The claim, from the timer's source: a repeating timer that is not paused
/// adds the delta to its elapsed time; where the sum reaches the duration it
/// has just finished and keeps the remainder of the sum by the duration;
/// where not, it has not finished and keeps the sum. With less than a whole
/// period elapsed before, the number of periods finished in one tick fits
/// the timer's 32-bit counter, so the counter is zero only if none finished.
#[verifier::external_body]
fn tick_repeating(duration: u32, elapsed: u32, delta: u32) -> (after: (u32, bool))
    requires
        elapsed < duration,
    ensures
        after.0 == (elapsed + delta) % (duration as int),
        after.1 == (elapsed + delta >= duration),
{
    let mut timer = Timer::new(Duration::from_millis(duration as u64), TimerMode::Repeating);
    timer.set_elapsed(Duration::from_millis(elapsed as u64));
    timer.tick(Duration::from_millis(delta as u64));
    (timer.elapsed().as_millis() as u32, timer.just_finished())
}

/// The clock that sends the waves: it counts up to its period, again and
/// again.
#[derive(Clone, Copy, Debug)]
pub struct WaveTimer {
    duration: u32,
    elapsed: u32,
    finished: bool,
}

impl WaveTimer {
    #[verifier::type_invariant]
    spec fn well_formed(&self) -> bool {
        self.elapsed < self.duration
    }

    /// The period, in milliseconds.
    pub closed spec fn spec_duration(&self) -> u32 {
        self.duration
    }

    /// Milliseconds into the current period.
    pub closed spec fn spec_elapsed(&self) -> u32 {
        self.elapsed
    }

    /// Whether a period ended in the last tick.
    pub closed spec fn spec_just_finished(&self) -> bool {
        self.finished
    }

    /// `after` is this clock `delta` milliseconds later. A period has just
    /// ended if the time into the period and the delta together reach the
    /// period; what goes beyond whole periods is carried into the next one.
    pub open spec fn ticked(&self, after: &WaveTimer, delta: int) -> bool {
        let sum = self.spec_elapsed() + delta;
        let period = self.spec_duration() as int;
        &&& after.spec_duration() == period
        &&& after.spec_just_finished() == (sum >= period)
        &&& after.spec_elapsed() == sum % period
        &&& sum < period ==> after.spec_elapsed() == sum
        &&& period <= sum < 2 * period ==> after.spec_elapsed() == sum - period
    }

    /// A clock with the given period that has not run yet, or nothing for a
    /// period of zero.
    pub fn new(duration: u32) -> (timer: Option<WaveTimer>)
        ensures
            timer is Some <==> duration > 0,
            timer matches Some(t) ==> t.spec_duration() == duration && t.spec_elapsed() == 0
                && !t.spec_just_finished(),
    {
        if duration == 0 {
            None
        } else {
            Some(WaveTimer { duration, elapsed: 0, finished: false })
        }
    }

    /// The period, in milliseconds.
    #[verifier::when_used_as_spec(spec_duration)]
    pub fn duration(&self) -> (d: u32)
        ensures
            d == self.spec_duration(),
            d > 0,
    {
        proof {
            use_type_invariant(self);
        }
        self.duration
    }

    /// Milliseconds into the current period.
    #[verifier::when_used_as_spec(spec_elapsed)]
    pub fn elapsed(&self) -> (e: u32)
        ensures
            e == self.spec_elapsed(),
            e < self.spec_duration(),
    {
        proof {
            use_type_invariant(self);
        }
        self.elapsed
    }

    /// Whether a period ended in the last tick.
    #[verifier::when_used_as_spec(spec_just_finished)]
    pub fn just_finished(&self) -> (f: bool)
        ensures
            f == self.spec_just_finished(),
    {
        self.finished
    }

    /// Whether a period ended in the last tick. A repeating clock is finished
    /// exactly in the tick in which it has just finished.
    pub fn finished(&self) -> (f: bool)
        ensures
            f == self.spec_just_finished(),
    {
        self.finished
    }

    /// Lets `delta` milliseconds pass: see `ticked`.
    pub fn tick(&mut self, delta: u32)
        ensures
            old(self).ticked(final(self), delta as int),
    {
        proof {
            use_type_invariant(&*self);
        }
        let ghost sum = self.elapsed + delta;
        let ghost period = self.duration as int;
        let (elapsed, finished) = tick_repeating(self.duration, self.elapsed, delta);
        proof {
            if sum < period {
                assert(sum % period == sum) by (nonlinear_arith)
                    requires
                        0 <= sum < period,
                ;
            } else if sum < 2 * period {
                assert(sum % period == sum - period) by (nonlinear_arith)
                    requires
                        0 < period <= sum < 2 * period,
                ;
            }
        }
        self.elapsed = elapsed;
        self.finished = finished;
    }
}

impl Default for WaveTimer {
    /// The clock of the game: a wave every two seconds.
    fn default() -> (timer: WaveTimer)
        ensures
            timer.spec_duration() == WAVE_PERIOD,
            timer.spec_elapsed() == 0,
            !timer.spec_just_finished(),
    {
        WaveTimer { duration: WAVE_PERIOD, elapsed: 0, finished: false }
    }
}

} // verus!
