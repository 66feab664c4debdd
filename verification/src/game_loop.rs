//! The timers of a game: an update timer and a spawn timer, started together.
//!
//! Each start of the loop begins a new generation and hands its number to the
//! timers it starts; a timer goes on only while its generation is the current
//! one and the game is not over. So a restart retires the timers of earlier
//! starts, and at most one update timer and one spawn timer keep working.
use vstd::prelude::*;

verus! {

/// The generation after `g` (wrapping around after the largest `u64`).
pub open spec fn next_generation(g: u64) -> u64 {
    if g == u64::MAX {
        0
    } else {
        (g + 1) as u64
    }
}

/// Whether the game loop is running, and the generation of its timers.
#[derive(Clone, Copy, Debug, PartialEq, Eq, Structural)]
pub struct GameLoop {
    pub running: bool,
    pub generation: u64,
}

impl GameLoop {
    /// A timer of generation `generation` goes on: it belongs to the current
    /// start of the loop and the game is not over.
    pub open spec fn timer_goes_on(self, game_over: bool, generation: u64) -> bool {
        generation == self.generation && !game_over
    }

    /// A loop that was never started.
    pub fn new() -> (l: Self)
        ensures
            !l.running,
            l.generation == 0,
    {
        GameLoop { running: false, generation: 0 }
    }

    /// Starts the loop unless it is running: then a new generation begins and
    /// its number is returned, for the timers to be started with. When the
    /// loop is running already, nothing changes and nothing is to be started.
    pub fn start(&mut self) -> (started: Option<u64>)
        ensures
            final(self).running,
            old(self).running ==> started is None && *final(self) == *old(self),
            !old(self).running ==> final(self).generation == next_generation(old(self).generation)
                && started == Some(final(self).generation),
    {
        if self.running {
            return None;
        }
        self.generation = if self.generation == u64::MAX {
            0
        } else {
            self.generation + 1
        };
        self.running = true;
        Some(self.generation)
    }

    /// Decision of an update timer of generation `generation` before its
    /// tick. A timer of an earlier start stops. A current timer stops once the
    /// game is over, and the loop is then no longer running.
    pub fn update_timer_continues(&mut self, game_over: bool, generation: u64) -> (go_on: bool)
        ensures
            go_on == old(self).timer_goes_on(game_over, generation),
            final(self).generation == old(self).generation,
            final(self).running == if generation == old(self).generation && game_over {
                false
            } else {
                old(self).running
            },
    {
        if generation != self.generation {
            return false;
        }
        if game_over {
            self.running = false;
            return false;
        }
        true
    }

    /// Decision of a spawn timer of generation `generation` before its tick:
    /// it goes on only while it is current and the game is not over.
    pub fn spawn_timer_continues(&self, game_over: bool, generation: u64) -> (go_on: bool)
        ensures
            go_on == self.timer_goes_on(game_over, generation),
    {
        generation == self.generation && !game_over
    }
}

/// Timers of two different generations never both go on: at any moment at
/// most one update timer and one spawn timer keep working.
pub proof fn law_one_live_generation(l: GameLoop, game_over: bool, a: u64, b: u64)
    requires
        a != b,
    ensures
        !(l.timer_goes_on(game_over, a) && l.timer_goes_on(game_over, b)),
{
}

/// A start of the loop retires every timer started before it: the new
/// generation differs from the one before.
pub proof fn law_start_retires_old_timers(l: GameLoop, game_over: bool)
    ensures
        next_generation(l.generation) != l.generation,
        !(GameLoop { running: true, generation: next_generation(l.generation) }).timer_goes_on(
            game_over,
            l.generation,
        ),
{
}

} // verus!
