use vstd::prelude::*;

use crate::game::Game;
use crate::state::Stats;

verus! {

/// One run of bot growth toward the world's mass.
#[derive(Clone, Copy, Debug, PartialEq, Eq, Structural)]
pub struct Trial {
    /// Fixed-point mass of all bots.
    pub bot_mass: u128,
    pub start_ts: i64,
    pub last_update_ts: i64,
}

/// Where a trial stands.
#[derive(Clone, Copy, Debug, PartialEq, Eq, Structural)]
pub enum TrialStatus {
    InProgress(u128),
    Success,
    Failure,
}

/// The status of trial `t` in a world of mass `world_mass`.
pub open spec fn status_of(t: Trial, world_mass: u128) -> TrialStatus {
    if t.bot_mass >= world_mass {
        TrialStatus::Success
    } else if t.bot_mass == 0 {
        TrialStatus::Failure
    } else {
        TrialStatus::InProgress(t.bot_mass)
    }
}

/// The gain at `rate` per period of `tau` seconds that accrues from `from` to
/// `to` in a trial that started at `start`: the gain to `to` less the gain to
/// `from`, each rounded down, so that gains over consecutive intervals add up.
pub open spec fn gain_between(rate: int, start: int, from: int, to: int, tau: int) -> int {
    rate * (to - start) / tau - rate * (from - start) / tau
}

/// `x` held to at most `cap`.
pub open spec fn capped(x: int, cap: int) -> int {
    if x > cap {
        cap
    } else {
        x
    }
}

/// The gain at `rate` per period from `from` to `to` (see `gain_between`).
pub fn gain_between_of(rate: u64, start: i64, from: i64, to: i64, tau: u64) -> (g: u128)
    requires
        start <= from <= to,
        tau > 0,
    ensures
        g == gain_between(rate as int, start as int, from as int, to as int, tau as int),
{
    let a: u128 = (to as i128 - start as i128) as u128;
    let b: u128 = (from as i128 - start as i128) as u128;
    proof {
        assert(rate * a <= u64::MAX * u64::MAX) by (nonlinear_arith)
            requires rate <= u64::MAX, a <= u64::MAX;
        assert(rate * b <= rate * a) by (nonlinear_arith)
            requires b <= a;
        vstd::arithmetic::div_mod::lemma_div_is_ordered((rate * b) as int, (rate * a) as int, tau as int);
    }
    let ga: u128 = (rate as u128) * a / (tau as u128);
    let gb: u128 = (rate as u128) * b / (tau as u128);
    ga - gb
}

impl Trial {
    /// A trial that starts at `now` with the initial mass that `stats` give.
    pub fn new(stats: Stats, now: i64) -> (r: Trial)
        ensures
            r.bot_mass == stats.initial_bot_mass,
            r.start_ts == now,
            r.last_update_ts == now,
    {
        Trial { bot_mass: stats.initial_bot_mass, start_ts: now, last_update_ts: now }
    }

    /// Success once the bots weigh as much as the world, failure once none
    /// are left, otherwise in progress with the current mass.
    pub fn get_status(&self, game: &Game) -> (r: TrialStatus)
        ensures
            r == status_of(*self, game.world_mass),
    {
        if self.bot_mass >= game.world_mass {
            TrialStatus::Success
        } else if self.bot_mass == 0 {
            TrialStatus::Failure
        } else {
            TrialStatus::InProgress(self.bot_mass)
        }
    }

    /// Seconds from the trial's start to `now`.
    pub fn get_current_time_progress(&self, now: i64) -> (r: i128)
        ensures
            r == now - self.start_ts,
    {
        now as i128 - self.start_ts as i128
    }
}

} // verus!
