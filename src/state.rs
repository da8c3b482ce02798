use vstd::prelude::*;

use crate::duration::{time_cost_seconds, TimeCostError};
use crate::effect::Effect;
use crate::fixed_point::{mul_mass, mul_mass_spec, mul_rate, mul_rate_spec, ONE};
use crate::game::{find_entry, keys_of, position_of, Game};
use crate::modifier::{chosen_effect, Modifier};
use crate::text::same_text;
use crate::trial::{capped, gain_between, gain_between_of, Trial};

verus! {

/// The growth statistics that the active modifiers give, in fixed point.
#[derive(Clone, Copy, Debug, PartialEq, Eq, Structural)]
pub struct Stats {
    pub initial_bot_mass: u128,
    pub growth_rate: u64,
    pub death_rate: u64,
    pub unease_gain: u64,
    pub inspiration_gain: u64,
}

/// The unease and inspiration gained per period before any modifier: 0.01.
pub const BASE_GAIN: u64 = 10_000;

/// The statistics before any modifier.
pub open spec fn base_stats() -> Stats {
    Stats {
        initial_bot_mass: ONE as u128,
        growth_rate: ONE,
        death_rate: ONE,
        unease_gain: BASE_GAIN,
        inspiration_gain: BASE_GAIN,
    }
}

/// `s` with every statistic scaled by the matching factor of `e`.
pub open spec fn apply_effect(s: Stats, e: Effect) -> Stats {
    Stats {
        initial_bot_mass: mul_mass_spec(s.initial_bot_mass as int, e.initial_mass_mult as int) as u128,
        growth_rate: mul_rate_spec(s.growth_rate as int, e.growth_rate_mult as int) as u64,
        death_rate: mul_rate_spec(s.death_rate as int, e.death_rate_mult as int) as u64,
        unease_gain: mul_rate_spec(s.unease_gain as int, e.unease_gain_mult as int) as u64,
        inspiration_gain: mul_rate_spec(s.inspiration_gain as int, e.inspiration_gain_mult as int) as u64,
    }
}

/// The statistics after the first `k` active modifiers of `v` have applied
/// their chosen effects, once for each distinct id; ids missing from the
/// catalog, and repeats of an earlier id, are passed over.
pub open spec fn stats_after(game: Game, v: StateView, k: int) -> Stats
    decreases k,
{
    if k <= 0 {
        base_stats()
    } else {
        let s = stats_after(game, v, k - 1);
        if v.active.subrange(0, k - 1).contains(v.active[k - 1]) {
            s
        } else {
            match position_of(keys_of(game.modifiers@), v.active[k - 1]) {
            None => s,
            Some(m) => {
                let effects = game.modifiers@[m].1.effects@;
                match chosen_effect(effects, v) {
                    None => s,
                    Some(e) => apply_effect(s, effects[e].1),
                }
            },
            }
        }
    }
}

/// The statistics of a world in state `v`.
pub open spec fn stats_of(game: Game, v: StateView) -> Stats {
    stats_after(game, v, v.active.len() as int)
}

/// The most population unease there can be: 100.
pub const UNEASE_CAP: u64 = 100_000_000;

/// Seconds from one scheduled event of a trial to the next.
pub const EVENT_INTERVAL: i64 = 1_000_000;

/// The label of the scheduled event.
pub open spec fn event_label() -> Seq<char> {
    "foo"@
}

/// Whether a trial's timestamps are in order.
pub open spec fn trial_ok(t: Option<Trial>) -> bool {
    t matches Some(t) ==> t.start_ts <= t.last_update_ts
}

/// `v` with its trial run on to `until`, its bots' mass scaled by
/// `growth` (fixed point), the trial's growth factor over the interval.
/// Unease (up to its cap) and inspiration grow linearly with time, at their
/// gain per period of the catalog's `tau` seconds, under the statistics of
/// `v`. Without a trial nothing changes.
pub open spec fn advanced(game: Game, v: StateView, until: i64, growth: u64) -> StateView {
    match v.trial {
        None => v,
        Some(t) => {
            let s = stats_of(game, v);
            let tau = game.tau as int;
            let from = t.last_update_ts as int;
            let start = t.start_ts as int;
            StateView {
                active: v.active,
                in_progress: v.in_progress,
                trial: Some(
                    Trial {
                        bot_mass: mul_mass_spec(t.bot_mass as int, growth as int) as u128,
                        start_ts: t.start_ts,
                        last_update_ts: until,
                    },
                ),
                unease: capped(
                    v.unease + gain_between(s.unease_gain as int, start, from, until as int, tau),
                    UNEASE_CAP as int,
                ) as u64,
                inspiration: capped(
                    v.inspiration + gain_between(s.inspiration_gain as int, start, from, until as int, tau),
                    u128::MAX as int,
                ) as u128,
            }
        },
    }
}

/// The next step of bringing a trial up to a given time.
#[derive(Clone, Copy, Debug, PartialEq, Eq, Structural)]
pub enum TrialStep {
    /// Run the trial on to `until`; where `event` holds, the scheduled event
    /// fires there.
    Advance { until: i64, event: bool },
    /// The trial, if any, is up to date.
    Done,
}

/// The next step of bringing the trial of `v` up to `now`: on to the next
/// scheduled event while that lies before `now`, then on to `now`.
pub open spec fn trial_step(v: StateView, now: i64) -> TrialStep {
    match v.trial {
        None => TrialStep::Done,
        Some(t) => {
            if t.last_update_ts + EVENT_INTERVAL < now {
                TrialStep::Advance { until: (t.last_update_ts + EVENT_INTERVAL) as i64, event: true }
            } else if t.last_update_ts < now {
                TrialStep::Advance { until: now, event: false }
            } else {
                TrialStep::Done
            }
        },
    }
}

/// How far the trial of `v` is behind `now`.
pub open spec fn lag(v: StateView, now: int) -> int {
    match v.trial {
        Some(t) => if now > t.last_update_ts { now - t.last_update_ts } else { 0 },
        None => 0,
    }
}

/// `v` with its trial brought up to `now` by its steps, and the number of
/// scheduled events that fired on the way, where `growth` gives the growth
/// factor for a step from a state to an instant.
pub open spec fn trial_caught_up(
    game: Game,
    v: StateView,
    now: i64,
    growth: spec_fn(StateView, i64) -> u64,
) -> (StateView, nat)
    decreases lag(v, now as int),
{
    match trial_step(v, now) {
        TrialStep::Done => (v, 0),
        TrialStep::Advance { until, event } => {
            let (w, n) = trial_caught_up(game, advanced(game, v, until, growth(v, until)), now, growth);
            (w, if event { n + 1 } else { n })
        },
    }
}

/// The ids of the research entries that are done by `now`, in order.
pub open spec fn finished(ip: Seq<(Seq<char>, i64)>, now: i64) -> Seq<Seq<char>>
    decreases ip.len(),
{
    if ip.len() == 0 {
        Seq::empty()
    } else {
        let r = finished(ip.drop_last(), now);
        if ip.last().1 <= now {
            r.push(ip.last().0)
        } else {
            r
        }
    }
}

/// The research entries still under way at `now`, in order.
pub open spec fn unfinished(ip: Seq<(Seq<char>, i64)>, now: i64) -> Seq<(Seq<char>, i64)>
    decreases ip.len(),
{
    if ip.len() == 0 {
        Seq::empty()
    } else {
        let r = unfinished(ip.drop_last(), now);
        if ip.last().1 <= now {
            r
        } else {
            r.push(ip.last())
        }
    }
}

/// `v` with the research done by `now` moved into the active modifiers.
pub open spec fn research_caught_up(v: StateView, now: i64) -> StateView {
    StateView {
        active: v.active + finished(v.in_progress, now),
        in_progress: unfinished(v.in_progress, now),
        trial: v.trial,
        unease: v.unease,
        inspiration: v.inspiration,
    }
}

/// `v` brought up to `now`: research first, then the trial; with the number
/// of scheduled events that fired.
pub open spec fn caught_up(
    game: Game,
    v: StateView,
    now: i64,
    growth: spec_fn(StateView, i64) -> u64,
) -> (StateView, nat) {
    trial_caught_up(game, research_caught_up(v, now), now, growth)
}

/// Whether every modifier that locks `m` is active.
pub open spec fn unlocked(m: Modifier, active: Seq<Seq<char>>) -> bool {
    forall|j: int| 0 <= j < m.locked_by@.len() ==> active.contains(#[trigger] m.locked_by@[j]@)
}

/// The ids, in catalog order, of the first `k` modifiers that are unlocked.
pub open spec fn potential_ids(mods: Seq<(String, Modifier)>, active: Seq<Seq<char>>, k: int) -> Seq<Seq<char>>
    decreases k,
{
    if k <= 0 {
        Seq::empty()
    } else {
        let r = potential_ids(mods, active, k - 1);
        if unlocked(mods[k - 1].1, active) {
            r.push(mods[k - 1].0@)
        } else {
            r
        }
    }
}

/// Whether research into `name` is under way.
pub open spec fn researching(ip: Seq<(Seq<char>, i64)>, name: Seq<char>) -> bool {
    exists|i: int| 0 <= i < ip.len() && (#[trigger] ip[i]).0 == name
}

/// What came of asking for research.
#[derive(Clone, Copy, Debug, PartialEq, Eq, Structural)]
pub enum ResearchOutcome {
    /// Research began and completes at this timestamp.
    Started(i64),
    UnknownModifier,
    AlreadyActive,
    AlreadyInProgress,
    /// Some modifier that locks it is not active.
    Locked,
}

/// What asking at `now` for research into `name` gives.
pub open spec fn research_result(game: Game, v: StateView, name: Seq<char>, now: i64) -> Result<ResearchOutcome, TimeCostError> {
    match position_of(keys_of(game.modifiers@), name) {
        None => Ok(ResearchOutcome::UnknownModifier),
        Some(m) => {
            let modifier = game.modifiers@[m].1;
            if v.active.contains(name) {
                Ok(ResearchOutcome::AlreadyActive)
            } else if researching(v.in_progress, name) {
                Ok(ResearchOutcome::AlreadyInProgress)
            } else if !unlocked(modifier, v.active) {
                Ok(ResearchOutcome::Locked)
            } else {
                match time_cost_seconds(modifier.time_cost@) {
                    Err(e) => Err(e),
                    Ok(c) => if now + c > i64::MAX {
                        Err(TimeCostError::OutOfRange)
                    } else {
                        Ok(ResearchOutcome::Started((now + c) as i64))
                    },
                }
            }
        },
    }
}

/// `v` after asking at `now` for research into `name`: an entry is added
/// exactly when research starts.
pub open spec fn after_research(game: Game, v: StateView, name: Seq<char>, now: i64) -> StateView {
    match research_result(game, v, name, now) {
        Ok(ResearchOutcome::Started(end)) => StateView { in_progress: v.in_progress.push((name, end)), ..v },
        _ => v,
    }
}

/// Why a trial could not be started or stopped.
#[derive(Clone, Copy, Debug, PartialEq, Eq, Structural)]
pub enum TrialError {
    AlreadyInProgress,
    NoTrial,
}

/// The trial that starting one at `now` in state `v` gives.
pub open spec fn fresh_trial(game: Game, v: StateView, now: i64) -> Trial {
    Trial { bot_mass: stats_of(game, v).initial_bot_mass, start_ts: now, last_update_ts: now }
}

/// The persistent world: modifiers, research under way, the trial if one
/// runs, and the two accumulators (fixed point), over a fixed catalog.
pub struct State {
    pub active_modifiers: Vec<String>,
    pub modifiers_in_progress: Vec<(String, i64)>,
    pub trial_in_progress: Option<Trial>,
    pub population_unease: u64,
    pub scientific_inspiration: u128,
    pub game: Game,
}

/// What a world holds apart from its catalog.
pub struct StateView {
    pub active: Seq<Seq<char>>,
    pub in_progress: Seq<(Seq<char>, i64)>,
    pub trial: Option<Trial>,
    pub unease: u64,
    pub inspiration: u128,
}

/// The texts of a list of strings.
pub open spec fn texts(v: Seq<String>) -> Seq<Seq<char>> {
    v.map_values(|s: String| s@)
}

/// Research entries with their ids as texts.
pub open spec fn research_view(v: Seq<(String, i64)>) -> Seq<(Seq<char>, i64)> {
    v.map_values(|e: (String, i64)| (e.0@, e.1))
}

impl View for State {
    type V = StateView;

    open spec fn view(&self) -> StateView {
        StateView {
            active: texts(self.active_modifiers@),
            in_progress: research_view(self.modifiers_in_progress@),
            trial: self.trial_in_progress,
            unease: self.population_unease,
            inspiration: self.scientific_inspiration,
        }
    }
}

impl State {
    /// The well-formed worlds: a catalog with a positive period and a trial,
    /// if any, updated no earlier than it started.
    pub open spec fn wf(&self) -> bool {
        self.game.wf() && trial_ok(self.trial_in_progress)
    }

    /// Moves the research that is done by `now` into the active modifiers.
    pub fn update_modifiers_in_progress(&mut self, now: i64)
        ensures
            final(self).game == old(self).game,
            final(self).trial_in_progress == old(self).trial_in_progress,
            final(self)@ == research_caught_up(old(self)@, now),
    {
        let ghost ip = self@.in_progress;
        let ghost active = self@.active;
        let mut remaining: Vec<(String, i64)> = Vec::new();
        let mut i: usize = 0;
        while i < self.modifiers_in_progress.len()
            invariant
                ip == research_view(self.modifiers_in_progress@),
                self.modifiers_in_progress == old(self).modifiers_in_progress,
                self.game == old(self).game,
                self.trial_in_progress == old(self).trial_in_progress,
                self.population_unease == old(self).population_unease,
                self.scientific_inspiration == old(self).scientific_inspiration,
                i <= ip.len(),
                self@.active == active + finished(ip.subrange(0, i as int), now),
                research_view(remaining@) == unfinished(ip.subrange(0, i as int), now),
            decreases ip.len() - i,
        {
            let ghost before = self.active_modifiers@;
            let ts = self.modifiers_in_progress[i].1;
            let name = self.modifiers_in_progress[i].0.clone();
            proof {
                assert(ip.subrange(0, i + 1).drop_last() =~= ip.subrange(0, i as int));
            }
            if ts <= now {
                self.active_modifiers.push(name);
                proof {
                    assert(texts(self.active_modifiers@) =~= texts(before).push(name@));
                }
            } else {
                let ghost rb = remaining@;
                remaining.push((name, ts));
                proof {
                    assert(research_view(remaining@) =~= research_view(rb).push((name@, ts)));
                }
            }
            i = i + 1;
        }
        proof {
            assert(ip.subrange(0, ip.len() as int) =~= ip);
        }
        self.modifiers_in_progress = remaining;
    }

    /// Whether every modifier that locks `m` is active.
    pub fn is_unlocked(&self, m: &Modifier) -> (r: bool)
        ensures
            r == unlocked(*m, self@.active),
    {
        let mut j: usize = 0;
        while j < m.locked_by.len()
            invariant
                j <= m.locked_by@.len(),
                forall|k: int| 0 <= k < j ==> self@.active.contains(#[trigger] m.locked_by@[k]@),
            decreases m.locked_by@.len() - j,
        {
            if !self.is_active(m.locked_by[j].as_str()) {
                return false;
            }
            j = j + 1;
        }
        true
    }

    /// Whether research into `name` is under way.
    pub fn is_researching(&self, name: &str) -> (r: bool)
        ensures
            r == researching(self@.in_progress, name@),
    {
        let mut i: usize = 0;
        while i < self.modifiers_in_progress.len()
            invariant
                i <= self.modifiers_in_progress@.len(),
                forall|k: int| 0 <= k < i ==> (#[trigger] self@.in_progress[k]).0 != name@,
            decreases self.modifiers_in_progress@.len() - i,
        {
            if same_text(self.modifiers_in_progress[i].0.as_str(), name) {
                assert(self@.in_progress[i as int].0 == name@);
                return true;
            }
            i = i + 1;
        }
        false
    }

    /// The ids, in catalog order, of the modifiers whose locking modifiers
    /// are all active.
    pub fn get_potential_modifiers(&self) -> (r: Vec<String>)
        ensures
            texts(r@) == potential_ids(self.game.modifiers@, self@.active, self.game.modifiers@.len() as int),
    {
        let mut r: Vec<String> = Vec::new();
        let mut i: usize = 0;
        while i < self.game.modifiers.len()
            invariant
                i <= self.game.modifiers@.len(),
                texts(r@) == potential_ids(self.game.modifiers@, self@.active, i as int),
            decreases self.game.modifiers@.len() - i,
        {
            if self.is_unlocked(&self.game.modifiers[i].1) {
                let ghost before = r@;
                r.push(self.game.modifiers[i].0.clone());
                proof {
                    assert(texts(r@) =~= texts(before).push(self.game.modifiers@[i as int].0@));
                }
            }
            i = i + 1;
        }
        r
    }

    /// Starts research at `now` into the modifier `name` where it is known,
    /// not active, not already under way, and unlocked; it completes once the
    /// modifier's time cost has passed.
    pub fn try_research_modifier(&mut self, name: &str, now: i64) -> (r: Result<ResearchOutcome, TimeCostError>)
        ensures
            final(self).game == old(self).game,
            final(self).trial_in_progress == old(self).trial_in_progress,
            r == research_result(old(self).game, old(self)@, name@, now),
            final(self)@ == after_research(old(self).game, old(self)@, name@, now),
    {
        let m = match find_entry(&self.game.modifiers, name) {
            None => {
                return Ok(ResearchOutcome::UnknownModifier);
            },
            Some(m) => m,
        };
        if self.is_active(name) {
            return Ok(ResearchOutcome::AlreadyActive);
        }
        if self.is_researching(name) {
            return Ok(ResearchOutcome::AlreadyInProgress);
        }
        if !self.is_unlocked(&self.game.modifiers[m].1) {
            return Ok(ResearchOutcome::Locked);
        }
        let cost = match self.game.modifiers[m].1.get_time_cost() {
            Err(e) => {
                return Err(e);
            },
            Ok(c) => c,
        };
        assert(cost >= 0);
        let end = match now.checked_add(cost) {
            None => {
                return Err(TimeCostError::OutOfRange);
            },
            Some(end) => end,
        };
        let ghost before = self.modifiers_in_progress@;
        self.modifiers_in_progress.push((String::from_str(name), end));
        proof {
            assert(research_view(self.modifiers_in_progress@) =~= research_view(before).push((name@, end)));
        }
        Ok(ResearchOutcome::Started(end))
    }

    /// Starts a trial at `now` with the current statistics, unless one is
    /// already in progress.
    pub fn start_trial(&mut self, now: i64) -> (r: Result<(), TrialError>)
        requires
            old(self).wf(),
        ensures
            final(self).wf(),
            final(self).game == old(self).game,
            old(self).trial_in_progress is Some ==> r == Err::<(), TrialError>(TrialError::AlreadyInProgress)
                && final(self)@ == old(self)@,
            old(self).trial_in_progress is None ==> r is Ok
                && final(self)@ == (StateView { trial: Some(fresh_trial(old(self).game, old(self)@, now)), ..old(self)@ }),
    {
        if self.trial_in_progress.is_some() {
            return Err(TrialError::AlreadyInProgress);
        }
        let stats = self.get_stats();
        self.trial_in_progress = Some(Trial::new(stats, now));
        Ok(())
    }

    /// Cancels the trial in progress and gives it back as it stood.
    pub fn stop_trial(&mut self) -> (r: Result<Trial, TrialError>)
        requires
            old(self).wf(),
        ensures
            final(self).wf(),
            final(self).game == old(self).game,
            match old(self).trial_in_progress {
                Some(t) => r == Ok::<Trial, TrialError>(t) && final(self)@ == (StateView { trial: None, ..old(self)@ }),
                None => r == Err::<Trial, TrialError>(TrialError::NoTrial) && final(self)@ == old(self)@,
            },
    {
        match self.trial_in_progress {
            Some(t) => {
                self.trial_in_progress = None;
                Ok(t)
            },
            None => Err(TrialError::NoTrial),
        }
    }

    /// The next scheduled event of the trial: its distance from the trial's
    /// last update, and its label.
    pub fn get_next_event(&self) -> (r: (i64, String))
        ensures
            r.0 == EVENT_INTERVAL,
            r.1@ == event_label(),
    {
        proof {
            reveal_strlit("foo");
        }
        (EVENT_INTERVAL, String::from_str("foo"))
    }

    /// The next step of bringing the trial up to `now` (see `trial_step`).
    pub fn next_trial_step(&self, now: i64) -> (r: TrialStep)
        ensures
            r == trial_step(self@, now),
            r matches TrialStep::Advance { until, event } ==> (self.trial_in_progress matches Some(t)
                && t.last_update_ts < until <= now),
    {
        match self.trial_in_progress {
            None => TrialStep::Done,
            Some(t) => {
                match t.last_update_ts.checked_add(EVENT_INTERVAL) {
                    Some(next) => {
                        if next < now {
                            return TrialStep::Advance { until: next, event: true };
                        }
                    },
                    None => {},
                }
                if t.last_update_ts < now {
                    TrialStep::Advance { until: now, event: false }
                } else {
                    TrialStep::Done
                }
            },
        }
    }

    /// Runs the trial, if any, on to `until`, scaling its bots' mass by
    /// `growth` (see `advanced`).
    pub fn update_trial_until(&mut self, until: i64, growth: u64)
        requires
            old(self).wf(),
            old(self).trial_in_progress matches Some(t) ==> t.last_update_ts <= until,
        ensures
            final(self).game == old(self).game,
            final(self).wf(),
            final(self)@ == advanced(old(self).game, old(self)@, until, growth),
    {
        let stats = self.get_stats();
        match self.trial_in_progress {
            None => {},
            Some(t) => {
                let tau = self.game.tau;
                let mass = mul_mass(t.bot_mass, growth);
                let du = gain_between_of(stats.unease_gain, t.start_ts, t.last_update_ts, until, tau);
                let di = gain_between_of(stats.inspiration_gain, t.start_ts, t.last_update_ts, until, tau);
                proof {
                    assert(du <= u64::MAX * u64::MAX) by (nonlinear_arith)
                        requires
                            du == gain_between(stats.unease_gain as int, t.start_ts as int, t.last_update_ts as int, until as int, tau as int),
                            du >= 0, tau > 0, stats.unease_gain <= u64::MAX,
                            until - t.start_ts <= u64::MAX, until >= t.last_update_ts >= t.start_ts,
                    {
                        let a = (until - t.start_ts) as int;
                        let b = (t.last_update_ts - t.start_ts) as int;
                        let g = stats.unease_gain as int;
                        assert(g * a <= u64::MAX * u64::MAX) by (nonlinear_arith)
                            requires 0 <= g <= u64::MAX, 0 <= a <= u64::MAX;
                        assert(g * b >= 0) by (nonlinear_arith) requires g >= 0, b >= 0;
                        vstd::arithmetic::div_mod::lemma_div_is_ordered_by_denominator(g * a, 1, tau as int);
                        vstd::arithmetic::div_mod::lemma_div_pos_is_pos(g * b, tau as int);
                    }
                }
                let unease: u128 = self.population_unease as u128 + du;
                self.population_unease = if unease > UNEASE_CAP as u128 {
                    UNEASE_CAP
                } else {
                    unease as u64
                };
                self.scientific_inspiration = self.scientific_inspiration.saturating_add(di);
                self.trial_in_progress = Some(Trial { bot_mass: mass, start_ts: t.start_ts, last_update_ts: until });
            },
        }
    }

    /// Whether the active modifier at `i` repeats an earlier one.
    fn repeats_earlier(&self, i: usize) -> (r: bool)
        requires
            i < self.active_modifiers@.len(),
        ensures
            r == self@.active.subrange(0, i as int).contains(self@.active[i as int]),
    {
        let mut j: usize = 0;
        while j < i
            invariant
                i < self.active_modifiers@.len(),
                j <= i,
                forall|k: int| 0 <= k < j ==> self@.active[k] != self@.active[i as int],
            decreases i - j,
        {
            if same_text(self.active_modifiers[j].as_str(), self.active_modifiers[i].as_str()) {
                assert(self@.active.subrange(0, i as int)[j as int] == self@.active[i as int]);
                return true;
            }
            j = j + 1;
        }
        assert forall|k: int| 0 <= k < i implies self@.active.subrange(0, i as int)[k] != self@.active[i as int] by {}
        false
    }

    /// The statistics that the active modifiers give in the current state,
    /// from the base statistics, in the order the modifiers were activated.
    pub fn get_stats(&self) -> (r: Stats)
        ensures
            r == stats_of(self.game, self@),
    {
        let mut stats = Stats {
            initial_bot_mass: ONE as u128,
            growth_rate: ONE,
            death_rate: ONE,
            unease_gain: BASE_GAIN,
            inspiration_gain: BASE_GAIN,
        };
        let mut i: usize = 0;
        while i < self.active_modifiers.len()
            invariant
                i <= self.active_modifiers@.len(),
                stats == stats_after(self.game, self@, i as int),
            decreases self.active_modifiers@.len() - i,
        {
            if self.repeats_earlier(i) {
                i = i + 1;
                continue;
            }
            match find_entry(&self.game.modifiers, self.active_modifiers[i].as_str()) {
                None => {},
                Some(m) => {
                    let modifier = &self.game.modifiers[m].1;
                    match modifier.chosen_effect_index(self) {
                        None => {},
                        Some(e) => {
                            let effect = &modifier.effects[e].1;
                            stats = Stats {
                                initial_bot_mass: mul_mass(stats.initial_bot_mass, effect.initial_mass_mult),
                                growth_rate: mul_rate(stats.growth_rate, effect.growth_rate_mult),
                                death_rate: mul_rate(stats.death_rate, effect.death_rate_mult),
                                unease_gain: mul_rate(stats.unease_gain, effect.unease_gain_mult),
                                inspiration_gain: mul_rate(
                                    stats.inspiration_gain,
                                    effect.inspiration_gain_mult,
                                ),
                            };
                        },
                    }
                },
            }
            i = i + 1;
        }
        stats
    }

    /// Whether the modifier `id` is active.
    pub fn is_active(&self, id: &str) -> (r: bool)
        ensures
            r == self@.active.contains(id@),
    {
        let mut i: usize = 0;
        while i < self.active_modifiers.len()
            invariant
                i <= self.active_modifiers@.len(),
                forall|k: int| 0 <= k < i ==> self@.active[k] != id@,
            decreases self.active_modifiers@.len() - i,
        {
            if same_text(self.active_modifiers[i].as_str(), id) {
                assert(self@.active[i as int] == id@);
                return true;
            }
            i = i + 1;
        }
        false
    }
}

} // verus!
