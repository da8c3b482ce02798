use vstd::prelude::*;

use crate::effect::Effect;
use crate::game::Game;
use crate::modifier::{chosen_effect, contends, lemma_best_contender, Modifier};
use crate::state::{
    advanced, after_research, caught_up, finished, lag, research_caught_up, stats_of, trial_caught_up,
    trial_ok, trial_step, unfinished, unlocked, StateView, TrialStep, UNEASE_CAP,
};
use crate::trial::{capped, gain_between};

verus! {

/// Every entry still under way after a research catch-up at `now` ends later.
proof fn lemma_unfinished_later(ip: Seq<(Seq<char>, i64)>, now: i64)
    ensures
        forall|i: int| 0 <= i < unfinished(ip, now).len() ==> #[trigger] unfinished(ip, now)[i].1 > now,
    decreases ip.len(),
{
    if ip.len() > 0 {
        lemma_unfinished_later(ip.drop_last(), now);
        let r = unfinished(ip.drop_last(), now);
        if ip.last().1 > now {
            assert forall|i: int| 0 <= i < r.push(ip.last()).len() implies #[trigger] r.push(ip.last())[i].1 > now by {
                if i < r.len() {
                    assert(r.push(ip.last())[i] == r[i]);
                }
            }
        }
    }
}

/// Where every entry ends after `now`, nothing is done and all stays.
proof fn lemma_all_later(ip: Seq<(Seq<char>, i64)>, now: i64)
    requires
        forall|i: int| 0 <= i < ip.len() ==> #[trigger] ip[i].1 > now,
    ensures
        finished(ip, now) == Seq::<Seq<char>>::empty(),
        unfinished(ip, now) == ip,
    decreases ip.len(),
{
    if ip.len() > 0 {
        lemma_all_later(ip.drop_last(), now);
        assert(ip.drop_last().push(ip.last()) =~= ip);
    }
}

/// A gain over an interval that runs forward is never negative.
proof fn lemma_gain_nonnegative(rate: int, start: int, from: int, to: int, tau: int)
    requires
        rate >= 0,
        start <= from <= to,
        tau > 0,
    ensures
        gain_between(rate, start, from, to, tau) >= 0,
{
    assert(rate * (from - start) <= rate * (to - start)) by (nonlinear_arith)
        requires rate >= 0, from <= to;
    vstd::arithmetic::div_mod::lemma_div_is_ordered(rate * (from - start), rate * (to - start), tau);
}

/// Advancing forward leaves unease at no more than 100 and the trial's
/// timestamps in order.
proof fn lemma_advanced_unease(game: Game, v: StateView, until: i64, growth: u64)
    requires
        game.wf(),
        v.trial matches Some(t) && t.start_ts <= t.last_update_ts <= until,
    ensures
        advanced(game, v, until, growth).unease <= UNEASE_CAP,
        advanced(game, v, until, growth).trial matches Some(t) && t.start_ts <= t.last_update_ts,
{
    let t = v.trial->Some_0;
    lemma_gain_nonnegative(
        stats_of(game, v).unease_gain as int,
        t.start_ts as int,
        t.last_update_ts as int,
        until as int,
        game.tau as int,
    );
}

/// A trial catch-up leaves research alone, and leaves the trial, if any,
/// updated no earlier than `now`.
proof fn lemma_trial_caught_up_reaches(game: Game, v: StateView, now: i64, growth: spec_fn(StateView, i64) -> u64)
    requires
        game.wf(),
        trial_ok(v.trial),
    ensures
        trial_caught_up(game, v, now, growth).0.active == v.active,
        trial_caught_up(game, v, now, growth).0.in_progress == v.in_progress,
        v.trial is None ==> trial_caught_up(game, v, now, growth) == (v, 0nat),
        v.trial is Some ==> (trial_caught_up(game, v, now, growth).0.trial matches Some(t) && t.last_update_ts >= now),
        v.unease <= UNEASE_CAP ==> trial_caught_up(game, v, now, growth).0.unease <= UNEASE_CAP,
        trial_ok(trial_caught_up(game, v, now, growth).0.trial),
    decreases lag(v, now as int),
{
    if let TrialStep::Advance { until, event } = trial_step(v, now) {
        lemma_advanced_unease(game, v, until, growth(v, until));
        lemma_trial_caught_up_reaches(game, advanced(game, v, until, growth(v, until)), now, growth);
    }
}

/// Catching up twice at the same instant: the second time changes nothing
/// and fires no event, whatever growth factors the steps are given.
pub proof fn law_catch_up_idempotent(game: Game, v: StateView, now: i64, growth: spec_fn(StateView, i64) -> u64)
    requires
        game.wf(),
        trial_ok(v.trial),
    ensures
        caught_up(game, caught_up(game, v, now, growth).0, now, growth) == (caught_up(game, v, now, growth).0, 0nat),
{
    let w = research_caught_up(v, now);
    let u = caught_up(game, v, now, growth).0;
    lemma_trial_caught_up_reaches(game, w, now, growth);
    lemma_unfinished_later(v.in_progress, now);
    lemma_all_later(u.in_progress, now);
    assert(u.active + Seq::<Seq<char>>::empty() =~= u.active);
    assert(research_caught_up(u, now) == u);
    lemma_trial_caught_up_reaches(game, u, now, growth);
}

/// Gaining at one rate over two consecutive intervals, held to a cap each
/// time, is gaining over the whole interval held to the cap once.
proof fn lemma_capped_gain_splits(x: int, rate: int, start: int, from: int, mid: int, until: int, tau: int, cap: int)
    requires
        rate >= 0,
        tau > 0,
        start <= from <= mid <= until,
    ensures
        capped(capped(x + gain_between(rate, start, from, mid, tau), cap) + gain_between(rate, start, mid, until, tau), cap)
            == capped(x + gain_between(rate, start, from, until, tau), cap),
{
    lemma_gain_nonnegative(rate, start, mid, until, tau);
}

/// A world advanced through the instants of `stops` in turn, with the growth
/// factors that `growth` gives.
pub open spec fn advanced_through(
    game: Game,
    v: StateView,
    stops: Seq<i64>,
    growth: spec_fn(StateView, i64) -> u64,
) -> StateView
    decreases stops.len(),
{
    if stops.len() == 0 {
        v
    } else {
        let w = advanced_through(game, v, stops.drop_last(), growth);
        advanced(game, w, stops.last(), growth(w, stops.last()))
    }
}

/// Advancing through a run of instants keeps the trial's start and leaves it
/// updated to the last instant.
proof fn lemma_advanced_through_times(game: Game, v: StateView, stops: Seq<i64>, growth: spec_fn(StateView, i64) -> u64)
    requires
        stops.len() > 0,
        v.trial is Some,
    ensures
        advanced_through(game, v, stops, growth).trial matches Some(x) && x.start_ts == v.trial->Some_0.start_ts
            && x.last_update_ts == stops.last(),
    decreases stops.len(),
{
    if stops.len() > 1 {
        lemma_advanced_through_times(game, v, stops.drop_last(), growth);
    } else {
        assert(stops.drop_last() =~= Seq::<i64>::empty());
        assert(advanced_through(game, v, stops.drop_last(), growth) == v);
    }
}

/// Advancing a trial through any number of steps that end at `until` gives
/// what a single step to `until` gives for its timestamps, for the unease
/// while its gain stays that at the start, and for the inspiration while its
/// gain stays. (The bots' mass takes the growth factors given to the steps.)
pub proof fn law_steps_match_single_jump(
    game: Game,
    v: StateView,
    stops: Seq<i64>,
    growth: spec_fn(StateView, i64) -> u64,
    jump: u64,
)
    requires
        game.wf(),
        stops.len() > 0,
        v.trial matches Some(t) && t.start_ts <= t.last_update_ts <= stops[0],
        forall|i: int, j: int| 0 <= i <= j < stops.len() ==> stops[i] <= stops[j],
    ensures
        advanced_through(game, v, stops, growth).trial matches Some(x) && advanced(game, v, stops.last(), jump).trial
            matches Some(y) && x.start_ts == y.start_ts && x.last_update_ts == y.last_update_ts,
        (forall|j: int| 0 <= j < stops.len() ==>
            stats_of(game, #[trigger] advanced_through(game, v, stops.take(j), growth)).unease_gain
                == stats_of(game, v).unease_gain)
            ==> advanced_through(game, v, stops, growth).unease == advanced(game, v, stops.last(), jump).unease,
        (forall|j: int| 0 <= j < stops.len() ==>
            stats_of(game, #[trigger] advanced_through(game, v, stops.take(j), growth)).inspiration_gain
                == stats_of(game, v).inspiration_gain)
            ==> advanced_through(game, v, stops, growth).inspiration == advanced(game, v, stops.last(), jump).inspiration,
    decreases stops.len(),
{
    let n = stops.len() as int;
    let prev = stops.drop_last();
    let t = v.trial->Some_0;
    let s = stats_of(game, v);
    let tau = game.tau as int;
    lemma_advanced_through_times(game, v, stops, growth);
    if n == 1 {
        assert(prev =~= Seq::<i64>::empty());
        assert(stops.take(0) =~= Seq::<i64>::empty());
        assert(advanced_through(game, v, prev, growth) == v);
    } else {
        law_steps_match_single_jump(game, v, prev, growth, growth(v, prev.last()));
        lemma_advanced_through_times(game, v, prev, growth);
        assert(prev =~= stops.take(n - 1));
        assert forall|j: int| 0 <= j < prev.len() implies #[trigger] prev.take(j) == stops.take(j) by {
            assert(prev.take(j) =~= stops.take(j));
        }
        assert(stops[0] <= stops[n - 2] <= stops[n - 1]);
        let mid = prev.last();
        let until = stops.last();
        lemma_gain_nonnegative(s.unease_gain as int, t.start_ts as int, t.last_update_ts as int, mid as int, tau);
        lemma_gain_nonnegative(s.inspiration_gain as int, t.start_ts as int, t.last_update_ts as int, mid as int, tau);
        if forall|j: int| 0 <= j < stops.len() ==>
            stats_of(game, #[trigger] advanced_through(game, v, stops.take(j), growth)).unease_gain == s.unease_gain {
            assert(stats_of(game, advanced_through(game, v, stops.take(n - 1), growth)).unease_gain == s.unease_gain);
            lemma_capped_gain_splits(v.unease as int, s.unease_gain as int, t.start_ts as int,
                t.last_update_ts as int, mid as int, until as int, tau, UNEASE_CAP as int);
        }
        if forall|j: int| 0 <= j < stops.len() ==>
            stats_of(game, #[trigger] advanced_through(game, v, stops.take(j), growth)).inspiration_gain == s.inspiration_gain {
            assert(stats_of(game, advanced_through(game, v, stops.take(n - 1), growth)).inspiration_gain == s.inspiration_gain);
            lemma_capped_gain_splits(v.inspiration as int, s.inspiration_gain as int, t.start_ts as int,
                t.last_update_ts as int, mid as int, until as int, tau, u128::MAX as int);
        }
    }
}

/// However large the gains and however long the interval, advancing a trial
/// leaves the population unease at no more than 100.
pub proof fn law_unease_clamped(game: Game, v: StateView, until: i64, growth: u64)
    requires
        game.wf(),
        v.trial matches Some(t) && t.start_ts <= t.last_update_ts <= until,
    ensures
        advanced(game, v, until, growth).unease <= UNEASE_CAP,
{
    lemma_advanced_unease(game, v, until, growth);
}

/// A catch-up never lifts the population unease above 100.
pub proof fn law_catch_up_keeps_unease_clamped(game: Game, v: StateView, now: i64, growth: spec_fn(StateView, i64) -> u64)
    requires
        game.wf(),
        trial_ok(v.trial),
        v.unease <= UNEASE_CAP,
    ensures
        caught_up(game, v, now, growth).0.unease <= UNEASE_CAP,
{
    lemma_trial_caught_up_reaches(game, research_caught_up(v, now), now, growth);
}

/// A modifier stays unlocked when modifiers only become active.
proof fn lemma_unlocked_grows(m: Modifier, a: Seq<Seq<char>>, b: Seq<Seq<char>>)
    requires
        unlocked(m, a),
        forall|x: Seq<char>| a.contains(x) ==> b.contains(x),
    ensures
        unlocked(m, b),
{
}

/// Once every modifier that locks `m` is active, `m` stays unlocked through
/// a catch-up.
pub proof fn law_unlock_survives_catch_up(
    game: Game,
    v: StateView,
    now: i64,
    growth: spec_fn(StateView, i64) -> u64,
    m: Modifier,
)
    requires
        game.wf(),
        trial_ok(v.trial),
        unlocked(m, v.active),
    ensures
        unlocked(m, caught_up(game, v, now, growth).0.active),
{
    let w = research_caught_up(v, now);
    lemma_trial_caught_up_reaches(game, w, now, growth);
    assert forall|x: Seq<char>| v.active.contains(x) implies w.active.contains(x) by {
        let i = choose|i: int| 0 <= i < v.active.len() && v.active[i] == x;
        assert(w.active[i] == x);
    }
    lemma_unlocked_grows(m, v.active, w.active);
}

/// Once every modifier that locks `m` is active, `m` stays unlocked when
/// research is asked for.
pub proof fn law_unlock_survives_research(game: Game, v: StateView, name: Seq<char>, now: i64, m: Modifier)
    requires
        unlocked(m, v.active),
    ensures
        unlocked(m, after_research(game, v, name, now).active),
{
}

/// An effect whose condition holds, other than `default`, takes precedence
/// over `default`: the effect chosen is then one whose condition holds.
pub proof fn law_condition_beats_default(effects: Seq<(String, Effect)>, v: StateView, j: int)
    requires
        0 <= j < effects.len(),
        contends(effects, v, j),
    ensures
        chosen_effect(effects, v) matches Some(i) && contends(effects, v, i),
{
    lemma_best_contender(effects, v, effects.len() as int);
}

} // verus!
