use replicators::condition::{Comparison, Condition};
use replicators::duration::TimeCostError;
use replicators::effect::Effect;
use replicators::game::Game;
use replicators::modifier::Modifier;
use replicators::state::{ResearchOutcome, State, Stats, TrialError, TrialStep};
use replicators::trial::{Trial, TrialStatus};

const ONE: u64 = 1_000_000;
const T: i64 = 1_700_000_000;

fn effect(growth: u64, death: u64, condition: Condition) -> Effect {
    Effect {
        initial_mass_mult: ONE,
        growth_rate_mult: growth,
        death_rate_mult: death,
        unease_gain_mult: ONE,
        inspiration_gain_mult: ONE,
        condition,
    }
}

fn modifier(effects: Vec<(String, Effect)>, time_cost: &str, locked_by: Vec<&str>) -> Modifier {
    Modifier {
        description: "a modifier".to_string(),
        effects,
        time_cost: time_cost.to_string(),
        mass_cost: 0,
        locked_by: locked_by.into_iter().map(|s| s.to_string()).collect(),
    }
}

fn world(modifiers: Vec<(&str, Modifier)>, active: Vec<&str>) -> State {
    State {
        active_modifiers: active.into_iter().map(|s| s.to_string()).collect(),
        modifiers_in_progress: Vec::new(),
        trial_in_progress: None,
        population_unease: 0,
        scientific_inspiration: 0,
        game: Game {
            world_mass: 1_000_000 * ONE as u128,
            modifiers: modifiers.into_iter().map(|(n, m)| (n.to_string(), m)).collect(),
            tau: 300,
        },
    }
}

fn growth_modifier(growth: u64) -> Modifier {
    modifier(vec![("default".to_string(), effect(growth, ONE, Condition::Always))], "1h", vec![])
}

/// The growth factor of the trial up to `until`, `(1 + growth - death)` to the
/// power of the elapsed periods, in fixed point.
fn growth_factor(w: &State, until: i64) -> u64 {
    let stats = w.get_stats();
    let t = w.trial_in_progress.unwrap();
    let base = 1.0 + stats.growth_rate as f64 / 1e6 - stats.death_rate as f64 / 1e6;
    let periods = (until - t.last_update_ts) as f64 / w.game.tau as f64;
    let f = if base <= 0.0 { 0.0 } else { base.powf(periods) };
    (f * 1e6).round().min(u64::MAX as f64) as u64
}

fn update_trial(w: &mut State, now: i64) -> Vec<String> {
    let mut events = Vec::new();
    while let TrialStep::Advance { until, event } = w.next_trial_step(now) {
        let g = growth_factor(w, until);
        w.update_trial_until(until, g);
        if event {
            events.push(w.get_next_event().1);
        }
    }
    events
}

fn catch_up(w: &mut State, now: i64) -> Vec<String> {
    w.update_modifiers_in_progress(now);
    update_trial(w, now)
}

fn mass(state: &State) -> u128 {
    state.trial_in_progress.unwrap().bot_mass
}

#[test]
fn base_stats_without_modifiers() {
    let w = world(vec![], vec![]);
    assert_eq!(
        w.get_stats(),
        Stats {
            initial_bot_mass: 1_000_000,
            growth_rate: 1_000_000,
            death_rate: 1_000_000,
            unease_gain: 10_000,
            inspiration_gain: 10_000,
        }
    );
}

#[test]
fn stats_multiply_and_skip_unknown_ids() {
    let mut m = growth_modifier(1_050_000);
    m.effects[0].1.initial_mass_mult = 2_000_000;
    m.effects[0].1.unease_gain_mult = 500_000;
    let w = world(vec![("boost", m)], vec!["boost", "missing"]);
    let s = w.get_stats();
    assert_eq!(s.initial_bot_mass, 2_000_000);
    assert_eq!(s.growth_rate, 1_050_000);
    assert_eq!(s.death_rate, 1_000_000);
    assert_eq!(s.unease_gain, 5_000);
    assert_eq!(s.inspiration_gain, 10_000);
}

#[test]
fn scenario_trial_mass_unchanged_at_even_rates() {
    let mut w = world(vec![], vec![]);
    assert_eq!(w.start_trial(T), Ok(()));
    assert_eq!(mass(&w), 1_000_000);
    let events = catch_up(&mut w, T + 300);
    assert!(events.is_empty());
    assert_eq!(mass(&w), 1_000_000);
    assert_eq!(w.trial_in_progress.unwrap().last_update_ts, T + 300);
}

#[test]
fn scenario_trial_mass_grows_by_rate() {
    let mut w = world(vec![("boost", growth_modifier(1_050_000))], vec!["boost"]);
    assert_eq!(w.start_trial(T), Ok(()));
    catch_up(&mut w, T + 300);
    assert_eq!(mass(&w), 1_050_000);
    catch_up(&mut w, T + 600);
    assert_eq!(mass(&w), 1_102_500);
}

#[test]
fn half_period_growth_is_exponential() {
    let mut w = world(vec![("boost", growth_modifier(1_050_000))], vec!["boost"]);
    w.start_trial(T).unwrap();
    catch_up(&mut w, T + 150);
    assert_eq!(mass(&w), 1_024_695);
    let mut d = world(vec![("double", growth_modifier(2_000_000))], vec!["double"]);
    d.start_trial(T).unwrap();
    catch_up(&mut d, T + 150);
    assert_eq!(mass(&d), 1_414_214);
}

#[test]
fn growth_step_scales_mass_by_factor() {
    let mut w = world(vec![], vec![]);
    w.start_trial(T).unwrap();
    w.update_trial_until(T + 10, 2_500_000);
    assert_eq!(mass(&w), 2_500_000);
    assert_eq!(w.trial_in_progress.unwrap().last_update_ts, T + 10);
}

#[test]
fn trial_steps_stop_at_events() {
    let mut w = world(vec![], vec![]);
    assert_eq!(w.next_trial_step(T), TrialStep::Done);
    w.start_trial(T).unwrap();
    assert_eq!(w.next_trial_step(T), TrialStep::Done);
    assert_eq!(w.next_trial_step(T + 5), TrialStep::Advance { until: T + 5, event: false });
    assert_eq!(w.next_trial_step(T + 1_000_000), TrialStep::Advance { until: T + 1_000_000, event: false });
    assert_eq!(w.next_trial_step(T + 1_000_001), TrialStep::Advance { until: T + 1_000_000, event: true });
}

#[test]
fn single_jump_matches_small_steps() {
    let mut one = world(vec![("boost", growth_modifier(1_070_000))], vec!["boost"]);
    one.start_trial(T).unwrap();
    let mut many = world(vec![("boost", growth_modifier(1_070_000))], vec!["boost"]);
    many.start_trial(T).unwrap();
    catch_up(&mut one, T + 3000);
    let mut t = T;
    while t < T + 3000 {
        t += 7;
        if t > T + 3000 {
            t = T + 3000;
        }
        catch_up(&mut many, t);
    }
    assert_eq!(mass(&one), 1_967_151);
    let a = mass(&one) as f64;
    let b = mass(&many) as f64;
    assert!((a - b).abs() <= 1e-3 * a);
    assert_eq!(one.population_unease, many.population_unease);
    assert_eq!(one.scientific_inspiration, many.scientific_inspiration);
    assert_eq!(one.trial_in_progress.unwrap().last_update_ts, many.trial_in_progress.unwrap().last_update_ts);
}

#[test]
fn catch_up_twice_changes_nothing() {
    let mut w = world(vec![("boost", growth_modifier(1_050_000))], vec!["boost"]);
    w.start_trial(T).unwrap();
    w.modifiers_in_progress.push(("boost".to_string(), T + 100));
    catch_up(&mut w, T + 2_000_000);
    let trial = w.trial_in_progress.unwrap();
    let active = w.active_modifiers.clone();
    let unease = w.population_unease;
    let inspiration = w.scientific_inspiration;
    let events = catch_up(&mut w, T + 2_000_000);
    assert!(events.is_empty());
    assert_eq!(w.trial_in_progress.unwrap(), trial);
    assert_eq!(w.active_modifiers, active);
    assert!(w.modifiers_in_progress.is_empty());
    assert_eq!(w.population_unease, unease);
    assert_eq!(w.scientific_inspiration, inspiration);
}

#[test]
fn unease_and_inspiration_grow_linearly() {
    let mut w = world(vec![], vec![]);
    w.start_trial(T).unwrap();
    catch_up(&mut w, T + 150);
    assert_eq!(w.population_unease, 5_000);
    assert_eq!(w.scientific_inspiration, 5_000);
    catch_up(&mut w, T + 3000);
    assert_eq!(w.population_unease, 100_000);
    assert_eq!(w.scientific_inspiration, 100_000);
}

#[test]
fn unease_is_clamped_at_one_hundred() {
    let mut m = growth_modifier(ONE);
    m.effects[0].1.unease_gain_mult = 1_000_000_000;
    let mut w = world(vec![("fear", m)], vec!["fear"]);
    w.start_trial(T).unwrap();
    catch_up(&mut w, T + 300 * 5);
    assert_eq!(w.population_unease, 50_000_000);
    catch_up(&mut w, T + 300 * 100);
    assert_eq!(w.population_unease, 100_000_000);
    catch_up(&mut w, T + 300 * 100_000);
    assert_eq!(w.population_unease, 100_000_000);
}

#[test]
fn unease_above_cap_is_brought_down() {
    let mut w = world(vec![], vec![]);
    w.population_unease = 150_000_000;
    w.start_trial(T).unwrap();
    catch_up(&mut w, T + 10);
    assert_eq!(w.population_unease, 100_000_000);
}

#[test]
fn long_absence_fires_scheduled_events() {
    let mut w = world(vec![], vec![]);
    w.start_trial(T).unwrap();
    let events = catch_up(&mut w, T + 2_500_000);
    assert_eq!(events, vec!["foo".to_string(), "foo".to_string()]);
    assert_eq!(w.trial_in_progress.unwrap().last_update_ts, T + 2_500_000);
    assert_eq!(w.population_unease, 83_333_333);
}

#[test]
fn no_trial_no_events() {
    let mut w = world(vec![], vec![]);
    let events = update_trial(&mut w, T + 5_000_000);
    assert!(events.is_empty());
    assert!(w.trial_in_progress.is_none());
    assert_eq!(w.population_unease, 0);
}

#[test]
fn trial_decays_to_failure() {
    let m = modifier(vec![("default".to_string(), effect(ONE, 2_500_000, Condition::Always))], "1h", vec![]);
    let mut w = world(vec![("plague", m)], vec!["plague"]);
    w.start_trial(T).unwrap();
    catch_up(&mut w, T + 300);
    assert_eq!(mass(&w), 0);
    assert_eq!(w.trial_in_progress.unwrap().get_status(&w.game), TrialStatus::Failure);
}

#[test]
fn trial_status_levels() {
    let w = world(vec![], vec![]);
    let t = |m: u128| Trial { bot_mass: m, start_ts: T, last_update_ts: T };
    assert_eq!(t(5).get_status(&w.game), TrialStatus::InProgress(5));
    assert_eq!(t(0).get_status(&w.game), TrialStatus::Failure);
    assert_eq!(t(1_000_000 * ONE as u128).get_status(&w.game), TrialStatus::Success);
    assert_eq!(t(1_000_000 * ONE as u128 - 1).get_status(&w.game), TrialStatus::InProgress(999_999_999_999));
}

#[test]
fn trial_time_progress() {
    let t = Trial { bot_mass: 1, start_ts: T, last_update_ts: T };
    assert_eq!(t.get_current_time_progress(T + 42), 42);
    assert_eq!(t.get_current_time_progress(T - 2), -2);
}

#[test]
fn trial_start_and_stop() {
    let mut w = world(vec![], vec![]);
    assert_eq!(w.stop_trial(), Err(TrialError::NoTrial));
    assert_eq!(w.start_trial(T), Ok(()));
    assert_eq!(w.start_trial(T + 5), Err(TrialError::AlreadyInProgress));
    assert_eq!(w.trial_in_progress.unwrap().start_ts, T);
    let stopped = w.stop_trial().unwrap();
    assert_eq!(stopped, Trial { bot_mass: 1_000_000, start_ts: T, last_update_ts: T });
    assert!(w.trial_in_progress.is_none());
}

#[test]
fn trial_starts_with_initial_mass() {
    let mut m = growth_modifier(ONE);
    m.effects[0].1.initial_mass_mult = 3_000_000;
    let mut w = world(vec![("big", m)], vec!["big"]);
    assert_eq!(w.start_trial(T), Ok(()));
    let t = w.trial_in_progress.unwrap();
    assert_eq!(t, Trial { bot_mass: 3_000_000, start_ts: T, last_update_ts: T });
    assert_eq!(Trial::new(w.get_stats(), T + 9), Trial { bot_mass: 3_000_000, start_ts: T + 9, last_update_ts: T + 9 });
}

#[test]
fn repeated_active_id_counts_once() {
    let w = world(vec![("boost", growth_modifier(1_050_000))], vec!["boost", "boost"]);
    assert_eq!(w.get_stats().growth_rate, 1_050_000);
}

#[test]
fn scenario_locked_modifier_appears_once_unlocked() {
    let a = modifier(vec![], "1h", vec![]);
    let b = modifier(vec![], "1h", vec!["A"]);
    let mut w = world(vec![("A", a), ("B", b)], vec![]);
    assert_eq!(w.get_potential_modifiers(), vec!["A".to_string()]);
    w.active_modifiers.push("A".to_string());
    assert_eq!(w.get_potential_modifiers(), vec!["A".to_string(), "B".to_string()]);
}

#[test]
fn locks_need_every_prerequisite() {
    let c = modifier(vec![], "1h", vec!["A", "B"]);
    let mut w = world(vec![("C", c)], vec!["A"]);
    assert!(w.get_potential_modifiers().is_empty());
    w.active_modifiers.push("B".to_string());
    assert_eq!(w.get_potential_modifiers(), vec!["C".to_string()]);
}

#[test]
fn scenario_research_completes_after_time_cost() {
    let mut w = world(vec![("fast", modifier(vec![], "1h", vec![]))], vec![]);
    assert_eq!(w.try_research_modifier("fast", T), Ok(ResearchOutcome::Started(T + 3600)));
    assert_eq!(w.modifiers_in_progress, vec![("fast".to_string(), T + 3600)]);
    let mut early = world(vec![], vec![]);
    early.modifiers_in_progress = w.modifiers_in_progress.clone();
    catch_up(&mut early, T + 3599);
    assert!(early.active_modifiers.is_empty());
    assert_eq!(early.modifiers_in_progress, vec![("fast".to_string(), T + 3600)]);
    catch_up(&mut w, T + 3601);
    assert_eq!(w.active_modifiers, vec!["fast".to_string()]);
    assert!(w.modifiers_in_progress.is_empty());
}

#[test]
fn research_refusals() {
    let mut w = world(
        vec![
            ("A", modifier(vec![], "1h", vec![])),
            ("B", modifier(vec![], "2d", vec!["A"])),
            ("C", modifier(vec![], "5m", vec![])),
        ],
        vec!["A"],
    );
    assert_eq!(w.try_research_modifier("Z", T), Ok(ResearchOutcome::UnknownModifier));
    assert_eq!(w.try_research_modifier("A", T), Ok(ResearchOutcome::AlreadyActive));
    assert_eq!(w.try_research_modifier("C", T), Ok(ResearchOutcome::Started(T + 300)));
    assert_eq!(w.try_research_modifier("C", T), Ok(ResearchOutcome::AlreadyInProgress));
    w.active_modifiers.clear();
    assert_eq!(w.try_research_modifier("B", T), Ok(ResearchOutcome::Locked));
    assert_eq!(w.modifiers_in_progress.len(), 1);
}

#[test]
fn research_bad_time_cost() {
    let mut w = world(
        vec![("odd", modifier(vec![], "soon", vec![])), ("far", modifier(vec![], "1w", vec![]))],
        vec![],
    );
    assert_eq!(w.try_research_modifier("odd", T), Err(TimeCostError::Malformed));
    assert_eq!(w.try_research_modifier("far", i64::MAX - 10), Err(TimeCostError::OutOfRange));
    assert!(w.modifiers_in_progress.is_empty());
    assert_eq!(w.game.modifiers[0].1.get_time_cost(), Err(TimeCostError::Malformed));
}

#[test]
fn conditional_effect_beats_default() {
    let m = modifier(
        vec![
            ("default".to_string(), effect(2_000_000, ONE, Condition::Always)),
            ("rich".to_string(), effect(3_000_000, ONE, Condition::HasModifier("gold".to_string()))),
        ],
        "1h",
        vec![],
    );
    let mut w = world(vec![("m", m)], vec!["m"]);
    let chosen = w.game.modifiers[0].1.get_effect(&w).unwrap();
    assert_eq!(chosen.growth_rate_mult, 2_000_000);
    assert_eq!(w.get_stats().growth_rate, 2_000_000);
    w.active_modifiers.push("gold".to_string());
    let chosen = w.game.modifiers[0].1.get_effect(&w).unwrap();
    assert_eq!(chosen.growth_rate_mult, 3_000_000);
    assert_eq!(w.get_stats().growth_rate, 3_000_000);
}

#[test]
fn last_name_wins_among_triggered() {
    let m = modifier(
        vec![
            ("zeta".to_string(), effect(5_000_000, ONE, Condition::Unrecognized)),
            ("beta".to_string(), effect(2_000_000, ONE, Condition::Always)),
            ("gamma".to_string(), effect(3_000_000, ONE, Condition::Always)),
            ("alpha".to_string(), effect(4_000_000, ONE, Condition::Always)),
            ("default".to_string(), effect(7_000_000, ONE, Condition::Always)),
        ],
        "1h",
        vec![],
    );
    let w = world(vec![("m", m)], vec!["m"]);
    assert_eq!(w.game.modifiers[0].1.get_effect(&w).unwrap().growth_rate_mult, 3_000_000);
}

#[test]
fn no_effect_without_default() {
    let m = modifier(
        vec![("late".to_string(), effect(5_000_000, ONE, Condition::Unease(Comparison::Greater, 10)))],
        "1h",
        vec![],
    );
    let mut w = world(vec![("m", m)], vec!["m"]);
    assert!(w.game.modifiers[0].1.get_effect(&w).is_none());
    assert_eq!(w.get_stats().growth_rate, ONE);
    w.population_unease = 11;
    assert_eq!(w.game.modifiers[0].1.get_effect(&w).unwrap().growth_rate_mult, 5_000_000);
}

#[test]
fn triggers_read_the_world() {
    let mut w = world(vec![], vec!["A"]);
    let e = |c: Condition| effect(ONE, ONE, c);
    assert!(e(Condition::Always).is_triggered(&w));
    assert!(e(Condition::HasModifier("A".to_string())).is_triggered(&w));
    assert!(!e(Condition::HasModifier("B".to_string())).is_triggered(&w));
    assert!(!e(Condition::Unrecognized).is_triggered(&w));
    assert!(!e(Condition::TrialMass(Comparison::Less, 5_000_000)).is_triggered(&w));
    w.start_trial(T).unwrap();
    assert!(e(Condition::TrialMass(Comparison::Less, 5_000_000)).is_triggered(&w));
    assert!(!e(Condition::TrialMass(Comparison::Greater, 5_000_000)).is_triggered(&w));
    assert!(!e(Condition::TrialMass(Comparison::Less, 1_000_000)).is_triggered(&w));
    w.population_unease = 20_000_000;
    assert!(e(Condition::Unease(Comparison::Greater, 10_000_000)).is_triggered(&w));
    assert!(!e(Condition::Unease(Comparison::Less, 20_000_000)).is_triggered(&w));
}

#[test]
fn next_event_is_fixed() {
    let w = world(vec![], vec![]);
    assert_eq!(w.get_next_event(), (1_000_000, "foo".to_string()));
}

#[test]
fn update_trial_runs_to_now() {
    let mut w = world(vec![], vec![]);
    w.trial_in_progress = Some(Trial { bot_mass: 1_000_000, start_ts: T, last_update_ts: T });
    let events = update_trial(&mut w, T + 3_000_001);
    assert_eq!(events, vec!["foo".to_string(); 3]);
    let t = w.trial_in_progress.unwrap();
    assert_eq!(t.last_update_ts, T + 3_000_001);
    assert_eq!(t.bot_mass, 1_000_000);
}

#[test]
fn catalog_time_costs_are_checked() {
    let good = world(vec![("a", modifier(vec![], "1h", vec![])), ("b", modifier(vec![], "2d", vec![]))], vec![]);
    assert_eq!(good.game.check_time_costs(), Ok(()));
    let bad = world(
        vec![("a", modifier(vec![], "1h", vec![])), ("b", modifier(vec![], "1y", vec![])), ("c", modifier(vec![], "", vec![]))],
        vec![],
    );
    assert_eq!(bad.game.check_time_costs(), Err((1, TimeCostError::Malformed)));
}
