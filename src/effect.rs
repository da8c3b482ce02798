use vstd::prelude::*;

use crate::condition::{Comparison, Condition, ConditionView};
use crate::state::{State, StateView};

verus! {

/// Multiplicative adjustments to the growth statistics (fixed point, see
/// `fixed_point::ONE`), applied while their condition holds.
#[derive(Debug)]
pub struct Effect {
    pub initial_mass_mult: u64,
    pub growth_rate_mult: u64,
    pub death_rate_mult: u64,
    pub unease_gain_mult: u64,
    pub inspiration_gain_mult: u64,
    pub condition: Condition,
}

/// Whether `c` holds in a world in state `v`.
pub open spec fn condition_holds(c: ConditionView, v: StateView) -> bool {
    match c {
        ConditionView::Always => true,
        ConditionView::HasModifier(id) => v.active.contains(id),
        ConditionView::TrialMass(op, t) => match v.trial {
            Some(trial) => match op {
                Comparison::Less => trial.bot_mass < t,
                Comparison::Greater => trial.bot_mass > t,
            },
            None => false,
        },
        ConditionView::Unease(op, t) => match op {
            Comparison::Less => (v.unease as int) < (t as int),
            Comparison::Greater => (v.unease as int) > (t as int),
        },
        ConditionView::Unrecognized => false,
    }
}

impl Effect {
    /// Whether this effect's condition holds in `state`.
    pub fn is_triggered(&self, state: &State) -> (r: bool)
        ensures
            r == condition_holds(self.condition@, state@),
    {
        match &self.condition {
            Condition::Always => true,
            Condition::HasModifier(id) => state.is_active(id.as_str()),
            Condition::TrialMass(op, t) => match &state.trial_in_progress {
                Some(trial) => match op {
                    Comparison::Less => trial.bot_mass < *t,
                    Comparison::Greater => trial.bot_mass > *t,
                },
                None => false,
            },
            Condition::Unease(op, t) => match op {
                Comparison::Less => (state.population_unease as u128) < *t,
                Comparison::Greater => (state.population_unease as u128) > *t,
            },
            Condition::Unrecognized => false,
        }
    }
}

} // verus!
