use vstd::prelude::*;

use crate::duration::{parse_time_cost, time_cost_seconds, TimeCostError};
use crate::effect::{condition_holds, Effect};
use crate::game::{find_entry, keys_of, position_of};
use crate::state::{State, StateView};
use crate::text::{lex_le, same_text, text_le};

verus! {

/// An upgrade that research unlocks: its effects by name, its costs, and the
/// modifiers that must all be active before it can be researched.
pub struct Modifier {
    pub description: String,
    pub effects: Vec<(String, Effect)>,
    /// Research time, written as digits and a unit letter (`90m`, `2d`).
    pub time_cost: String,
    /// Fixed-point mass.
    pub mass_cost: u128,
    pub locked_by: Vec<String>,
}

/// The name of the fallback effect.
pub open spec fn default_name() -> Seq<char> {
    "default"@
}

/// Whether the effect at `i` is a named (not the fallback) effect whose
/// condition holds in `v`.
pub open spec fn contends(effects: Seq<(String, Effect)>, v: StateView, i: int) -> bool {
    effects[i].0@ != default_name() && condition_holds(effects[i].1.condition@, v)
}

/// Among the first `k` effects, the contending one with the greatest name
/// (the later one where names are equal).
pub open spec fn best_contender(effects: Seq<(String, Effect)>, v: StateView, k: int) -> Option<int>
    decreases k,
{
    if k <= 0 {
        None
    } else {
        let prev = best_contender(effects, v, k - 1);
        let i = k - 1;
        if contends(effects, v, i) && (match prev {
            None => true,
            Some(p) => lex_le(effects[p].0@, effects[i].0@),
        }) {
            Some(i)
        } else {
            prev
        }
    }
}

/// The effect that applies in `v`: the contending effect with the greatest
/// name, else the effect named `default` if there is one.
pub open spec fn chosen_effect(effects: Seq<(String, Effect)>, v: StateView) -> Option<int> {
    match best_contender(effects, v, effects.len() as int) {
        Some(i) => Some(i),
        None => position_of(keys_of(effects), default_name()),
    }
}

/// The best contender is a contender, and there is one exactly when some
/// effect contends.
pub proof fn lemma_best_contender(effects: Seq<(String, Effect)>, v: StateView, k: int)
    requires
        0 <= k <= effects.len(),
    ensures
        best_contender(effects, v, k) matches Some(i) ==> 0 <= i < k && contends(effects, v, i),
        best_contender(effects, v, k) is None <==> (forall|j: int| 0 <= j < k ==> !contends(effects, v, j)),
    decreases k,
{
    if k > 0 {
        lemma_best_contender(effects, v, k - 1);
    }
}

impl Modifier {
    /// The research time in seconds. A cost in no readable form is an error
    /// in the catalog's content (see `Game::check_time_costs`).
    pub fn get_time_cost(&self) -> (r: Result<i64, TimeCostError>)
        ensures
            r == time_cost_seconds(self.time_cost@),
    {
        parse_time_cost(self.time_cost.as_str())
    }

    /// The position of the effect that applies in `state`.
    pub fn chosen_effect_index(&self, state: &State) -> (r: Option<usize>)
        ensures
            r matches Some(i) ==> chosen_effect(self.effects@, state@) == Some(i as int),
            r matches Some(i) ==> i < self.effects@.len(),
            r is None ==> chosen_effect(self.effects@, state@) is None,
    {
        let ghost effects = self.effects@;
        let default = "default";
        let mut best: Option<usize> = None;
        let mut i: usize = 0;
        while i < self.effects.len()
            invariant
                effects == self.effects@,
                default@ == default_name(),
                i <= effects.len(),
                best matches Some(b) ==> best_contender(effects, state@, i as int) == Some(b as int),
                best is None ==> best_contender(effects, state@, i as int) is None,
                best matches Some(b) ==> b < i,
            decreases effects.len() - i,
        {
            let name = self.effects[i].0.as_str();
            if !same_text(name, default) && self.effects[i].1.is_triggered(state) {
                match best {
                    None => {
                        best = Some(i);
                    },
                    Some(b) => {
                        if text_le(self.effects[b].0.as_str(), name) {
                            best = Some(i);
                        }
                    },
                }
            }
            i = i + 1;
        }
        match best {
            Some(b) => Some(b),
            None => find_entry(&self.effects, default),
        }
    }

    /// The effect that applies in `state`: of the effects whose condition
    /// holds, other than `default`, the one whose name sorts last; where none
    /// holds, the effect named `default`, if any.
    pub fn get_effect(&self, state: &State) -> (r: Option<&Effect>)
        ensures
            match chosen_effect(self.effects@, state@) {
                Some(i) => 0 <= i < self.effects@.len() && r == Some(&self.effects@[i].1),
                None => r is None,
            },
    {
        match self.chosen_effect_index(state) {
            Some(i) => Some(&self.effects[i].1),
            None => None,
        }
    }
}

} // verus!
