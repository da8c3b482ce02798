use vstd::prelude::*;

use crate::duration::{time_cost_seconds, TimeCostError};
use crate::modifier::Modifier;
use crate::text::same_text;

verus! {

/// The fixed content of the game: the mass a trial must reach, the period
/// over which rates compound once, and the catalog of modifiers by id.
pub struct Game {
    /// Fixed-point mass that counts as domination.
    pub world_mass: u128,
    pub modifiers: Vec<(String, Modifier)>,
    /// Seconds per compounding period.
    pub tau: u64,
}

/// The ids of a keyed list.
pub open spec fn keys_of<T>(entries: Seq<(String, T)>) -> Seq<Seq<char>> {
    entries.map_values(|e: (String, T)| e.0@)
}

/// The first position of `name` in `keys` at or after `i`.
pub open spec fn position_from(keys: Seq<Seq<char>>, name: Seq<char>, i: int) -> Option<int>
    decreases keys.len() - i,
{
    if i < 0 || i >= keys.len() {
        None
    } else if keys[i] == name {
        Some(i)
    } else {
        position_from(keys, name, i + 1)
    }
}

/// The first position of `name` in `keys`.
pub open spec fn position_of(keys: Seq<Seq<char>>, name: Seq<char>) -> Option<int> {
    position_from(keys, name, 0)
}

/// Where `name` stands in `entries`, found by a scan from the front.
pub fn find_entry<T>(entries: &Vec<(String, T)>, name: &str) -> (r: Option<usize>)
    ensures
        r matches Some(i) ==> position_of(keys_of(entries@), name@) == Some(i as int),
        r matches Some(i) ==> i < entries@.len(),
        r is None ==> position_of(keys_of(entries@), name@) is None,
{
    let ghost keys = keys_of(entries@);
    let mut i: usize = 0;
    while i < entries.len()
        invariant
            i <= entries@.len(),
            keys == keys_of(entries@),
            position_of(keys, name@) == position_from(keys, name@, i as int),
        decreases entries@.len() - i,
    {
        if same_text(entries[i].0.as_str(), name) {
            return Some(i);
        }
        i = i + 1;
    }
    None
}

/// Whether no id occurs twice in `keys`.
pub open spec fn distinct_keys(keys: Seq<Seq<char>>) -> bool {
    forall|i: int, j: int| 0 <= i < j < keys.len() ==> keys[i] != keys[j]
}

impl Game {
    /// The first modifier, by position, whose time cost cannot be read, with
    /// the reason; `Ok` when every time cost reads. A catalog is checked so
    /// when it is loaded: a malformed cost is an error in the content.
    pub fn check_time_costs(&self) -> (r: Result<(), (usize, TimeCostError)>)
        ensures
            r is Ok <==> forall|i: int| 0 <= i < self.modifiers@.len() ==> (#[trigger] time_cost_seconds(self.modifiers@[i].1.time_cost@)) is Ok,
            r matches Err((i, e)) ==> i < self.modifiers@.len() && time_cost_seconds(self.modifiers@[i as int].1.time_cost@) == Err::<i64, TimeCostError>(e)
                && forall|j: int| 0 <= j < i ==> (#[trigger] time_cost_seconds(self.modifiers@[j].1.time_cost@)) is Ok,
    {
        let mut i: usize = 0;
        while i < self.modifiers.len()
            invariant
                i <= self.modifiers@.len(),
                forall|j: int| 0 <= j < i ==> (#[trigger] time_cost_seconds(self.modifiers@[j].1.time_cost@)) is Ok,
            decreases self.modifiers@.len() - i,
        {
            match self.modifiers[i].1.get_time_cost() {
                Err(e) => {
                    return Err((i, e));
                },
                Ok(_) => {},
            }
            i = i + 1;
        }
        Ok(())
    }

    /// The well-formed catalogs: the compounding period is at least a second,
    /// no two modifiers share an id, and no two effects of a modifier share a
    /// name.
    pub open spec fn wf(&self) -> bool {
        &&& self.tau > 0
        &&& distinct_keys(keys_of(self.modifiers@))
        &&& forall|m: int|
            0 <= m < self.modifiers@.len() ==> distinct_keys(#[trigger] keys_of(self.modifiers@[m].1.effects@))
    }
}

} // verus!
