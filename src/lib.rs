//! An idle game of self-replicating bots, simulated offline. A persisted
//! world is brought up to the current time on every load: research that has
//! finished becomes active, and a running trial of bot growth is advanced
//! through its scheduled events to now.
//!
//! Real quantities (masses, rates, unease, inspiration) are fixed-point
//! integers in millionths (`fixed_point::ONE`). A trial is brought up to a
//! time in steps (`State::next_trial_step`): each step scales the bots' mass
//! by the growth factor over its interval, which the caller computes as
//! `(1 + growth - death)` raised to the elapsed periods of `tau` seconds,
//! while unease and inspiration grow linearly with time, exactly, so that
//! they reach the same values however the interval is split. Every
//! operation takes the current time as an argument.
use vstd::prelude::*;

pub mod condition;
pub mod duration;
pub mod effect;
pub mod fixed_point;
pub mod game;
pub mod laws;
pub mod modifier;
pub mod state;
pub mod text;
pub mod trial;

verus! {

} // verus!
