use vstd::prelude::*;

verus! {

/// Whether an animal still takes part in the simulation.
#[derive(Clone, Copy, PartialEq, Eq, Structural, Debug)]
pub enum LifeState {
    Alive,
    Dead,
}

} // verus!
