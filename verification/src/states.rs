//! The phase state machine that sequences world generation: a linear run
//! of phases with two kinds of gates (the tick-driven work phases advance
//! by themselves; the `Finished*` phases wait for a confirm signal) and one
//! cycle (a reset from `FinishedContinents` re-enters `GenContinents`).

use vstd::prelude::*;

verus! {

/// The top-level mode: generating the world, then running the simulation.
#[derive(Clone, Copy, PartialEq, Eq, Structural, Debug)]
pub enum GameState {
    WorldGen,
    Simulation,
}

/// The generation phases, in order. Exactly one is active at a time.
#[derive(Clone, Copy, PartialEq, Eq, Structural, Debug)]
pub enum WorldGenState {
    SeedPlates,
    GenPlates,
    FinishedPlates,
    AssignPlateBoundaries,
    FinishedPlateBoundaries,
    GenContinents,
    FinishedContinents,
    GenPlateVelocities,
    JustChill,
    Finished,
}

/// The transition table: given the current phase, whether the Partitioner
/// reports done, and the edge-triggered confirm and reset signals, the
/// phase a tick moves to. Work phases advance unconditionally (their work
/// runs during the tick); `GenPlates` self-loops until the Partitioner is
/// done; the `Finished*` phases hold until confirm; `FinishedContinents`
/// also honors reset, re-entering `GenContinents` (confirm wins when both
/// arrive at once). `Finished` is terminal.
pub open spec fn spec_next_state(
    s: WorldGenState,
    partitioner_done: bool,
    confirm: bool,
    reset: bool,
) -> WorldGenState {
    match s {
        WorldGenState::SeedPlates => WorldGenState::GenPlates,
        WorldGenState::GenPlates => if partitioner_done {
            WorldGenState::FinishedPlates
        } else {
            WorldGenState::GenPlates
        },
        WorldGenState::FinishedPlates => if confirm {
            WorldGenState::AssignPlateBoundaries
        } else {
            WorldGenState::FinishedPlates
        },
        WorldGenState::AssignPlateBoundaries => WorldGenState::FinishedPlateBoundaries,
        WorldGenState::FinishedPlateBoundaries => if confirm {
            WorldGenState::GenContinents
        } else {
            WorldGenState::FinishedPlateBoundaries
        },
        WorldGenState::GenContinents => WorldGenState::FinishedContinents,
        WorldGenState::FinishedContinents => if confirm {
            WorldGenState::GenPlateVelocities
        } else if reset {
            WorldGenState::GenContinents
        } else {
            WorldGenState::FinishedContinents
        },
        WorldGenState::GenPlateVelocities => WorldGenState::JustChill,
        WorldGenState::JustChill => if confirm {
            WorldGenState::Finished
        } else {
            WorldGenState::JustChill
        },
        WorldGenState::Finished => WorldGenState::Finished,
    }
}

/// The transition table, executable.
pub fn next_state(s: WorldGenState, partitioner_done: bool, confirm: bool, reset: bool) -> (r:
    WorldGenState)
    ensures
        r == spec_next_state(s, partitioner_done, confirm, reset),
{
    match s {
        WorldGenState::SeedPlates => WorldGenState::GenPlates,
        WorldGenState::GenPlates => if partitioner_done {
            WorldGenState::FinishedPlates
        } else {
            WorldGenState::GenPlates
        },
        WorldGenState::FinishedPlates => if confirm {
            WorldGenState::AssignPlateBoundaries
        } else {
            WorldGenState::FinishedPlates
        },
        WorldGenState::AssignPlateBoundaries => WorldGenState::FinishedPlateBoundaries,
        WorldGenState::FinishedPlateBoundaries => if confirm {
            WorldGenState::GenContinents
        } else {
            WorldGenState::FinishedPlateBoundaries
        },
        WorldGenState::GenContinents => WorldGenState::FinishedContinents,
        WorldGenState::FinishedContinents => if confirm {
            WorldGenState::GenPlateVelocities
        } else if reset {
            WorldGenState::GenContinents
        } else {
            WorldGenState::FinishedContinents
        },
        WorldGenState::GenPlateVelocities => WorldGenState::JustChill,
        WorldGenState::JustChill => if confirm {
            WorldGenState::Finished
        } else {
            WorldGenState::JustChill
        },
        WorldGenState::Finished => WorldGenState::Finished,
    }
}

} // verus!
