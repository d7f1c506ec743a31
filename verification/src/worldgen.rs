//! The generation pipeline: one object owns the per-cell world state — the
//! plate assignment, the boundary flags, the surface labels and the
//! velocity field — together with the Partitioner and the current phase,
//! and advances by discrete ticks. Each tick performs the active phase's
//! work and moves the phase by the transition table; confirm and reset are
//! the two edge-triggered signals a caller may raise.
//!
//! Drawing the per-plate angular velocities involves floating-point
//! square roots and trigonometry, so the caller samples them and passes
//! them, in fixed point, to the tick that runs the velocity phase.

use vstd::prelude::*;

use crate::assignment::{count_assigned, Plate, RegionAssignment};
use crate::boundary::{assign_plate_boundaries, is_boundary_spec};
use crate::graph::CellGraph;
use crate::partition::{balanced, no_growth_possible, seeded_plate_count, Partitioner, StepResult};
use crate::states::{GameState, WorldGenState};
use crate::surface::{count_true, SurfaceClassification, SurfaceLabel};
use crate::vector::Vec3i;
use crate::velocity::{do_plate_velocities, velocity_field_ok, FacePlateVelocity};

verus! {

/// Phases in which the Partitioner has reported done.
pub open spec fn partition_done_state(s: WorldGenState) -> bool {
    ||| s == WorldGenState::FinishedPlates
    ||| s == WorldGenState::AssignPlateBoundaries
    ||| boundaries_done_state(s)
}

/// Phases in which the boundary flags are in place.
pub open spec fn boundaries_done_state(s: WorldGenState) -> bool {
    ||| s == WorldGenState::FinishedPlateBoundaries
    ||| s == WorldGenState::GenContinents
    ||| surface_done_state(s)
}

/// Phases in which every cell carries its plate's surface label.
pub open spec fn surface_done_state(s: WorldGenState) -> bool {
    ||| s == WorldGenState::FinishedContinents
    ||| s == WorldGenState::GenPlateVelocities
    ||| velocities_done_state(s)
}

/// Phases in which the velocity field is in place.
pub open spec fn velocities_done_state(s: WorldGenState) -> bool {
    ||| s == WorldGenState::JustChill
    ||| s == WorldGenState::Finished
}

/// The pipeline: graph, per-cell state, the Partitioner, and the phase.
pub struct WorldGen {
    pub graph: CellGraph,
    pub assignment: RegionAssignment,
    pub partitioner: Partitioner,
    pub boundaries: Vec<bool>,
    pub surface: SurfaceClassification,
    pub omegas: Vec<Vec3i>,
    pub velocities: Vec<FacePlateVelocity>,
    pub state: WorldGenState,
    pub game: GameState,
}

impl WorldGen {
    pub open spec fn spec_num_cells(self) -> nat {
        self.graph.spec_num_cells()
    }

    pub open spec fn spec_num_regions(self) -> nat {
        self.assignment.spec_num_regions()
    }

    /// What each phase guarantees of the data it has produced so far.
    pub open spec fn wf(self) -> bool {
        &&& self.graph.wf()
        &&& self.partitioner.inv(self.graph, self.assignment)
        &&& self.assignment.spec_num_cells() >= 1
        &&& self.surface.spec_num_cells() == self.assignment.spec_num_cells()
        &&& self.surface.spec_num_regions() == self.assignment.spec_num_regions()
        &&& (self.state == WorldGenState::SeedPlates ==> !self.partitioner.seeded && (forall|
            c: int,
        |
            0 <= c < self.assignment.spec_num_cells() ==> self.assignment.region_of(c) is None)
            && self.partitioner.frontier@.len() == 0)
        &&& (self.state != WorldGenState::SeedPlates ==> self.partitioner.seeded)
        &&& (partition_done_state(self.state) ==> self.assignment.complete() || no_growth_possible(
            self.graph,
            self.assignment,
        ))
        &&& (boundaries_done_state(self.state) ==> self.assignment.complete()
            && self.boundaries@.len() == self.graph.spec_num_cells() && forall|c: int|
            0 <= c < self.graph.spec_num_cells() ==> self.boundaries@[c] == is_boundary_spec(
                self.graph,
                self.assignment,
                c,
            ))
        &&& (surface_done_state(self.state) ==> self.surface.labels_assigned(self.assignment)
            && count_true(self.surface.ocean@) == self.assignment.spec_num_regions() / 3)
        &&& (velocities_done_state(self.state) ==> self.omegas@.len()
            == self.assignment.spec_num_regions() && velocity_field_ok(
            self.graph,
            self.assignment,
            self.omegas@,
            self.velocities@,
        ))
        &&& (!boundaries_done_state(self.state) ==> self.boundaries@.len() == 0)
        &&& (!velocities_done_state(self.state) ==> self.velocities@.len() == 0)
        &&& (self.game == GameState::Simulation <==> self.state == WorldGenState::Finished)
    }

    /// Builds the pipeline over a validated graph with `k` plates and
    /// imbalance tolerance `ratio`. Returns `None` exactly when the
    /// configuration is unusable: no plate, no cell, a zero ratio, or a
    /// ratio so large that the growth cap could overflow. More plates than
    /// cells is a degenerate configuration but a usable one: every cell
    /// becomes a seed and the surplus plates stay empty.
    pub fn new(graph: CellGraph, k: usize, ratio: usize) -> (r: Option<WorldGen>)
        requires
            graph.wf(),
        ensures
            r is Some <==> (k >= 1 && graph.spec_num_cells() >= 1 && ratio >= 1
                && graph.spec_num_cells() * ratio <= usize::MAX),
            r is Some ==> {
                let w = r->Some_0;
                &&& w.wf()
                &&& w.graph == graph
                &&& w.spec_num_regions() == k
                &&& w.partitioner.ratio == ratio
                &&& w.state == WorldGenState::SeedPlates
                &&& w.game == GameState::WorldGen
            },
    {
        let n = graph.num_cells();
        if k < 1 || n < 1 || ratio < 1 {
            return None;
        }
        let nn = n as u128;
        let rr = ratio as u128;
        proof {
            assert(nn * rr <= u128::MAX) by (nonlinear_arith)
                requires
                    nn <= u64::MAX,
                    rr <= u64::MAX,
            ;
        }
        if nn * rr > (usize::MAX as u128) {
            return None;
        }
        Some(
            WorldGen {
                graph,
                assignment: RegionAssignment::new(n, k),
                partitioner: Partitioner::new(ratio),
                boundaries: Vec::new(),
                surface: SurfaceClassification::new(n, k),
                omegas: Vec::new(),
                velocities: Vec::new(),
                state: WorldGenState::SeedPlates,
                game: GameState::WorldGen,
            },
        )
    }

    /// One tick: runs the active phase's work and advances the phase.
    /// `confirm` and `reset` are the user's edge-triggered signals;
    /// `omegas` carries the freshly drawn per-plate angular velocities and
    /// is read only by the `GenPlateVelocities` phase, which holds its
    /// state until it is handed a usable draw.
    pub fn tick(&mut self, confirm: bool, reset: bool, omegas: Option<&Vec<Vec3i>>)
        requires
            old(self).wf(),
        ensures
            final(self).wf(),
            final(self).graph == old(self).graph,
            final(self).spec_num_cells() == old(self).spec_num_cells(),
            final(self).spec_num_regions() == old(self).spec_num_regions(),
            final(self).partitioner.ratio == old(self).partitioner.ratio,
            // a cell's plate, once set, never changes
            forall|c: int|
                0 <= c < old(self).spec_num_cells() && old(self).assignment.region_of(c) is Some
                    ==> final(self).assignment.region_of(c) == old(self).assignment.region_of(c),
            // which phases may touch which state
            (old(self).state != WorldGenState::SeedPlates && old(self).state
                != WorldGenState::GenPlates ==> final(self).assignment == old(self).assignment),
            (old(self).state != WorldGenState::AssignPlateBoundaries ==> final(self).boundaries@
                == old(self).boundaries@),
            (old(self).state != WorldGenState::GenContinents && old(self).state
                != WorldGenState::FinishedContinents ==> final(self).surface.labels@ == old(
                self,
            ).surface.labels@ && final(self).surface.ocean@ == old(self).surface.ocean@),
            (old(self).state != WorldGenState::GenPlateVelocities ==> final(self).velocities@
                == old(self).velocities@ && final(self).omegas@ == old(self).omegas@),
            // the phase transitions
            (old(self).state == WorldGenState::SeedPlates ==> final(self).state
                == WorldGenState::GenPlates && final(self).partitioner.seeded && (forall|r: int|
                0 <= r < seeded_plate_count(final(self).assignment) ==> #[trigger] final(self).assignment.spec_size_of(r) == 1) && balanced(
                final(self).assignment,
                final(self).partitioner.ratio,
            )),
            (old(self).state == WorldGenState::GenPlates ==> (final(self).state
                == WorldGenState::GenPlates || final(self).state == WorldGenState::FinishedPlates)
                && (final(self).state == WorldGenState::FinishedPlates ==> final(self).assignment.complete() || no_growth_possible(
                final(self).graph,
                final(self).assignment,
            )) && (final(self).assignment.complete() ==> final(self).state
                == WorldGenState::FinishedPlates) && (old(self).partitioner.frontier@.len() > 0
                ==> count_assigned(final(self).assignment.cells@) <= count_assigned(
                old(self).assignment.cells@,
            ) + 1) && (old(self).partitioner.frontier@.len() > 0 && !final(self).partitioner.relaxed_last && balanced(old(self).assignment, old(self).partitioner.ratio)
                ==> balanced(final(self).assignment, old(self).partitioner.ratio)) && (final(self).state == WorldGenState::GenPlates ==> count_assigned(final(self).assignment.cells@)
                == count_assigned(old(self).assignment.cells@) + 1 || final(self).partitioner.frontier@.len() < old(self).partitioner.frontier@.len())),
            (old(self).state == WorldGenState::FinishedPlates ==> final(self).state == (if confirm {
                WorldGenState::AssignPlateBoundaries
            } else {
                WorldGenState::FinishedPlates
            })),
            (old(self).state == WorldGenState::AssignPlateBoundaries ==> (old(
                self,
            ).assignment.complete() ==> final(self).state == WorldGenState::FinishedPlateBoundaries)
                && (!old(self).assignment.complete() ==> *final(self) == *old(self))),
            (old(self).state == WorldGenState::FinishedPlateBoundaries ==> final(self).state == (
            if confirm {
                WorldGenState::GenContinents
            } else {
                WorldGenState::FinishedPlateBoundaries
            })),
            (old(self).state == WorldGenState::GenContinents ==> (old(self).assignment.complete()
                ==> final(self).state == WorldGenState::FinishedContinents) && (!old(
                self,
            ).assignment.complete() ==> *final(self) == *old(self))),
            (old(self).state == WorldGenState::FinishedContinents ==> (confirm ==> final(self).state
                == WorldGenState::GenPlateVelocities && final(self).surface == old(self).surface)
                && (!confirm && reset ==> final(self).state == WorldGenState::GenContinents
                && final(self).surface.labels_clear() && final(self).surface.ocean@ == old(
                self,
            ).surface.ocean@) && (!confirm && !reset ==> *final(self) == *old(self))),
            (old(self).state == WorldGenState::GenPlateVelocities ==> {
                let usable = omegas is Some && omegas->0@.len() == old(self).spec_num_regions() && (
                forall|r: int|
                    0 <= r < omegas->0@.len() ==> (#[trigger] omegas->0@[r]).bounded()) && old(
                    self,
                ).assignment.complete();
                &&& (usable ==> final(self).state == WorldGenState::JustChill && final(self).omegas@
                    == omegas->0@ && velocity_field_ok(
                    final(self).graph,
                    final(self).assignment,
                    final(self).omegas@,
                    final(self).velocities@,
                ))
                &&& (!usable ==> *final(self) == *old(self))
            }),
            (old(self).state == WorldGenState::JustChill ==> final(self).state == (if confirm {
                WorldGenState::Finished
            } else {
                WorldGenState::JustChill
            })),
            (old(self).state == WorldGenState::Finished ==> *final(self) == *old(self)),
    {
        match self.state {
            WorldGenState::SeedPlates => {
                self.partitioner.seed_flood_fill(&self.graph, &mut self.assignment);
                self.state = WorldGenState::GenPlates;
            },
            WorldGenState::GenPlates => {
                let res = self.partitioner.flood_fill(&self.graph, &mut self.assignment);
                match res {
                    StepResult::Done => {
                        self.state = WorldGenState::FinishedPlates;
                    },
                    StepResult::InProgress => {},
                }
            },
            WorldGenState::FinishedPlates => {
                if confirm {
                    self.state = WorldGenState::AssignPlateBoundaries;
                }
            },
            WorldGenState::AssignPlateBoundaries => {
                if self.assignment.is_complete() {
                    self.boundaries = assign_plate_boundaries(&self.graph, &self.assignment);
                    self.state = WorldGenState::FinishedPlateBoundaries;
                }
            },
            WorldGenState::FinishedPlateBoundaries => {
                if confirm {
                    self.state = WorldGenState::GenContinents;
                }
            },
            WorldGenState::GenContinents => {
                if self.assignment.is_complete() {
                    self.surface.assign_continental_plates(&self.assignment);
                    self.state = WorldGenState::FinishedContinents;
                }
            },
            WorldGenState::FinishedContinents => {
                if confirm {
                    self.state = WorldGenState::GenPlateVelocities;
                } else if reset {
                    self.surface.reset_continents();
                    self.state = WorldGenState::GenContinents;
                }
            },
            WorldGenState::GenPlateVelocities => {
                match omegas {
                    Some(om) => {
                        if self.omegas_usable(om) && self.assignment.is_complete() {
                            self.velocities = do_plate_velocities(
                                &self.graph,
                                &self.assignment,
                                om,
                            );
                            self.omegas = copy_vectors(om);
                            self.state = WorldGenState::JustChill;
                        }
                    },
                    None => {},
                }
            },
            WorldGenState::JustChill => {
                if confirm {
                    self.state = WorldGenState::Finished;
                    self.game = GameState::Simulation;
                }
            },
            WorldGenState::Finished => {},
        }
    }

    pub fn num_cells(&self) -> (r: usize)
        ensures
            r == self.spec_num_cells(),
    {
        self.graph.num_cells()
    }

    pub fn num_regions(&self) -> (r: usize)
        ensures
            r == self.spec_num_regions(),
    {
        self.assignment.num_regions()
    }

    pub fn world_gen_state(&self) -> (r: WorldGenState)
        ensures
            r == self.state,
    {
        self.state
    }

    pub fn game_state(&self) -> (r: GameState)
        ensures
            r == self.game,
    {
        self.game
    }

    /// The plate of cell `c`, or `None` while the Partitioner has not
    /// reached it.
    pub fn region_id(&self, c: usize) -> (r: Option<Plate>)
        requires
            self.wf(),
            c < self.spec_num_cells(),
        ensures
            r == self.assignment.region_of(c as int),
    {
        self.assignment.get(c)
    }

    /// Whether cell `c` lies on a plate boundary; `false` while the
    /// boundary pass has not run.
    pub fn is_boundary(&self, c: usize) -> (r: bool)
        requires
            self.wf(),
            c < self.spec_num_cells(),
        ensures
            boundaries_done_state(self.state) ==> r == is_boundary_spec(
                self.graph,
                self.assignment,
                c as int,
            ),
            !boundaries_done_state(self.state) ==> r == false,
    {
        if c < self.boundaries.len() {
            self.boundaries[c]
        } else {
            false
        }
    }

    /// The surface label of cell `c`, or `None` while unclassified.
    pub fn surface_label(&self, c: usize) -> (r: Option<SurfaceLabel>)
        requires
            self.wf(),
            c < self.spec_num_cells(),
        ensures
            r == self.surface.labels@[c as int],
    {
        self.surface.labels[c]
    }

    /// The velocity of cell `c`, or `None` while the velocity field has
    /// not been derived.
    pub fn velocity(&self, c: usize) -> (r: Option<FacePlateVelocity>)
        requires
            self.wf(),
            c < self.spec_num_cells(),
        ensures
            velocities_done_state(self.state) ==> r == Some(self.velocities@[c as int]),
            !velocities_done_state(self.state) ==> r is None,
    {
        if c < self.velocities.len() {
            Some(self.velocities[c])
        } else {
            None
        }
    }

    /// Whether a drawn set of angular velocities fits this pipeline: one
    /// per plate, each within the fixed-point bound.
    fn omegas_usable(&self, om: &Vec<Vec3i>) -> (r: bool)
        ensures
            r == (om@.len() == self.assignment.spec_num_regions() && forall|r: int|
                0 <= r < om@.len() ==> (#[trigger] om@[r]).bounded()),
    {
        if om.len() != self.assignment.num_regions() {
            return false;
        }
        let mut i: usize = 0;
        while i < om.len()
            invariant
                i <= om@.len(),
                forall|r: int| 0 <= r < i ==> (#[trigger] om@[r]).bounded(),
            decreases om@.len() - i,
        {
            if !om[i].in_bounds() {
                return false;
            }
            i += 1;
        }
        true
    }
}

/// An element-for-element copy of a vector list.
fn copy_vectors(src: &Vec<Vec3i>) -> (r: Vec<Vec3i>)
    ensures
        r@ == src@,
{
    let mut r: Vec<Vec3i> = Vec::new();
    let mut i: usize = 0;
    while i < src.len()
        invariant
            i <= src@.len(),
            r@ == src@.subrange(0, i as int),
        decreases src@.len() - i,
    {
        r.push(src[i]);
        proof {
            assert(r@ =~= src@.subrange(0, i + 1));
        }
        i += 1;
    }
    proof {
        assert(r@ =~= src@);
    }
    r
}

/// Totality at the pipeline level: once the phase machine has left the
/// partitioning phases behind, a connected graph has every cell assigned
/// to exactly one plate — so the boundary, surface and velocity passes
/// never meet an unassigned cell.
pub proof fn lemma_pipeline_partition_total(w: WorldGen)
    requires
        w.wf(),
        w.graph.connected(),
        partition_done_state(w.state),
    ensures
        w.assignment.complete(),
{
    assert(seeded_plate_count(w.assignment) >= 1);
    assert(w.assignment.spec_size_of(0) >= 1);
    crate::partition::lemma_partitioner_done_total(w.graph, w.assignment);
}

} // verus!
