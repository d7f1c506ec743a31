//! The per-cell velocity field: every plate rotates rigidly about its own
//! angular-velocity vector, so a cell's linear velocity is the cross
//! product of its plate's angular velocity and the cell's center position.
//!
//! The angular velocities themselves are random draws (a uniformly random
//! direction scaled by a random speed); sampling them involves square roots
//! and trigonometry, so the caller draws them — in fixed point, within
//! `COORD_BOUND` — and hands them in. The derivation from them is exact.

use vstd::prelude::*;

use crate::assignment::RegionAssignment;
use crate::graph::CellGraph;
use crate::vector::{lemma_cross_tangent, Vec3i};

verus! {

/// A cell's derived plate velocity.
#[derive(Clone, Copy, PartialEq, Eq, Structural, Debug)]
pub struct FacePlateVelocity {
    pub velocity: Vec3i,
}

/// `v` is the rigid-rotation field of `omegas` over the assignment: each
/// cell's velocity is its plate's angular velocity crossed with the cell's
/// center.
pub open spec fn velocity_field_ok(
    g: CellGraph,
    a: RegionAssignment,
    omegas: Seq<Vec3i>,
    v: Seq<FacePlateVelocity>,
) -> bool {
    &&& v.len() == g.spec_num_cells()
    &&& forall|c: int|
        0 <= c < g.spec_num_cells() ==> ((#[trigger] v[c]).velocity.x as int,
        v[c].velocity.y as int,
        v[c].velocity.z as int) == omegas[(a.region_of(c)->Some_0).0 as int].spec_cross(
            g.center_of(c),
        )
}

/// Derives every cell's velocity from its plate's angular velocity: one
/// pass of exact cross products.
pub fn do_plate_velocities(
    g: &CellGraph,
    a: &RegionAssignment,
    omegas: &Vec<Vec3i>,
) -> (v: Vec<FacePlateVelocity>)
    requires
        g.wf(),
        a.wf(),
        a.spec_num_cells() == g.spec_num_cells(),
        a.complete(),
        omegas@.len() == a.spec_num_regions(),
        forall|r: int| 0 <= r < omegas@.len() ==> (#[trigger] omegas@[r]).bounded(),
    ensures
        velocity_field_ok(*g, *a, omegas@, v@),
{
    let n = g.num_cells();
    let mut v: Vec<FacePlateVelocity> = Vec::new();
    let mut c: usize = 0;
    while c < n
        invariant
            g.wf(),
            a.wf(),
            a.spec_num_cells() == g.spec_num_cells(),
            a.complete(),
            omegas@.len() == a.spec_num_regions(),
            forall|r: int| 0 <= r < omegas@.len() ==> (#[trigger] omegas@[r]).bounded(),
            n == g.spec_num_cells(),
            c <= n,
            v@.len() == c,
            forall|cc: int|
                0 <= cc < c ==> ((#[trigger] v@[cc]).velocity.x as int,
                v@[cc].velocity.y as int,
                v@[cc].velocity.z as int) == omegas@[(a.region_of(cc)->Some_0).0 as int].spec_cross(
                    g.center_of(cc),
                ),
        decreases n - c,
    {
        let p = a.get(c).unwrap();
        let omega = omegas[p.0];
        let velocity = omega.cross(g.center(c));
        v.push(FacePlateVelocity { velocity });
        c += 1;
    }
    v
}

/// Velocity field rigidity: cells of the same plate move by the same
/// angular velocity — each cell's velocity is that one vector crossed with
/// the cell's own center.
pub proof fn lemma_velocity_rigidity(
    g: CellGraph,
    a: RegionAssignment,
    omegas: Seq<Vec3i>,
    v: Seq<FacePlateVelocity>,
    c1: int,
    c2: int,
)
    requires
        velocity_field_ok(g, a, omegas, v),
        0 <= c1 < g.spec_num_cells(),
        0 <= c2 < g.spec_num_cells(),
        a.region_of(c1) == a.region_of(c2),
    ensures
        ({
            let omega = omegas[(a.region_of(c1)->Some_0).0 as int];
            (v[c1].velocity.x as int, v[c1].velocity.y as int, v[c1].velocity.z as int)
                == omega.spec_cross(g.center_of(c1)) && (v[c2].velocity.x as int,
            v[c2].velocity.y as int,
            v[c2].velocity.z as int) == omega.spec_cross(g.center_of(c2))
        }),
{
}

/// The field is tangent to the sphere: every cell's velocity is orthogonal
/// to the cell's center position, exactly.
pub proof fn lemma_velocity_tangent(
    g: CellGraph,
    a: RegionAssignment,
    omegas: Seq<Vec3i>,
    v: Seq<FacePlateVelocity>,
    c: int,
)
    requires
        velocity_field_ok(g, a, omegas, v),
        0 <= c < g.spec_num_cells(),
    ensures
        v[c].velocity.spec_dot(g.center_of(c)) == 0,
{
    let omega = omegas[(a.region_of(c)->Some_0).0 as int];
    lemma_cross_tangent(omega, g.center_of(c));
}

} // verus!
