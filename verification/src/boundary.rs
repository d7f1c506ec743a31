//! Boundary detection: a single deterministic pass over a complete
//! assignment that marks every cell adjacent to a different plate.

use vstd::prelude::*;

use crate::assignment::RegionAssignment;
use crate::graph::CellGraph;

verus! {

/// Cell `c` lies on a plate boundary: some neighbor belongs to a different
/// plate.
pub open spec fn is_boundary_spec(g: CellGraph, a: RegionAssignment, c: int) -> bool {
    exists|j: int|
        0 <= j < g.neighbors_of(c).len() && a.region_of(#[trigger] g.neighbors_of(c)[j] as int)
            != a.region_of(c)
}

/// Marks each cell as boundary iff one of its neighbors belongs to a
/// different plate. Deterministic given the assignment, which must be
/// complete (an unassigned neighbor would be a fault in the caller).
pub fn assign_plate_boundaries(g: &CellGraph, a: &RegionAssignment) -> (flags: Vec<bool>)
    requires
        g.wf(),
        a.wf(),
        a.spec_num_cells() == g.spec_num_cells(),
        a.complete(),
    ensures
        flags@.len() == g.spec_num_cells(),
        forall|c: int|
            0 <= c < g.spec_num_cells() ==> flags@[c] == is_boundary_spec(*g, *a, c),
{
    let n = g.num_cells();
    let mut flags: Vec<bool> = Vec::new();
    let mut c: usize = 0;
    while c < n
        invariant
            g.wf(),
            a.wf(),
            a.spec_num_cells() == g.spec_num_cells(),
            a.complete(),
            n == g.spec_num_cells(),
            c <= n,
            flags@.len() == c,
            forall|cc: int| 0 <= cc < c ==> flags@[cc] == is_boundary_spec(*g, *a, cc),
        decreases n - c,
    {
        let own = a.get(c).unwrap();
        let deg = g.degree(c);
        let mut found = false;
        let mut j: usize = 0;
        while j < deg
            invariant
                g.wf(),
                a.wf(),
                a.spec_num_cells() == g.spec_num_cells(),
                a.complete(),
                n == g.spec_num_cells(),
                c < n,
                own == a.region_of(c as int)->Some_0,
                deg == g.neighbors_of(c as int).len(),
                j <= deg,
                found == exists|jj: int|
                    0 <= jj < j && a.region_of(#[trigger] g.neighbors_of(c as int)[jj] as int)
                        != a.region_of(c as int),
            decreases deg - j,
        {
            let nb = g.neighbor(c, j);
            let other = a.get(nb).unwrap();
            if other.0 != own.0 {
                found = true;
            }
            j += 1;
        }
        flags.push(found);
        c += 1;
    }
    flags
}

} // verus!
