//! The cell-adjacency graph of the subdivided sphere.
//!
//! The graph is built once by an outside geometry collaborator and is
//! immutable afterwards: each cell has a stable index, a fixed-point 3D
//! center position, and an ordered list of neighboring cell indices.
//! `CellGraph::new` validates the raw data (indices in range, symmetric
//! adjacency, bounded centers), so that everything downstream can rely on
//! `wf()`.

use vstd::prelude::*;

use crate::vector::Vec3i;

verus! {

/// Immutable, read-only adjacency structure over the surface cells.
pub struct CellGraph {
    pub neighbors: Vec<Vec<usize>>,
    pub centers: Vec<Vec3i>,
}

/// The raw-data well-formedness that `CellGraph::new` checks:
/// one center per cell, every neighbor index in range, adjacency symmetric,
/// every center within the fixed-point coordinate bound.
pub open spec fn graph_data_wf(neighbors: Seq<Vec<usize>>, centers: Seq<Vec3i>) -> bool {
    &&& centers.len() == neighbors.len()
    &&& forall|c: int, j: int|
        0 <= c < neighbors.len() && 0 <= j < neighbors[c]@.len() ==> (
        #[trigger] neighbors[c]@[j] as int) < neighbors.len()
    &&& forall|c: int, j: int|
        0 <= c < neighbors.len() && 0 <= j < neighbors[c]@.len()
            ==> neighbors[#[trigger] neighbors[c]@[j] as int]@.contains(c as usize)
    &&& forall|c: int| 0 <= c < centers.len() ==> (#[trigger] centers[c]).bounded()
}

impl CellGraph {
    /// Number of cells on the surface.
    pub open spec fn spec_num_cells(self) -> nat {
        self.neighbors@.len()
    }

    /// The ordered neighbor list of cell `c`.
    pub open spec fn neighbors_of(self, c: int) -> Seq<usize> {
        self.neighbors@[c]@
    }

    /// The fixed-point center position of cell `c`.
    pub open spec fn center_of(self, c: int) -> Vec3i {
        self.centers@[c]
    }

    pub open spec fn wf(self) -> bool {
        graph_data_wf(self.neighbors@, self.centers@)
    }

    /// `b` is a neighbor of `a`.
    pub open spec fn adjacent(self, a: int, b: usize) -> bool {
        &&& 0 <= a < self.spec_num_cells()
        &&& self.neighbors_of(a).contains(b)
    }

    /// `p` walks the graph along adjacent cells.
    pub open spec fn is_path(self, p: Seq<usize>) -> bool {
        &&& p.len() >= 1
        &&& forall|i: int| 0 <= i < p.len() ==> (#[trigger] p[i] as int) < self.spec_num_cells()
        &&& forall|i: int| 0 <= i < p.len() - 1 ==> self.adjacent(#[trigger] p[i] as int, p[i + 1])
    }

    /// Some path joins `a` to `b`.
    pub open spec fn has_path(self, a: usize, b: usize) -> bool {
        exists|p: Seq<usize>| self.is_path(p) && p.first() == a && p.last() == b
    }

    /// Every pair of cells is joined by a path.
    pub open spec fn connected(self) -> bool {
        forall|a: usize, b: usize|
            a < self.spec_num_cells() && b < self.spec_num_cells() ==> #[trigger] self.has_path(
                a,
                b,
            )
    }

    /// Validates the raw adjacency data and wraps it. Returns `None` exactly
    /// when the data is malformed (length mismatch, an index out of range,
    /// an asymmetric edge, or an unbounded center).
    pub fn new(neighbors: Vec<Vec<usize>>, centers: Vec<Vec3i>) -> (r: Option<CellGraph>)
        ensures
            r is Some <==> graph_data_wf(neighbors@, centers@),
            r is Some ==> r->Some_0.neighbors@ == neighbors@ && r->Some_0.centers@ == centers@,
    {
        let n = neighbors.len();
        if centers.len() != n {
            return None;
        }
        let mut c: usize = 0;
        while c < n
            invariant
                n == neighbors@.len(),
                centers@.len() == n,
                c <= n,
                forall|i: int, j: int|
                    0 <= i < c && 0 <= j < neighbors@[i]@.len() ==> (
                    #[trigger] neighbors@[i]@[j] as int) < n,
                forall|i: int, j: int|
                    0 <= i < c && 0 <= j < neighbors@[i]@.len()
                        ==> neighbors@[#[trigger] neighbors@[i]@[j] as int]@.contains(i as usize),
                forall|i: int| 0 <= i < c ==> (#[trigger] centers@[i]).bounded(),
            decreases n - c,
        {
            if !centers[c].in_bounds() {
                return None;
            }
            let deg = neighbors[c].len();
            let mut j: usize = 0;
            while j < deg
                invariant
                    n == neighbors@.len(),
                    c < n,
                    deg == neighbors@[c as int]@.len(),
                    j <= deg,
                    forall|jj: int|
                        0 <= jj < j ==> (#[trigger] neighbors@[c as int]@[jj] as int) < n,
                    forall|jj: int|
                        0 <= jj < j ==> neighbors@[#[trigger] neighbors@[c as int]@[jj] as int]@
                            .contains(c),
                decreases deg - j,
            {
                let nb = neighbors[c][j];
                if nb >= n {
                    return None;
                }
                if !list_contains(&neighbors[nb], c) {
                    return None;
                }
                j += 1;
            }
            c += 1;
        }
        Some(CellGraph { neighbors, centers })
    }

    pub fn num_cells(&self) -> (r: usize)
        ensures
            r == self.spec_num_cells(),
    {
        self.neighbors.len()
    }

    pub fn degree(&self, c: usize) -> (r: usize)
        requires
            c < self.spec_num_cells(),
        ensures
            r == self.neighbors_of(c as int).len(),
    {
        self.neighbors[c].len()
    }

    pub fn neighbor(&self, c: usize, j: usize) -> (r: usize)
        requires
            c < self.spec_num_cells(),
            j < self.neighbors_of(c as int).len(),
        ensures
            r == self.neighbors_of(c as int)[j as int],
    {
        self.neighbors[c][j]
    }

    pub fn center(&self, c: usize) -> (r: Vec3i)
        requires
            self.wf(),
            c < self.spec_num_cells(),
        ensures
            r == self.center_of(c as int),
    {
        self.centers[c]
    }
}

/// A set of cells `s` is closed when no cell outside `s` has a neighbor
/// inside `s`. With symmetric adjacency no edge then crosses the border of
/// `s`, so a path that starts in `s` stays in `s`.
pub open spec fn closed_set(g: CellGraph, s: Set<usize>) -> bool {
    forall|c: usize, j: int|
        c < g.spec_num_cells() && !s.contains(c) && 0 <= j < g.neighbors_of(c as int).len()
            ==> !s.contains(#[trigger] g.neighbors_of(c as int)[j])
}

/// A path that starts inside a closed set ends inside it.
pub proof fn lemma_path_stays_in_closed_set(g: CellGraph, s: Set<usize>, p: Seq<usize>)
    requires
        g.wf(),
        g.is_path(p),
        closed_set(g, s),
        s.contains(p.first()),
    ensures
        s.contains(p.last()),
    decreases p.len(),
{
    if p.len() > 1 {
        let a = p[0];
        let b = p[1];
        assert(g.adjacent(a as int, b));
        let j = choose|j: int|
            0 <= j < g.neighbors_of(a as int).len() && g.neighbors_of(a as int)[j] == b;
        // Symmetry of wf: a is among b's neighbors.
        assert(g.neighbors_of(b as int).contains(a));
        if !s.contains(b) {
            let jj = choose|jj: int|
                0 <= jj < g.neighbors_of(b as int).len() && g.neighbors_of(b as int)[jj] == a;
            assert(!s.contains(g.neighbors_of(b as int)[jj]));
            assert(false);
        }
        let q = p.subrange(1, p.len() as int);
        assert(g.is_path(q)) by {
            assert(forall|i: int| 0 <= i < q.len() ==> q[i] == p[i + 1]);
        }
        lemma_path_stays_in_closed_set(g, s, q);
        assert(q.last() == p.last());
    }
}

/// In a connected graph, a non-empty closed set of cells holds every cell.
pub proof fn lemma_connected_closed_set_is_total(g: CellGraph, s: Set<usize>, witness: usize)
    requires
        g.wf(),
        g.connected(),
        closed_set(g, s),
        witness < g.spec_num_cells(),
        s.contains(witness),
    ensures
        forall|c: usize| c < g.spec_num_cells() ==> s.contains(c),
{
    assert forall|c: usize| c < g.spec_num_cells() implies s.contains(c) by {
        assert(g.has_path(witness, c));
        let p = choose|p: Seq<usize>| g.is_path(p) && p.first() == witness && p.last() == c;
        lemma_path_stays_in_closed_set(g, s, p);
    }
}

/// Linear scan for a cell index in a neighbor list.
fn list_contains(v: &Vec<usize>, x: usize) -> (r: bool)
    ensures
        r == v@.contains(x),
{
    let mut i: usize = 0;
    while i < v.len()
        invariant
            i <= v@.len(),
            forall|k: int| 0 <= k < i ==> v@[k] != x,
        decreases v@.len() - i,
    {
        if v[i] == x {
            assert(v@.contains(x));
            return true;
        }
        i += 1;
    }
    assert(!v@.contains(x));
    false
}

} // verus!
