//! Balanced multi-source flood fill over the cell graph.
//!
//! Stage A (`seed_flood_fill`) picks distinct cells uniformly at random as
//! seeds, one per plate (capped at the number of cells, so that more
//! plates than cells is recovered rather than refused). Stage B
//! (`flood_fill`) runs once per tick and
//! performs at most one assignment: it caps growth of plates that are
//! already `ratio` times larger than the smallest plate, relaxing the cap
//! only when every frontier plate is capped at once, and otherwise grows a
//! randomly chosen frontier cell's plate into one of its unassigned
//! neighbors. If the frontier empties before every cell is assigned, a
//! cleanup pass (`finalize`) lets leftover cells adopt an assigned
//! neighbor's plate until nothing changes, trading balance for totality.

use vstd::prelude::*;

use crate::assignment::{
    count_assigned, count_region, lemma_count_assigned_le_len, lemma_count_assigned_set,
    lemma_count_region_at_least_one, lemma_count_region_le_assigned,
    lemma_count_region_pos_witness, Plate, RegionAssignment,
};
use crate::graph::{closed_set, lemma_connected_closed_set_is_total, CellGraph};
use crate::rng::{rand_index, sample_distinct};

verus! {

/// What one Stage-B tick reports: `Done` once every cell has a plate (or
/// once growth has provably stopped), `InProgress` otherwise.
#[derive(Clone, Copy, PartialEq, Eq, Structural, Debug)]
pub enum StepResult {
    InProgress,
    Done,
}

/// No unassigned cell has an assigned neighbor: flood fill and adoption can
/// make no further progress. On a connected graph with at least one seeded
/// cell this implies completeness (`lemma_no_growth_means_complete`).
pub open spec fn no_growth_possible(g: CellGraph, a: RegionAssignment) -> bool {
    forall|c: usize, j: int|
        c < g.spec_num_cells() && a.region_of(c as int) is None && 0 <= j < g.neighbors_of(
            c as int,
        ).len() ==> a.region_of(#[trigger] g.neighbors_of(c as int)[j] as int) is None
}

/// How many plates receive a seed: every plate when `K` is at most the
/// cell count, one plate per cell otherwise. The degenerate configuration
/// `K > num_cells` is recovered, not refused: the surplus plates simply
/// stay empty for the whole run.
pub open spec fn seeded_plate_count(a: RegionAssignment) -> int {
    if a.spec_num_regions() <= a.spec_num_cells() {
        a.spec_num_regions() as int
    } else {
        a.spec_num_cells() as int
    }
}

/// Every assigned cell that still has an unassigned neighbor stands on the
/// frontier. (The converse is deliberately not required: a frontier cell
/// whose last unassigned neighbor was taken by another plate leaves only
/// when it is next picked, as the expansion step prescribes.)
pub open spec fn frontier_covers(g: CellGraph, a: RegionAssignment, frontier: Seq<usize>) -> bool {
    forall|c: usize, j: int|
        c < g.spec_num_cells() && a.region_of(c as int) is Some && 0 <= j < g.neighbors_of(
            c as int,
        ).len() && a.region_of(#[trigger] g.neighbors_of(c as int)[j] as int) is None
            ==> frontier.contains(c)
}

/// With symmetric adjacency, an empty frontier under the covering
/// invariant means no assigned cell borders an unassigned one — growth has
/// stopped. This is why, on a connected graph, the main loop alone reaches
/// every cell and the cleanup pass is a safety net.
pub proof fn lemma_empty_frontier_no_growth(
    g: CellGraph,
    a: RegionAssignment,
    frontier: Seq<usize>,
)
    requires
        g.wf(),
        a.spec_num_cells() == g.spec_num_cells(),
        frontier_covers(g, a, frontier),
        frontier.len() == 0,
    ensures
        no_growth_possible(g, a),
{
    assert forall|u: usize, j: int|
        u < g.spec_num_cells() && a.region_of(u as int) is None && 0 <= j < g.neighbors_of(
            u as int,
        ).len() implies a.region_of(#[trigger] g.neighbors_of(u as int)[j] as int) is None by {
        let v = g.neighbors_of(u as int)[j];
        if a.region_of(v as int) is Some {
            assert(g.neighbors_of(v as int).contains(u));
            let jj = choose|jj: int|
                0 <= jj < g.neighbors_of(v as int).len() && g.neighbors_of(v as int)[jj] == u;
            assert(a.region_of(g.neighbors_of(v as int)[jj] as int) is None);
            assert(frontier.contains(v));
            assert(false);
        }
    }
}

/// Every pair of non-empty plates is within `ratio` of each other in size.
pub open spec fn balanced(a: RegionAssignment, ratio: usize) -> bool {
    forall|r1: int, r2: int|
        0 <= r1 < a.spec_num_regions() && 0 <= r2 < a.spec_num_regions() && #[trigger] a
            .spec_size_of(r1) >= 1 && #[trigger] a.spec_size_of(r2) >= 1 ==> a.spec_size_of(r1)
            <= ratio * a.spec_size_of(r2)
}

/// The incremental flood-fill state machine. It owns the frontier and the
/// balance configuration; the `RegionAssignment` it grows is passed to each
/// step, so the algorithm is independent of any scheduler.
pub struct Partitioner {
    /// Cells that own a plate and may still have unassigned neighbors.
    pub frontier: Vec<usize>,
    /// The size-imbalance tolerance ratio `R`.
    pub ratio: usize,
    /// Whether Stage A has run.
    pub seeded: bool,
    /// Whether the last tick fell back to the unfiltered frontier.
    pub relaxed_last: bool,
    /// Diagnostic: ticks that needed the relaxation fallback.
    pub relaxed_steps: u64,
    /// Diagnostic: cells assigned by the cleanup pass instead of Stage B.
    pub adopted_cells: u64,
}

impl Partitioner {
    /// The machine's invariant, tied to the graph it partitions and the
    /// assignment it grows.
    pub open spec fn inv(self, g: CellGraph, a: RegionAssignment) -> bool {
        &&& g.wf()
        &&& a.wf()
        &&& a.spec_num_cells() == g.spec_num_cells()
        &&& a.spec_num_regions() >= 1
        &&& self.ratio >= 1
        &&& a.spec_num_cells() * self.ratio <= usize::MAX
        &&& forall|i: int|
            0 <= i < self.frontier@.len() ==> (#[trigger] self.frontier@[i] as int)
                < g.spec_num_cells() && a.region_of(self.frontier@[i] as int) is Some
        &&& frontier_covers(g, a, self.frontier@)
        &&& self.seeded ==> forall|r: int|
            0 <= r < seeded_plate_count(a) ==> #[trigger] a.spec_size_of(r) >= 1
    }

    pub fn new(ratio: usize) -> (r: Partitioner)
        requires
            ratio >= 1,
        ensures
            r.ratio == ratio,
            !r.seeded,
            r.frontier@.len() == 0,
    {
        Partitioner {
            frontier: Vec::new(),
            ratio,
            seeded: false,
            relaxed_last: false,
            relaxed_steps: 0,
            adopted_cells: 0,
        }
    }

    /// Whether the last tick used the relaxation fallback of the balance
    /// cap.
    pub fn last_step_relaxed(&self) -> (r: bool)
        ensures
            r == self.relaxed_last,
    {
        self.relaxed_last
    }

    /// Stage A: choose distinct cells uniformly at random as seeds, one
    /// per plate, and assign seed `i` to plate `i`, putting each on the
    /// frontier. Every seeded plate then has size exactly one, and the
    /// frontier holds exactly the seed cells. When `K` exceeds the number
    /// of cells — a degenerate configuration that is recovered, not
    /// refused — every cell becomes a seed and the surplus plates stay
    /// empty.
    pub fn seed_flood_fill(&mut self, g: &CellGraph, a: &mut RegionAssignment)
        requires
            g.wf(),
            old(a).wf(),
            old(a).spec_num_cells() == g.spec_num_cells(),
            old(a).spec_num_regions() >= 1,
            forall|c: int| 0 <= c < old(a).spec_num_cells() ==> old(a).region_of(c) is None,
            old(self).ratio >= 1,
            old(a).spec_num_cells() * old(self).ratio <= usize::MAX,
            !old(self).seeded,
            old(self).frontier@.len() == 0,
        ensures
            final(self).inv(*g, *final(a)),
            final(self).seeded,
            final(self).ratio == old(self).ratio,
            final(a).spec_num_cells() == old(a).spec_num_cells(),
            final(a).spec_num_regions() == old(a).spec_num_regions(),
            forall|r: int|
                0 <= r < seeded_plate_count(*final(a)) ==> #[trigger] final(a).spec_size_of(r)
                    == 1,
            forall|r: int|
                seeded_plate_count(*final(a)) <= r < final(a).spec_num_regions()
                    ==> #[trigger] final(a).spec_size_of(r) == 0,
            balanced(*final(a), final(self).ratio),
            count_assigned(final(a).cells@) == seeded_plate_count(*final(a)),
            final(self).frontier@.len() == seeded_plate_count(*final(a)),
            // the frontier is exactly the seed set: pairwise distinct, and
            // a cell stands on it iff it received a plate
            forall|t1: int, t2: int|
                0 <= t1 < t2 < final(self).frontier@.len() ==> final(self).frontier@[t1] != final(self).frontier@[t2],
            forall|c: usize|
                c < final(a).spec_num_cells() ==> (final(a).region_of(c as int) is Some <==> final(self).frontier@.contains(c)),
    {
        let n = a.num_cells();
        let k = a.num_regions();
        proof {
            assert forall|c: int| 0 <= c < a.cells@.len() implies a.cells@[c] is None by {
                assert(a.region_of(c) is None);
            }
            assert forall|r: int| 0 <= r < k implies #[trigger] a.spec_size_of(r) == 0 by {
                crate::assignment::lemma_count_region_all_none(a.cells@, r as usize);
            }
            crate::assignment::lemma_count_assigned_all_none(a.cells@);
        }
        let seeds = sample_distinct(n, k);
        let m = seeds.len();
        proof {
            assert(m == seeded_plate_count(*a));
        }
        let mut i: usize = 0;
        while i < m
            invariant
                g.wf(),
                a.wf(),
                a.spec_num_cells() == n,
                a.spec_num_regions() == k,
                a.spec_num_cells() == g.spec_num_cells(),
                1 <= k,
                m == seeded_plate_count(*a),
                m <= k,
                m <= n,
                i <= m,
                seeds@.len() == m,
                forall|t: int| 0 <= t < m ==> #[trigger] seeds@[t] < n,
                forall|t1: int, t2: int| 0 <= t1 < t2 < m ==> seeds@[t1] != seeds@[t2],
                forall|c: int|
                    0 <= c < n ==> ((#[trigger] a.region_of(c)) is Some <==> exists|t: int|
                        0 <= t < i && seeds@[t] as int == c),
                forall|r: int| 0 <= r < i ==> #[trigger] a.spec_size_of(r) == 1,
                forall|r: int| i <= r < k ==> #[trigger] a.spec_size_of(r) == 0,
                count_assigned(a.cells@) == i,
                self.frontier@ == seeds@.subrange(0, i as int),
                self.ratio == old(self).ratio,
                self.relaxed_steps == old(self).relaxed_steps,
                self.adopted_cells == old(self).adopted_cells,
                self.seeded == old(self).seeded,
                self.relaxed_last == old(self).relaxed_last,
            decreases m - i,
        {
            let s = seeds[i];
            let ghost a_prev = *a;
            proof {
                if a.region_of(s as int) is Some {
                    let t = choose|t: int| 0 <= t < i && seeds@[t] as int == s as int;
                    assert(seeds@[t] != seeds@[i as int]);
                    assert(false);
                }
                lemma_count_assigned_set(a.cells@, s as int, Plate(i as usize));
            }
            a.set(s, Plate(i));
            self.frontier.push(s);
            proof {
                assert(self.frontier@ =~= seeds@.subrange(0, i + 1));
                assert forall|c: int|
                    0 <= c < n implies ((#[trigger] a.region_of(c)) is Some <==> exists|t: int|
                    0 <= t < i + 1 && seeds@[t] as int == c) by {
                    if c == s as int {
                        assert(a.cells@ == a_prev.cells@.update(s as int, Some(Plate(i as usize))));
                        assert(a.region_of(c) is Some);
                        assert(0 <= i < i + 1 && seeds@[i as int] as int == c);
                    } else {
                        assert(a.region_of(c) == a_prev.region_of(c));
                        if a.region_of(c) is Some {
                            assert((a_prev.region_of(c)) is Some);
                            let t = choose|t: int| 0 <= t < i && seeds@[t] as int == c;
                            assert(0 <= t < i + 1 && seeds@[t] as int == c);
                        }
                        if exists|t: int| 0 <= t < i + 1 && seeds@[t] as int == c {
                            let t = choose|t: int| 0 <= t < i + 1 && seeds@[t] as int == c;
                            assert(t != i);
                            assert(0 <= t < i && seeds@[t] as int == c);
                            assert((a_prev.region_of(c)) is Some);
                        }
                    }
                }
                assert forall|r: int| 0 <= r < i + 1 implies #[trigger] a.spec_size_of(r) == 1 by {
                    if r == i {
                        assert(a_prev.spec_size_of(r) == 0);
                    } else {
                        assert(a_prev.spec_size_of(r) == 1);
                    }
                }
                assert forall|r: int| i + 1 <= r < k implies #[trigger] a.spec_size_of(r) == 0 by {
                    assert(a_prev.spec_size_of(r) == 0);
                }
            }
            i += 1;
        }
        self.seeded = true;
        proof {
            assert(self.frontier@ =~= seeds@);
            assert forall|c: usize|
                c < n implies (a.region_of(c as int) is Some <==> self.frontier@.contains(c)) by {
                if a.region_of(c as int) is Some {
                    let t = choose|t: int| 0 <= t < m && seeds@[t] as int == c as int;
                    assert(self.frontier@[t] == c);
                    assert(self.frontier@.contains(c));
                }
                if self.frontier@.contains(c) {
                    let t = choose|t: int| 0 <= t < self.frontier@.len() && self.frontier@[t] == c;
                    assert(seeds@[t] as int == c as int);
                    assert(a.region_of(c as int) is Some);
                }
            }
            assert(frontier_covers(*g, *a, self.frontier@)) by {
                assert forall|c: usize, j: int|
                    c < g.spec_num_cells() && a.region_of(c as int) is Some && 0 <= j
                        < g.neighbors_of(c as int).len() && a.region_of(
                        #[trigger] g.neighbors_of(c as int)[j] as int,
                    ) is None implies self.frontier@.contains(c) by {
                    let t = choose|t: int| 0 <= t < m && seeds@[t] as int == c as int;
                    assert(self.frontier@[t] == c);
                }
            }
            assert forall|r1: int, r2: int|
                0 <= r1 < a.spec_num_regions() && 0 <= r2 < a.spec_num_regions() && a.spec_size_of(
                    r1,
                ) >= 1 && a.spec_size_of(r2) >= 1 implies a.spec_size_of(r1) <= self.ratio
                * a.spec_size_of(r2) by {
                if r1 >= m {
                    assert(a.spec_size_of(r1) == 0);
                }
                if r2 >= m {
                    assert(a.spec_size_of(r2) == 0);
                }
                assert(a.spec_size_of(r1) == 1 && a.spec_size_of(r2) == 1);
            }
        }
    }

    /// Stage B, one tick: at most one cell is assigned. The smallest
    /// non-empty plate's size caps growth (`min_size * ratio`); frontier
    /// cells of capped plates are passed over unless every frontier cell
    /// is capped at once, in which case the cap is relaxed for this tick.
    /// The picked frontier cell grows its plate into one of its unassigned
    /// neighbors; a frontier cell with no unassigned neighbors becomes
    /// interior and leaves the frontier. Once the frontier empties, the
    /// cleanup pass runs and the tick reports `Done`.
    pub fn flood_fill(&mut self, g: &CellGraph, a: &mut RegionAssignment) -> (res: StepResult)
        requires
            old(self).inv(*g, *old(a)),
            old(self).seeded,
        ensures
            final(self).inv(*g, *final(a)),
            final(self).seeded,
            final(self).ratio == old(self).ratio,
            final(a).spec_num_cells() == old(a).spec_num_cells(),
            final(a).spec_num_regions() == old(a).spec_num_regions(),
            forall|c: int|
                0 <= c < old(a).spec_num_cells() && old(a).region_of(c) is Some
                    ==> final(a).region_of(c) == old(a).region_of(c),
            forall|r: int|
                0 <= r < old(a).spec_num_regions()
                    ==> final(a).spec_size_of(r) >= old(a).spec_size_of(r),
            old(self).frontier@.len() > 0 ==> count_assigned(final(a).cells@) <= count_assigned(
                old(a).cells@,
            ) + 1,
            res is Done ==> final(a).complete() || no_growth_possible(*g, *final(a)),
            final(a).complete() ==> res is Done,
            // progress: a tick that does not finish either assigns a cell
            // or retires a frontier cell, so Stage B cannot stall
            res is InProgress ==> count_assigned(final(a).cells@) == count_assigned(
                old(a).cells@,
            ) + 1 || final(self).frontier@.len() < old(self).frontier@.len(),
            // every cell assigned by this tick keeps a neighbor of its own
            // plate: plates grow only along adjacency
            forall|c: int|
                0 <= c < old(a).spec_num_cells() && old(a).region_of(c) is None && final(a).region_of(c) is Some ==> exists|j: int|
                    0 <= j < g.neighbors_of(c).len() && final(a).region_of(
                        #[trigger] g.neighbors_of(c)[j] as int,
                    ) == final(a).region_of(c),
            // and outside the cleanup pass, that neighbor held the plate
            // already before the tick: the cell joined an adjacent plate
            old(self).frontier@.len() > 0 ==> forall|c: int|
                0 <= c < old(a).spec_num_cells() && old(a).region_of(c) is None && final(a).region_of(c) is Some ==> exists|j: int|
                    0 <= j < g.neighbors_of(c).len() && old(a).region_of(
                        #[trigger] g.neighbors_of(c)[j] as int,
                    ) == final(a).region_of(c),
            old(self).frontier@.len() > 0 && !final(self).relaxed_last && balanced(
                *old(a),
                old(self).ratio,
            ) ==> balanced(*final(a), old(self).ratio),
    {
        if a.is_complete() {
            self.relaxed_last = false;
            return StepResult::Done;
        }
        let n = a.num_cells();
        let flen = self.frontier.len();
        if flen == 0 {
            self.finalize(g, a);
            self.relaxed_last = false;
            return StepResult::Done;
        }
        // 1. the size of the smallest non-empty plate (plate 0 always owns
        // its seed: the graph has an unassigned cell, so it is not empty)
        let k = a.num_regions();
        proof {
            if a.cells@.len() == 0 {
                assert(a.complete());
            }
            assert(seeded_plate_count(*a) >= 1);
            assert(a.spec_size_of(0) >= 1);
        }
        let mut min_size = a.region_size(0);
        let mut r: usize = 1;
        while r < k
            invariant
                a.wf(),
                k == a.spec_num_regions(),
                1 <= r <= k,
                min_size >= 1,
                exists|rr: int| 0 <= rr < r && #[trigger] a.spec_size_of(rr) == min_size,
                forall|rr: int|
                    0 <= rr < r && #[trigger] a.spec_size_of(rr) >= 1 ==> min_size
                        <= a.spec_size_of(rr),
            decreases k - r,
        {
            let s = a.region_size(r);
            if s >= 1 && s < min_size {
                min_size = s;
            }
            r += 1;
        }
        // 2. the growth cap
        proof {
            let rr = choose|rr: int| 0 <= rr < k && #[trigger] a.spec_size_of(rr) == min_size;
            lemma_count_region_le_assigned(a.cells@, rr as usize);
            lemma_count_assigned_le_len(a.cells@);
            assert(min_size <= n);
            assert(min_size * self.ratio <= n * self.ratio) by (nonlinear_arith)
                requires
                    min_size <= n,
                    self.ratio >= 0,
            ;
        }
        let max_allowed = min_size * self.ratio;
        // 3. the frontier positions whose plate is still under the cap
        let mut filtered: Vec<usize> = Vec::new();
        let mut i: usize = 0;
        while i < flen
            invariant
                g.wf(),
                a.wf(),
                n == a.spec_num_cells(),
                a.spec_num_cells() == g.spec_num_cells(),
                flen == self.frontier@.len(),
                i <= flen,
                forall|t: int|
                    0 <= t < self.frontier@.len() ==> (#[trigger] self.frontier@[t] as int)
                        < g.spec_num_cells() && a.region_of(self.frontier@[t] as int) is Some,
                forall|t: int| 0 <= t < filtered@.len() ==> #[trigger] filtered@[t] < flen,
                forall|t: int|
                    0 <= t < filtered@.len() ==> a.spec_size_of(
                        (a.region_of(self.frontier@[#[trigger] filtered@[t] as int] as int)
                            ->Some_0).0 as int,
                    ) < max_allowed,
            decreases flen - i,
        {
            let cell = self.frontier[i];
            let p = a.get(cell).unwrap();
            if a.region_size(p.0) < max_allowed {
                filtered.push(i);
            }
            i += 1;
        }
        // 4. pick a frontier cell, relaxing the cap only if it excluded
        // every frontier cell at once
        let relaxed = filtered.len() == 0;
        let pick_pos = if relaxed {
            rand_index(flen)
        } else {
            let ri = rand_index(filtered.len());
            filtered[ri]
        };
        let cell = self.frontier[pick_pos];
        let plate = a.get(cell).unwrap();
        // 5. the picked cell's unassigned neighbors
        let deg = g.degree(cell);
        let mut unassigned: Vec<usize> = Vec::new();
        let mut j: usize = 0;
        while j < deg
            invariant
                g.wf(),
                a.wf(),
                n == a.spec_num_cells(),
                a.spec_num_cells() == g.spec_num_cells(),
                (cell as int) < g.spec_num_cells(),
                deg == g.neighbors_of(cell as int).len(),
                j <= deg,
                forall|t: int|
                    0 <= t < unassigned@.len() ==> (#[trigger] unassigned@[t] as int) < n
                        && a.region_of(unassigned@[t] as int) is None,
                forall|t: int|
                    0 <= t < unassigned@.len() ==> g.neighbors_of(cell as int).contains(
                        #[trigger] unassigned@[t],
                    ),
                forall|jj: int|
                    0 <= jj < j && a.region_of(
                        #[trigger] g.neighbors_of(cell as int)[jj] as int,
                    ) is None ==> unassigned@.contains(g.neighbors_of(cell as int)[jj]),
            decreases deg - j,
        {
            let nb = g.neighbor(cell, j);
            let ghost unassigned_prev = unassigned@;
            if a.get(nb).is_none() {
                unassigned.push(nb);
            }
            proof {
                assert forall|t: int|
                    0 <= t < unassigned@.len() implies g.neighbors_of(cell as int).contains(
                    #[trigger] unassigned@[t],
                ) by {
                    if t == unassigned@.len() - 1 && unassigned@.len() > unassigned_prev.len() {
                        assert(g.neighbors_of(cell as int)[j as int] == unassigned@[t]);
                    }
                }
                assert forall|jj: int|
                    0 <= jj < j + 1 && a.region_of(
                        #[trigger] g.neighbors_of(cell as int)[jj] as int,
                    ) is None implies unassigned@.contains(g.neighbors_of(cell as int)[jj]) by {
                    if jj == j {
                        assert(unassigned@[unassigned@.len() - 1] == g.neighbors_of(
                            cell as int,
                        )[jj]);
                    } else {
                        let u = g.neighbors_of(cell as int)[jj];
                        assert(unassigned_prev.contains(u));
                        let t = choose|t: int|
                            0 <= t < unassigned_prev.len() && unassigned_prev[t] == u;
                        assert(unassigned@[t] == u);
                    }
                }
            }
            j += 1;
        }
        if unassigned.len() == 0 {
            // interior now: leaves the frontier; nothing is assigned
            let ghost fr_old = self.frontier@;
            self.frontier.swap_remove(pick_pos);
            self.relaxed_last = relaxed;
            if relaxed && self.relaxed_steps < u64::MAX {
                self.relaxed_steps = self.relaxed_steps + 1;
            }
            proof {
                // every neighbor of the picked cell is assigned
                assert forall|jj: int|
                    0 <= jj < g.neighbors_of(cell as int).len() implies a.region_of(
                    #[trigger] g.neighbors_of(cell as int)[jj] as int,
                ) is Some by {
                    if a.region_of(g.neighbors_of(cell as int)[jj] as int) is None {
                        assert(unassigned@.contains(g.neighbors_of(cell as int)[jj]));
                        assert(false);
                    }
                }
                // the new frontier keeps every member but the picked cell
                assert forall|t: int|
                    0 <= t < self.frontier@.len() implies (#[trigger] self.frontier@[t] as int)
                    < g.spec_num_cells() && a.region_of(self.frontier@[t] as int) is Some by {
                    assert(self.frontier@[t] == fr_old[t] || self.frontier@[t] == fr_old[fr_old.len()
                        - 1]);
                }
                assert(frontier_covers(*g, *a, self.frontier@)) by {
                    assert forall|c: usize, j2: int|
                        c < g.spec_num_cells() && a.region_of(c as int) is Some && 0 <= j2
                            < g.neighbors_of(c as int).len() && a.region_of(
                            #[trigger] g.neighbors_of(c as int)[j2] as int,
                        ) is None implies self.frontier@.contains(c) by {
                        if c == cell {
                            assert(a.region_of(g.neighbors_of(c as int)[j2] as int) is Some);
                            assert(false);
                        } else {
                            assert(fr_old.contains(c));
                            let t = choose|t: int| 0 <= t < fr_old.len() && fr_old[t] == c;
                            assert(t != pick_pos);
                            if t < fr_old.len() - 1 {
                                assert(self.frontier@[t] == c);
                            } else {
                                assert(pick_pos < fr_old.len() - 1);
                                assert(self.frontier@[pick_pos as int] == c);
                            }
                            assert(self.frontier@.contains(c));
                        }
                    }
                }
            }
            return StepResult::InProgress;
        }
        let ui = rand_index(unassigned.len());
        let nb = unassigned[ui];
        let ghost a_before = *a;
        let ghost fr_before = self.frontier@;
        proof {
            lemma_count_assigned_set(a.cells@, nb as int, plate);
            lemma_count_region_at_least_one(a_before.cells@, cell as int, plate.0);
            assert(a_before.cells@[cell as int] == Some(Plate(plate.0)));
        }
        a.set(nb, plate);
        self.frontier.push(nb);
        self.relaxed_last = relaxed;
        if relaxed && self.relaxed_steps < u64::MAX {
            self.relaxed_steps = self.relaxed_steps + 1;
        }
        proof {
            assert forall|t: int|
                0 <= t < self.frontier@.len() implies (#[trigger] self.frontier@[t] as int)
                < g.spec_num_cells() && a.region_of(self.frontier@[t] as int) is Some by {
                if t < self.frontier@.len() - 1 {
                    assert(a_before.region_of(self.frontier@[t] as int) is Some);
                }
            }
            assert forall|rr: int|
                0 <= rr < a.spec_num_regions() implies a.spec_size_of(rr) >= a_before.spec_size_of(
                rr,
            ) by {}
            assert forall|rr: int|
                0 <= rr < seeded_plate_count(*a) implies #[trigger] a.spec_size_of(rr) >= 1 by {
                assert(old(a).spec_size_of(rr) >= 1);
                assert(a_before.spec_size_of(rr) >= 1);
            }
            // nb lies among the picked cell's neighbors; by symmetry the
            // picked cell lies among nb's, carrying the plate nb received
            assert(g.neighbors_of(cell as int).contains(nb));
            let j0 = choose|j0: int|
                0 <= j0 < g.neighbors_of(cell as int).len() && g.neighbors_of(cell as int)[j0]
                    == nb;
            assert(g.neighbors_of(nb as int).contains(cell));
            let jw = choose|jw: int|
                0 <= jw < g.neighbors_of(nb as int).len() && g.neighbors_of(nb as int)[jw] == cell;
            assert forall|c: int|
                0 <= c < n && a_before.region_of(c) is None && a.region_of(c) is Some implies exists|
                j2: int,
            |
                0 <= j2 < g.neighbors_of(c).len() && a_before.region_of(
                    #[trigger] g.neighbors_of(c)[j2] as int,
                ) == a.region_of(c) by {
                assert(c == nb as int);
                assert(a_before.region_of(g.neighbors_of(c)[jw] as int) == Some(plate));
                assert(a.region_of(c) == Some(plate));
            }
            assert forall|c: int|
                0 <= c < n && a_before.region_of(c) is None && a.region_of(c) is Some implies exists|
                j2: int,
            |
                0 <= j2 < g.neighbors_of(c).len() && a.region_of(
                    #[trigger] g.neighbors_of(c)[j2] as int,
                ) == a.region_of(c) by {
                assert(c == nb as int);
                assert(a.region_of(g.neighbors_of(c)[jw] as int) == Some(plate));
            }
            assert(frontier_covers(*g, *a, self.frontier@)) by {
                assert forall|c: usize, j2: int|
                    c < g.spec_num_cells() && a.region_of(c as int) is Some && 0 <= j2
                        < g.neighbors_of(c as int).len() && a.region_of(
                        #[trigger] g.neighbors_of(c as int)[j2] as int,
                    ) is None implies self.frontier@.contains(c) by {
                    let u = g.neighbors_of(c as int)[j2];
                    assert(u as int != nb as int);
                    assert(a_before.region_of(u as int) is None);
                    if c == nb {
                        assert(self.frontier@[self.frontier@.len() - 1] == c);
                        assert(self.frontier@.contains(c));
                    } else {
                        assert(a_before.region_of(c as int) is Some);
                        assert(fr_before.contains(c));
                        let t = choose|t: int| 0 <= t < fr_before.len() && fr_before[t] == c;
                        assert(self.frontier@[t] == c);
                        assert(self.frontier@.contains(c));
                    }
                }
            }
            if !relaxed && balanced(a_before, self.ratio) {
                let p0 = plate.0 as int;
                let rt = self.ratio as int;
                assert(a_before.spec_size_of(p0) < max_allowed);
                assert(a_before.spec_size_of(p0) >= 1);
                assert(a.spec_size_of(p0) == a_before.spec_size_of(p0) + 1);
                assert forall|r1: int, r2: int|
                    0 <= r1 < a.spec_num_regions() && 0 <= r2 < a.spec_num_regions()
                        && #[trigger] a.spec_size_of(r1) >= 1 && #[trigger] a.spec_size_of(r2)
                        >= 1 implies a.spec_size_of(r1) <= rt * a.spec_size_of(r2) by {
                    let s1 = a.spec_size_of(r1) as int;
                    let s2 = a.spec_size_of(r2) as int;
                    let b1 = a_before.spec_size_of(r1) as int;
                    let b2 = a_before.spec_size_of(r2) as int;
                    if r1 == p0 {
                        if r2 == p0 {
                            assert(s1 <= rt * s2) by (nonlinear_arith)
                                requires
                                    s1 == s2,
                                    rt >= 1,
                                    s1 >= 1,
                            ;
                        } else {
                            // s1 = b1 + 1 <= min_size * rt <= b2 * rt = s2 * rt
                            assert(b2 == s2 && b2 >= 1);
                            assert(min_size <= b2);
                            assert(min_size * rt <= b2 * rt) by (nonlinear_arith)
                                requires
                                    min_size <= b2,
                                    rt >= 0,
                            ;
                            assert(s1 <= rt * s2);
                        }
                    } else {
                        assert(b1 == s1 && b1 >= 1);
                        if r2 == p0 {
                            // s1 = b1 <= rt * b2 <= rt * s2
                            assert(b2 >= 1);
                            assert(rt * b2 <= rt * s2) by (nonlinear_arith)
                                requires
                                    b2 <= s2,
                                    rt >= 0,
                            ;
                            assert(s1 <= rt * s2);
                        } else {
                            assert(b2 == s2 && b2 >= 1);
                            assert(s1 <= rt * s2);
                        }
                    }
                }
            }
        }
        if a.is_complete() {
            StepResult::Done
        } else {
            StepResult::InProgress
        }
    }

    /// The cleanup pass: repeatedly scan all cells, and let every
    /// unassigned cell with at least one assigned neighbor adopt one such
    /// neighbor's plate, chosen uniformly at random; stop when a full scan
    /// changes nothing. On exit no unassigned cell has an assigned
    /// neighbor, which on a connected graph with a seeded plate means
    /// every cell is assigned (`lemma_no_growth_means_complete`). Balance
    /// is deliberately not preserved here: totality is traded for it.
    pub fn finalize(&mut self, g: &CellGraph, a: &mut RegionAssignment)
        requires
            old(self).inv(*g, *old(a)),
        ensures
            final(self).inv(*g, *final(a)),
            final(self).seeded == old(self).seeded,
            final(self).ratio == old(self).ratio,
            final(self).frontier@ == old(self).frontier@,
            final(self).relaxed_last == old(self).relaxed_last,
            final(a).spec_num_cells() == old(a).spec_num_cells(),
            final(a).spec_num_regions() == old(a).spec_num_regions(),
            forall|c: int|
                0 <= c < old(a).spec_num_cells() && old(a).region_of(c) is Some
                    ==> final(a).region_of(c) == old(a).region_of(c),
            forall|r: int|
                0 <= r < old(a).spec_num_regions()
                    ==> final(a).spec_size_of(r) >= old(a).spec_size_of(r),
            // every adopted cell carries the plate of one of its neighbors
            forall|c: int|
                0 <= c < old(a).spec_num_cells() && old(a).region_of(c) is None && #[trigger] final(a).region_of(c) is Some ==> exists|j: int|
                    0 <= j < g.neighbors_of(c).len() && final(a).region_of(
                        #[trigger] g.neighbors_of(c)[j] as int,
                    ) == final(a).region_of(c),
            no_growth_possible(*g, *final(a)),
    {
        let n = a.num_cells();
        proof {
            lemma_count_assigned_le_len(a.cells@);
        }
        loop
            invariant_except_break
                g.wf(),
                a.wf(),
                n == a.spec_num_cells(),
                a.spec_num_cells() == g.spec_num_cells(),
                a.spec_num_regions() == old(a).spec_num_regions(),
                a.spec_num_regions() >= 1,
                self.frontier@ == old(self).frontier@,
                self.ratio == old(self).ratio,
                self.seeded == old(self).seeded,
                self.relaxed_last == old(self).relaxed_last,
                self.ratio >= 1,
                a.spec_num_cells() * self.ratio <= usize::MAX,
                count_assigned(a.cells@) <= n,
                forall|i: int|
                    0 <= i < self.frontier@.len() ==> (#[trigger] self.frontier@[i] as int)
                        < g.spec_num_cells() && a.region_of(self.frontier@[i] as int) is Some,
                forall|c: int|
                    0 <= c < n && old(a).region_of(c) is Some ==> a.region_of(c) == old(
                        a,
                    ).region_of(c),
                forall|r: int|
                    0 <= r < a.spec_num_regions() ==> a.spec_size_of(r) >= old(a).spec_size_of(r),
                forall|c: int|
                    0 <= c < n && old(a).region_of(c) is None && #[trigger] a.region_of(c) is Some ==> exists|j: int|
                        0 <= j < g.neighbors_of(c).len() && a.region_of(
                            #[trigger] g.neighbors_of(c)[j] as int,
                        ) == a.region_of(c),
            ensures
                g.wf(),
                a.wf(),
                n == a.spec_num_cells(),
                a.spec_num_cells() == g.spec_num_cells(),
                a.spec_num_regions() == old(a).spec_num_regions(),
                a.spec_num_regions() >= 1,
                self.frontier@ == old(self).frontier@,
                self.ratio == old(self).ratio,
                self.seeded == old(self).seeded,
                self.relaxed_last == old(self).relaxed_last,
                forall|i: int|
                    0 <= i < self.frontier@.len() ==> (#[trigger] self.frontier@[i] as int)
                        < g.spec_num_cells() && a.region_of(self.frontier@[i] as int) is Some,
                forall|c: int|
                    0 <= c < n && old(a).region_of(c) is Some ==> a.region_of(c) == old(
                        a,
                    ).region_of(c),
                forall|r: int|
                    0 <= r < a.spec_num_regions() ==> a.spec_size_of(r) >= old(a).spec_size_of(r),
                forall|c: int|
                    0 <= c < n && old(a).region_of(c) is None && #[trigger] a.region_of(c) is Some ==> exists|j: int|
                        0 <= j < g.neighbors_of(c).len() && a.region_of(
                            #[trigger] g.neighbors_of(c)[j] as int,
                        ) == a.region_of(c),
                no_growth_possible(*g, *a),
            decreases n - count_assigned(a.cells@),
        {
            let ghost a_pass = *a;
            let mut changed = false;
            let mut c: usize = 0;
            while c < n
                invariant
                    g.wf(),
                    a.wf(),
                    c <= n,
                    n == a.spec_num_cells(),
                    a.spec_num_cells() == g.spec_num_cells(),
                    a.spec_num_regions() == old(a).spec_num_regions(),
                    a.spec_num_regions() >= 1,
                    self.frontier@ == old(self).frontier@,
                    self.ratio == old(self).ratio,
                    self.seeded == old(self).seeded,
                    self.relaxed_last == old(self).relaxed_last,
                    count_assigned(a.cells@) <= n,
                    forall|i: int|
                        0 <= i < self.frontier@.len() ==> (#[trigger] self.frontier@[i] as int)
                            < g.spec_num_cells() && a.region_of(self.frontier@[i] as int) is Some,
                    forall|cc: int|
                        0 <= cc < n && old(a).region_of(cc) is Some ==> a.region_of(cc) == old(
                            a,
                        ).region_of(cc),
                    forall|r: int|
                        0 <= r < a.spec_num_regions() ==> a.spec_size_of(r) >= old(
                            a,
                        ).spec_size_of(r),
                    forall|cc: int|
                        0 <= cc < n && old(a).region_of(cc) is None && #[trigger] a.region_of(cc) is Some ==> exists|j: int|
                            0 <= j < g.neighbors_of(cc).len() && a.region_of(
                                #[trigger] g.neighbors_of(cc)[j] as int,
                            ) == a.region_of(cc),
                    !changed ==> *a == a_pass,
                    !changed ==> forall|cc: usize, j: int|
                        cc < c && a.region_of(cc as int) is None && 0 <= j < g.neighbors_of(
                            cc as int,
                        ).len() ==> a.region_of(
                            #[trigger] g.neighbors_of(cc as int)[j] as int,
                        ) is None,
                    changed ==> count_assigned(a.cells@) > count_assigned(a_pass.cells@),
                    count_assigned(a_pass.cells@) <= n,
                decreases n - c,
            {
                if a.get(c).is_none() {
                    let deg = g.degree(c);
                    let mut assigned_nbrs: Vec<usize> = Vec::new();
                    let mut j: usize = 0;
                    while j < deg
                        invariant
                            g.wf(),
                            c < n,
                            n == a.spec_num_cells(),
                            a.spec_num_cells() == g.spec_num_cells(),
                            deg == g.neighbors_of(c as int).len(),
                            j <= deg,
                            forall|t: int|
                                0 <= t < assigned_nbrs@.len() ==> (
                                #[trigger] assigned_nbrs@[t] as int) < n && a.region_of(
                                    assigned_nbrs@[t] as int,
                                ) is Some,
                            forall|t: int|
                                0 <= t < assigned_nbrs@.len() ==> g.neighbors_of(
                                    c as int,
                                ).contains(#[trigger] assigned_nbrs@[t]),
                            assigned_nbrs@.len() == 0 ==> forall|jj: int|
                                0 <= jj < j ==> a.region_of(
                                    #[trigger] g.neighbors_of(c as int)[jj] as int,
                                ) is None,
                        decreases deg - j,
                    {
                        let nb = g.neighbor(c, j);
                        let ghost nbrs_prev = assigned_nbrs@;
                        if a.get(nb).is_some() {
                            assigned_nbrs.push(nb);
                        }
                        proof {
                            assert forall|t: int|
                                0 <= t < assigned_nbrs@.len() implies g.neighbors_of(
                                c as int,
                            ).contains(#[trigger] assigned_nbrs@[t]) by {
                                if t == assigned_nbrs@.len() - 1 && assigned_nbrs@.len()
                                    > nbrs_prev.len() {
                                    assert(g.neighbors_of(c as int)[j as int]
                                        == assigned_nbrs@[t]);
                                }
                            }
                        }
                        j += 1;
                    }
                    if assigned_nbrs.len() > 0 {
                        let pick = assigned_nbrs[rand_index(assigned_nbrs.len())];
                        let p = a.get(pick).unwrap();
                        let ghost a_before = *a;
                        proof {
                            lemma_count_assigned_set(a.cells@, c as int, p);
                        }
                        a.set(c, p);
                        if self.adopted_cells < u64::MAX {
                            self.adopted_cells = self.adopted_cells + 1;
                        }
                        changed = true;
                        proof {
                            lemma_count_assigned_le_len(a.cells@);
                            assert forall|cc: int|
                                0 <= cc < n && old(a).region_of(cc) is Some implies a.region_of(cc)
                                == old(a).region_of(cc) by {
                                assert(a_before.region_of(cc) == old(a).region_of(cc));
                            }
                            assert forall|r: int|
                                0 <= r < a.spec_num_regions() implies a.spec_size_of(r)
                                >= old(a).spec_size_of(r) by {
                                assert(a_before.spec_size_of(r) >= old(a).spec_size_of(r));
                            }
                            assert forall|i: int|
                                0 <= i < self.frontier@.len() implies (
                            #[trigger] self.frontier@[i] as int) < g.spec_num_cells()
                                && a.region_of(self.frontier@[i] as int) is Some by {
                                assert(a_before.region_of(self.frontier@[i] as int) is Some);
                            }
                            assert forall|cc: int|
                                0 <= cc < n && old(a).region_of(cc) is None
                                && #[trigger] a.region_of(cc) is Some implies exists|j2: int|
                                0 <= j2 < g.neighbors_of(cc).len() && a.region_of(
                                    #[trigger] g.neighbors_of(cc)[j2] as int,
                                ) == a.region_of(cc) by {
                                if cc == c as int {
                                    assert(g.neighbors_of(c as int).contains(pick));
                                    let jp = choose|jp: int|
                                        0 <= jp < g.neighbors_of(c as int).len()
                                            && g.neighbors_of(c as int)[jp] == pick;
                                    assert((pick as int) != c as int);
                                    assert(a.region_of(g.neighbors_of(cc)[jp] as int) == Some(p));
                                    assert(a.region_of(cc) == Some(p));
                                } else {
                                    assert(a_before.region_of(cc) is Some);
                                    assert(exists|j2: int|
                                        0 <= j2 < g.neighbors_of(cc).len()
                                            && a_before.region_of(
                                            #[trigger] g.neighbors_of(cc)[j2] as int,
                                        ) == a_before.region_of(cc));
                                    let j2 = choose|j2: int|
                                        0 <= j2 < g.neighbors_of(cc).len() && a_before.region_of(
                                            g.neighbors_of(cc)[j2] as int,
                                        ) == a_before.region_of(cc);
                                    let u = g.neighbors_of(cc)[j2];
                                    assert((u as int) != c as int);
                                    assert(a.region_of(u as int) == a_before.region_of(u as int));
                                    assert(a.region_of(cc) == a_before.region_of(cc));
                                    assert(a.region_of(g.neighbors_of(cc)[j2] as int)
                                        == a.region_of(cc));
                                }
                            }
                            assert(count_assigned(a.cells@) > count_assigned(a_pass.cells@));
                        }
                    }
                }
                c += 1;
            }
            if !changed {
                proof {
                    assert(*a == a_pass);
                }
                break;
            }
        }
        proof {
            if self.seeded {
                assert forall|r: int|
                    0 <= r < seeded_plate_count(*a) implies #[trigger] a.spec_size_of(r) >= 1 by {
                    assert(old(a).spec_size_of(r) >= 1);
                }
            }
            // no unassigned cell borders an assigned one, so by symmetry no
            // assigned cell borders an unassigned one: covering is vacuous
            assert(frontier_covers(*g, *a, self.frontier@)) by {
                assert forall|c: usize, j2: int|
                    c < g.spec_num_cells() && a.region_of(c as int) is Some && 0 <= j2
                        < g.neighbors_of(c as int).len() && a.region_of(
                        #[trigger] g.neighbors_of(c as int)[j2] as int,
                    ) is None implies self.frontier@.contains(c) by {
                    let u = g.neighbors_of(c as int)[j2];
                    assert(g.neighbors_of(u as int).contains(c));
                    let jj = choose|jj: int|
                        0 <= jj < g.neighbors_of(u as int).len() && g.neighbors_of(u as int)[jj]
                            == c;
                    assert(a.region_of(g.neighbors_of(u as int)[jj] as int) is None);
                    assert(false);
                }
            }
        }
    }
}

/// A plate with a positive size counter owns at least one cell.
pub proof fn lemma_seeded_partition_nonempty(a: RegionAssignment)
    requires
        a.wf(),
        a.spec_num_regions() >= 1,
        a.spec_size_of(0) >= 1,
    ensures
        exists|c: int| 0 <= c < a.spec_num_cells() && a.region_of(c) is Some,
{
    lemma_count_region_pos_witness(a.cells@, 0);
    let c = choose|c: int| 0 <= c < a.cells@.len() && a.cells@[c] == Some(Plate(0));
    assert(0 <= c < a.spec_num_cells() && a.region_of(c) is Some);
}

/// When no unassigned cell has an assigned neighbor, the assigned cells
/// form a closed set; on a connected graph that contains some assigned
/// cell, that set must be every cell.
pub proof fn lemma_no_growth_means_complete(g: CellGraph, a: RegionAssignment)
    requires
        g.wf(),
        a.wf(),
        a.spec_num_cells() == g.spec_num_cells(),
        g.connected(),
        no_growth_possible(g, a),
        exists|c: int| 0 <= c < a.spec_num_cells() && a.region_of(c) is Some,
    ensures
        a.complete(),
{
    assert(a.cells@.len() <= usize::MAX) by {
        assert(vstd::std_specs::vec::spec_vec_len(&a.cells) == a.cells@.len());
    }
    let s = Set::new(|c: usize| c < g.spec_num_cells() && a.region_of(c as int) is Some);
    assert(closed_set(g, s)) by {
        assert forall|c: usize, j: int|
            c < g.spec_num_cells() && !s.contains(c) && 0 <= j < g.neighbors_of(c as int).len()
                implies !s.contains(#[trigger] g.neighbors_of(c as int)[j]) by {
            assert(a.region_of(c as int) is None);
            assert(a.region_of(g.neighbors_of(c as int)[j] as int) is None);
        }
    }
    let w = choose|c: int| 0 <= c < a.spec_num_cells() && a.region_of(c) is Some;
    assert(s.contains(w as usize));
    lemma_connected_closed_set_is_total(g, s, w as usize);
    assert forall|c: int| 0 <= c < a.cells@.len() implies (#[trigger] a.cells@[c]) is Some by {
        assert(s.contains(c as usize));
    }
}

/// Totality: once the Partitioner reports `Done` — its ticks ensure that
/// the assignment is then either complete or at a no-growth fixpoint — a
/// connected graph with a seeded plate has every cell assigned.
pub proof fn lemma_partitioner_done_total(g: CellGraph, a: RegionAssignment)
    requires
        g.wf(),
        a.wf(),
        a.spec_num_cells() == g.spec_num_cells(),
        a.spec_num_regions() >= 1,
        a.spec_size_of(0) >= 1,
        g.connected(),
        a.complete() || no_growth_possible(g, a),
    ensures
        a.complete(),
{
    if !a.complete() {
        lemma_seeded_partition_nonempty(a);
        lemma_no_growth_means_complete(g, a);
    }
}

} // verus!
