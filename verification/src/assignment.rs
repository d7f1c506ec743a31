//! The cell-to-plate assignment and its per-plate size counters.
//!
//! `RegionAssignment` maps every cell index to an optional plate id and
//! keeps one running size counter per plate. Its well-formedness invariant
//! ties each counter to the exact number of cells assigned to that plate.
//! Assigning a cell that already has a plate is a programming error in the
//! callers, so `set` excludes it by precondition and never overwrites.

use vstd::prelude::*;

verus! {

/// A plate (region) identifier: an integer in `[0, K)`.
#[derive(Clone, Copy, PartialEq, Eq, Structural, Debug)]
pub struct Plate(pub usize);

/// How many cells of `cells` are assigned to plate `r`.
pub open spec fn count_region(cells: Seq<Option<Plate>>, r: usize) -> nat
    decreases cells.len(),
{
    if cells.len() == 0 {
        0
    } else {
        count_region(cells.drop_last(), r) + if cells.last() == Some(Plate(r)) {
            1nat
        } else {
            0nat
        }
    }
}

/// How many cells of `cells` are assigned to any plate.
pub open spec fn count_assigned(cells: Seq<Option<Plate>>) -> nat
    decreases cells.len(),
{
    if cells.len() == 0 {
        0
    } else {
        count_assigned(cells.drop_last()) + if cells.last() is Some {
            1nat
        } else {
            0nat
        }
    }
}

/// Setting an unassigned cell raises the count of exactly the plate it
/// receives, by one.
pub proof fn lemma_count_region_set(cells: Seq<Option<Plate>>, c: int, p: Plate, r: usize)
    requires
        0 <= c < cells.len(),
        cells[c] is None,
    ensures
        count_region(cells.update(c, Some(p)), r) == count_region(cells, r) + if p == Plate(r) {
            1int
        } else {
            0int
        },
    decreases cells.len(),
{
    let updated = cells.update(c, Some(p));
    if c == cells.len() - 1 {
        assert(updated.drop_last() =~= cells.drop_last());
    } else {
        assert(updated.drop_last() =~= cells.drop_last().update(c, Some(p)));
        lemma_count_region_set(cells.drop_last(), c, p, r);
    }
}

/// Setting an unassigned cell raises the assigned count by one.
pub proof fn lemma_count_assigned_set(cells: Seq<Option<Plate>>, c: int, p: Plate)
    requires
        0 <= c < cells.len(),
        cells[c] is None,
    ensures
        count_assigned(cells.update(c, Some(p))) == count_assigned(cells) + 1,
    decreases cells.len(),
{
    let updated = cells.update(c, Some(p));
    if c == cells.len() - 1 {
        assert(updated.drop_last() =~= cells.drop_last());
    } else {
        assert(updated.drop_last() =~= cells.drop_last().update(c, Some(p)));
        lemma_count_assigned_set(cells.drop_last(), c, p);
    }
}

/// A plate's count never exceeds the assigned count.
pub proof fn lemma_count_region_le_assigned(cells: Seq<Option<Plate>>, r: usize)
    ensures
        count_region(cells, r) <= count_assigned(cells),
    decreases cells.len(),
{
    if cells.len() > 0 {
        lemma_count_region_le_assigned(cells.drop_last(), r);
    }
}

/// The assigned count never exceeds the number of cells, and is below it
/// while some cell is unassigned.
pub proof fn lemma_count_assigned_le_len(cells: Seq<Option<Plate>>)
    ensures
        count_assigned(cells) <= cells.len(),
        (exists|c: int| 0 <= c < cells.len() && cells[c] is None) ==> count_assigned(cells)
            < cells.len(),
    decreases cells.len(),
{
    if cells.len() > 0 {
        lemma_count_assigned_le_len(cells.drop_last());
        if exists|c: int| 0 <= c < cells.len() && cells[c] is None {
            let c = choose|c: int| 0 <= c < cells.len() && cells[c] is None;
            if c < cells.len() - 1 {
                assert(cells.drop_last()[c] is None);
            }
        }
    }
}

/// In an all-`None` sequence every count is zero.
pub proof fn lemma_count_region_all_none(cells: Seq<Option<Plate>>, r: usize)
    requires
        forall|c: int| 0 <= c < cells.len() ==> cells[c] is None,
    ensures
        count_region(cells, r) == 0,
    decreases cells.len(),
{
    if cells.len() > 0 {
        lemma_count_region_all_none(cells.drop_last(), r);
    }
}

/// In an all-`None` sequence nothing is assigned.
pub proof fn lemma_count_assigned_all_none(cells: Seq<Option<Plate>>)
    requires
        forall|c: int| 0 <= c < cells.len() ==> cells[c] is None,
    ensures
        count_assigned(cells) == 0,
    decreases cells.len(),
{
    if cells.len() > 0 {
        lemma_count_assigned_all_none(cells.drop_last());
    }
}

/// A plate that owns a cell has a positive count.
pub proof fn lemma_count_region_at_least_one(cells: Seq<Option<Plate>>, c: int, r: usize)
    requires
        0 <= c < cells.len(),
        cells[c] == Some(Plate(r)),
    ensures
        count_region(cells, r) >= 1,
    decreases cells.len(),
{
    if c < cells.len() - 1 {
        lemma_count_region_at_least_one(cells.drop_last(), c, r);
    }
}

/// If a plate's count is positive, some cell is assigned to it.
pub proof fn lemma_count_region_pos_witness(cells: Seq<Option<Plate>>, r: usize)
    requires
        count_region(cells, r) > 0,
    ensures
        exists|c: int| 0 <= c < cells.len() && cells[c] == Some(Plate(r)),
    decreases cells.len(),
{
    if cells.last() != Some(Plate(r)) {
        lemma_count_region_pos_witness(cells.drop_last(), r);
        let c = choose|c: int| 0 <= c < cells.drop_last().len() && cells.drop_last()[c] == Some(
            Plate(r),
        );
        assert(cells[c] == Some(Plate(r)));
    } else {
        assert(cells[cells.len() - 1] == Some(Plate(r)));
    }
}

/// Mapping from cell index to an optional plate id, with derived per-plate
/// size counters.
pub struct RegionAssignment {
    pub cells: Vec<Option<Plate>>,
    pub sizes: Vec<usize>,
}

impl RegionAssignment {
    pub open spec fn spec_num_cells(self) -> nat {
        self.cells@.len()
    }

    /// The configured plate count `K`.
    pub open spec fn spec_num_regions(self) -> nat {
        self.sizes@.len()
    }

    pub open spec fn region_of(self, c: int) -> Option<Plate> {
        self.cells@[c]
    }

    pub open spec fn spec_size_of(self, r: int) -> nat {
        self.sizes@[r] as nat
    }

    /// Every assigned plate id is in range, and every size counter equals
    /// the number of cells assigned to its plate.
    pub open spec fn wf(self) -> bool {
        &&& forall|c: int|
            0 <= c < self.cells@.len() && self.cells@[c] is Some ==> (#[trigger] self.cells@[c])
                ->Some_0.0 < self.sizes@.len()
        &&& forall|r: usize|
            r < self.sizes@.len() ==> #[trigger] self.sizes@[r as int] == count_region(
                self.cells@,
                r,
            )
    }

    /// Every cell has a plate.
    pub open spec fn complete(self) -> bool {
        forall|c: int| 0 <= c < self.cells@.len() ==> (#[trigger] self.cells@[c]) is Some
    }

    /// A fresh, fully unassigned mapping over `num_cells` cells and `k`
    /// plates.
    pub fn new(num_cells: usize, k: usize) -> (r: RegionAssignment)
        ensures
            r.wf(),
            r.spec_num_cells() == num_cells,
            r.spec_num_regions() == k,
            forall|c: int| 0 <= c < num_cells ==> r.region_of(c) is None,
            forall|i: int| 0 <= i < k ==> r.spec_size_of(i) == 0,
    {
        let mut cells: Vec<Option<Plate>> = Vec::new();
        let mut i: usize = 0;
        while i < num_cells
            invariant
                i <= num_cells,
                cells@.len() == i,
                forall|c: int| 0 <= c < i ==> cells@[c] is None,
            decreases num_cells - i,
        {
            cells.push(None);
            i += 1;
        }
        let mut sizes: Vec<usize> = Vec::new();
        let mut j: usize = 0;
        while j < k
            invariant
                j <= k,
                sizes@.len() == j,
                forall|r: int| 0 <= r < j ==> sizes@[r] == 0,
            decreases k - j,
        {
            sizes.push(0);
            j += 1;
        }
        let result = RegionAssignment { cells, sizes };
        proof {
            assert forall|r: usize| r < result.sizes@.len() implies #[trigger] result.sizes@[
                r as int] == count_region(result.cells@, r) by {
                lemma_count_region_all_none(result.cells@, r);
            }
        }
        result
    }

    pub fn num_cells(&self) -> (r: usize)
        ensures
            r == self.spec_num_cells(),
    {
        self.cells.len()
    }

    pub fn num_regions(&self) -> (r: usize)
        ensures
            r == self.spec_num_regions(),
    {
        self.sizes.len()
    }

    /// The plate of cell `c`, or `None` while it is unassigned.
    pub fn get(&self, c: usize) -> (r: Option<Plate>)
        requires
            c < self.spec_num_cells(),
        ensures
            r == self.region_of(c as int),
    {
        self.cells[c]
    }

    /// Assigns plate `p` to the unassigned cell `c` and bumps `p`'s size
    /// counter. Re-assigning an assigned cell is a programming error and is
    /// excluded by precondition; callers check `get` first.
    pub fn set(&mut self, c: usize, p: Plate)
        requires
            old(self).wf(),
            c < old(self).spec_num_cells(),
            old(self).region_of(c as int) is None,
            p.0 < old(self).spec_num_regions(),
        ensures
            final(self).wf(),
            final(self).cells@ == old(self).cells@.update(c as int, Some(p)),
            final(self).sizes@ == old(self).sizes@.update(
                p.0 as int,
                (old(self).sizes@[p.0 as int] + 1) as usize,
            ),
            final(self).sizes@[p.0 as int] == old(self).sizes@[p.0 as int] + 1,
    {
        let n = self.cells.len();
        proof {
            lemma_count_region_le_assigned(self.cells@, p.0);
            lemma_count_assigned_le_len(self.cells@);
            assert(count_assigned(self.cells@) < n);
        }
        let new_size = self.sizes[p.0] + 1;
        self.cells.set(c, Some(p));
        self.sizes.set(p.0, new_size);
        proof {
            assert forall|r: usize| r < self.sizes@.len() implies #[trigger] self.sizes@[r as int]
                == count_region(self.cells@, r) by {
                lemma_count_region_set(old(self).cells@, c as int, p, r);
            }
        }
    }

    /// The running size counter of plate `r`: exactly the number of cells
    /// assigned to it.
    pub fn region_size(&self, r: usize) -> (size: usize)
        requires
            self.wf(),
            r < self.spec_num_regions(),
        ensures
            size == count_region(self.cells@, r),
            size == self.spec_size_of(r as int),
    {
        self.sizes[r]
    }

    /// Whether every cell has a plate: the Partitioner's completion signal.
    pub fn is_complete(&self) -> (r: bool)
        ensures
            r == self.complete(),
    {
        let mut c: usize = 0;
        while c < self.cells.len()
            invariant
                c <= self.cells@.len(),
                forall|i: int| 0 <= i < c ==> (#[trigger] self.cells@[i]) is Some,
            decreases self.cells@.len() - c,
        {
            if self.cells[c].is_none() {
                return false;
            }
            c += 1;
        }
        true
    }
}

} // verus!
