//! Land/ocean classification: roughly one third of the plates, chosen
//! uniformly at random without replacement, become ocean (`Sea`); the rest
//! are land. Every cell is labeled by its plate's label. A reset clears the
//! per-cell labels only — never the plate assignment or the boundary flags —
//! and the classifier may then run again with fresh randomness.

use vstd::prelude::*;

use crate::assignment::RegionAssignment;
use crate::rng::sample_distinct;

verus! {

/// The per-cell surface label: `Sea` marks the ocean plates.
#[derive(Clone, Copy, PartialEq, Eq, Structural, Debug)]
pub enum SurfaceLabel {
    Land,
    Sea,
}

/// How many plates of `ocean` are marked as ocean.
pub open spec fn count_true(s: Seq<bool>) -> nat
    decreases s.len(),
{
    if s.len() == 0 {
        0
    } else {
        count_true(s.drop_last()) + if s.last() {
            1nat
        } else {
            0nat
        }
    }
}

/// Marking an unmarked plate raises the ocean count by one.
proof fn lemma_count_true_mark(s: Seq<bool>, i: int)
    requires
        0 <= i < s.len(),
        !s[i],
    ensures
        count_true(s.update(i, true)) == count_true(s) + 1,
    decreases s.len(),
{
    let updated = s.update(i, true);
    if i == s.len() - 1 {
        assert(updated.drop_last() =~= s.drop_last());
    } else {
        assert(updated.drop_last() =~= s.drop_last().update(i, true));
        lemma_count_true_mark(s.drop_last(), i);
    }
}

/// In an all-`false` sequence the count is zero.
proof fn lemma_count_true_all_false(s: Seq<bool>)
    requires
        forall|i: int| 0 <= i < s.len() ==> !s[i],
    ensures
        count_true(s) == 0,
    decreases s.len(),
{
    if s.len() > 0 {
        lemma_count_true_all_false(s.drop_last());
    }
}

/// The surface classifier's state: which plates are ocean, and the label of
/// every cell.
pub struct SurfaceClassification {
    /// Per plate: `true` when the plate is ocean.
    pub ocean: Vec<bool>,
    /// Per cell: the label, or `None` before classification or after a
    /// reset.
    pub labels: Vec<Option<SurfaceLabel>>,
}

impl SurfaceClassification {
    pub open spec fn spec_num_regions(self) -> nat {
        self.ocean@.len()
    }

    pub open spec fn spec_num_cells(self) -> nat {
        self.labels@.len()
    }

    /// The label of plate `r`.
    pub open spec fn plate_label(self, r: int) -> SurfaceLabel {
        if self.ocean@[r] {
            SurfaceLabel::Sea
        } else {
            SurfaceLabel::Land
        }
    }

    /// Every cell carries exactly its plate's label: the shape that
    /// classification establishes.
    pub open spec fn labels_assigned(self, a: RegionAssignment) -> bool {
        forall|c: int|
            0 <= c < self.labels@.len() ==> (#[trigger] self.labels@[c]) == Some(
                self.plate_label((a.region_of(c)->Some_0).0 as int),
            )
    }

    /// Every cell is unlabeled: the state before classification and after
    /// a reset.
    pub open spec fn labels_clear(self) -> bool {
        forall|c: int| 0 <= c < self.labels@.len() ==> (#[trigger] self.labels@[c]) is None
    }

    /// A fresh classification: nothing is ocean, nothing is labeled.
    pub fn new(num_cells: usize, k: usize) -> (r: SurfaceClassification)
        ensures
            r.spec_num_cells() == num_cells,
            r.spec_num_regions() == k,
            r.labels_clear(),
            count_true(r.ocean@) == 0,
    {
        let mut ocean: Vec<bool> = Vec::new();
        let mut i: usize = 0;
        while i < k
            invariant
                i <= k,
                ocean@.len() == i,
                forall|r: int| 0 <= r < i ==> !(#[trigger] ocean@[r]),
            decreases k - i,
        {
            ocean.push(false);
            i += 1;
        }
        let mut labels: Vec<Option<SurfaceLabel>> = Vec::new();
        let mut c: usize = 0;
        while c < num_cells
            invariant
                c <= num_cells,
                labels@.len() == c,
                forall|i: int| 0 <= i < c ==> (#[trigger] labels@[i]) is None,
            decreases num_cells - c,
        {
            labels.push(None);
            c += 1;
        }
        let r = SurfaceClassification { ocean, labels };
        proof {
            lemma_count_true_all_false(r.ocean@);
        }
        r
    }

    /// The classifier: draw `floor(K/3)` distinct plates as ocean, then
    /// label every cell by its plate. Runs on a complete assignment, and
    /// can run again after a reset, drawing a fresh split.
    pub fn assign_continental_plates(&mut self, a: &RegionAssignment)
        requires
            a.wf(),
            a.complete(),
            old(self).spec_num_cells() == a.spec_num_cells(),
            old(self).spec_num_regions() == a.spec_num_regions(),
        ensures
            final(self).spec_num_cells() == old(self).spec_num_cells(),
            final(self).spec_num_regions() == old(self).spec_num_regions(),
            count_true(final(self).ocean@) == final(self).spec_num_regions() / 3,
            final(self).labels_assigned(*a),
    {
        let k = self.ocean.len();
        let n = self.labels.len();
        // start from a clean slate, so a re-run after reset draws freshly
        let mut i: usize = 0;
        while i < k
            invariant
                i <= k,
                self.ocean@.len() == k,
                self.labels@.len() == n,
                forall|r: int| 0 <= r < i ==> !(#[trigger] self.ocean@[r]),
            decreases k - i,
        {
            self.ocean.set(i, false);
            i += 1;
        }
        proof {
            lemma_count_true_all_false(self.ocean@);
        }
        let picks = sample_distinct(k, k / 3);
        let ghost m = picks@.len();
        let mut t: usize = 0;
        while t < picks.len()
            invariant
                a.wf(),
                picks@.len() == m,
                m == k / 3,
                t <= m,
                self.ocean@.len() == k,
                self.labels@.len() == n,
                forall|tt: int| 0 <= tt < m ==> #[trigger] picks@[tt] < k,
                forall|t1: int, t2: int| 0 <= t1 < t2 < m ==> picks@[t1] != picks@[t2],
                forall|r: int|
                    0 <= r < k ==> ((#[trigger] self.ocean@[r]) <==> exists|tt: int|
                        0 <= tt < t && picks@[tt] as int == r),
                count_true(self.ocean@) == t,
            decreases picks@.len() - t,
        {
            let p = picks[t];
            let ghost ocean_prev = self.ocean@;
            proof {
                if self.ocean@[p as int] {
                    let tt = choose|tt: int| 0 <= tt < t && picks@[tt] as int == p as int;
                    assert(picks@[tt] != picks@[t as int]);
                    assert(false);
                }
                lemma_count_true_mark(self.ocean@, p as int);
            }
            self.ocean.set(p, true);
            proof {
                assert forall|r: int|
                    0 <= r < k implies ((#[trigger] self.ocean@[r]) <==> exists|tt: int|
                    0 <= tt < t + 1 && picks@[tt] as int == r) by {
                    if r == p as int {
                        assert(picks@[t as int] as int == r);
                    } else {
                        if self.ocean@[r] {
                            assert(ocean_prev[r]);
                            let tt = choose|tt: int| 0 <= tt < t && picks@[tt] as int == r;
                            assert(0 <= tt < t + 1 && picks@[tt] as int == r);
                        }
                        if exists|tt: int| 0 <= tt < t + 1 && picks@[tt] as int == r {
                            let tt = choose|tt: int| 0 <= tt < t + 1 && picks@[tt] as int == r;
                            assert(tt != t);
                            assert(ocean_prev[r]);
                        }
                    }
                }
            }
            t += 1;
        }
        // label every cell by its plate's label
        let mut c: usize = 0;
        while c < n
            invariant
                a.wf(),
                a.complete(),
                n == a.spec_num_cells(),
                k == a.spec_num_regions(),
                c <= n,
                self.ocean@.len() == k,
                self.labels@.len() == n,
                count_true(self.ocean@) == k / 3,
                forall|cc: int|
                    0 <= cc < c ==> (#[trigger] self.labels@[cc]) == Some(
                        self.plate_label((a.region_of(cc)->Some_0).0 as int),
                    ),
            decreases n - c,
        {
            let p = a.get(c).unwrap();
            let label = if self.ocean[p.0] {
                SurfaceLabel::Sea
            } else {
                SurfaceLabel::Land
            };
            self.labels.set(c, Some(label));
            c += 1;
        }
    }

    /// The reset signal: clears every cell's label and nothing else. The
    /// plate assignment and the boundary flags live elsewhere and are
    /// untouched, however often reset runs.
    pub fn reset_continents(&mut self)
        ensures
            final(self).spec_num_cells() == old(self).spec_num_cells(),
            final(self).spec_num_regions() == old(self).spec_num_regions(),
            final(self).ocean@ == old(self).ocean@,
            final(self).labels_clear(),
    {
        let n = self.labels.len();
        let mut c: usize = 0;
        while c < n
            invariant
                c <= n,
                self.labels@.len() == n,
                self.ocean@ == old(self).ocean@,
                forall|cc: int| 0 <= cc < c ==> (#[trigger] self.labels@[cc]) is None,
            decreases n - c,
        {
            self.labels.set(c, None);
            c += 1;
        }
    }
}

/// Surface label consistency: two cells of the same plate always carry the
/// same label.
pub proof fn lemma_surface_label_consistency(
    s: SurfaceClassification,
    a: RegionAssignment,
    c1: int,
    c2: int,
)
    requires
        s.labels_assigned(a),
        0 <= c1 < s.spec_num_cells(),
        0 <= c2 < s.spec_num_cells(),
        a.region_of(c1) == a.region_of(c2),
    ensures
        s.labels@[c1] == s.labels@[c2],
{
}

} // verus!
