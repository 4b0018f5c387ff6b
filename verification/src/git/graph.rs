use vstd::prelude::*;

use super::lanes::{
    advance, glyph_count, left_of, lane_of, lemma_contains_add, lemma_filter_drops,
    lemma_filter_keeps, lemma_lane_of, lemma_lane_of_is, lemma_row_counts,
    lemma_spawned_contains, other_than, right_of, row_glyphs, row_of, spawned, with_lane,
};
use super::oid::CommitId;

verus! {

/// ASCII commit-graph lane tracker.
///
/// Feed [`Graph::next_row`] every commit, newest first; each call gives the
/// row of `*`, `|` and blanks for that commit, which a caller may colour
/// cell by cell.
pub struct Graph {
    /// Open lanes, left to right, each named by the commit it waits for.
    columns: Vec<CommitId>,
}

impl View for Graph {
    type V = Seq<CommitId>;

    /// The commits that the open lanes wait for, left to right.
    closed spec fn view(&self) -> Seq<CommitId> {
        self.columns@
    }
}

impl Graph {
    /// A tracker with no open lane.
    pub fn new() -> (graph: Graph)
        ensures
            graph@ == Seq::<CommitId>::empty(),
    {
        Graph { columns: Vec::new() }
    }

    /// The commits that the open lanes wait for, left to right.
    pub fn lanes(&self) -> (lanes: &Vec<CommitId>)
        ensures
            lanes@ == self@,
    {
        &self.columns
    }

    /// Whether some lane waits for `id`.
    fn has_lane(&self, id: CommitId) -> (found: bool)
        ensures
            found == self@.contains(id),
    {
        let mut i: usize = 0;
        while i < self.columns.len()
            invariant
                i <= self.columns.len(),
                forall|k: int| 0 <= k < i ==> self.columns[k] != id,
            decreases self.columns.len() - i,
        {
            if self.columns[i] == id {
                return true;
            }
            i += 1;
        }
        false
    }

    /// Finds the column of `id`, opening a rightmost lane when none waits
    /// for it.
    fn locate(&mut self, id: CommitId) -> (col: usize)
        ensures
            final(self)@ == with_lane(old(self)@, id),
            col == lane_of(old(self)@, id),
            col < final(self)@.len(),
            final(self)@[col as int] == id,
            forall|k: int| 0 <= k < col ==> final(self)@[k] != id,
    {
        proof {
            lemma_lane_of(self@, id);
        }
        let mut i: usize = 0;
        while i < self.columns.len()
            invariant
                i <= self.columns.len(),
                self.columns@ == old(self).columns@,
                forall|k: int| 0 <= k < i ==> self.columns[k] != id,
            decreases self.columns.len() - i,
        {
            if self.columns[i] == id {
                proof {
                    lemma_lane_of_is(self@, id, i as int);
                }
                return i;
            }
            i += 1;
        }
        proof {
            lemma_lane_of_is(self@, id, i as int);
        }
        self.columns.push(id);
        i
    }

    /// The columns other than `col` that wait for `id` too, in rising order.
    fn converging(&self, id: CommitId, col: usize) -> (found: Vec<usize>)
        ensures
            converge_at(self@, id, col as int, found@),
    {
        let mut found: Vec<usize> = Vec::new();
        let mut i: usize = 0;
        while i < self.columns.len()
            invariant
                i <= self.columns.len(),
                converge_at(self.columns@.take(i as int), id, col as int, found@),
            decreases self.columns.len() - i,
        {
            let ghost seen = self.columns@.take(i as int);
            let ghost before = found@;
            let ghost next = self.columns@.take(i + 1);
            if i != col && self.columns[i] == id {
                found.push(i);
            }
            proof {
                assert forall|j: int|
                    0 <= j < next.len() && j != col && next[j] == id implies #[trigger] listed(
                    found@,
                    j,
                ) by {
                    if j < i {
                        assert(seen[j] == id);
                        assert(listed(before, j));
                        let t = choose|t: int| 0 <= t < before.len() && before[t] == j;
                        assert(found@[t] == j);
                    } else {
                        assert(found@[before.len() as int] == j);
                    }
                }
                assert forall|t: int| 0 <= t < found@.len() implies col != (#[trigger] found@[t])
                    && found@[t] < next.len() && next[found@[t] as int] == id by {
                    if t < before.len() {
                        assert(seen[before[t] as int] == id);
                    }
                }
            }
            i += 1;
        }
        assert(self.columns@.take(i as int) =~= self.columns@);
        found
    }

    /// Closes the lanes in `converging`, rightmost first, so that the columns
    /// still to go keep their place.
    fn collapse(
        &mut self,
        converging: &Vec<usize>,
        Ghost(id): Ghost<CommitId>,
        Ghost(col): Ghost<int>,
    )
        requires
            0 <= col < old(self)@.len(),
            forall|k: int| 0 <= k < col ==> old(self)@[k] != id,
            converge_at(old(self)@, id, col, converging@),
        ensures
            final(self)@ == old(self)@.take(col + 1) + old(self)@.skip(col + 1).filter(
                other_than(id),
            ),
    {
        let ghost lanes = self@;
        let ghost f = other_than(id);
        let mut k: usize = converging.len();
        proof {
            assert(lanes.skip(lanes.len() as int).filter(f) =~= Seq::<CommitId>::empty());
            assert(lanes.take(lanes.len() as int) =~= lanes);
        }
        while k > 0
            invariant
                k <= converging.len(),
                lanes == old(self)@,
                f == other_than(id),
                0 <= col < lanes.len(),
                forall|k: int| 0 <= k < col ==> lanes[k] != id,
                converge_at(lanes, id, col, converging@),
                self.columns@ == lanes.take(edge(lanes, converging@, k as int)) + lanes.skip(
                    edge(lanes, converging@, k as int),
                ).filter(f),
            decreases k,
        {
            let ghost b = edge(lanes, converging@, k as int);
            k -= 1;
            let j = converging[k];
            proof {
                lemma_gap(lanes, id, col, converging@, k as int);
                lemma_filter_drops(lanes, f, j as int);
                lemma_filter_keeps(lanes, f, j + 1, b);
                assert(lanes.take(b) =~= lanes.take(j as int + 1) + lanes.subrange(j + 1, b));
            }
            self.columns.remove(j);
            proof {
                assert(self.columns@ =~= lanes.take(j as int) + lanes.skip(j as int).filter(f));
            }
        }
        proof {
            let b = edge(lanes, converging@, 0);
            lemma_gap(lanes, id, col, converging@, -1);
            lemma_filter_keeps(lanes, f, col + 1, b);
            assert(lanes.take(b) =~= lanes.take(col + 1) + lanes.subrange(col + 1, b));
        }
    }

    /// Produces the row for one commit (such as `"* | "`) and moves the
    /// lanes on to its parents.
    ///
    /// The row has one marker and one blank for each lane that is open when
    /// the commit arrives, its own lane included: `*` in the commit's column,
    /// `|` in the others.
    pub fn next_row(&mut self, id: CommitId, parents: &[CommitId]) -> (row: String)
        ensures
            row@ == row_of(old(self)@, id),
            glyph_count(row@, '*') == 1,
            glyph_count(row@, '|') == with_lane(old(self)@, id).len() - 1,
            final(self)@ == advance(old(self)@, id, parents@),
    {
        proof {
            lemma_lane_of(self@, id);
            lemma_row_counts(with_lane(self@, id).len(), lane_of(self@, id));
        }
        let my_col = self.locate(id);
        let converging = self.converging(id, my_col);
        let row = render(self.columns.len(), my_col);

        let ghost left = left_of(old(self)@, id);
        let ghost right = right_of(old(self)@, id);
        self.collapse(&converging, Ghost(id), Ghost(my_col as int));
        let closed = closed_left_of(&converging, my_col);
        proof {
            lemma_none_left(converging@, my_col as int);
        }
        let adjusted = my_col - closed;

        if parents.len() == 0 {
            self.columns.remove(adjusted);
            assert(self.columns@ =~= left + right);
        } else {
            self.columns.set(adjusted, parents[0]);
            let ghost kept = left.push(parents@[0]);
            let ghost base = kept + right;
            assert(self.columns@ =~= kept + spawned(base, parents@.subrange(1, 1)) + right);
            let mut ins = adjusted + 1;
            let mut i: usize = 1;
            while i < parents.len()
                invariant
                    1 <= i <= parents.len(),
                    kept.len() == adjusted + 1,
                    base == kept + right,
                    ins == kept.len() + spawned(base, parents@.subrange(1, i as int)).len(),
                    self.columns@ == kept + spawned(base, parents@.subrange(1, i as int)) + right,
                decreases parents.len() - i,
            {
                let p = parents[i];
                let ghost earlier = parents@.subrange(1, i as int);
                let ghost open = spawned(base, earlier);
                proof {
                    let upto = parents@.subrange(1, i + 1);
                    assert(upto.drop_last() =~= earlier);
                    assert(upto.last() == p);
                    lemma_spawned_contains(base, earlier, p);
                    lemma_contains_add(kept, open, right, p);
                    lemma_contains_add(kept, Seq::empty(), right, p);
                    assert(kept + Seq::<CommitId>::empty() + right =~= base);
                }
                if !self.has_lane(p) {
                    self.columns.insert(ins, p);
                    assert(ins < self.columns.len());
                    ins += 1;
                    assert(self.columns@ =~= kept + open.push(p) + right);
                }
                i += 1;
            }
            assert(parents@.subrange(1, i as int) =~= parents@.skip(1));
        }
        row
    }
}

/// Whether column `j` is among `found`.
spec fn listed(found: Seq<usize>, j: int) -> bool {
    exists|t: int| 0 <= t < found.len() && found[t] == j
}

/// Whether `found` holds, in rising order, exactly the columns other than
/// `col` that wait for `id`.
spec fn converge_at(lanes: Seq<CommitId>, id: CommitId, col: int, found: Seq<usize>) -> bool {
    &&& forall|t: int|
        0 <= t < found.len() ==> col != (#[trigger] found[t]) && found[t] < lanes.len()
            && lanes[found[t] as int] == id
    &&& forall|s: int, t: int| 0 <= s < t < found.len() ==> found[s] < found[t]
    &&& forall|j: int|
        0 <= j < lanes.len() && j != col && lanes[j] == id ==> #[trigger] listed(found, j)
}

/// The column from which on the lanes have been collapsed, once the entries
/// of `found` from index `k` on are closed.
spec fn edge(lanes: Seq<CommitId>, found: Seq<usize>, k: int) -> int {
    if 0 <= k < found.len() {
        found[k] as int
    } else {
        lanes.len() as int
    }
}

/// Between one converging column and the next, and between the column of
/// `id` and the first converging one, every lane waits for another commit.
proof fn lemma_gap(lanes: Seq<CommitId>, id: CommitId, col: int, found: Seq<usize>, k: int)
    requires
        0 <= col < lanes.len(),
        forall|k: int| 0 <= k < col ==> lanes[k] != id,
        converge_at(lanes, id, col, found),
        -1 <= k < found.len(),
    ensures
        k >= 0 ==> col < found[k] < edge(lanes, found, k + 1),
        k >= 0 ==> lanes[found[k] as int] == id,
        col < edge(lanes, found, k + 1) <= lanes.len(),
        forall|m: int|
            (if k >= 0 {
                found[k] as int
            } else {
                col
            }) < m < edge(lanes, found, k + 1) ==> other_than(id)(#[trigger] lanes[m]),
{
    let lo = if k >= 0 {
        found[k] as int
    } else {
        col
    };
    let hi = edge(lanes, found, k + 1);
    if k >= 0 {
        assert(col != found[k]);
        assert(lanes[found[k] as int] == id);
    }
    if k + 1 < found.len() {
        assert(col != found[k + 1]);
        assert(lanes[found[k + 1] as int] == id);
    }
    assert forall|m: int| lo < m < hi implies other_than(id)(#[trigger] lanes[m]) by {
        if lanes[m] == id {
            assert(listed(found, m));
            let t = choose|t: int| 0 <= t < found.len() && found[t] == m;
            if k >= 0 && t < k {
                assert(found[t] < found[k]);
            }
            if t > k + 1 {
                assert(found[k + 1] < found[t]);
            }
        }
    }
}

/// How many of the columns in `found` lie to the left of `col`.
spec fn left_count(found: Seq<usize>, col: int) -> nat
    decreases found.len(),
{
    if found.len() == 0 {
        0
    } else if found.last() < col {
        left_count(found.drop_last(), col) + 1
    } else {
        left_count(found.drop_last(), col)
    }
}

/// None of the columns in `found` lies to the left of `col` when all lie
/// to its right.
proof fn lemma_none_left(found: Seq<usize>, col: int)
    requires
        forall|t: int| 0 <= t < found.len() ==> col <= #[trigger] found[t],
    ensures
        left_count(found, col) == 0,
    decreases found.len(),
{
    if found.len() > 0 {
        lemma_none_left(found.drop_last(), col);
    }
}

/// Counts the columns in `found` that lie to the left of `col`: by that many
/// places a column moves left when they close.
fn closed_left_of(found: &Vec<usize>, col: usize) -> (n: usize)
    ensures
        n == left_count(found@, col as int),
{
    let mut n: usize = 0;
    let mut i: usize = 0;
    while i < found.len()
        invariant
            i <= found.len(),
            n <= i,
            n == left_count(found@.take(i as int), col as int),
        decreases found.len() - i,
    {
        assert(found@.take(i + 1).drop_last() =~= found@.take(i as int));
        if found[i] < col {
            n += 1;
        }
        i += 1;
    }
    assert(found@.take(i as int) =~= found@);
    n
}

/// Draws a row of `width` columns with the node in column `col`.
fn render(width: usize, col: usize) -> (row: String)
    ensures
        row@ == row_glyphs(width as nat, col as int),
{
    let mut line = String::new();
    let mut i: usize = 0;
    assert(line@ =~= row_glyphs(0, col as int));
    while i < width
        invariant
            i <= width,
            line@ == row_glyphs(i as nat, col as int),
        decreases width - i,
    {
        line.push(
            if i == col {
                '*'
            } else {
                '|'
            },
        );
        line.push(' ');
        assert(line@ =~= row_glyphs((i + 1) as nat, col as int));
        i += 1;
    }
    line
}

} // verus!
