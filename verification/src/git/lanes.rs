use vstd::prelude::*;

use super::oid::CommitId;

verus! {

/// Column of the first lane that waits for `id`, or the number of lanes when
/// none does.
pub open spec fn lane_of(lanes: Seq<CommitId>, id: CommitId) -> int
    decreases lanes.len(),
{
    if lanes.len() == 0 || lanes[0] == id {
        0
    } else {
        1 + lane_of(lanes.drop_first(), id)
    }
}

/// The lanes once `id` has a column: unchanged when a lane already waits for
/// it, with a new rightmost lane otherwise.
pub open spec fn with_lane(lanes: Seq<CommitId>, id: CommitId) -> Seq<CommitId> {
    if lanes.contains(id) {
        lanes
    } else {
        lanes.push(id)
    }
}

/// A row of `width` columns, two cells each: a marker, then a blank. The
/// marker is `*` in column `col` and `|` in every other column.
pub open spec fn row_glyphs(width: nat, col: int) -> Seq<char> {
    Seq::new(
        2 * width,
        |i: int|
            if i % 2 == 1 {
                ' '
            } else if i / 2 == col {
                '*'
            } else {
                '|'
            },
    )
}

/// The row drawn for commit `id` when the lanes are `lanes`.
pub open spec fn row_of(lanes: Seq<CommitId>, id: CommitId) -> Seq<char> {
    row_glyphs(with_lane(lanes, id).len(), lane_of(lanes, id))
}

/// Holds of every lane target but `id`.
pub open spec fn other_than(id: CommitId) -> spec_fn(CommitId) -> bool {
    |c: CommitId| c != id
}

/// The lanes that a merge opens for its later parents `extra`, in parent
/// order: a parent gets one unless a lane of `base` waits for it already or
/// an earlier parent in `extra` is the same commit.
pub open spec fn spawned(base: Seq<CommitId>, extra: Seq<CommitId>) -> Seq<CommitId>
    decreases extra.len(),
{
    if extra.len() == 0 {
        Seq::empty()
    } else {
        let earlier = extra.drop_last();
        let p = extra.last();
        if base.contains(p) || earlier.contains(p) {
            spawned(base, earlier)
        } else {
            spawned(base, earlier).push(p)
        }
    }
}

/// The lanes to the left of the column of `id`.
pub open spec fn left_of(lanes: Seq<CommitId>, id: CommitId) -> Seq<CommitId> {
    with_lane(lanes, id).take(lane_of(lanes, id))
}

/// The lanes to the right of the column of `id` that wait for another commit.
/// Those that wait for `id` too have converged with it and are gone.
pub open spec fn right_of(lanes: Seq<CommitId>, id: CommitId) -> Seq<CommitId> {
    with_lane(lanes, id).skip(lane_of(lanes, id) + 1).filter(other_than(id))
}

/// The lanes after commit `id` with parents `parents` has been drawn.
///
/// The column of `id` closes when there is no parent, and waits for the first
/// parent otherwise; the lanes of the later parents open directly to its
/// right.
pub open spec fn advance(lanes: Seq<CommitId>, id: CommitId, parents: Seq<CommitId>) -> Seq<
    CommitId,
> {
    let left = left_of(lanes, id);
    let right = right_of(lanes, id);
    if parents.len() == 0 {
        left + right
    } else {
        let kept = left.push(parents[0]);
        kept + spawned(kept + right, parents.skip(1)) + right
    }
}

/// Holds of the lane targets that are `id`.
pub open spec fn same_as(id: CommitId) -> spec_fn(CommitId) -> bool {
    |c: CommitId| c == id
}

/// How many lanes wait for `id`.
pub open spec fn waiting(lanes: Seq<CommitId>, id: CommitId) -> nat {
    lanes.filter(same_as(id)).len()
}

/// Holds of the cells that show `glyph`.
pub open spec fn shows(glyph: char) -> spec_fn(char) -> bool {
    |c: char| c == glyph
}

/// How many cells of `row` show `glyph`.
pub open spec fn glyph_count(row: Seq<char>, glyph: char) -> nat {
    row.filter(shows(glyph)).len()
}

/// The lanes after the commits of `history`, each an identifier with its
/// parents, have been drawn in order from `lanes` on.
pub open spec fn lanes_after(
    lanes: Seq<CommitId>,
    history: Seq<(CommitId, Seq<CommitId>)>,
) -> Seq<CommitId>
    decreases history.len(),
{
    if history.len() == 0 {
        lanes
    } else {
        advance(lanes_after(lanes, history.drop_last()), history.last().0, history.last().1)
    }
}

/// The rows drawn for the commits of `history`, in order, from `lanes` on.
pub open spec fn rows_of(lanes: Seq<CommitId>, history: Seq<(CommitId, Seq<CommitId>)>) -> Seq<
    Seq<char>,
> {
    Seq::new(
        history.len(),
        |i: int| row_of(lanes_after(lanes, history.take(i)), history[i].0),
    )
}

/// `lane_of` is the least column that waits for `id`.
pub proof fn lemma_lane_of(lanes: Seq<CommitId>, id: CommitId)
    ensures
        0 <= lane_of(lanes, id) <= lanes.len(),
        lane_of(lanes, id) < lanes.len() <==> lanes.contains(id),
        lane_of(lanes, id) < lanes.len() ==> lanes[lane_of(lanes, id)] == id,
        forall|k: int| 0 <= k < lane_of(lanes, id) ==> lanes[k] != id,
        lane_of(lanes, id) < with_lane(lanes, id).len(),
        with_lane(lanes, id)[lane_of(lanes, id)] == id,
    decreases lanes.len(),
{
    if lanes.len() == 0 {
    } else if lanes[0] == id {
    } else {
        let rest = lanes.drop_first();
        lemma_lane_of(rest, id);
        let c = lane_of(rest, id);
        assert forall|k: int| 0 <= k < 1 + c implies lanes[k] != id by {
            if k > 0 {
                assert(lanes[k] == rest[k - 1]);
            }
        }
        if c < rest.len() {
            assert(lanes[1 + c] == rest[c]);
        } else {
            assert forall|k: int| 0 <= k < lanes.len() implies lanes[k] != id by {
                if k > 0 {
                    assert(lanes[k] == rest[k - 1]);
                }
            }
        }
    }
}

/// A column is the one of `id` when it waits for `id` and none to its left
/// does.
pub proof fn lemma_lane_of_is(lanes: Seq<CommitId>, id: CommitId, col: int)
    requires
        0 <= col <= lanes.len(),
        col < lanes.len() ==> lanes[col] == id,
        forall|k: int| 0 <= k < col ==> lanes[k] != id,
    ensures
        lane_of(lanes, id) == col,
{
    lemma_lane_of(lanes, id);
}

/// A filter keeps a stretch whose entries all pass it.
pub(crate) proof fn lemma_filter_keeps(s: Seq<CommitId>, f: spec_fn(CommitId) -> bool, a: int, b: int)
    requires
        0 <= a <= b <= s.len(),
        forall|m: int| a <= m < b ==> f(s[m]),
    ensures
        s.skip(a).filter(f) == s.subrange(a, b) + s.skip(b).filter(f),
    decreases b - a,
{
    if a == b {
        assert(s.subrange(a, b) + s.skip(b).filter(f) =~= s.skip(b).filter(f));
    } else {
        lemma_filter_keeps(s, f, a + 1, b);
        let head = seq![s[a]];
        assert(s.skip(a) =~= head + s.skip(a + 1));
        Seq::filter_distributes_over_add(head, s.skip(a + 1), f);
        reveal_with_fuel(Seq::filter, 2);
        assert(head.drop_last() =~= Seq::<CommitId>::empty());
        assert(head.filter(f) =~= head);
        assert(s.subrange(a, b) =~= head + s.subrange(a + 1, b));
        assert(s.skip(a).filter(f) =~= s.subrange(a, b) + s.skip(b).filter(f));
    }
}

/// A filter drops a first entry that fails it.
pub(crate) proof fn lemma_filter_drops(s: Seq<CommitId>, f: spec_fn(CommitId) -> bool, j: int)
    requires
        0 <= j < s.len(),
        !f(s[j]),
    ensures
        s.skip(j).filter(f) == s.skip(j + 1).filter(f),
{
    let head = seq![s[j]];
    assert(s.skip(j) =~= head + s.skip(j + 1));
    Seq::filter_distributes_over_add(head, s.skip(j + 1), f);
    reveal_with_fuel(Seq::filter, 2);
    assert(head.drop_last() =~= Seq::<CommitId>::empty());
    assert(head.filter(f) =~= Seq::<CommitId>::empty());
    assert(head.filter(f) + s.skip(j + 1).filter(f) =~= s.skip(j + 1).filter(f));
}

/// What a filter keeps held before and passes the filter.
pub(crate) proof fn lemma_filter_contains(s: Seq<CommitId>, f: spec_fn(CommitId) -> bool, x: CommitId)
    ensures
        s.filter(f).contains(x) <==> s.contains(x) && f(x),
{
    if s.filter(f).contains(x) {
        let i = choose|i: int| 0 <= i < s.filter(f).len() && s.filter(f)[i] == x;
        s.lemma_filter_pred(f, i);
        s.lemma_filter_contains_rev(f, x);
    }
    if s.contains(x) && f(x) {
        let i = choose|i: int| 0 <= i < s.len() && s[i] == x;
        s.lemma_filter_contains(f, i);
    }
}

/// A merge opens a lane for exactly those later parents that no lane waits
/// for.
pub proof fn lemma_spawned_contains(base: Seq<CommitId>, extra: Seq<CommitId>, x: CommitId)
    ensures
        spawned(base, extra).contains(x) <==> extra.contains(x) && !base.contains(x),
        spawned(base, extra).len() <= extra.len(),
    decreases extra.len(),
{
    if extra.len() > 0 {
        let earlier = extra.drop_last();
        let p = extra.last();
        lemma_spawned_contains(base, earlier, x);
        lemma_spawned_contains(base, earlier, p);
        let before = spawned(base, earlier);
        assert(extra =~= earlier.push(p));
        if extra.contains(x) {
            let i = choose|i: int| 0 <= i < extra.len() && extra[i] == x;
            if i < earlier.len() {
                assert(earlier[i] == x);
            }
        }
        if earlier.contains(x) {
            let i = choose|i: int| 0 <= i < earlier.len() && earlier[i] == x;
            assert(extra[i] == x);
        }
        assert(extra[extra.len() - 1] == p);
        if !(base.contains(p) || earlier.contains(p)) {
            let after = before.push(p);
            assert(after[after.len() - 1] == p);
            if before.contains(x) {
                let i = choose|i: int| 0 <= i < before.len() && before[i] == x;
                assert(after[i] == x);
            }
            if after.contains(x) {
                let i = choose|i: int| 0 <= i < after.len() && after[i] == x;
                if i < before.len() {
                    assert(before[i] == x);
                }
            }
        }
    }
}

/// A commit is in one of three runs of lanes exactly when it is in their
/// concatenation.
pub(crate) proof fn lemma_contains_add(
    a: Seq<CommitId>,
    b: Seq<CommitId>,
    c: Seq<CommitId>,
    x: CommitId,
)
    ensures
        (a + b + c).contains(x) <==> a.contains(x) || b.contains(x) || c.contains(x),
{
    let all = a + b + c;
    if a.contains(x) {
        let i = choose|i: int| 0 <= i < a.len() && a[i] == x;
        assert(all[i] == x);
    }
    if b.contains(x) {
        let i = choose|i: int| 0 <= i < b.len() && b[i] == x;
        assert(all[a.len() + i] == x);
    }
    if c.contains(x) {
        let i = choose|i: int| 0 <= i < c.len() && c[i] == x;
        assert(all[a.len() + b.len() + i] == x);
    }
    if all.contains(x) {
        let i = choose|i: int| 0 <= i < all.len() && all[i] == x;
        if i < a.len() {
            assert(a[i] == x);
        } else if i < a.len() + b.len() {
            assert(b[i - a.len()] == x);
        } else {
            assert(c[i - a.len() - b.len()] == x);
        }
    }
}

/// The filters for `id` and for every other commit split the lanes in two.
pub(crate) proof fn lemma_filter_split(lanes: Seq<CommitId>, id: CommitId)
    ensures
        lanes.filter(same_as(id)).len() + lanes.filter(other_than(id)).len() == lanes.len(),
    decreases lanes.len(),
{
    reveal_with_fuel(Seq::filter, 2);
    if lanes.len() > 0 {
        lemma_filter_split(lanes.drop_last(), id);
    }
}

/// No lane waits for `id` among lanes that all wait for other commits.
pub(crate) proof fn lemma_waiting_none(lanes: Seq<CommitId>, id: CommitId)
    requires
        !lanes.contains(id),
    ensures
        waiting(lanes, id) == 0,
        lanes.filter(other_than(id)) == lanes,
    decreases lanes.len(),
{
    reveal_with_fuel(Seq::filter, 2);
    if lanes.len() > 0 {
        let rest = lanes.drop_last();
        assert(lanes[lanes.len() - 1] != id);
        assert forall|k: int| 0 <= k < rest.len() implies rest[k] != id by {
            assert(lanes[k] == rest[k]);
        }
        lemma_waiting_none(rest, id);
        assert(rest.push(lanes.last()) =~= lanes);
    }
}

/// The lanes as drawn are the ones to the left of the node, the node's own
/// lane, and the ones to its right; of these only the last can wait for `id`
/// too.
pub(crate) proof fn lemma_shape(lanes: Seq<CommitId>, id: CommitId)
    ensures
        with_lane(lanes, id).len() == left_of(lanes, id).len() + 1 + with_lane(lanes, id).skip(
            lane_of(lanes, id) + 1,
        ).len(),
        left_of(lanes, id).len() == lane_of(lanes, id),
        !left_of(lanes, id).contains(id),
        !right_of(lanes, id).contains(id),
        waiting(with_lane(lanes, id), id) == 1 + waiting(
            with_lane(lanes, id).skip(lane_of(lanes, id) + 1),
            id,
        ),
        lanes.contains(id) ==> with_lane(lanes, id) == lanes,
        !lanes.contains(id) ==> right_of(lanes, id) == Seq::<CommitId>::empty() && left_of(
            lanes,
            id,
        ) == lanes && waiting(lanes, id) == 0,
{
    lemma_lane_of(lanes, id);
    let open = with_lane(lanes, id);
    let col = lane_of(lanes, id);
    let left = open.take(col);
    let rest = open.skip(col + 1);
    let f = same_as(id);
    lemma_filter_contains(rest, other_than(id), id);
    assert(!left.contains(id)) by {
        if left.contains(id) {
            let k = choose|k: int| 0 <= k < left.len() && left[k] == id;
            assert(open[k] == id);
            assert(lanes[k] == id);
        }
    }
    lemma_waiting_none(left, id);
    let node = seq![id];
    assert(open =~= left + node + rest);
    Seq::filter_distributes_over_add(left + node, rest, f);
    Seq::filter_distributes_over_add(left, node, f);
    assert(node.filter(f) =~= node) by {
        reveal_with_fuel(Seq::filter, 2);
        assert(node.drop_last() =~= Seq::<CommitId>::empty());
    }
    if !lanes.contains(id) {
        assert(rest =~= Seq::<CommitId>::empty());
        assert(left =~= lanes);
    }
}

/// A row of `width` columns shows one node when `col` is one of them, a
/// connector in every other column, and a blank after each.
pub(crate) proof fn lemma_row_counts(width: nat, col: int)
    ensures
        row_glyphs(width, col).len() == 2 * width,
        glyph_count(row_glyphs(width, col), '*') == (if 0 <= col < width {
            1nat
        } else {
            0nat
        }),
        glyph_count(row_glyphs(width, col), '*') + glyph_count(row_glyphs(width, col), '|')
            == width,
        glyph_count(row_glyphs(width, col), ' ') == width,
    decreases width,
{
    reveal_with_fuel(Seq::filter, 3);
    if width > 0 {
        let w = (width - 1) as nat;
        lemma_row_counts(w, col);
        let row = row_glyphs(width, col);
        let marker = row[2 * w as int];
        assert(row.last() == ' ');
        assert(row.drop_last().last() == marker);
        assert(row.drop_last().drop_last() =~= row_glyphs(w, col));
    }
}

/// A filter that keeps as many entries as there are keeps them all.
pub(crate) proof fn lemma_filter_len_full(s: Seq<CommitId>, f: spec_fn(CommitId) -> bool)
    requires
        s.filter(f).len() == s.len(),
    ensures
        s.filter(f) == s,
    decreases s.len(),
{
    reveal_with_fuel(Seq::filter, 2);
    if s.len() > 0 {
        s.drop_last().lemma_filter_len(f);
        lemma_filter_len_full(s.drop_last(), f);
        assert(s.drop_last().push(s.last()) =~= s);
    }
}

} // verus!
