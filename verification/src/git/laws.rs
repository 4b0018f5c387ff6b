use vstd::prelude::*;

use super::lanes::{
    advance, glyph_count, lane_of, lanes_after, left_of, lemma_contains_add,
    lemma_filter_contains, lemma_filter_drops, lemma_filter_keeps, lemma_filter_len_full,
    lemma_filter_split, lemma_lane_of, lemma_lane_of_is, lemma_row_counts, lemma_shape,
    lemma_spawned_contains, lemma_waiting_none, other_than, right_of, row_glyphs, row_of,
    rows_of, spawned, waiting, with_lane,
};
use super::oid::CommitId;

verus! {

/// Whether commit `i` of `history` has one parent, the commit that follows
/// it.
pub open spec fn leads_to_next(history: Seq<(CommitId, Seq<CommitId>)>, i: int) -> bool {
    history[i].1 == seq![history[i + 1].0]
}

/// Whether `history` is a chain: every commit has the next one as its only
/// parent, and the last one has no parent.
pub open spec fn is_chain(history: Seq<(CommitId, Seq<CommitId>)>) -> bool {
    &&& history.len() > 0
    &&& forall|i: int| 0 <= i < history.len() - 1 ==> #[trigger] leads_to_next(history, i)
    &&& history.last().1.len() == 0
}

/// Column accounting: whatever the lanes, the row of a commit has two cells
/// for each lane it is drawn with, exactly one node, and a connector for
/// every other lane.
pub proof fn law_row_accounting(lanes: Seq<CommitId>, id: CommitId)
    ensures
        row_of(lanes, id).len() == 2 * with_lane(lanes, id).len(),
        glyph_count(row_of(lanes, id), '*') == 1,
        glyph_count(row_of(lanes, id), '|') == with_lane(lanes, id).len() - 1,
        glyph_count(row_of(lanes, id), ' ') == with_lane(lanes, id).len(),
{
    lemma_lane_of(lanes, id);
    lemma_row_counts(with_lane(lanes, id).len(), lane_of(lanes, id));
}

/// Linear history: while a chain of commits, each with the next as its only
/// parent and ending in a root, is drawn from an empty graph, exactly one
/// lane is open. The row of every commit is one node and its blank, with no
/// connector, and after the root no lane is left.
pub proof fn law_linear_history(history: Seq<(CommitId, Seq<CommitId>)>)
    requires
        is_chain(history),
    ensures
        forall|i: int|
            0 <= i < history.len() ==> #[trigger] rows_of(Seq::empty(), history)[i] == seq![
                '*',
                ' ',
            ],
        forall|i: int|
            0 <= i < history.len() ==> glyph_count(
                #[trigger] rows_of(Seq::empty(), history)[i],
                '*',
            ) == 1 && glyph_count(rows_of(Seq::empty(), history)[i], '|') == 0,
        forall|i: int|
            0 < i < history.len() ==> #[trigger] lanes_after(Seq::empty(), history.take(i))
                == seq![history[i].0],
        lanes_after(Seq::empty(), history) == Seq::<CommitId>::empty(),
{
    let start = Seq::<CommitId>::empty();
    assert forall|i: int| 0 <= i < history.len() implies #[trigger] rows_of(start, history)[i]
        == seq!['*', ' '] && glyph_count(rows_of(start, history)[i], '*') == 1 && glyph_count(
        rows_of(start, history)[i],
        '|',
    ) == 0 by {
        lemma_chain_step(history, i);
        let lanes = lanes_after(start, history.take(i));
        lemma_row_counts(1, 0);
        lemma_lane_of(lanes, history[i].0);
        assert(row_glyphs(1, 0) =~= seq!['*', ' ']);
    }
    assert forall|i: int| 0 < i < history.len() implies #[trigger] lanes_after(
        start,
        history.take(i),
    ) == seq![history[i].0] by {
        lemma_chain_step(history, i);
    }
    lemma_chain_step(history, history.len() - 1);
    assert(history.take(history.len() as int) =~= history);
}

/// Where a chain stands before its commit `i`, and after it.
proof fn lemma_chain_step(history: Seq<(CommitId, Seq<CommitId>)>, i: int)
    requires
        is_chain(history),
        0 <= i < history.len(),
    ensures
        with_lane(lanes_after(Seq::empty(), history.take(i)), history[i].0) == seq![history[i].0],
        lane_of(lanes_after(Seq::empty(), history.take(i)), history[i].0) == 0,
        i > 0 ==> lanes_after(Seq::empty(), history.take(i)) == seq![history[i].0],
        i == 0 ==> lanes_after(Seq::empty(), history.take(i)) == Seq::<CommitId>::empty(),
        i + 1 < history.len() ==> lanes_after(Seq::empty(), history.take(i + 1))
            == seq![history[i + 1].0],
        i + 1 == history.len() ==> lanes_after(Seq::empty(), history.take(i + 1)) == Seq::<
            CommitId,
        >::empty(),
    decreases i,
{
    let start = Seq::<CommitId>::empty();
    let id = history[i].0;
    let parents = history[i].1;
    let lanes = lanes_after(start, history.take(i));
    if i > 0 {
        lemma_chain_step(history, i - 1);
    } else {
        assert(history.take(0) =~= Seq::empty());
    }
    let open = with_lane(lanes, id);
    assert(open =~= seq![id]) by {
        if i > 0 {
            assert(lanes[0] == id);
        }
    }
    assert(left_of(lanes, id) =~= start);
    assert(open.skip(1) =~= start);
    assert(right_of(lanes, id) =~= start);
    let upto = history.take(i + 1);
    assert(upto.drop_last() =~= history.take(i));
    assert(upto.last() == history[i]);
    if i + 1 < history.len() {
        assert(leads_to_next(history, i));
        assert(parents.skip(1) =~= start);
        assert(advance(lanes, id, parents) =~= seq![history[i + 1].0]);
    } else {
        assert(advance(lanes, id, parents) =~= start);
    }
}

/// Convergence: when a commit with one parent arrives, all the lanes that
/// waited for it collapse into one. The lane count drops by the number of
/// those lanes less one: by exactly one where two lanes had converged. The
/// row still shows one node only; the other lanes that waited for the commit
/// are drawn as connectors in it, and have no column in the rows after.
pub proof fn law_convergence(lanes: Seq<CommitId>, id: CommitId, parents: Seq<CommitId>)
    requires
        lanes.contains(id),
        parents.len() == 1,
    ensures
        waiting(lanes, id) >= 1,
        advance(lanes, id, parents).len() == lanes.len() - (waiting(lanes, id) - 1),
        waiting(lanes, id) == 2 ==> advance(lanes, id, parents).len() == lanes.len() - 1,
        glyph_count(row_of(lanes, id), '*') == 1,
        glyph_count(row_of(lanes, id), '|') == lanes.len() - 1,
{
    lemma_shape(lanes, id);
    lemma_lane_of(lanes, id);
    lemma_row_counts(lanes.len(), lane_of(lanes, id));
    lemma_filter_split(lanes.skip(lane_of(lanes, id) + 1), id);
    assert(parents.skip(1) =~= Seq::<CommitId>::empty());
}

/// Diverge and reconverge: after a commit with the two parents `p` and `q`
/// and then `p` and `q` themselves, each with `m` as its only parent, two
/// lanes wait for `m`. The row of `m` shows one node, in the left one of
/// them, and a connector in the other; and when `m` has one parent, one
/// lane is left after it, one less than before.
pub proof fn law_diverge_reconverge(
    a: CommitId,
    p: CommitId,
    q: CommitId,
    m: CommitId,
    x: CommitId,
)
    requires
        p != q,
        m != p,
        m != q,
    ensures
        ({
            let before = lanes_after(
                Seq::empty(),
                seq![(a, seq![p, q]), (p, seq![m]), (q, seq![m])],
            );
            &&& before == seq![m, m]
            &&& row_of(before, m) == seq!['*', ' ', '|', ' ']
            &&& advance(before, m, seq![x]) == seq![x]
            &&& advance(before, m, seq![x]).len() == before.len() - 1
        }),
{
    let none = Seq::<CommitId>::empty();
    let history = seq![(a, seq![p, q]), (p, seq![m]), (q, seq![m])];
    let one = history.take(1);
    let two = history.take(2);
    assert(history.take(3) =~= history);
    assert(history.drop_last() =~= two);
    assert(two.drop_last() =~= one);
    assert(one.drop_last() =~= Seq::empty());
    reveal_with_fuel(lanes_after, 4);
    assert(lanes_after(none, one) == advance(none, a, seq![p, q]));
    assert(lanes_after(none, two) == advance(lanes_after(none, one), p, seq![m]));
    assert(lanes_after(none, history) == advance(lanes_after(none, two), q, seq![m]));
    lemma_advance_fork(a, p, q);
    lemma_advance_pair(p, q, p, m);
    lemma_advance_pair(m, q, q, m);
    lemma_advance_pair(m, m, m, x);
    let before = seq![m, m];
    lemma_lane_of_is(before, m, 0);
    assert(before.contains(m)) by {
        assert(before[0] == m);
    }
    assert(row_glyphs(2, 0) =~= seq!['*', ' ', '|', ' ']);
}

/// A first commit with two different parents leaves a lane for each.
proof fn lemma_advance_fork(a: CommitId, p: CommitId, q: CommitId)
    requires
        p != q,
    ensures
        advance(Seq::empty(), a, seq![p, q]) == seq![p, q],
{
    let none = Seq::<CommitId>::empty();
    let parents = seq![p, q];
    lemma_lane_of(none, a);
    assert(with_lane(none, a) =~= seq![a]);
    assert(left_of(none, a) =~= none);
    assert(seq![a].skip(1) =~= none);
    assert(right_of(none, a) =~= none);
    let kept = none.push(p);
    let extra = parents.skip(1);
    assert(extra =~= seq![q]);
    assert(extra.drop_last() =~= none);
    assert(kept + none =~= seq![p]);
    assert(!seq![p].contains(q));
    reveal_with_fuel(spawned, 2);
    assert(spawned(seq![p], seq![q]) =~= seq![q]);
    assert(kept + seq![q] + none =~= seq![p, q]);
}

/// Of two lanes, a commit with one parent takes the first that waits for
/// it; the other one stays unless it waits for the commit too.
proof fn lemma_advance_pair(l: CommitId, r: CommitId, id: CommitId, parent: CommitId)
    requires
        l == id || r == id,
    ensures
        advance(seq![l, r], id, seq![parent]) == (if l == id && r == id {
            seq![parent]
        } else if l == id {
            seq![parent, r]
        } else {
            seq![l, parent]
        }),
{
    let lanes = seq![l, r];
    let none = Seq::<CommitId>::empty();
    let parents = seq![parent];
    assert(lanes.contains(id)) by {
        if l == id {
            assert(lanes[0] == id);
        } else {
            assert(lanes[1] == id);
        }
    }
    assert(parents.skip(1) =~= none);
    reveal_with_fuel(Seq::filter, 2);
    if l == id {
        lemma_lane_of_is(lanes, id, 0);
        assert(lanes.take(0) =~= none);
        let rest = lanes.skip(1);
        assert(rest =~= seq![r]);
        assert(rest.drop_last() =~= none);
        if r == id {
            assert(rest.filter(other_than(id)) =~= none);
            assert(none.push(parent) + none + none =~= seq![parent]);
        } else {
            assert(rest.filter(other_than(id)) =~= seq![r]);
            assert(none.push(parent) + none + seq![r] =~= seq![parent, r]);
        }
    } else {
        lemma_lane_of_is(lanes, id, 1);
        assert(lanes.take(1) =~= seq![l]);
        assert(lanes.skip(2) =~= none);
        assert(lanes.skip(2).filter(other_than(id)) =~= none);
        assert(seq![l].push(parent) + none + none =~= seq![l, parent]);
    }
}

/// N-way merge: a commit with two or more parents, for which at most one
/// lane waits, keeps its column for the first parent and opens a lane for
/// each later parent that no lane waits for yet. The new lanes stand
/// directly to the right of the commit's column, in parent order. Counted
/// from the lanes that the row was drawn with, the lanes grow by the number
/// of later parents less those already waited for.
///
/// The later parents are taken to be all different: of two that are the same
/// commit only the first can open a lane.
pub proof fn law_merge(lanes: Seq<CommitId>, id: CommitId, parents: Seq<CommitId>)
    requires
        parents.len() >= 2,
        waiting(lanes, id) <= 1,
        parents.skip(1).no_duplicates(),
    ensures
        ({
            let drawn = with_lane(lanes, id);
            let col = lane_of(lanes, id);
            let base = drawn.update(col, parents[0]);
            let fresh = parents.skip(1).filter(not_pending(base));
            let known = parents.skip(1).filter(pending(base));
            &&& advance(lanes, id, parents) == drawn.take(col).push(parents[0]) + fresh
                + drawn.skip(col + 1)
            &&& advance(lanes, id, parents).len() == drawn.len() + (parents.len() - 1)
                - known.len()
        }),
{
    lemma_shape(lanes, id);
    lemma_lane_of(lanes, id);
    let drawn = with_lane(lanes, id);
    let col = lane_of(lanes, id);
    let rest = drawn.skip(col + 1);
    assert(waiting(rest, id) == 0);
    lemma_filter_split(rest, id);
    lemma_filter_len_full(rest, other_than(id));
    let kept = drawn.take(col).push(parents[0]);
    assert(kept + rest =~= drawn.update(col, parents[0]));
    lemma_spawned_distinct(kept + rest, parents.skip(1));
}

/// Holds of the commits that no lane of `base` waits for.
pub open spec fn not_pending(base: Seq<CommitId>) -> spec_fn(CommitId) -> bool {
    |c: CommitId| !base.contains(c)
}

/// Holds of the commits that some lane of `base` waits for.
pub open spec fn pending(base: Seq<CommitId>) -> spec_fn(CommitId) -> bool {
    |c: CommitId| base.contains(c)
}

/// Of later parents that are all different, a merge opens a lane for each
/// that no lane waits for, in parent order.
proof fn lemma_spawned_distinct(base: Seq<CommitId>, extra: Seq<CommitId>)
    requires
        extra.no_duplicates(),
    ensures
        spawned(base, extra) == extra.filter(not_pending(base)),
        spawned(base, extra).len() + extra.filter(pending(base)).len() == extra.len(),
    decreases extra.len(),
{
    reveal_with_fuel(Seq::filter, 2);
    if extra.len() > 0 {
        let earlier = extra.drop_last();
        let p = extra.last();
        lemma_spawned_distinct(base, earlier);
        assert(!earlier.contains(p)) by {
            if earlier.contains(p) {
                let k = choose|k: int| 0 <= k < earlier.len() && earlier[k] == p;
                assert(extra[k] == extra[extra.len() - 1]);
            }
        }
    }
}

/// Root termination: a commit without parents, for which at most one lane
/// waits, closes exactly one lane, its own, and opens none: every other
/// lane stays, in its order.
pub proof fn law_root(lanes: Seq<CommitId>, id: CommitId)
    requires
        waiting(lanes, id) <= 1,
    ensures
        advance(lanes, id, Seq::empty()) == with_lane(lanes, id).remove(lane_of(lanes, id)),
        advance(lanes, id, Seq::empty()).len() == with_lane(lanes, id).len() - 1,
        advance(lanes, id, Seq::empty()).len() <= lanes.len(),
{
    lemma_shape(lanes, id);
    lemma_lane_of(lanes, id);
    let drawn = with_lane(lanes, id);
    let col = lane_of(lanes, id);
    let rest = drawn.skip(col + 1);
    assert(waiting(rest, id) == 0);
    lemma_filter_split(rest, id);
    lemma_filter_len_full(rest, other_than(id));
    assert(drawn.take(col) + rest =~= drawn.remove(col));
}

/// A commit without parents leaves exactly the lanes that waited for other
/// commits, however many waited for it.
pub proof fn law_root_leaves_others(lanes: Seq<CommitId>, id: CommitId)
    ensures
        advance(lanes, id, Seq::empty()) == lanes.filter(other_than(id)),
{
    lemma_lane_of(lanes, id);
    let f = other_than(id);
    let col = lane_of(lanes, id);
    if lanes.contains(id) {
        let left = lanes.take(col);
        let rest = lanes.skip(col + 1);
        assert(lanes.skip(0) =~= lanes);
        lemma_filter_keeps(lanes, f, 0, col);
        lemma_filter_drops(lanes, f, col);
        assert(lanes.subrange(0, col) =~= left);
        assert(advance(lanes, id, Seq::empty()) == left + rest.filter(f));
    } else {
        lemma_waiting_none(lanes, id);
        let drawn = lanes.push(id);
        assert(drawn.take(col) =~= lanes);
        assert(drawn.skip(col + 1) =~= Seq::<CommitId>::empty());
        assert(drawn.skip(col + 1).filter(f) =~= Seq::<CommitId>::empty());
        assert(lanes + Seq::<CommitId>::empty() =~= lanes);
    }
}

/// Consumption: once a commit is drawn no lane waits for it any more,
/// unless it names itself among its parents; and whatever a lane waits for
/// afterwards, a lane waited for before or the commit has as a parent.
pub proof fn law_consumed(lanes: Seq<CommitId>, id: CommitId, parents: Seq<CommitId>)
    ensures
        !parents.contains(id) ==> !advance(lanes, id, parents).contains(id),
        forall|c: CommitId|
            #[trigger] advance(lanes, id, parents).contains(c) ==> lanes.contains(c)
                || parents.contains(c),
{
    lemma_shape(lanes, id);
    lemma_lane_of(lanes, id);
    let drawn = with_lane(lanes, id);
    let col = lane_of(lanes, id);
    let left = left_of(lanes, id);
    let right = right_of(lanes, id);
    let none = Seq::<CommitId>::empty();
    assert forall|c: CommitId| left.contains(c) || right.contains(c) implies lanes.contains(
        c,
    ) && c != id by {
        if left.contains(c) {
            let k = choose|k: int| 0 <= k < left.len() && left[k] == c;
            assert(drawn[k] == c);
            assert(lanes[k] == c);
        } else {
            let rest = drawn.skip(col + 1);
            lemma_filter_contains(rest, other_than(id), c);
            let k = choose|k: int| 0 <= k < rest.len() && rest[k] == c;
            assert(drawn[col + 1 + k] == c);
            assert(lanes[col + 1 + k] == c);
        }
    }
    let after = advance(lanes, id, parents);
    if parents.len() == 0 {
        assert forall|c: CommitId| #[trigger] after.contains(c) implies left.contains(c)
            || right.contains(c) by {
            lemma_contains_add(left, none, right, c);
            assert(left + none + right =~= left + right);
        }
    } else {
        let first = seq![parents[0]];
        let kept = left.push(parents[0]);
        let extra = parents.skip(1);
        let fresh = spawned(kept + right, extra);
        assert(after =~= left + (first + fresh) + right);
        assert forall|c: CommitId| #[trigger] after.contains(c) implies left.contains(c)
            || right.contains(c) || parents.contains(c) by {
            lemma_contains_add(left, first + fresh, right, c);
            lemma_contains_add(none, first, fresh, c);
            assert(none + first + fresh =~= first + fresh);
            lemma_spawned_contains(kept + right, extra, c);
            if first.contains(c) {
                assert(parents[0] == c);
            }
            if extra.contains(c) {
                let k = choose|k: int| 0 <= k < extra.len() && extra[k] == c;
                assert(parents[k + 1] == c);
            }
        }
    }
}

/// Paging: the lanes and the rows are the same whether a history is drawn
/// in one piece or in two, the second from the lanes that the first has
/// left.
pub proof fn law_paging(
    lanes: Seq<CommitId>,
    first: Seq<(CommitId, Seq<CommitId>)>,
    second: Seq<(CommitId, Seq<CommitId>)>,
)
    ensures
        lanes_after(lanes, first + second) == lanes_after(lanes_after(lanes, first), second),
        rows_of(lanes, first + second) == rows_of(lanes, first) + rows_of(
            lanes_after(lanes, first),
            second,
        ),
{
    lemma_lanes_after_add(lanes, first, second);
    let whole = first + second;
    let joined = rows_of(lanes, first) + rows_of(lanes_after(lanes, first), second);
    assert forall|i: int| 0 <= i < whole.len() implies rows_of(lanes, whole)[i] == joined[i] by {
        if i < first.len() {
            assert(whole.take(i) =~= first.take(i));
        } else {
            let j = i - first.len();
            assert(whole.take(i) =~= first + second.take(j));
            lemma_lanes_after_add(lanes, first, second.take(j));
        }
    }
    assert(rows_of(lanes, whole) =~= joined);
}

/// The lanes after two histories in a row.
proof fn lemma_lanes_after_add(
    lanes: Seq<CommitId>,
    first: Seq<(CommitId, Seq<CommitId>)>,
    second: Seq<(CommitId, Seq<CommitId>)>,
)
    ensures
        lanes_after(lanes, first + second) == lanes_after(lanes_after(lanes, first), second),
    decreases second.len(),
{
    if second.len() == 0 {
        assert(first + second =~= first);
    } else {
        lemma_lanes_after_add(lanes, first, second.drop_last());
        assert((first + second).drop_last() =~= first + second.drop_last());
    }
}

} // verus!
