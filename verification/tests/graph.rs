use reki::git::graph::Graph;
use reki::git::oid::CommitId;

fn oid(b: u8) -> CommitId {
    let mut bytes = [0u8; 20];
    bytes[0] = b;
    CommitId::from_bytes(bytes)
}

fn count(row: &str, glyph: char) -> usize {
    row.chars().filter(|&c| c == glyph).count()
}

#[test]
fn linear_history() {
    let mut g = Graph::new();
    assert_eq!(g.next_row(oid(1), &[oid(2)]), "* ");
    assert_eq!(g.next_row(oid(2), &[oid(3)]), "* ");
    assert_eq!(g.next_row(oid(3), &[]), "* ");
}

#[test]
fn branch_and_merge() {
    let mut g = Graph::new();
    assert_eq!(g.next_row(oid(1), &[oid(2), oid(3)]), "* ");
    assert_eq!(g.next_row(oid(2), &[oid(4)]), "* | ");
    assert_eq!(g.next_row(oid(3), &[oid(4)]), "| * ");
    assert_eq!(g.next_row(oid(4), &[oid(5)]), "* | ");
    assert_eq!(g.next_row(oid(5), &[]), "* ");
}

#[test]
fn new_graph_has_no_lane() {
    let g = Graph::new();
    assert!(g.lanes().is_empty());
}

#[test]
fn linear_history_keeps_one_lane() {
    let mut g = Graph::new();
    for b in 1u8..40 {
        let row = g.next_row(oid(b), &[oid(b + 1)]);
        assert_eq!(row, "* ");
        assert_eq!(g.lanes(), &vec![oid(b + 1)]);
    }
    assert_eq!(g.next_row(oid(40), &[]), "* ");
    assert!(g.lanes().is_empty());
}

#[test]
fn converging_lanes_collapse_into_one() {
    let mut g = Graph::new();
    g.next_row(oid(1), &[oid(2), oid(3)]);
    g.next_row(oid(2), &[oid(4)]);
    g.next_row(oid(3), &[oid(4)]);
    assert_eq!(g.lanes(), &vec![oid(4), oid(4)]);
    let row = g.next_row(oid(4), &[oid(5)]);
    assert_eq!(row, "* | ");
    assert_eq!(count(&row, '*'), 1);
    assert_eq!(g.lanes(), &vec![oid(5)]);
}

#[test]
fn three_converging_lanes_collapse_at_once() {
    let mut g = Graph::new();
    g.next_row(oid(1), &[oid(2), oid(3), oid(4)]);
    g.next_row(oid(2), &[oid(9)]);
    g.next_row(oid(3), &[oid(9)]);
    g.next_row(oid(4), &[oid(9)]);
    assert_eq!(g.lanes(), &vec![oid(9), oid(9), oid(9)]);
    assert_eq!(g.next_row(oid(9), &[oid(10)]), "* | | ");
    assert_eq!(g.lanes(), &vec![oid(10)]);
}

#[test]
fn convergence_keeps_the_leftmost_lane() {
    let mut g = Graph::new();
    g.next_row(oid(1), &[oid(2), oid(3), oid(4)]);
    g.next_row(oid(2), &[oid(5)]);
    g.next_row(oid(4), &[oid(3)]);
    assert_eq!(g.lanes(), &vec![oid(5), oid(3), oid(3)]);
    assert_eq!(g.next_row(oid(3), &[oid(6)]), "| * | ");
    assert_eq!(g.lanes(), &vec![oid(5), oid(6)]);
}

#[test]
fn merge_opens_lanes_in_parent_order() {
    let mut g = Graph::new();
    g.next_row(oid(1), &[oid(2), oid(7)]);
    assert_eq!(g.lanes(), &vec![oid(2), oid(7)]);
    let row = g.next_row(oid(2), &[oid(3), oid(4), oid(5)]);
    assert_eq!(row, "* | ");
    assert_eq!(g.lanes(), &vec![oid(3), oid(4), oid(5), oid(7)]);
}

#[test]
fn merge_skips_parents_already_waited_for() {
    let mut g = Graph::new();
    g.next_row(oid(1), &[oid(2), oid(7)]);
    g.next_row(oid(2), &[oid(3), oid(7), oid(5)]);
    assert_eq!(g.lanes(), &vec![oid(3), oid(5), oid(7)]);
}

#[test]
fn merge_opens_one_lane_for_a_repeated_parent() {
    let mut g = Graph::new();
    g.next_row(oid(1), &[oid(2), oid(3), oid(3)]);
    assert_eq!(g.lanes(), &vec![oid(2), oid(3)]);
}

#[test]
fn merge_opens_no_lane_for_a_parent_equal_to_the_first() {
    let mut g = Graph::new();
    g.next_row(oid(1), &[oid(2), oid(2)]);
    assert_eq!(g.lanes(), &vec![oid(2)]);
}

#[test]
fn root_closes_its_own_lane_only() {
    let mut g = Graph::new();
    g.next_row(oid(1), &[oid(2), oid(3), oid(4)]);
    let row = g.next_row(oid(3), &[]);
    assert_eq!(row, "| * | ");
    assert_eq!(g.lanes(), &vec![oid(2), oid(4)]);
}

#[test]
fn root_closes_every_lane_that_waited_for_it() {
    let mut g = Graph::new();
    g.next_row(oid(1), &[oid(2), oid(3)]);
    g.next_row(oid(2), &[oid(4)]);
    g.next_row(oid(3), &[oid(4)]);
    assert_eq!(g.next_row(oid(4), &[]), "* | ");
    assert!(g.lanes().is_empty());
}

#[test]
fn unknown_commit_gets_a_new_rightmost_lane() {
    let mut g = Graph::new();
    g.next_row(oid(1), &[oid(2)]);
    let row = g.next_row(oid(9), &[oid(8)]);
    assert_eq!(row, "| * ");
    assert_eq!(g.lanes(), &vec![oid(2), oid(8)]);
}

#[test]
fn unknown_root_leaves_the_lanes_as_they_were() {
    let mut g = Graph::new();
    g.next_row(oid(1), &[oid(2)]);
    assert_eq!(g.next_row(oid(9), &[]), "| * ");
    assert_eq!(g.lanes(), &vec![oid(2)]);
}

#[test]
fn every_row_has_one_node_and_a_connector_per_other_lane() {
    let mut g = Graph::new();
    let history: Vec<(u8, Vec<u8>)> = vec![
        (1, vec![2, 3, 4]),
        (2, vec![5]),
        (3, vec![5, 6]),
        (4, vec![6]),
        (5, vec![7]),
        (6, vec![7]),
        (7, vec![]),
    ];
    for (id, parents) in history {
        let known = g.lanes().contains(&oid(id));
        let width = g.lanes().len() + if known { 0 } else { 1 };
        let parents: Vec<CommitId> = parents.into_iter().map(oid).collect();
        let row = g.next_row(oid(id), &parents);
        assert_eq!(row.len(), 2 * width);
        assert_eq!(count(&row, '*'), 1);
        assert_eq!(count(&row, '|'), width - 1);
        assert_eq!(count(&row, ' '), width);
    }
    assert!(g.lanes().is_empty());
}

#[test]
fn paged_input_gives_the_same_rows() {
    let history: Vec<(u8, Vec<u8>)> = vec![
        (1, vec![2, 3]),
        (2, vec![4]),
        (3, vec![4]),
        (4, vec![5]),
        (5, vec![]),
    ];
    let mut whole = Graph::new();
    let mut expected = Vec::new();
    for (id, parents) in &history {
        let parents: Vec<CommitId> = parents.iter().map(|&b| oid(b)).collect();
        expected.push(whole.next_row(oid(*id), &parents));
    }
    let mut paged = Graph::new();
    let mut rows = Vec::new();
    for page in history.chunks(2) {
        for (id, parents) in page {
            let parents: Vec<CommitId> = parents.iter().map(|&b| oid(b)).collect();
            rows.push(paged.next_row(oid(*id), &parents));
        }
    }
    assert_eq!(rows, expected);
    assert_eq!(rows, vec!["* ", "* | ", "| * ", "* | ", "* "]);
}

#[test]
fn identifiers_compare_by_their_bytes() {
    let mut bytes = [7u8; 20];
    let a = CommitId::from_bytes(bytes);
    assert_eq!(a, CommitId::from_bytes([7u8; 20]));
    assert_eq!(a.as_bytes(), [7u8; 20]);
    bytes[19] = 8;
    assert_ne!(a, CommitId::from_bytes(bytes));
}

#[test]
fn no_lane_waits_for_a_commit_once_it_is_drawn() {
    let mut g = Graph::new();
    let history: Vec<(u8, Vec<u8>)> = vec![
        (1, vec![2, 3, 4]),
        (2, vec![5]),
        (3, vec![5, 6]),
        (4, vec![6]),
        (5, vec![7]),
        (6, vec![7]),
        (7, vec![]),
    ];
    for (id, parents) in history {
        let before = g.lanes().clone();
        let parents: Vec<CommitId> = parents.into_iter().map(oid).collect();
        g.next_row(oid(id), &parents);
        assert!(!g.lanes().contains(&oid(id)));
        for lane in g.lanes() {
            assert!(before.contains(lane) || parents.contains(lane));
        }
    }
}

#[test]
fn commit_that_names_itself_keeps_its_lane() {
    let mut g = Graph::new();
    assert_eq!(g.next_row(oid(1), &[oid(1)]), "* ");
    assert_eq!(g.lanes(), &vec![oid(1)]);
}

#[test]
fn diverging_lanes_reconverge() {
    let mut g = Graph::new();
    g.next_row(oid(10), &[oid(20), oid(30)]);
    g.next_row(oid(20), &[oid(40)]);
    g.next_row(oid(30), &[oid(40)]);
    let before = g.lanes().len();
    assert_eq!(g.next_row(oid(40), &[oid(50)]), "* | ");
    assert_eq!(g.lanes().len(), before - 1);
    assert_eq!(g.lanes(), &vec![oid(50)]);
}
