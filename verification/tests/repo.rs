use reki::git::commit::{CommitInfo, RefDecoration, RefKind};
use reki::git::oid::CommitId;
use reki::git::repo::{build_ref_map, classify, RefMap, Repo, WalkedCommit, BATCH_SIZE};

fn id(b: u8) -> CommitId {
    let mut bytes = [0u8; 20];
    bytes[0] = b;
    CommitId::from_bytes(bytes)
}

fn names(found: &[RefDecoration]) -> Vec<(String, RefKind)> {
    found.iter().map(|d| (d.name.clone(), d.kind)).collect()
}

fn reference(name: &str, target: u8) -> (String, CommitId) {
    (String::from(name), id(target))
}

fn walked(b: u8, summary: Option<&str>, author: Option<&str>) -> WalkedCommit {
    WalkedCommit {
        id: id(b),
        parent_ids: vec![id(b + 1)],
        summary: summary.map(String::from),
        author: author.map(String::from),
        time: 1_000 + b as i64,
    }
}

#[test]
fn branches_go_by_their_short_name() {
    let d = classify("refs/heads/main").unwrap();
    assert_eq!(d.name, "main");
    assert_eq!(d.kind, RefKind::Branch);
    let d = classify("refs/heads/feature/lanes").unwrap();
    assert_eq!(d.name, "feature/lanes");
    assert_eq!(d.kind, RefKind::Branch);
}

#[test]
fn remote_branches_keep_the_remote() {
    let d = classify("refs/remotes/origin/main").unwrap();
    assert_eq!(d.name, "origin/main");
    assert_eq!(d.kind, RefKind::Remote);
}

#[test]
fn tags_go_by_their_short_name() {
    let d = classify("refs/tags/v1.0").unwrap();
    assert_eq!(d.name, "v1.0");
    assert_eq!(d.kind, RefKind::Tag);
}

#[test]
fn a_bare_directory_gives_an_empty_name() {
    let d = classify("refs/heads/").unwrap();
    assert_eq!(d.name, "");
    assert_eq!(d.kind, RefKind::Branch);
}

#[test]
fn other_references_do_not_decorate() {
    assert!(classify("refs/stash").is_none());
    assert!(classify("refs/notes/commits").is_none());
    assert!(classify("HEAD").is_none());
    assert!(classify("refs/heads").is_none());
    assert!(classify("").is_none());
    assert!(classify("xrefs/heads/main").is_none());
}

#[test]
fn a_new_map_holds_nothing() {
    let map = RefMap::new();
    assert!(map.get(id(1)).is_empty());
}

#[test]
fn a_map_keeps_decorations_by_commit_in_order() {
    let mut map = RefMap::new();
    map.insert(id(1), RefDecoration { name: String::from("main"), kind: RefKind::Branch });
    map.insert(id(2), RefDecoration { name: String::from("dev"), kind: RefKind::Branch });
    map.insert(id(1), RefDecoration { name: String::from("v1"), kind: RefKind::Tag });
    assert_eq!(
        names(&map.get(id(1))),
        vec![(String::from("main"), RefKind::Branch), (String::from("v1"), RefKind::Tag)]
    );
    assert_eq!(names(&map.get(id(2))), vec![(String::from("dev"), RefKind::Branch)]);
    assert!(map.get(id(3)).is_empty());
}

#[test]
fn head_comes_first_among_the_decorations() {
    let references = vec![
        reference("refs/heads/main", 1),
        reference("refs/stash", 1),
        reference("refs/remotes/origin/main", 2),
        reference("refs/tags/v1.0", 1),
    ];
    let map = build_ref_map(Some(id(1)), &references);
    assert_eq!(
        names(&map.get(id(1))),
        vec![
            (String::from("HEAD"), RefKind::Head),
            (String::from("main"), RefKind::Branch),
            (String::from("v1.0"), RefKind::Tag),
        ]
    );
    assert_eq!(names(&map.get(id(2))), vec![(String::from("origin/main"), RefKind::Remote)]);
}

#[test]
fn without_head_only_references_decorate() {
    let references = vec![reference("refs/heads/main", 1)];
    let map = build_ref_map(None, &references);
    assert_eq!(names(&map.get(id(1))), vec![(String::from("main"), RefKind::Branch)]);
    let map = build_ref_map(None, &Vec::new());
    assert!(map.get(id(1)).is_empty());
}

#[test]
fn batches_follow_one_another() {
    let mut repo = Repo::open(None, &Vec::new());
    assert_eq!(repo.next_batch(), (0, 200));
    assert_eq!(BATCH_SIZE, 200);
    let commits = repo.load_commits(vec![walked(1, Some("a"), Some("b")), walked(2, None, None)]);
    assert_eq!(commits.len(), 2);
    assert_eq!(repo.next_batch(), (2, 200));
    let commits = repo.load_commits(Vec::new());
    assert!(commits.is_empty());
    assert_eq!(repo.next_batch(), (2, 200));
}

#[test]
fn commits_come_with_their_decorations() {
    let references = vec![reference("refs/heads/main", 1), reference("refs/tags/old", 2)];
    let mut repo = Repo::open(Some(id(1)), &references);
    let commits: Vec<CommitInfo> =
        repo.load_commits(vec![walked(1, Some("first"), Some("Ann")), walked(2, None, None)]);
    assert_eq!(commits[0].id, id(1));
    assert_eq!(commits[0].parent_ids, vec![id(2)]);
    assert_eq!(commits[0].summary, "first");
    assert_eq!(commits[0].author, "Ann");
    assert_eq!(commits[0].time, 1_001);
    assert_eq!(
        names(&commits[0].refs),
        vec![(String::from("HEAD"), RefKind::Head), (String::from("main"), RefKind::Branch)]
    );
    assert_eq!(commits[1].id, id(2));
    assert_eq!(commits[1].summary, "");
    assert_eq!(commits[1].author, "unknown");
    assert_eq!(commits[1].time, 1_002);
    assert_eq!(names(&commits[1].refs), vec![(String::from("old"), RefKind::Tag)]);
}
