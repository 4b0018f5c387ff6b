use vstd::prelude::*;

use super::commit::{CommitInfo, RefDecoration, RefKind};
use super::oid::CommitId;
use crate::text::strip_prefix;

verus! {

/// How many commits one batch holds at most.
pub const BATCH_SIZE: usize = 200;

/// A decoration as its name and kind.
pub type Label = (Seq<char>, RefKind);

/// The name and kind under which the reference `fullname` decorates a
/// commit: a branch, a remote-tracking branch or a tag goes by what follows
/// its directory, and no other reference decorates.
pub open spec fn label_of(fullname: Seq<char>) -> Option<Label> {
    if "refs/heads/"@.is_prefix_of(fullname) {
        Some((fullname.skip("refs/heads/"@.len() as int), RefKind::Branch))
    } else if "refs/remotes/"@.is_prefix_of(fullname) {
        Some((fullname.skip("refs/remotes/"@.len() as int), RefKind::Remote))
    } else if "refs/tags/"@.is_prefix_of(fullname) {
        Some((fullname.skip("refs/tags/"@.len() as int), RefKind::Tag))
    } else {
        None
    }
}

/// The label of `HEAD`.
pub open spec fn head_label() -> Label {
    ("HEAD"@, RefKind::Head)
}

/// The entry that a reference with target `target` makes in the map of
/// decorations, where it decorates.
pub open spec fn entry_of(reference: (String, CommitId)) -> Option<(CommitId, Label)> {
    match label_of(reference.0@) {
        Some(label) => Some((reference.1, label)),
        None => None,
    }
}

/// The entries of a repository whose `HEAD` points to `head` and whose
/// references are `references`, each a full name with the commit it leads
/// to: first `HEAD`, then the references that decorate, in their order.
pub open spec fn entries_of(head: Option<CommitId>, references: Seq<(String, CommitId)>) -> Seq<
    (CommitId, Label),
> {
    let first = match head {
        Some(id) => seq![(id, head_label())],
        None => Seq::empty(),
    };
    first + references.filter_map(|r: (String, CommitId)| entry_of(r))
}

/// Holds of the entries for commit `id`.
pub open spec fn points_to(id: CommitId) -> spec_fn((CommitId, Label)) -> bool {
    |entry: (CommitId, Label)| entry.0 == id
}

/// The labels that `entries` hold for commit `id`, in their order.
pub open spec fn labels_of(entries: Seq<(CommitId, Label)>, id: CommitId) -> Seq<Label> {
    entries.filter(points_to(id)).map_values(|entry: (CommitId, Label)| entry.1)
}

/// Each decoration as its name and kind.
pub open spec fn labels(decorations: Seq<RefDecoration>) -> Seq<Label> {
    decorations.map_values(|d: RefDecoration| (d.name@, d.kind))
}

/// The decoration under which the reference `fullname` shows, if it shows.
pub fn classify(fullname: &str) -> (decoration: Option<RefDecoration>)
    ensures
        match decoration {
            Some(d) => label_of(fullname@) == Some((d.name@, d.kind)),
            None => label_of(fullname@) is None,
        },
{
    if let Some(branch) = strip_prefix(fullname, "refs/heads/") {
        assert(fullname@.skip("refs/heads/"@.len() as int) =~= branch@);
        Some(RefDecoration { name: branch.to_owned(), kind: RefKind::Branch })
    } else if let Some(remote) = strip_prefix(fullname, "refs/remotes/") {
        assert(fullname@.skip("refs/remotes/"@.len() as int) =~= remote@);
        Some(RefDecoration { name: remote.to_owned(), kind: RefKind::Remote })
    } else if let Some(tag) = strip_prefix(fullname, "refs/tags/") {
        assert(fullname@.skip("refs/tags/"@.len() as int) =~= tag@);
        Some(RefDecoration { name: tag.to_owned(), kind: RefKind::Tag })
    } else {
        None
    }
}

/// The decorations of a repository, by the commit they point to.
pub struct RefMap {
    /// Each decoration with its commit, in the order in which they came.
    entries: Vec<(CommitId, RefDecoration)>,
}

impl View for RefMap {
    type V = Seq<(CommitId, Label)>;

    /// The decorations, each with its commit, in the order in which they
    /// came.
    closed spec fn view(&self) -> Seq<(CommitId, Label)> {
        self.entries@.map_values(|e: (CommitId, RefDecoration)| (e.0, (e.1.name@, e.1.kind)))
    }
}

impl RefMap {
    /// A map without decorations.
    pub fn new() -> (map: RefMap)
        ensures
            map@ == Seq::<(CommitId, Label)>::empty(),
    {
        let map = RefMap { entries: Vec::new() };
        assert(map@ =~= Seq::empty());
        map
    }

    /// Adds a decoration of commit `id`, behind those it has.
    pub fn insert(&mut self, id: CommitId, decoration: RefDecoration)
        ensures
            final(self)@ == old(self)@.push((id, (decoration.name@, decoration.kind))),
    {
        self.entries.push((id, decoration));
        assert(self@ =~= old(self)@.push((id, (decoration.name@, decoration.kind))));
    }

    /// The decorations of commit `id`, in the order in which they came.
    pub fn get(&self, id: CommitId) -> (found: Vec<RefDecoration>)
        ensures
            labels(found@) == labels_of(self@, id),
    {
        let mut found: Vec<RefDecoration> = Vec::new();
        let mut i: usize = 0;
        assert(self@.take(0) =~= Seq::empty());
        assert(labels(found@) =~= labels_of(self@.take(0), id));
        while i < self.entries.len()
            invariant
                i <= self.entries.len(),
                self@.len() == self.entries.len(),
                labels(found@) == labels_of(self@.take(i as int), id),
            decreases self.entries.len() - i,
        {
            let ghost before = found@;
            let ghost seen = self@.take(i as int);
            let ghost next = self@.take(i + 1);
            proof {
                assert(next.drop_last() =~= seen);
                assert(next.last() == self@[i as int]);
                reveal_with_fuel(Seq::filter, 2);
            }
            if self.entries[i].0 == id {
                let decoration = self.entries[i].1.clone();
                found.push(decoration);
                assert(labels(found@) =~= labels(before).push(self@[i as int].1));
                assert(labels_of(next, id) =~= labels_of(seen, id).push(self@[i as int].1));
            } else {
                assert(labels_of(next, id) =~= labels_of(seen, id));
            }
            i += 1;
        }
        assert(self@.take(i as int) =~= self@);
        found
    }
}

/// Collects the decorations of a repository: `HEAD`, where it points to a
/// commit, then every reference that decorates.
///
/// `references` holds each reference that has a name and leads to a commit,
/// by its full name, with that commit.
pub fn build_ref_map(head: Option<CommitId>, references: &Vec<(String, CommitId)>) -> (map:
    RefMap)
    ensures
        map@ == entries_of(head, references@),
{
    let mut map = RefMap::new();
    if let Some(id) = head {
        map.insert(id, RefDecoration { name: "HEAD".to_owned(), kind: RefKind::Head });
    }
    let ghost first = map@;
    let ghost entry = |r: (String, CommitId)| entry_of(r);
    let mut i: usize = 0;
    assert(references@.take(0) =~= Seq::empty());
    assert(map@ =~= first + references@.take(0).filter_map(entry));
    while i < references.len()
        invariant
            i <= references.len(),
            entry == |r: (String, CommitId)| entry_of(r),
            map@ == first + references@.take(i as int).filter_map(entry),
        decreases references.len() - i,
    {
        let ghost seen = references@.take(i as int);
        let ghost next = references@.take(i + 1);
        proof {
            assert(next.drop_last() =~= seen);
            assert(next.last() == references@[i as int]);
        }
        match classify(references[i].0.as_str()) {
            Some(decoration) => {
                map.insert(references[i].1, decoration);
                assert(map@ =~= first + next.filter_map(entry));
            },
            None => {
                assert(map@ =~= first + next.filter_map(entry));
            },
        }
        i += 1;
    }
    assert(references@.take(i as int) =~= references@);
    map
}

/// A commit as the walk through the history found it.
pub struct WalkedCommit {
    /// Identifier of the commit.
    pub id: CommitId,
    /// Identifiers of the parents, the primary one first.
    pub parent_ids: Vec<CommitId>,
    /// First line of the message, where it has one that is text.
    pub summary: Option<String>,
    /// Name of the author, where it is text.
    pub author: Option<String>,
    /// Commit time, in seconds since the Unix epoch.
    pub time: i64,
}

/// The text of `name`, and `default` where there is none.
pub open spec fn text_or(name: Option<String>, default: Seq<char>) -> Seq<char> {
    match name {
        Some(name) => name@,
        None => default,
    }
}

/// Whether `info` shows the commit `walked` with the labels `labels`: a
/// missing summary shows as nothing, a missing author as `unknown`.
pub open spec fn shows(info: CommitInfo, walked: WalkedCommit, found: Seq<Label>) -> bool {
    &&& info.id == walked.id
    &&& info.parent_ids@ == walked.parent_ids@
    &&& info.summary@ == text_or(walked.summary, ""@)
    &&& info.author@ == text_or(walked.author, "unknown"@)
    &&& info.time == walked.time
    &&& labels(info.refs@) == found
}

/// What is known of a repository besides its commits: its decorations, and
/// how far its history has been read.
pub struct Repo {
    /// The decorations, by the commit they point to.
    ref_map: RefMap,
    /// How many commits have been handed out.
    loaded_count: usize,
}

impl Repo {
    /// The decorations, each with its commit.
    pub closed spec fn decorations(&self) -> Seq<(CommitId, Label)> {
        self.ref_map@
    }

    /// How many commits have been handed out.
    pub closed spec fn loaded(&self) -> nat {
        self.loaded_count as nat
    }

    /// A repository of which nothing has been read yet, with `HEAD` at
    /// `head` and the references `references`, each by its full name with
    /// the commit it leads to.
    pub fn open(head: Option<CommitId>, references: &Vec<(String, CommitId)>) -> (repo: Repo)
        ensures
            repo.decorations() == entries_of(head, references@),
            repo.loaded() == 0,
    {
        Repo { ref_map: build_ref_map(head, references), loaded_count: 0 }
    }

    /// Which commits of the walk through the history make the next batch:
    /// how many to skip, and how many to take at most.
    pub fn next_batch(&self) -> (window: (usize, usize))
        ensures
            window.0 == self.loaded(),
            window.1 == BATCH_SIZE,
    {
        (self.loaded_count, BATCH_SIZE)
    }

    /// Makes the next batch of commits from what the walk found, each with
    /// the decorations that point to it, and counts them as handed out.
    pub fn load_commits(&mut self, walked: Vec<WalkedCommit>) -> (commits: Vec<CommitInfo>)
        requires
            old(self).loaded() + walked@.len() <= usize::MAX,
        ensures
            final(self).decorations() == old(self).decorations(),
            final(self).loaded() == old(self).loaded() + walked@.len(),
            commits@.len() == walked@.len(),
            forall|i: int|
                0 <= i < walked@.len() ==> shows(
                    #[trigger] commits@[i],
                    walked@[i],
                    labels_of(old(self).decorations(), walked@[i].id),
                ),
    {
        let count = walked.len();
        let ghost all = walked@;
        let mut commits: Vec<CommitInfo> = Vec::new();
        for next in it: walked
            invariant
                it.seq() == all,
                commits@.len() == it.index(),
                self.ref_map == old(self).ref_map,
                forall|k: int|
                    0 <= k < it.index() ==> shows(
                        #[trigger] commits@[k],
                        all[k],
                        labels_of(self.ref_map@, all[k].id),
                    ),
        {
            let refs = self.ref_map.get(next.id);
            let summary = match next.summary {
                Some(text) => text,
                None => "".to_owned(),
            };
            let author = match next.author {
                Some(name) => name,
                None => "unknown".to_owned(),
            };
            commits.push(
                CommitInfo {
                    id: next.id,
                    parent_ids: next.parent_ids,
                    summary,
                    author,
                    time: next.time,
                    refs,
                },
            );
        }
        self.loaded_count = self.loaded_count + count;
        commits
    }
}

} // verus!
