use vstd::prelude::*;

use crate::git::commit::CommitInfo;
use crate::git::graph::Graph;
use crate::git::lanes::{lanes_after, rows_of};
use crate::git::laws::law_paging;
use crate::git::oid::CommitId;

verus! {

/// A key, as far as the log tells keys apart.
#[derive(Clone, Copy, Debug, PartialEq, Eq, Structural)]
pub enum Key {
    /// A character key.
    Char(char),
    /// Escape.
    Esc,
    /// Arrow down.
    Down,
    /// Arrow up.
    Up,
    /// Page down.
    PageDown,
    /// Page up.
    PageUp,
    /// Home.
    Home,
    /// End.
    End,
    /// Any other key.
    Other,
}

/// What a key asks of the log.
#[derive(Clone, Copy, Debug, PartialEq, Eq, Structural)]
pub enum Command {
    /// Leave the program.
    Quit,
    /// Move the cursor one line down.
    LineDown,
    /// Move the cursor one line up.
    LineUp,
    /// Move the cursor one page down.
    PageDown,
    /// Move the cursor one page up.
    PageUp,
    /// Move the cursor to the first commit.
    Top,
    /// Move the cursor to the last commit of the history.
    Bottom,
    /// Nothing: the key has no meaning.
    Ignore,
}

/// What is to be read from the repository before the next key is handled.
#[derive(Clone, Copy, Debug, PartialEq, Eq, Structural)]
pub enum Action {
    /// Nothing.
    Nothing,
    /// The next batch of commits, to be handed to
    /// [`App::load_more_commits`]; a failure to read it is passed over.
    LoadMore,
    /// The next batch of commits, to be handed to [`App::after_batch`],
    /// read or not, which says whether another one is to follow.
    LoadAll,
}

/// The command that a key stands for.
pub open spec fn command_of(key: Key) -> Command {
    match key {
        Key::Char('q') | Key::Esc => Command::Quit,
        Key::Char('j') | Key::Down => Command::LineDown,
        Key::Char('k') | Key::Up => Command::LineUp,
        Key::Char(' ') | Key::PageDown => Command::PageDown,
        Key::Char('-') | Key::Char('a') | Key::PageUp => Command::PageUp,
        Key::Char('g') | Key::Home => Command::Top,
        Key::Char('G') | Key::End => Command::Bottom,
        _ => Command::Ignore,
    }
}

/// Index of the last of `count` commits; zero when there is none.
pub open spec fn last_index(count: nat) -> nat {
    if count == 0 {
        0
    } else {
        (count - 1) as nat
    }
}

/// Where the cursor stands after it has moved `n` lines down from
/// `selected` in a list of `count` commits: it stops at the last one.
pub open spec fn moved_down(selected: nat, n: nat, count: nat) -> nat {
    if selected + n <= last_index(count) {
        selected + n
    } else {
        last_index(count)
    }
}

/// Where the cursor stands after it has moved `n` lines up from `selected`:
/// it stops at the first commit.
pub open spec fn moved_up(selected: nat, n: nat) -> nat {
    if selected >= n {
        (selected - n) as nat
    } else {
        0
    }
}

/// Whether a cursor at `selected` is within one page of the end of `count`
/// commits.
pub open spec fn near_end(selected: nat, page_height: nat, count: nat) -> bool {
    selected + page_height >= count
}

/// The commits as the graph reads them: each identifier with its parents.
pub open spec fn history_of(commits: Seq<CommitInfo>) -> Seq<(CommitId, Seq<CommitId>)> {
    commits.map_values(|c: CommitInfo| (c.id, c.parent_ids@))
}

/// The text of each line.
pub open spec fn texts(lines: Seq<String>) -> Seq<Seq<char>> {
    lines.map_values(|line: String| line@)
}

/// Whether `after` is the log `before` with `batch` taken in, the cursor
/// left aside: an empty batch ends the history, any other adds its commits
/// with their rows, drawn from the lanes that `before` holds, and once the
/// history has ended nothing is added.
pub open spec fn took_in(before: App, batch: Seq<CommitInfo>, after: App) -> bool {
    &&& after.should_quit == before.should_quit
    &&& after.page_height == before.page_height
    &&& if before.all_loaded || batch.len() == 0 {
        &&& after.all_loaded
        &&& after.commits == before.commits
        &&& after.graph_lines == before.graph_lines
        &&& after.graph == before.graph
    } else {
        &&& !after.all_loaded
        &&& after.commits@ == before.commits@ + batch
        &&& after.graph_lines@.len() == before.graph_lines@.len() + batch.len()
        &&& after.graph@ == lanes_after(before.graph@, history_of(batch))
        &&& texts(after.graph_lines@) == texts(before.graph_lines@) + rows_of(
            before.graph@,
            history_of(batch),
        )
    }
}

impl Key {
    /// The command that this key stands for.
    pub fn command(&self) -> (command: Command)
        ensures
            command == command_of(*self),
    {
        match self {
            Key::Char('q') | Key::Esc => Command::Quit,
            Key::Char('j') | Key::Down => Command::LineDown,
            Key::Char('k') | Key::Up => Command::LineUp,
            Key::Char(' ') | Key::PageDown => Command::PageDown,
            Key::Char('-') | Key::Char('a') | Key::PageUp => Command::PageUp,
            Key::Char('g') | Key::Home => Command::Top,
            Key::Char('G') | Key::End => Command::Bottom,
            _ => Command::Ignore,
        }
    }
}

/// State of the log: the commits loaded so far, their graph rows, and the
/// cursor.
pub struct App {
    /// Whether the program is to end.
    pub should_quit: bool,
    /// The commits loaded so far, newest first.
    pub commits: Vec<CommitInfo>,
    /// The graph row of each commit, in the order of `commits`.
    pub graph_lines: Vec<String>,
    /// The lanes of the graph after the last commit loaded.
    pub graph: Graph,
    /// Whether the whole history is loaded.
    pub all_loaded: bool,
    /// Index of the commit under the cursor.
    pub selected: usize,
    /// Number of rows that the log shows at once.
    pub page_height: usize,
}

impl App {
    /// Whether the log is in order: the graph rows are those of the commits
    /// loaded, drawn in one piece from a graph without lanes; the graph
    /// holds the lanes that they have left; and the cursor is on a commit,
    /// or at the top where there is none.
    pub open spec fn consistent(&self) -> bool {
        &&& texts(self.graph_lines@) == rows_of(Seq::empty(), history_of(self.commits@))
        &&& self.graph@ == lanes_after(Seq::empty(), history_of(self.commits@))
        &&& self.selected <= last_index(self.commits@.len())
    }

    /// The log before anything is loaded: no commit, the cursor at the top,
    /// a page of twenty rows.
    pub fn new() -> (app: App)
        ensures
            app.consistent(),
            !app.should_quit,
            app.commits@ == Seq::<CommitInfo>::empty(),
            app.graph_lines@ == Seq::<String>::empty(),
            app.graph@ == Seq::<CommitId>::empty(),
            !app.all_loaded,
            app.selected == 0,
            app.page_height == 20,
    {
        let app = App {
            should_quit: false,
            commits: Vec::new(),
            graph_lines: Vec::new(),
            graph: Graph::new(),
            all_loaded: false,
            selected: 0,
            page_height: 20,
        };
        proof {
            assert(history_of(app.commits@) =~= Seq::empty());
            assert(texts(app.graph_lines@) =~= rows_of(Seq::empty(), Seq::empty()));
        }
        app
    }

    /// Takes in the next batch of commits read from the repository.
    ///
    /// An empty batch means that the history has ended. Of any other batch
    /// each commit is drawn, in order and from the lanes that the batches
    /// before have left, and its row is kept beside it. Once the history
    /// has ended, a batch is passed over.
    pub fn load_more_commits(&mut self, batch: Vec<CommitInfo>)
        ensures
            old(self).consistent() ==> final(self).consistent(),
            took_in(*old(self), batch@, *final(self)),
            final(self).should_quit == old(self).should_quit,
            final(self).selected == old(self).selected,
            final(self).page_height == old(self).page_height,
            old(self).all_loaded ==> *final(self) == *old(self),
            !old(self).all_loaded && batch@.len() == 0 ==> *final(self) == (App {
                all_loaded: true,
                ..*old(self)
            }),
            !old(self).all_loaded && batch@.len() > 0 ==> {
                &&& !final(self).all_loaded
                &&& final(self).commits@ == old(self).commits@ + batch@
                &&& final(self).graph_lines@.len() == old(self).graph_lines@.len() + batch@.len()
                &&& final(self).graph@ == lanes_after(old(self).graph@, history_of(batch@))
                &&& texts(final(self).graph_lines@) == texts(old(self).graph_lines@) + rows_of(
                    old(self).graph@,
                    history_of(batch@),
                )
            },
    {
        if self.all_loaded {
            return ;
        }
        if batch.len() == 0 {
            self.all_loaded = true;
            return ;
        }
        let ghost history = history_of(batch@);
        let ghost lanes = self.graph@;
        let ghost lines = texts(self.graph_lines@);
        let mut batch = batch;
        let mut i: usize = 0;
        proof {
            assert(history.take(0) =~= Seq::empty());
            assert(lines + rows_of(lanes, history).take(0) =~= lines);
        }
        while i < batch.len()
            invariant
                i <= batch.len(),
                history == history_of(batch@),
                self.should_quit == old(self).should_quit,
                self.selected == old(self).selected,
                self.page_height == old(self).page_height,
                self.commits == old(self).commits,
                !self.all_loaded,
                self.graph@ == lanes_after(lanes, history.take(i as int)),
                texts(self.graph_lines@) == lines + rows_of(lanes, history).take(i as int),
            decreases batch.len() - i,
        {
            let ghost before = self.graph_lines@;
            let line = self.graph.next_row(batch[i].id, batch[i].parent_ids.as_slice());
            self.graph_lines.push(line);
            proof {
                let upto = history.take(i + 1);
                assert(upto.drop_last() =~= history.take(i as int));
                assert(upto.last() == history[i as int]);
                assert(texts(before.push(line)) =~= texts(before).push(line@));
                assert(rows_of(lanes, history).take(i + 1) =~= rows_of(lanes, history).take(
                    i as int,
                ).push(line@));
            }
            i += 1;
        }
        proof {
            assert(history.take(i as int) =~= history);
            assert(rows_of(lanes, history).take(i as int) =~= rows_of(lanes, history));
        }
        self.commits.append(&mut batch);
        proof {
            let loaded = history_of(old(self).commits@);
            assert(history_of(self.commits@) =~= loaded + history);
            law_paging(Seq::empty(), loaded, history);
        }
    }

    /// Whether the next batch is to be read now: it is while the history
    /// has not ended and the cursor is within one page of the last commit
    /// loaded.
    pub fn maybe_load_more(&self) -> (action: Action)
        ensures
            action == (if !self.all_loaded && near_end(
                self.selected as nat,
                self.page_height as nat,
                self.commits@.len(),
            ) {
                Action::LoadMore
            } else {
                Action::Nothing
            }),
    {
        if self.all_loaded {
            return Action::Nothing;
        }
        let count = self.commits.len();
        let near = match self.selected.checked_add(self.page_height) {
            Some(reach) => reach >= count,
            None => true,
        };
        if near {
            Action::LoadMore
        } else {
            Action::Nothing
        }
    }

    /// Moves the cursor `n` lines down, as far as commits are loaded, and
    /// says whether more are to be read.
    fn move_down(&mut self, n: usize) -> (action: Action)
        ensures
            *final(self) == (App {
                selected: moved_down(
                    old(self).selected as nat,
                    n as nat,
                    old(self).commits@.len(),
                ) as usize,
                ..*old(self)
            }),
            final(self).selected == moved_down(
                old(self).selected as nat,
                n as nat,
                old(self).commits@.len(),
            ),
            action == (if !final(self).all_loaded && near_end(
                final(self).selected as nat,
                final(self).page_height as nat,
                final(self).commits@.len(),
            ) {
                Action::LoadMore
            } else {
                Action::Nothing
            }),
    {
        let max = self.commits.len().saturating_sub(1);
        let target = self.selected.saturating_add(n);
        self.selected = if target < max {
            target
        } else {
            max
        };
        self.maybe_load_more()
    }

    /// Moves the cursor `n` lines up, as far as the first commit.
    fn move_up(&mut self, n: usize)
        ensures
            *final(self) == (App {
                selected: moved_up(old(self).selected as nat, n as nat) as usize,
                ..*old(self)
            }),
            final(self).selected == moved_up(old(self).selected as nat, n as nat),
    {
        self.selected = self.selected.saturating_sub(n);
    }

    /// Puts the cursor on the last commit loaded.
    pub fn select_last(&mut self)
        ensures
            old(self).consistent() ==> final(self).consistent(),
            *final(self) == (App {
                selected: last_index(old(self).commits@.len()) as usize,
                ..*old(self)
            }),
            final(self).selected == last_index(old(self).commits@.len()),
    {
        self.selected = self.commits.len().saturating_sub(1);
    }

    /// Jumps to the very last commit: at once when the whole history is
    /// loaded, and after the rest has been read otherwise.
    pub fn jump_to_end(&mut self) -> (action: Action)
        ensures
            old(self).consistent() ==> final(self).consistent(),
            old(self).all_loaded ==> action == Action::Nothing && final(self).selected
                == last_index(old(self).commits@.len()) && *final(self) == (App {
                selected: final(self).selected,
                ..*old(self)
            }),
            !old(self).all_loaded ==> action == Action::LoadAll && *final(self) == *old(self),
    {
        if self.all_loaded {
            self.select_last();
            Action::Nothing
        } else {
            Action::LoadAll
        }
    }

    /// Goes on with a jump to the very last commit, after a batch was asked
    /// for: `batch` is what was read, and `None` when the read failed.
    ///
    /// A batch that was read is taken in. The jump goes on with the next
    /// batch while the history has not ended; it stops when the history has
    /// ended or the read has failed, with the cursor on the last commit
    /// loaded.
    pub fn after_batch(&mut self, batch: Option<Vec<CommitInfo>>) -> (action: Action)
        ensures
            old(self).consistent() ==> final(self).consistent(),
            match batch {
                None => action == Action::Nothing && final(self).selected == last_index(
                    old(self).commits@.len(),
                ) && *final(self) == (App { selected: final(self).selected, ..*old(self) }),
                Some(batch) => {
                    &&& took_in(*old(self), batch@, *final(self))
                    &&& final(self).all_loaded ==> action == Action::Nothing
                        && final(self).selected == last_index(final(self).commits@.len())
                    &&& !final(self).all_loaded ==> action == Action::LoadAll
                        && final(self).selected == old(self).selected
                },
            },
    {
        match batch {
            None => {
                self.select_last();
                Action::Nothing
            },
            Some(batch) => {
                self.load_more_commits(batch);
                if self.all_loaded {
                    self.select_last();
                    Action::Nothing
                } else {
                    Action::LoadAll
                }
            },
        }
    }

    /// Handles a key: moves the cursor or marks the program as ending, and
    /// says what is to be read from the repository before the next key.
    ///
    /// Nothing but the cursor and the mark changes.
    pub fn handle_event(&mut self, key: Key) -> (action: Action)
        ensures
            old(self).consistent() ==> final(self).consistent(),
            final(self).should_quit == (old(self).should_quit || command_of(key)
                == Command::Quit),
            final(self).selected == next_selected(*old(self), command_of(key)),
            *final(self) == (App {
                should_quit: final(self).should_quit,
                selected: final(self).selected,
                ..*old(self)
            }),
            action == next_action(*old(self), command_of(key)),
    {
        match key.command() {
            Command::Quit => {
                self.should_quit = true;
                Action::Nothing
            },
            Command::LineDown => self.move_down(1),
            Command::LineUp => {
                self.move_up(1);
                Action::Nothing
            },
            Command::PageDown => {
                let n = self.page_height;
                self.move_down(n)
            },
            Command::PageUp => {
                let n = self.page_height;
                self.move_up(n);
                Action::Nothing
            },
            Command::Top => {
                self.selected = 0;
                Action::Nothing
            },
            Command::Bottom => self.jump_to_end(),
            Command::Ignore => Action::Nothing,
        }
    }
}

/// Where the cursor of `app` stands after `command`.
pub open spec fn next_selected(app: App, command: Command) -> nat {
    let selected = app.selected as nat;
    let count = app.commits@.len();
    match command {
        Command::LineDown => moved_down(selected, 1, count),
        Command::PageDown => moved_down(selected, app.page_height as nat, count),
        Command::LineUp => moved_up(selected, 1),
        Command::PageUp => moved_up(selected, app.page_height as nat),
        Command::Top => 0,
        Command::Bottom => if app.all_loaded {
            last_index(count)
        } else {
            selected
        },
        Command::Quit | Command::Ignore => selected,
    }
}

/// What `command` has the caller read from the repository, the log being
/// `app` before it: the next batch when the cursor has moved down to within
/// a page of the end, and all the rest for a jump to the bottom, as long as
/// the history has not ended.
pub open spec fn next_action(app: App, command: Command) -> Action {
    match command {
        Command::LineDown | Command::PageDown => if !app.all_loaded && near_end(
            next_selected(app, command),
            app.page_height as nat,
            app.commits@.len(),
        ) {
            Action::LoadMore
        } else {
            Action::Nothing
        },
        Command::Bottom => if app.all_loaded {
            Action::Nothing
        } else {
            Action::LoadAll
        },
        _ => Action::Nothing,
    }
}

} // verus!
