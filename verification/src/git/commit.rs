use vstd::prelude::*;

use super::clock::{calendar_reaches, local_offset_seconds, write_at, written_at};
use super::oid::{hex_of, CommitId};

verus! {

/// Kind of a reference, as far as its display goes.
#[derive(Clone, Copy, Debug, PartialEq, Eq, Structural)]
pub enum RefKind {
    /// Local branch (`refs/heads/*`).
    Branch,
    /// Remote-tracking branch (`refs/remotes/*`).
    Remote,
    /// Tag (`refs/tags/*`).
    Tag,
    /// `HEAD`, detached or symbolic.
    Head,
}

/// A reference decoration attached to a commit.
#[derive(Debug)]
pub struct RefDecoration {
    /// Short display name, such as `main`, `origin/main` or `v1.0`.
    pub name: String,
    /// Kind of the reference.
    pub kind: RefKind,
}

impl Clone for RefDecoration {
    fn clone(&self) -> (copy: RefDecoration)
        ensures
            copy == *self,
    {
        RefDecoration { name: self.name.clone(), kind: self.kind }
    }
}

/// One commit, with what its line in the log shows.
pub struct CommitInfo {
    /// Identifier of the commit.
    pub id: CommitId,
    /// Identifiers of the parents, the primary one first.
    pub parent_ids: Vec<CommitId>,
    /// First line of the commit message.
    pub summary: String,
    /// Name of the author.
    pub author: String,
    /// Commit time, in seconds since the Unix epoch.
    pub time: i64,
    /// Decorations of the references that point to this commit.
    pub refs: Vec<RefDecoration>,
}

/// What stands in place of a commit time that cannot be written.
pub const UNKNOWN_TIME: &'static str = "????-??-?? ??:??";

/// How a commit time is written: year, month, day, hour and minute.
pub const TIME_PATTERN: &'static str = "[year]-[month]-[day] [hour]:[minute]";

/// The offset at which a commit time is written: the machine's own, in
/// seconds east of UTC, and UTC where that one is not known.
pub open spec fn offset_or_utc(offset: Option<i32>) -> i32 {
    match offset {
        Some(seconds) => seconds,
        None => 0,
    }
}

/// The text that shows a commit time: what the clock wrote, and the
/// placeholder where it wrote nothing.
pub open spec fn written_text(written: Option<Seq<char>>) -> Seq<char> {
    match written {
        Some(text) => text,
        None => UNKNOWN_TIME@,
    }
}

/// The text that shows a commit time, given what the clock wrote.
pub fn shown_time(written: Option<String>) -> (text: String)
    ensures
        text@ == written_text(
            match written {
                Some(text) => Some(text@),
                None => None,
            },
        ),
{
    match written {
        Some(text) => text,
        None => UNKNOWN_TIME.to_owned(),
    }
}

/// How many hexadecimal digits of an identifier a log line shows.
pub const SHORT_ID_LEN: usize = 7;

impl CommitInfo {
    /// The short form of a commit in one line: the first seven digits of
    /// its identifier, a blank, and the summary.
    pub open spec fn line(self) -> Seq<char> {
        hex_of(self.id@).take(SHORT_ID_LEN as int) + seq![' '] + self.summary@
    }

    /// The commit time as it shows where the machine's time zone lies
    /// `offset` seconds east of UTC, and in UTC where `offset` is `None`.
    pub open spec fn time_text_at(self, offset: Option<i32>) -> Seq<char> {
        written_text(written_at(self.time, offset_or_utc(offset), TIME_PATTERN@))
    }

    /// The commit time as `YYYY-MM-DD HH:MM`, at `offset` seconds east of
    /// UTC, and in UTC where `offset` is `None`.
    ///
    /// The placeholder of question marks stands where the time cannot be
    /// written: where the calendar does not reach it, or where the offset
    /// is none that a time zone can have.
    pub fn formatted_time_at(&self, offset: Option<i32>) -> (text: String)
        ensures
            text@ == self.time_text_at(offset),
            !calendar_reaches(self.time) ==> text@ == UNKNOWN_TIME@,
    {
        let seconds = match offset {
            Some(seconds) => seconds,
            None => 0,
        };
        shown_time(write_at(self.time, seconds, TIME_PATTERN))
    }

    /// The commit time in the machine's time zone, as `YYYY-MM-DD HH:MM`.
    ///
    /// The time is written in UTC where the time zone cannot be found out,
    /// and as a placeholder of question marks where the calendar does not
    /// reach it. Which offset the machine's time zone has is not said.
    pub fn formatted_time(&self) -> (text: String)
        ensures
            exists|offset: Option<i32>| text@ == #[trigger] self.time_text_at(offset),
            !calendar_reaches(self.time) ==> text@ == UNKNOWN_TIME@,
    {
        let offset = local_offset_seconds();
        self.formatted_time_at(offset)
    }

    /// The commit in one line: its short identifier and its summary.
    pub fn to_line(&self) -> (text: String)
        ensures
            text@ == self.line(),
    {
        let mut text = self.id.hex(SHORT_ID_LEN);
        text.push(' ');
        text.append(self.summary.as_str());
        text
    }
}

} // verus!
