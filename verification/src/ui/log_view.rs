use vstd::prelude::*;

use crate::app::App;
use crate::git::clock::calendar_reaches;
use crate::git::commit::{CommitInfo, RefDecoration, RefKind, SHORT_ID_LEN, UNKNOWN_TIME};
use crate::git::oid::hex_of;
use crate::text::{blanks, decimal, decimal_of, spaces};
use crate::ui::width::{
    covers, grapheme_clusters, law_truncation, summed_width, truncate, truncation,
};

verus! {

/// Width of the date column, as in `YYYY-MM-DD HH:MM`.
pub const DATE_WIDTH: usize = 16;

/// Width of the author column.
pub const AUTHOR_MAX_WIDTH: usize = 16;

/// Sign that stands behind an author's name that was cut short.
pub const ELLIPSIS: char = '\u{2026}';

/// Sign that stands before the name of a tag.
pub const TAG_SIGN: char = '\u{1f3f7}';

/// A colour of the terminal.
#[derive(Clone, Copy, Debug, PartialEq, Eq, Structural)]
pub enum Color {
    /// The terminal's own foreground colour.
    Reset,
    Red,
    Green,
    Yellow,
    Blue,
    Cyan,
    White,
    DarkGray,
}

/// How a piece of text is drawn.
#[derive(Clone, Copy, Debug, PartialEq, Eq, Structural)]
pub struct Style {
    /// Foreground colour, where one is set.
    pub fg: Option<Color>,
    /// Whether the text is bold.
    pub bold: bool,
}

/// A piece of text with its style.
#[derive(Debug)]
pub struct Span {
    /// The text.
    pub text: String,
    /// How it is drawn.
    pub style: Style,
}

/// A span as its text and style.
pub type Cell = (Seq<char>, Style);

/// The style that sets nothing.
pub open spec fn plain() -> Style {
    Style { fg: None, bold: false }
}

/// The style that sets the colour only.
pub open spec fn colored(color: Color) -> Style {
    Style { fg: Some(color), bold: false }
}

/// The style that sets the colour and makes the text bold.
pub open spec fn strong(color: Color) -> Style {
    Style { fg: Some(color), bold: true }
}

/// The style of a cell of a graph row: the node stands out, the connectors
/// recede.
pub open spec fn glyph_style(glyph: char) -> Style {
    if glyph == '*' {
        strong(Color::White)
    } else if glyph == '|' {
        colored(Color::DarkGray)
    } else {
        plain()
    }
}

/// Each span as its text and style.
pub open spec fn cells(spans: Seq<Span>) -> Seq<Cell> {
    spans.map_values(|span: Span| (span.text@, span.style))
}

/// The cells of a graph row: one for each character, so that each can have
/// its own colour.
pub open spec fn graph_cells(line: Seq<char>) -> Seq<Cell> {
    line.map_values(|glyph: char| (seq![glyph], glyph_style(glyph)))
}

/// The cell that fills a graph row of `len` bytes up to the widest row,
/// where it is shorter.
pub open spec fn padding_cells(len: nat, max_width: nat) -> Seq<Cell> {
    if max_width > len {
        seq![(blanks((max_width - len) as nat), plain())]
    } else {
        Seq::empty()
    }
}

/// The blank between two columns.
pub open spec fn gap() -> Cell {
    (seq![' '], plain())
}

/// `text`, filled with blanks on the right up to `width` characters.
pub open spec fn padded(text: Seq<char>, width: nat) -> Seq<char> {
    text + blanks(
        if width > text.len() {
            (width - text.len()) as nat
        } else {
            0
        },
    )
}

/// The author column: `truncated`, the part of the name that fits, of
/// display width `width`, filled up to the width of the column. Where the
/// name was cut, an ellipsis takes the first place of the filling.
pub open spec fn author_text(author: Seq<char>, truncated: Seq<char>, width: nat) -> Seq<char> {
    let padding: nat = if width < AUTHOR_MAX_WIDTH {
        (AUTHOR_MAX_WIDTH - width) as nat
    } else {
        0
    };
    if truncated.len() < author.len() {
        truncated + seq![ELLIPSIS] + blanks(
            if padding > 0 {
                (padding - 1) as nat
            } else {
                0
            },
        )
    } else {
        truncated + blanks(padding)
    }
}

/// The author column for the name `author`: the part of it that fits into
/// the column, filled up to its width and marked where the name was cut.
pub open spec fn author_column_text(author: Seq<char>) -> Seq<char> {
    let cut = truncation(author, AUTHOR_MAX_WIDTH);
    author_text(author, cut.0, cut.1 as nat)
}

/// The name and style under which a decoration shows.
pub open spec fn ref_cell(name: Seq<char>, kind: RefKind) -> Cell {
    match kind {
        RefKind::Head => (seq!['('] + "HEAD"@ + seq![')', ' '], strong(Color::Cyan)),
        RefKind::Branch => (seq!['('] + name + seq![')', ' '], strong(Color::Green)),
        RefKind::Remote => (seq!['('] + name + seq![')', ' '], strong(Color::Red)),
        RefKind::Tag => (
            seq!['(', TAG_SIGN, ' '] + name + seq![')', ' '],
            strong(Color::Yellow),
        ),
    }
}

/// The cells of the decorations.
pub open spec fn ref_cells(refs: Seq<RefDecoration>) -> Seq<Cell> {
    refs.map_values(|d: RefDecoration| ref_cell(d.name@, d.kind))
}

/// The cells behind the graph: the short identifier, the date, the author,
/// the decorations and the summary.
pub open spec fn detail_cells(commit: CommitInfo, time: Seq<char>) -> Seq<Cell> {
    seq![
        (hex_of(commit.id@).take(SHORT_ID_LEN as int), colored(Color::Yellow)),
        gap(),
        (padded(time, DATE_WIDTH as nat), colored(Color::Green)),
        gap(),
        (author_column_text(commit.author@), colored(Color::Blue)),
        gap(),
    ] + ref_cells(commit.refs@) + seq![(commit.summary@, colored(Color::Reset))]
}

/// The cells of the line of one commit: its graph row, cell by cell and
/// filled up to `max_width`, then its details. `len` is the length of the
/// graph row in bytes, `time` the commit time as text.
pub open spec fn row_cells(
    commit: CommitInfo,
    graph_line: Seq<char>,
    len: nat,
    max_width: nat,
    time: Seq<char>,
) -> Seq<Cell> {
    graph_cells(graph_line) + padding_cells(len, max_width) + detail_cells(commit, time)
}

/// Length of `text` in bytes, as `str::len` gives it.
pub open spec fn byte_len(text: Seq<char>) -> nat {
    (vstd::utf8::encode_utf8(text).len() as usize) as nat
}

/// The greatest length in bytes among `lines`; zero when there is none.
pub open spec fn widest(lines: Seq<String>) -> nat
    decreases lines.len(),
{
    if lines.len() == 0 {
        0
    } else {
        let rest = widest(lines.drop_last());
        let last = byte_len(lines.last()@);
        if last > rest {
            last
        } else {
            rest
        }
    }
}

impl Style {
    /// The style that sets nothing.
    pub fn plain() -> (style: Style)
        ensures
            style == plain(),
    {
        Style { fg: None, bold: false }
    }

    /// The style that sets the colour only.
    pub fn colored(color: Color) -> (style: Style)
        ensures
            style == colored(color),
    {
        Style { fg: Some(color), bold: false }
    }

    /// The style that sets the colour and makes the text bold.
    pub fn strong(color: Color) -> (style: Style)
        ensures
            style == strong(color),
    {
        Style { fg: Some(color), bold: true }
    }

    /// The style of a cell of a graph row.
    pub fn of_glyph(glyph: char) -> (style: Style)
        ensures
            style == glyph_style(glyph),
    {
        if glyph == '*' {
            Style::strong(Color::White)
        } else if glyph == '|' {
            Style::colored(Color::DarkGray)
        } else {
            Style::plain()
        }
    }
}

/// A text of one character.
fn single(c: char) -> (text: String)
    ensures
        text@ == seq![c],
{
    let mut text = String::new();
    text.push(c);
    assert(text@ =~= seq![c]);
    text
}

/// The blank between two columns.
fn gap_span() -> (span: Span)
    ensures
        (span.text@, span.style) == gap(),
{
    Span { text: single(' '), style: Style::plain() }
}

/// The greatest length in bytes among the graph rows.
pub fn graph_max_width(lines: &Vec<String>) -> (width: usize)
    ensures
        width == widest(lines@),
{
    let mut width: usize = 0;
    let mut i: usize = 0;
    assert(lines@.take(0) =~= Seq::empty());
    while i < lines.len()
        invariant
            i <= lines.len(),
            width == widest(lines@.take(i as int)),
        decreases lines.len() - i,
    {
        assert(lines@.take(i + 1).drop_last() =~= lines@.take(i as int));
        let len = lines[i].as_str().len();
        if len > width {
            width = len;
        }
        i += 1;
    }
    assert(lines@.take(i as int) =~= lines@);
    width
}

/// `text`, filled with blanks on the right up to `width` characters.
pub fn pad_right(text: &str, width: usize) -> (out: String)
    ensures
        out@ == padded(text@, width as nat),
{
    let len = text.unicode_len();
    let mut out = text.to_owned();
    if width > len {
        let fill = spaces(width - len);
        out.append(fill.as_str());
    } else {
        assert(out@ + blanks(0) =~= out@);
    }
    out
}

/// The author column, given the part of the name that fits and its display
/// width, which is at most the width of the column.
pub fn author_display(author: &str, truncated: &str, width: usize) -> (out: String)
    requires
        width <= AUTHOR_MAX_WIDTH,
    ensures
        out@ == author_text(author@, truncated@, width as nat),
{
    let padding: usize = AUTHOR_MAX_WIDTH - width;
    let mut out = truncated.to_owned();
    if truncated.unicode_len() < author.unicode_len() {
        out.push(ELLIPSIS);
        let fill = spaces(padding.saturating_sub(1));
        out.append(fill.as_str());
    } else {
        let fill = spaces(padding);
        out.append(fill.as_str());
    }
    out
}

/// The author column: a name whose grapheme clusters together fit into the
/// column stands whole, filled up with blanks to the width of the column.
/// Of a wider name the column holds the longest beginning whose clusters
/// fit, then the ellipsis, then the blanks that are left of the column
/// after both.
pub proof fn law_author_column(author: Seq<char>)
    requires
        covers(grapheme_clusters(author), author),
    ensures
        ({
            let width = summed_width(grapheme_clusters(author));
            let cut = truncation(author, AUTHOR_MAX_WIDTH);
            &&& width <= AUTHOR_MAX_WIDTH ==> author_column_text(author) == author + blanks(
                (AUTHOR_MAX_WIDTH - width) as nat,
            )
            &&& width > AUTHOR_MAX_WIDTH ==> cut.0.is_prefix_of(author) && cut.0.len()
                < author.len() && 0 <= cut.1 <= AUTHOR_MAX_WIDTH && author_column_text(author)
                == cut.0 + seq![ELLIPSIS] + blanks(
                if cut.1 < AUTHOR_MAX_WIDTH {
                    (AUTHOR_MAX_WIDTH - cut.1 - 1) as nat
                } else {
                    0
                },
            )
        }),
{
    law_truncation(author, AUTHOR_MAX_WIDTH);
}

/// The author column: the name, cut to the width of the column where it is
/// wider, and filled up to it.
pub fn author_column(author: &str) -> (out: String)
    ensures
        out@ == author_column_text(author@),
        covers(grapheme_clusters(author@), author@),
{
    let (truncated, width) = truncate(author, AUTHOR_MAX_WIDTH);
    author_display(author, truncated.as_str(), width)
}

/// The span under which a decoration shows.
pub fn ref_span(decoration: &RefDecoration) -> (span: Span)
    ensures
        (span.text@, span.style) == ref_cell(decoration.name@, decoration.kind),
{
    let mut text = single('(');
    let color = match decoration.kind {
        RefKind::Head => {
            text.append("HEAD");
            Color::Cyan
        },
        RefKind::Branch => {
            text.append(decoration.name.as_str());
            Color::Green
        },
        RefKind::Remote => {
            text.append(decoration.name.as_str());
            Color::Red
        },
        RefKind::Tag => {
            text.push(TAG_SIGN);
            text.push(' ');
            text.append(decoration.name.as_str());
            Color::Yellow
        },
    };
    text.push(')');
    text.push(' ');
    assert(text@ =~= ref_cell(decoration.name@, decoration.kind).0);
    Span { text, style: Style::strong(color) }
}

/// The spans of the line of one commit.
///
/// `graph_line` is the graph row of the commit, `max_width` the length of
/// the widest graph row, and `time` the commit time as text.
pub fn row(commit: &CommitInfo, graph_line: &str, max_width: usize, time: &str) -> (spans: Vec<
    Span,
>)
    ensures
        cells(spans@) == row_cells(
            *commit,
            graph_line@,
            byte_len(graph_line@),
            max_width as nat,
            time@,
        ),
        covers(grapheme_clusters(commit.author@), commit.author@),
{
    let mut spans: Vec<Span> = Vec::new();

    // Graph column, a span for each character.
    assert(cells(spans@) =~= graph_cells(graph_line@.take(0)));
    for glyph in it: graph_line.chars()
        invariant
            it.seq() == graph_line@,
            cells(spans@) == graph_cells(graph_line@.take(it.index() as int)),
    {
        let ghost before = spans@;
        spans.push(Span { text: single(glyph), style: Style::of_glyph(glyph) });
        assert(cells(spans@) =~= cells(before).push((seq![glyph], glyph_style(glyph))));
        assert(cells(spans@) =~= graph_cells(graph_line@.take(it.index() + 1)));
    }
    assert(graph_line@.take(graph_line@.len() as int) =~= graph_line@);
    let pad = max_width.saturating_sub(graph_line.len());
    if pad > 0 {
        let ghost before = spans@;
        spans.push(Span { text: spaces(pad), style: Style::plain() });
        assert(cells(spans@) =~= cells(before).push((blanks(pad as nat), plain())));
    }
    let ghost graph = graph_cells(graph_line@) + padding_cells(
        byte_len(graph_line@),
        max_width as nat,
    );
    assert(cells(spans@) =~= graph);

    // Hash, date, author.
    let ghost fixed = seq![
        (hex_of(commit.id@).take(SHORT_ID_LEN as int), colored(Color::Yellow)),
        gap(),
        (padded(time@, DATE_WIDTH as nat), colored(Color::Green)),
        gap(),
        (author_column_text(commit.author@), colored(Color::Blue)),
        gap(),
    ];
    spans.push(Span { text: commit.id.hex(SHORT_ID_LEN), style: Style::colored(Color::Yellow) });
    spans.push(gap_span());
    spans.push(Span { text: pad_right(time, DATE_WIDTH), style: Style::colored(Color::Green) });
    spans.push(gap_span());
    spans.push(
        Span { text: author_column(commit.author.as_str()), style: Style::colored(Color::Blue) },
    );
    spans.push(gap_span());
    assert(cells(spans@) =~= graph + fixed);

    // Decorations.
    let mut i: usize = 0;
    assert(commit.refs@.take(0) =~= Seq::empty());
    assert(cells(spans@) =~= graph + fixed + ref_cells(commit.refs@.take(0)));
    while i < commit.refs.len()
        invariant
            i <= commit.refs.len(),
            cells(spans@) == graph + fixed + ref_cells(commit.refs@.take(i as int)),
        decreases commit.refs.len() - i,
    {
        let ghost before = spans@;
        let span = ref_span(&commit.refs[i]);
        spans.push(span);
        assert(cells(spans@) =~= cells(before).push((span.text@, span.style)));
        assert(ref_cells(commit.refs@.take(i + 1)) =~= ref_cells(commit.refs@.take(i as int)).push(
            ref_cell(commit.refs@[i as int].name@, commit.refs@[i as int].kind),
        ));
        assert(cells(spans@) =~= graph + fixed + ref_cells(commit.refs@.take(i + 1)));
        i += 1;
    }
    assert(commit.refs@.take(i as int) =~= commit.refs@);

    // Summary.
    let ghost before = spans@;
    spans.push(Span { text: commit.summary.clone(), style: Style::colored(Color::Reset) });
    assert(cells(spans@) =~= cells(before).push((commit.summary@, colored(Color::Reset))));
    assert(cells(spans@) =~= row_cells(
        *commit,
        graph_line@,
        byte_len(graph_line@),
        max_width as nat,
        time@,
    ));
    spans
}

/// The title of the log for `count` commits.
pub open spec fn title_text(count: nat) -> Seq<char> {
    " Log ("@ + decimal_of(count) + ") "@
}

/// The title of the log: how many commits are loaded.
pub fn title(count: usize) -> (text: String)
    ensures
        text@ == title_text(count as nat),
{
    let mut text = " Log (".to_owned();
    text.append(decimal(count).as_str());
    text.append(") ");
    text
}

/// The graph row kept beside commit `index` of `app`; empty where none is.
pub open spec fn graph_line_of(app: App, index: int) -> Seq<char> {
    if 0 <= index < app.graph_lines@.len() {
        app.graph_lines@[index]@
    } else {
        Seq::empty()
    }
}

/// Whether `spans` is the line of commit `index` of `app`, its commit time
/// being written as `time`.
pub open spec fn is_row_at(app: App, index: int, spans: Seq<Span>, time: Seq<char>) -> bool {
    cells(spans) == row_cells(
        app.commits@[index],
        graph_line_of(app, index),
        byte_len(graph_line_of(app, index)),
        widest(app.graph_lines@),
        time,
    )
}

/// Whether `spans` is the line of commit `index` of `app` as it shows where
/// the machine's time zone lies `offset` seconds east of UTC, and in UTC
/// where `offset` is `None`.
pub open spec fn is_row_in_zone(app: App, index: int, spans: Seq<Span>, offset: Option<i32>) -> bool {
    is_row_at(app, index, spans, app.commits@[index].time_text_at(offset))
}

/// Whether `spans` is the line of commit `index` of `app` in some time
/// zone.
pub open spec fn is_row_of(app: App, index: int, spans: Seq<Span>) -> bool {
    exists|offset: Option<i32>| is_row_in_zone(app, index, spans, offset)
}

/// Lays out the log: the line of each commit, as spans.
///
/// Each line shows the commit time in the machine's time zone, in UTC where
/// that is not known, and the placeholder for a time that the calendar does
/// not reach. Which offset the time zone has is not said.
pub fn render(app: &App) -> (lines: Vec<Vec<Span>>)
    ensures
        lines@.len() == app.commits@.len(),
        forall|i: int| 0 <= i < lines@.len() ==> is_row_of(*app, i, #[trigger] lines@[i]@),
        forall|i: int|
            0 <= i < lines@.len() && !calendar_reaches(app.commits@[i].time) ==> is_row_at(
                *app,
                i,
                #[trigger] lines@[i]@,
                UNKNOWN_TIME@,
            ),
        forall|i: int|
            0 <= i < lines@.len() ==> covers(
                grapheme_clusters((#[trigger] app.commits@[i]).author@),
                app.commits@[i].author@,
            ),
{
    let max_width = graph_max_width(&app.graph_lines);
    let mut lines: Vec<Vec<Span>> = Vec::new();
    let mut i: usize = 0;
    while i < app.commits.len()
        invariant
            i <= app.commits.len(),
            max_width == widest(app.graph_lines@),
            lines@.len() == i,
            forall|k: int| 0 <= k < i ==> is_row_of(*app, k, #[trigger] lines@[k]@),
            forall|k: int|
                0 <= k < i && !calendar_reaches(app.commits@[k].time) ==> is_row_at(
                    *app,
                    k,
                    #[trigger] lines@[k]@,
                    UNKNOWN_TIME@,
                ),
            forall|k: int|
                0 <= k < i ==> covers(
                    grapheme_clusters((#[trigger] app.commits@[k]).author@),
                    app.commits@[k].author@,
                ),
        decreases app.commits.len() - i,
    {
        let time = app.commits[i].formatted_time();
        let spans = if i < app.graph_lines.len() {
            row(&app.commits[i], app.graph_lines[i].as_str(), max_width, time.as_str())
        } else {
            row(&app.commits[i], "", max_width, time.as_str())
        };
        proof {
            reveal_strlit("");
            assert(""@ =~= Seq::<char>::empty());
            assert(is_row_at(*app, i as int, spans@, time@));
            let commit = app.commits@[i as int];
            let offset = choose|offset: Option<i32>| time@ == commit.time_text_at(offset);
            assert(is_row_in_zone(*app, i as int, spans@, offset));
        }
        let ghost before = lines@;
        lines.push(spans);
        assert forall|k: int| 0 <= k < i + 1 implies is_row_of(*app, k, #[trigger] lines@[k]@)
            && (!calendar_reaches(app.commits@[k].time) ==> is_row_at(
            *app,
            k,
            lines@[k]@,
            UNKNOWN_TIME@,
        )) by {
            if k < i {
                assert(lines@[k] == before[k]);
            }
        }
        i += 1;
    }
    lines
}

} // verus!
