use reki::app::App;
use reki::git::commit::{CommitInfo, RefDecoration, RefKind};
use reki::git::oid::CommitId;
use reki::text::{decimal, spaces};
use reki::ui::width::{can_truncate, cut_by_clusters, truncate};
use reki::ui::log_view::{
    author_column, author_display, graph_max_width, pad_right, ref_span, render, row, title,
    Color, Span, Style, AUTHOR_MAX_WIDTH, DATE_WIDTH,
};

fn commit(author: &str, refs: Vec<RefDecoration>) -> CommitInfo {
    CommitInfo {
        id: CommitId::from_bytes([0x1f; 20]),
        parent_ids: Vec::new(),
        summary: String::from("Fix the lanes"),
        author: String::from(author),
        time: 0,
        refs,
    }
}

fn texts(spans: &[Span]) -> Vec<String> {
    spans.iter().map(|s| s.text.clone()).collect()
}

fn plain() -> Style {
    Style { fg: None, bold: false }
}

fn colored(color: Color) -> Style {
    Style { fg: Some(color), bold: false }
}

fn strong(color: Color) -> Style {
    Style { fg: Some(color), bold: true }
}

#[test]
fn styles() {
    assert_eq!(Style::plain(), plain());
    assert_eq!(Style::colored(Color::Red), colored(Color::Red));
    assert_eq!(Style::strong(Color::Cyan), strong(Color::Cyan));
    assert_eq!(Style::of_glyph('*'), strong(Color::White));
    assert_eq!(Style::of_glyph('|'), colored(Color::DarkGray));
    assert_eq!(Style::of_glyph(' '), plain());
    assert_eq!(Style::of_glyph('x'), plain());
}

#[test]
fn blanks() {
    assert_eq!(spaces(0), "");
    assert_eq!(spaces(3), "   ");
}

#[test]
fn widest_graph_row() {
    assert_eq!(graph_max_width(&Vec::new()), 0);
    let lines = vec![String::from("* "), String::from("| * | "), String::from("* | ")];
    assert_eq!(graph_max_width(&lines), 6);
}

#[test]
fn date_is_filled_to_its_column() {
    assert_eq!(DATE_WIDTH, 16);
    assert_eq!(pad_right("2024-02-29 12:30", 16), "2024-02-29 12:30");
    assert_eq!(pad_right("2024", 16), "2024            ");
    assert_eq!(pad_right("", 3), "   ");
    assert_eq!(pad_right("a longer text than that", 4), "a longer text than that");
}

#[test]
fn padding_counts_characters() {
    assert_eq!(pad_right("\u{e9}t\u{e9}", 5), "\u{e9}t\u{e9}  ");
}

#[test]
fn short_author_is_filled_to_the_column() {
    assert_eq!(AUTHOR_MAX_WIDTH, 16);
    assert_eq!(author_column("Ann"), "Ann             ");
    assert_eq!(author_column(""), "                ");
    assert_eq!(author_column("Sixteen letters."), "Sixteen letters.");
}

#[test]
fn long_author_is_cut_and_marked() {
    assert_eq!(author_column("Alexander von Humboldt-Stiftung"), "Alexander von Hu\u{2026}");
}

#[test]
fn wide_author_is_cut_by_display_width() {
    let nine = "\u{4f60}\u{597d}\u{5417}".repeat(3);
    let eight: String = nine.chars().take(8).collect();
    assert_eq!(author_column(&nine), format!("{}\u{2026}", eight));
    let odd = format!("a{}", nine);
    let fits: String = odd.chars().take(8).collect();
    assert_eq!(author_column(&odd), format!("{}\u{2026}", fits));
    let short = "\u{4f60}\u{597d}";
    assert_eq!(author_column(short), format!("{}{}", short, " ".repeat(12)));
}

#[test]
fn author_display_from_what_fits() {
    assert_eq!(author_display("Ann", "Ann", 3), "Ann             ");
    assert_eq!(author_display("Annabel", "Ann", 3), "Ann\u{2026}            ");
    assert_eq!(author_display("Annabel", "Ann", 16), "Ann\u{2026}");
    assert_eq!(author_display("Annabel", "Ann", 15), "Ann\u{2026}");
    assert_eq!(author_display("Ann", "Ann", 16), "Ann");
}

#[test]
fn decorations_show_by_kind() {
    let span = ref_span(&RefDecoration { name: String::from("HEAD"), kind: RefKind::Head });
    assert_eq!(span.text, "(HEAD) ");
    assert_eq!(span.style, strong(Color::Cyan));
    let span = ref_span(&RefDecoration { name: String::from("other"), kind: RefKind::Head });
    assert_eq!(span.text, "(HEAD) ");
    let span = ref_span(&RefDecoration { name: String::from("main"), kind: RefKind::Branch });
    assert_eq!(span.text, "(main) ");
    assert_eq!(span.style, strong(Color::Green));
    let span =
        ref_span(&RefDecoration { name: String::from("origin/main"), kind: RefKind::Remote });
    assert_eq!(span.text, "(origin/main) ");
    assert_eq!(span.style, strong(Color::Red));
    let span = ref_span(&RefDecoration { name: String::from("v1.0"), kind: RefKind::Tag });
    assert_eq!(span.text, "(\u{1f3f7} v1.0) ");
    assert_eq!(span.style, strong(Color::Yellow));
}

#[test]
fn line_of_a_commit() {
    let refs = vec![
        RefDecoration { name: String::from("main"), kind: RefKind::Branch },
        RefDecoration { name: String::from("v1.0"), kind: RefKind::Tag },
    ];
    let spans = row(&commit("Ann", refs), "| * ", 6, "2024-02-29 12:30");
    assert_eq!(
        texts(&spans),
        vec![
            "|",
            " ",
            "*",
            " ",
            "  ",
            "1f1f1f1",
            " ",
            "2024-02-29 12:30",
            " ",
            "Ann             ",
            " ",
            "(main) ",
            "(\u{1f3f7} v1.0) ",
            "Fix the lanes",
        ]
    );
    let styles: Vec<Style> = spans.iter().map(|s| s.style).collect();
    assert_eq!(
        styles,
        vec![
            colored(Color::DarkGray),
            plain(),
            strong(Color::White),
            plain(),
            plain(),
            colored(Color::Yellow),
            plain(),
            colored(Color::Green),
            plain(),
            colored(Color::Blue),
            plain(),
            strong(Color::Green),
            strong(Color::Yellow),
            colored(Color::Reset),
        ]
    );
}

#[test]
fn widest_row_gets_no_padding() {
    let spans = row(&commit("Ann", Vec::new()), "* ", 2, "?");
    assert_eq!(
        texts(&spans),
        vec!["*", " ", "1f1f1f1", " ", "?               ", " ", "Ann             ", " ", "Fix the lanes"]
    );
    let spans = row(&commit("Ann", Vec::new()), "* ", 0, "?");
    assert_eq!(spans.len(), 9);
}

#[test]
fn line_without_a_graph_row_is_all_padding() {
    let spans = row(&commit("Ann", Vec::new()), "", 4, "?");
    assert_eq!(spans[0].text, "    ");
    assert_eq!(spans[0].style, plain());
    assert_eq!(spans[1].text, "1f1f1f1");
}

#[test]
fn log_has_a_line_for_each_commit() {
    let mut app = App::new();
    let one = CommitInfo {
        id: CommitId::from_bytes([1; 20]),
        parent_ids: vec![CommitId::from_bytes([2; 20]), CommitId::from_bytes([3; 20])],
        summary: String::from("merge"),
        author: String::from("Ann"),
        time: i64::MAX,
        refs: Vec::new(),
    };
    let two = CommitInfo {
        id: CommitId::from_bytes([2; 20]),
        parent_ids: Vec::new(),
        summary: String::from("root"),
        author: String::from("Bob"),
        time: i64::MAX,
        refs: Vec::new(),
    };
    app.load_more_commits(vec![one, two]);
    let lines = render(&app);
    assert_eq!(lines.len(), 2);
    assert_eq!(
        texts(&lines[0]),
        vec![
            "*",
            " ",
            "  ",
            "0101010",
            " ",
            "????-??-?? ??:??",
            " ",
            "Ann             ",
            " ",
            "merge",
        ]
    );
    assert_eq!(
        texts(&lines[1]),
        vec![
            "*",
            " ",
            "|",
            " ",
            "0202020",
            " ",
            "????-??-?? ??:??",
            " ",
            "Bob             ",
            " ",
            "root",
        ]
    );
    assert!(render(&App::new()).is_empty());
}

#[test]
fn kept_part_of_plain_text_adds_up() {
    assert!(can_truncate("", 16));
    assert!(can_truncate("Ann", 16));
    assert!(can_truncate("Jos\u{e9} \u{c1}lvarez", 16));
    assert!(can_truncate("\u{4f60}\u{597d}\u{5417}", 5));
    assert!(can_truncate("line\r\nbreak", 6));
}

#[test]
fn kept_part_with_a_joining_pair_does_not_add_up() {
    // An Arabic lam before an alef takes no column of its own.
    assert!(!can_truncate("\u{644}\u{627}", 16));
    assert!(!can_truncate("Ann \u{644}\u{627}", 16));
}

#[test]
fn joining_pair_behind_the_cut_does_not_matter() {
    let long = format!("{}\u{644}\u{627}", "a".repeat(20));
    assert!(can_truncate(&long, 16));
    assert!(can_truncate("Ann \u{644}\u{627}", 4));
    assert!(can_truncate("Ann \u{644}\u{627}", 5));
}

#[test]
fn truncation_keeps_what_fits() {
    assert_eq!(truncate("Ann", 16), (String::from("Ann"), 3));
    assert_eq!(truncate("Annabel", 3), (String::from("Ann"), 3));
    assert_eq!(truncate("Annabel", 0), (String::new(), 0));
    assert_eq!(
        truncate("\u{4f60}\u{597d}\u{5417}", 5),
        (String::from("\u{4f60}\u{597d}"), 4)
    );
    assert_eq!(truncate("", 4), (String::new(), 0));
}

#[test]
fn truncation_cuts_between_clusters() {
    // A letter with a combining accent is one cluster of one column.
    assert_eq!(truncate("e\u{301}e\u{301}e\u{301}", 2), (String::from("e\u{301}e\u{301}"), 2));
    assert_eq!(truncate("a\r\nb", 2), (String::from("a\r\n"), 2));
}

#[test]
fn truncation_by_clusters_is_the_same() {
    for (text, max_width) in [
        ("Ann", 16),
        ("Annabel", 3),
        ("\u{4f60}\u{597d}\u{5417}", 5),
        ("e\u{301}e\u{301}e\u{301}", 2),
        ("", 0),
    ] {
        let kept = cut_by_clusters(text, max_width);
        assert!(kept.counted);
        assert_eq!((kept.part, kept.width), truncate(text, max_width));
    }
}

#[test]
fn text_whose_kept_part_does_not_add_up_is_cut_by_its_clusters() {
    assert_eq!(truncate("\u{644}\u{627}", 16), (String::from("\u{644}\u{627}"), 2));
    assert_eq!(truncate("\u{644}\u{627}", 1), (String::from("\u{644}"), 1));
    assert_eq!(truncate("Ann \u{644}\u{627}", 5), (String::from("Ann \u{644}"), 5));
    assert_eq!(
        author_column("\u{644}\u{627}"),
        format!("\u{644}\u{627}{}", " ".repeat(14))
    );
}

#[test]
fn long_name_with_a_joining_pair_is_cut() {
    let long = format!("{}\u{644}\u{627}", "a".repeat(20));
    assert_eq!(author_column(&long), format!("{}\u{2026}", "a".repeat(16)));
    let inside = format!("{}\u{644}\u{627}{}", "a".repeat(10), "b".repeat(10));
    assert_eq!(
        author_column(&inside),
        format!("{}\u{644}\u{627}{}\u{2026}", "a".repeat(10), "b".repeat(4))
    );
}

#[test]
fn numbers_in_decimal() {
    assert_eq!(decimal(0), "0");
    assert_eq!(decimal(7), "7");
    assert_eq!(decimal(10), "10");
    assert_eq!(decimal(200), "200");
    assert_eq!(decimal(1_234_567_890), "1234567890");
    assert_eq!(decimal(usize::MAX), usize::MAX.to_string());
}

#[test]
fn title_counts_the_commits() {
    assert_eq!(title(0), " Log (0) ");
    assert_eq!(title(42), " Log (42) ");
    assert_eq!(title(1_000), " Log (1000) ");
}
