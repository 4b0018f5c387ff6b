use reki::git::commit::{shown_time, CommitInfo, RefDecoration, RefKind, TIME_PATTERN, UNKNOWN_TIME};
use reki::git::oid::CommitId;

fn commit_at(time: i64) -> CommitInfo {
    CommitInfo {
        id: CommitId::from_bytes([0xab; 20]),
        parent_ids: Vec::new(),
        summary: String::from("Fix the lanes"),
        author: String::from("Ann"),
        time,
        refs: Vec::new(),
    }
}

#[test]
fn identifier_in_hexadecimal() {
    let mut bytes = [0u8; 20];
    for (i, b) in bytes.iter_mut().enumerate() {
        *b = (i as u8) * 13 + 1;
    }
    let id = CommitId::from_bytes(bytes);
    assert_eq!(id.hex(40), "010e1b2835424f5c697683909daab7c4d1deebf8");
    assert_eq!(id.hex(100), "010e1b2835424f5c697683909daab7c4d1deebf8");
    assert_eq!(id.hex(7), "010e1b2");
    assert_eq!(id.hex(1), "0");
    assert_eq!(id.hex(0), "");
}

#[test]
fn hexadecimal_digits_are_lower_case() {
    let id = CommitId::from_bytes([0xff; 20]);
    assert_eq!(id.hex(4), "ffff");
    let id = CommitId::from_bytes([0x9a; 20]);
    assert_eq!(id.hex(3), "9a9");
}

#[test]
fn commit_in_one_line() {
    assert_eq!(commit_at(0).to_line(), "abababa Fix the lanes");
}

#[test]
fn decoration_clones_to_the_same() {
    let d = RefDecoration { name: String::from("main"), kind: RefKind::Branch };
    let c = d.clone();
    assert_eq!(c.name, "main");
    assert_eq!(c.kind, RefKind::Branch);
}

#[test]
fn time_that_the_clock_wrote_is_shown() {
    assert_eq!(shown_time(Some(String::from("2024-02-29 12:30"))), "2024-02-29 12:30");
}

#[test]
fn unwritten_time_shows_as_question_marks() {
    assert_eq!(shown_time(None), "????-??-?? ??:??");
    assert_eq!(UNKNOWN_TIME, "????-??-?? ??:??");
    assert_eq!(TIME_PATTERN, "[year]-[month]-[day] [hour]:[minute]");
}

#[test]
fn time_beyond_the_calendar_shows_as_question_marks() {
    assert_eq!(commit_at(i64::MAX).formatted_time(), "????-??-?? ??:??");
    assert_eq!(commit_at(i64::MIN).formatted_time(), "????-??-?? ??:??");
}

#[test]
fn time_is_written_to_the_minute() {
    // Noon of 1 July 2001 in UTC: on the same day in every time zone but
    // those at the far ends, and in the same year in all.
    let text = commit_at(993_988_800).formatted_time();
    let chars: Vec<char> = text.chars().collect();
    assert_eq!(chars.len(), 16);
    assert_eq!(&text[0..8], "2001-07-");
    assert!(matches!(&text[8..10], "01" | "02" | "30"));
    assert_eq!(chars[10], ' ');
    assert_eq!(chars[13], ':');
    assert!(chars[11].is_ascii_digit() && chars[12].is_ascii_digit());
    assert!(chars[14].is_ascii_digit() && chars[15].is_ascii_digit());
}

#[test]
fn time_is_written_at_the_given_offset() {
    // Noon of 1 July 2001 in UTC.
    let commit = commit_at(993_988_800);
    assert_eq!(commit.formatted_time_at(None), "2001-07-01 12:00");
    assert_eq!(commit.formatted_time_at(Some(0)), "2001-07-01 12:00");
    assert_eq!(commit.formatted_time_at(Some(3_600)), "2001-07-01 13:00");
    assert_eq!(commit.formatted_time_at(Some(-5 * 3_600)), "2001-07-01 07:00");
    assert_eq!(commit.formatted_time_at(Some(13 * 3_600 + 45 * 60)), "2001-07-02 01:45");
    assert_eq!(commit_at(0).formatted_time_at(None), "1970-01-01 00:00");
    assert_eq!(commit_at(-1).formatted_time_at(None), "1969-12-31 23:59");
    assert_eq!(commit_at(59).formatted_time_at(None), "1970-01-01 00:00");
}

#[test]
fn time_at_the_ends_of_the_calendar() {
    assert_eq!(commit_at(253_402_300_799).formatted_time_at(None), "9999-12-31 23:59");
    assert_eq!(commit_at(253_402_300_800).formatted_time_at(None), "????-??-?? ??:??");
    assert_ne!(commit_at(-377_705_116_800).formatted_time_at(None), "????-??-?? ??:??");
    assert_eq!(commit_at(-377_705_116_801).formatted_time_at(None), "????-??-?? ??:??");
    assert_eq!(commit_at(i64::MAX).formatted_time_at(Some(3_600)), "????-??-?? ??:??");
}

#[test]
fn time_that_an_offset_moves_out_of_the_calendar() {
    assert_eq!(
        commit_at(253_402_300_799).formatted_time_at(Some(3_600)),
        "????-??-?? ??:??"
    );
    assert_eq!(
        commit_at(253_402_300_799).formatted_time_at(Some(-3_600)),
        "9999-12-31 22:59"
    );
}

#[test]
fn time_at_an_offset_that_no_time_zone_has() {
    assert_eq!(commit_at(0).formatted_time_at(Some(i32::MAX)), "????-??-?? ??:??");
    assert_eq!(commit_at(0).formatted_time_at(Some(26 * 3_600)), "????-??-?? ??:??");
}
