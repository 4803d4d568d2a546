use summary_table::report::SummaryTable;
use summary_table::status::{ResultEntry, Status, StatusFlagSet};
use summary_table::style::RenderTexts;

fn plain_texts() -> RenderTexts {
    RenderTexts {
        pass: "PASS".to_string(),
        fail: "FAIL".to_string(),
        skip: "SKIP".to_string(),
        unknown: "unknown".to_string(),
        skip_header: "SKIP rules".to_string(),
        pass_header: "PASS rules".to_string(),
        fail_header: "FAILED rules".to_string(),
    }
}

fn entry(name: &str, status: Option<Status>) -> ResultEntry {
    ResultEntry { name: name.to_string(), status }
}

fn table(selector: StatusFlagSet) -> SummaryTable {
    SummaryTable::new("rules.guard".to_string(), "data.json".to_string(), selector)
}

#[test]
fn full_report_example() {
    let t = table(StatusFlagSet::new(true, true, true));
    let failed = vec![entry("rule1", Some(Status::FAIL))];
    let pos = vec![entry("rule2", Some(Status::PASS)), entry("rule3", Some(Status::SKIP))];
    let lines = t.report_with_texts(Some(Status::FAIL), &failed, &pos, 5, &plain_texts());
    let expected = vec![
        "data.json Status = FAIL",
        "SKIP rules",
        "rules.guard/rule3    SKIP",
        "PASS rules",
        "rules.guard/rule2    PASS",
        "FAILED rules",
        "rules.guard/rule1    FAIL",
        "---",
    ];
    assert_eq!(lines, expected);
}

#[test]
fn fail_only_selector_suppresses_other_groups() {
    let t = table(StatusFlagSet::new(false, true, false));
    let failed = vec![entry("rule1", Some(Status::FAIL))];
    let pos = vec![entry("rule2", Some(Status::PASS)), entry("rule3", Some(Status::SKIP))];
    let lines = t.report_with_texts(Some(Status::FAIL), &failed, &pos, 5, &plain_texts());
    let expected = vec![
        "data.json Status = FAIL",
        "FAILED rules",
        "rules.guard/rule1    FAIL",
        "---",
    ];
    assert_eq!(lines, expected);
}

#[test]
fn fail_only_selector_with_no_failures_emits_header_and_separator() {
    let t = table(StatusFlagSet::new(false, true, false));
    let failed: Vec<ResultEntry> = Vec::new();
    let pos = vec![entry("rule2", Some(Status::PASS))];
    let lines = t.report_with_texts(Some(Status::PASS), &failed, &pos, 5, &plain_texts());
    assert_eq!(lines, vec!["data.json Status = PASS", "---"]);
}

#[test]
fn empty_selector_emits_header_and_separator_only() {
    let t = table(StatusFlagSet::new(false, false, false));
    let failed = vec![entry("rule1", Some(Status::FAIL))];
    let pos = vec![entry("rule2", Some(Status::PASS)), entry("rule3", Some(Status::SKIP))];
    let lines = t.report_with_texts(Some(Status::FAIL), &failed, &pos, 5, &plain_texts());
    assert_eq!(lines, vec!["data.json Status = FAIL", "---"]);
}

#[test]
fn empty_input_emits_header_and_separator() {
    let t = table(StatusFlagSet::new(true, true, true));
    let lines = t.report_with_texts(None, &Vec::new(), &Vec::new(), 0, &plain_texts());
    assert_eq!(lines, vec!["data.json Status = unknown", "---"]);
}

#[test]
fn unset_status_is_grouped_as_pass_and_shown_as_unknown() {
    let t = table(StatusFlagSet::new(true, true, true));
    let pos = vec![entry("rule9", None)];
    let lines = t.report_with_texts(Some(Status::PASS), &Vec::new(), &pos, 5, &plain_texts());
    let expected = vec![
        "data.json Status = PASS",
        "PASS rules",
        "rules.guard/rule9    unknown",
        "---",
    ];
    assert_eq!(lines, expected);
}

#[test]
fn groups_are_ordered_skip_pass_fail_whatever_the_input_order() {
    let t = table(StatusFlagSet::new(true, true, true));
    let failed = vec![entry("f", Some(Status::FAIL))];
    // passed entries come before skipped ones in the input list
    let pos = vec![entry("p", Some(Status::PASS)), entry("s", Some(Status::SKIP))];
    let lines = t.report_with_texts(Some(Status::FAIL), &failed, &pos, 1, &plain_texts());
    let headers: Vec<&str> =
        lines.iter().map(|l| l.as_str()).filter(|l| l.ends_with("rules")).collect();
    assert_eq!(headers, vec!["SKIP rules", "PASS rules", "FAILED rules"]);
}

#[test]
fn entries_keep_input_order_within_a_group() {
    let t = table(StatusFlagSet::new(true, false, false));
    let pos = vec![
        entry("b", Some(Status::PASS)),
        entry("a", Some(Status::PASS)),
        entry("c", Some(Status::PASS)),
    ];
    let lines = t.report_with_texts(Some(Status::PASS), &Vec::new(), &pos, 1, &plain_texts());
    let expected = vec![
        "data.json Status = PASS",
        "PASS rules",
        "rules.guard/b    PASS",
        "rules.guard/a    PASS",
        "rules.guard/c    PASS",
        "---",
    ];
    assert_eq!(lines, expected);
}

#[test]
fn status_text_starts_at_the_same_column_on_every_entry_line() {
    let t = table(StatusFlagSet::new(true, true, true));
    let failed = vec![entry("longrulename", Some(Status::FAIL))];
    let pos = vec![entry("s", Some(Status::SKIP)), entry("p", Some(Status::PASS))];
    let longest = 12;
    let lines = t.report_with_texts(Some(Status::FAIL), &failed, &pos, longest, &plain_texts());
    let column = "rules.guard".len() + 1 + longest + 4;
    for (line, word) in [(&lines[2], "SKIP"), (&lines[4], "PASS"), (&lines[6], "FAIL")] {
        assert_eq!(&line[column..], word);
    }
}

#[test]
fn separator_is_always_the_last_line() {
    let t = table(StatusFlagSet::new(true, true, true));
    let failed = vec![entry("x", Some(Status::FAIL))];
    let with_input = t.report_with_texts(Some(Status::FAIL), &failed, &Vec::new(), 1, &plain_texts());
    assert_eq!(with_input.last().map(|l| l.as_str()), Some("---"));
    let empty = t.report_with_texts(None, &Vec::new(), &Vec::new(), 0, &plain_texts());
    assert_eq!(empty.last().map(|l| l.as_str()), Some("---"));
}

#[test]
fn selector_membership() {
    let s = StatusFlagSet::new(true, false, true);
    assert!(s.includes(Status::PASS));
    assert!(!s.includes(Status::FAIL));
    assert!(s.includes(Status::SKIP));
}
