use summary_table::report::SummaryTable;
use summary_table::status::{EvalNode, NamedStatus, Status, StatusFlagSet};
use summary_table::style::RenderTexts;

fn plain_texts() -> RenderTexts {
    RenderTexts {
        pass: "PASS".to_string(),
        fail: "FAIL".to_string(),
        skip: "SKIP".to_string(),
        unknown: "unknown".to_string(),
        skip_header: "SKIP rules".to_string(),
        pass_header: "PASS rules".to_string(),
        fail_header: "FAILED rules".to_string(),
    }
}

fn tagged(name: &str, status: Status) -> EvalNode {
    EvalNode {
        check: Some(NamedStatus { name: name.to_string(), status }),
        children: Vec::new(),
    }
}

fn untagged(children: Vec<EvalNode>) -> EvalNode {
    EvalNode { check: None, children }
}

fn table(selector: StatusFlagSet) -> SummaryTable {
    SummaryTable::new("rules.guard".to_string(), "data.json".to_string(), selector)
}

#[test]
fn pass_supersedes_skip_for_the_same_name() {
    let t = table(StatusFlagSet::new(true, true, true));
    let root = untagged(vec![tagged("ruleA", Status::SKIP), tagged("ruleA", Status::PASS)]);
    let lines = t.report_eval_with_texts(Status::PASS, &root, &plain_texts());
    let expected = vec![
        "data.json Status = PASS",
        "PASS rules",
        "rules.guard/ruleA    PASS",
        "---",
    ];
    assert_eq!(lines, expected);
}

#[test]
fn skip_survives_only_where_never_concretely_evaluated() {
    let t = table(StatusFlagSet::new(true, true, true));
    let root = untagged(vec![
        tagged("a", Status::SKIP),
        tagged("a", Status::PASS),
        tagged("b", Status::SKIP),
        tagged("b", Status::FAIL),
        tagged("c", Status::SKIP),
    ]);
    let lines = t.report_eval_with_texts(Status::FAIL, &root, &plain_texts());
    let expected = vec![
        "data.json Status = FAIL",
        "SKIP rules",
        "rules.guard/c    SKIP",
        "PASS rules",
        "rules.guard/a    PASS",
        "FAILED rules",
        "rules.guard/b    FAIL",
        "---",
    ];
    assert_eq!(lines, expected);
}

#[test]
fn duplicate_names_within_one_group_are_reported_once() {
    let t = table(StatusFlagSet::new(true, true, true));
    let root = untagged(vec![tagged("r", Status::PASS), tagged("r", Status::PASS)]);
    let lines = t.report_eval_with_texts(Status::PASS, &root, &plain_texts());
    let expected = vec![
        "data.json Status = PASS",
        "PASS rules",
        "rules.guard/r    PASS",
        "---",
    ];
    assert_eq!(lines, expected);
}

#[test]
fn a_name_in_both_pass_and_fail_is_kept_in_both() {
    let t = table(StatusFlagSet::new(true, true, true));
    let root = untagged(vec![tagged("r", Status::PASS), tagged("r", Status::FAIL)]);
    let lines = t.report_eval_with_texts(Status::FAIL, &root, &plain_texts());
    let expected = vec![
        "data.json Status = FAIL",
        "PASS rules",
        "rules.guard/r    PASS",
        "FAILED rules",
        "rules.guard/r    FAIL",
        "---",
    ];
    assert_eq!(lines, expected);
}

#[test]
fn only_direct_children_are_summarized() {
    let t = table(StatusFlagSet::new(true, true, true));
    let deep = untagged(vec![tagged("hidden", Status::FAIL)]);
    let root = untagged(vec![deep, tagged("shown", Status::PASS)]);
    let lines = t.report_eval_with_texts(Status::PASS, &root, &plain_texts());
    let expected = vec![
        "data.json Status = PASS",
        "PASS rules",
        "rules.guard/shown    PASS",
        "---",
    ];
    assert_eq!(lines, expected);
}

#[test]
fn root_without_qualifying_children_emits_header_and_separator() {
    let t = table(StatusFlagSet::new(true, true, true));
    let root = untagged(Vec::new());
    let lines = t.report_eval_with_texts(Status::SKIP, &root, &plain_texts());
    assert_eq!(lines, vec!["data.json Status = SKIP", "---"]);
}

#[test]
fn padding_uses_the_longest_name_across_all_groups() {
    let t = table(StatusFlagSet::new(true, true, true));
    let root = untagged(vec![tagged("short", Status::PASS), tagged("a_longer_rule", Status::FAIL)]);
    let lines = t.report_eval_with_texts(Status::FAIL, &root, &plain_texts());
    let column = "rules.guard".len() + 1 + "a_longer_rule".len() + 4;
    let expected = vec![
        "data.json Status = FAIL",
        "PASS rules",
        "rules.guard/short            PASS",
        "FAILED rules",
        "rules.guard/a_longer_rule    FAIL",
        "---",
    ];
    assert_eq!(lines, expected);
    assert_eq!(&lines[2][column..], "PASS");
    assert_eq!(&lines[4][column..], "FAIL");
}

#[test]
fn deselected_groups_never_appear_in_trace_mode() {
    let t = table(StatusFlagSet::new(false, true, false));
    let root = untagged(vec![
        tagged("s", Status::SKIP),
        tagged("p", Status::PASS),
        tagged("f", Status::FAIL),
    ]);
    let lines = t.report_eval_with_texts(Status::FAIL, &root, &plain_texts());
    let expected = vec![
        "data.json Status = FAIL",
        "FAILED rules",
        "rules.guard/f    FAIL",
        "---",
    ];
    assert_eq!(lines, expected);
}
