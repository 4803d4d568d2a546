use summary_table::report::SummaryTable;
use summary_table::status::{EvalNode, NamedStatus, ResultEntry, Status, StatusFlagSet};

// Both halves share colored's process-wide override, so they run as one test.
#[test]
fn styled_report_embeds_the_plain_words() {
    let t = SummaryTable::new(
        "rules.guard".to_string(),
        "data.json".to_string(),
        StatusFlagSet::new(true, true, true),
    );
    let failed = vec![ResultEntry { name: "rule1".to_string(), status: Some(Status::FAIL) }];
    let pos = vec![ResultEntry { name: "rule2".to_string(), status: Some(Status::PASS) }];

    // With colorization forced off the styled texts are the plain words.
    colored::control::set_override(false);
    let lines = t.report(Some(Status::FAIL), &failed, &pos, 5);
    let expected = vec![
        "data.json Status = FAIL",
        "PASS rules",
        "rules.guard/rule2    PASS",
        "FAILED rules",
        "rules.guard/rule1    FAIL",
        "---",
    ];
    assert_eq!(lines, expected);

    // Trace mode goes through the same styled texts.
    let root = EvalNode {
        check: None,
        children: vec![
            EvalNode {
                check: Some(NamedStatus { name: "ruleA".to_string(), status: Status::SKIP }),
                children: Vec::new(),
            },
            EvalNode {
                check: Some(NamedStatus { name: "ruleA".to_string(), status: Status::PASS }),
                children: Vec::new(),
            },
        ],
    };
    let lines = t.report_eval(Status::PASS, &root);
    let expected = vec![
        "data.json Status = PASS",
        "PASS rules",
        "rules.guard/ruleA    PASS",
        "---",
    ];
    assert_eq!(lines, expected);

    // With colorization forced on the styling wraps each word in escape
    // codes: the word is still embedded, and the line has grown.
    colored::control::set_override(true);
    let lines = t.report(Some(Status::FAIL), &failed, &pos, 5);
    assert!(lines[1].contains("PASS rules"));
    assert!(lines[2].contains("rules.guard/rule2    "));
    assert!(lines[2].contains("PASS"));
    assert!(lines[2].len() > "rules.guard/rule2    PASS".len());
    assert!(lines[2].contains('\u{1b}'));
    assert_eq!(lines.last().map(|l| l.as_str()), Some("---"));

    colored::control::unset_override();
}
