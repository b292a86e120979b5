use jsprint::command::CommandError;
use jsprint::commands::add_to_sprint::Move;
use jsprint::commands::assign::Assignment;
use jsprint::commands::use_sprint::Selection;
use jsprint::commands::{add_to_sprint, assign, backlog, get_issue_key_from_number, get_issue_keys, use_sprint};
use jsprint::jsprint::JSprint;
use jsprint::settings::Settings;
use jsprint::tracker::{Sprint, SprintState};

fn session(current: Option<u64>) -> JSprint {
    let mut jsprint = JSprint::new(Settings::new(
        "https://jira.example.org".to_string(),
        "user".to_string(),
        "SECRET-REDACTED".to_string(),
        "BIDEV".to_string(),
        12,
    ));
    jsprint.current_sprint = current.map(|id| sprint(id));
    jsprint
}

fn sprint(id: u64) -> Sprint {
    Sprint { id, name: format!("Sprint {}", id), state: SprintState::Active, start_date: None }
}

fn strings(texts: &[&str]) -> Vec<String> {
    texts.iter().map(|s| s.to_string()).collect()
}

#[test]
fn issue_key_from_number() {
    assert_eq!(get_issue_key_from_number("12"), Ok("BIDEV-12".to_string()));
    assert_eq!(get_issue_key_from_number("0"), Ok("BIDEV-0".to_string()));
    assert_eq!(get_issue_key_from_number("+7"), Ok("BIDEV-7".to_string()));
    assert_eq!(get_issue_key_from_number("007"), Ok("BIDEV-7".to_string()));
    assert_eq!(get_issue_key_from_number("4294967295"), Ok("BIDEV-4294967295".to_string()));
}

#[test]
fn issue_key_needs_a_number() {
    for text in ["", "x", "12a", "-1", "4294967296", " 1", "BIDEV-1", "1.5"] {
        assert_eq!(get_issue_key_from_number(text), Err("Issue number is not a number"), "{:?}", text);
    }
}

#[test]
fn issue_keys_report_the_first_that_is_no_number() {
    let tokens = strings(&["a", "1", "x", "2", "y"]);
    assert_eq!(get_issue_keys(&tokens, 1), Err(CommandError::NotAnIssueNumber("x".to_string())));
    assert_eq!(get_issue_keys(&tokens, 3), Err(CommandError::NotAnIssueNumber("y".to_string())));
    assert_eq!(get_issue_keys(&tokens, 5), Ok(vec![]));
    assert_eq!(get_issue_keys(&strings(&["a", "1", "22"]), 1), Ok(strings(&["BIDEV-1", "BIDEV-22"])));
}

#[test]
fn add_to_sprint_moves_into_the_current_sprint() {
    assert_eq!(
        add_to_sprint::command(&session(Some(31)), "a 4 15"),
        Ok(Move { sprint_id: 31, issues: strings(&["BIDEV-4", "BIDEV-15"]) })
    );
}

#[test]
fn add_to_sprint_reports_what_is_missing() {
    assert_eq!(add_to_sprint::command(&session(Some(31)), "a"), Err(CommandError::NoIssueNumbers));
    assert_eq!(add_to_sprint::command(&session(None), "a"), Err(CommandError::NoIssueNumbers));
    assert_eq!(add_to_sprint::command(&session(None), "a 4"), Err(CommandError::NoCurrentSprint));
    assert_eq!(
        add_to_sprint::command(&session(None), "a 4 five 6 seven"),
        Err(CommandError::NotAnIssueNumber("five".to_string()))
    );
    // Fields are cut at single spaces: two spaces hold an empty field.
    assert_eq!(
        add_to_sprint::command(&session(Some(31)), "a  4"),
        Err(CommandError::NotAnIssueNumber(String::new()))
    );
    assert_eq!(
        add_to_sprint::command(&session(Some(31)), "a "),
        Err(CommandError::NotAnIssueNumber(String::new()))
    );
}

#[test]
fn assign_takes_an_assignee_and_issues() {
    assert_eq!(
        assign::command("as bob 4 15"),
        Ok(Assignment { assignee: "bob".to_string(), issues: strings(&["BIDEV-4", "BIDEV-15"]) })
    );
    assert_eq!(
        assign::command("as 7 8"),
        Ok(Assignment { assignee: "7".to_string(), issues: strings(&["BIDEV-8"]) })
    );
}

#[test]
fn assign_reports_what_is_missing() {
    assert_eq!(assign::command("as"), Err(CommandError::NoAssignee));
    assert_eq!(assign::command("as bob"), Err(CommandError::NoIssuesToAssign));
    assert_eq!(assign::command("as bob x 1"), Err(CommandError::NotAnIssueNumber("x".to_string())));
    assert_eq!(assign::command("as bob 1 "), Err(CommandError::NotAnIssueNumber(String::new())));
}

#[test]
fn backlog_takes_issue_numbers_between_white_space() {
    assert_eq!(backlog::command("bk 4 15"), Ok(strings(&["BIDEV-4", "BIDEV-15"])));
    assert_eq!(backlog::command("  bk\t4   15 "), Ok(strings(&["BIDEV-4", "BIDEV-15"])));
}

#[test]
fn backlog_reports_what_is_missing() {
    assert_eq!(backlog::command("bk"), Err(CommandError::NoIssueNumbers));
    assert_eq!(backlog::command("bk   "), Err(CommandError::NoIssueNumbers));
    assert_eq!(backlog::command(""), Err(CommandError::NoIssueNumbers));
    assert_eq!(backlog::command("bk 1 two"), Err(CommandError::NotAnIssueNumber("two".to_string())));
}

#[test]
fn use_sprint_reads_the_selection() {
    assert_eq!(use_sprint::command("u"), Ok(Selection::Active));
    assert_eq!(use_sprint::command("u 31"), Ok(Selection::ById(31)));
    assert_eq!(use_sprint::command("u 18446744073709551615"), Ok(Selection::ById(u64::MAX)));
}

#[test]
fn use_sprint_reports_bad_arguments() {
    assert_eq!(use_sprint::command("u 31 32"), Err(CommandError::TooManySprintIds));
    assert_eq!(use_sprint::command("u x y"), Err(CommandError::TooManySprintIds));
    assert_eq!(use_sprint::command("u x"), Err(CommandError::NotASprintId("x".to_string())));
    assert_eq!(use_sprint::command("u "), Err(CommandError::NotASprintId(String::new())));
    assert_eq!(
        use_sprint::command("u 18446744073709551616"),
        Err(CommandError::NotASprintId("18446744073709551616".to_string()))
    );
}

#[test]
fn selecting_sets_the_current_sprint() {
    let mut jsprint = session(None);
    assert_eq!(use_sprint::select(&mut jsprint, Selection::ById(5), Some(sprint(5))), Ok(()));
    assert_eq!(jsprint.current_sprint.as_ref().unwrap().id, 5);
    assert_eq!(use_sprint::select(&mut jsprint, Selection::Active, Some(sprint(6))), Ok(()));
    assert_eq!(jsprint.current_sprint.as_ref().unwrap().id, 6);
}

#[test]
fn an_unknown_sprint_changes_nothing() {
    let mut jsprint = session(Some(5));
    assert_eq!(
        use_sprint::select(&mut jsprint, Selection::ById(9), None),
        Err(CommandError::UnknownSprint(9))
    );
    assert_eq!(jsprint.current_sprint.as_ref().unwrap().id, 5);
    assert_eq!(jsprint.settings.jira_project, "BIDEV");
}

#[test]
fn without_an_active_sprint_there_is_no_current_one() {
    let mut jsprint = session(Some(5));
    assert_eq!(use_sprint::select(&mut jsprint, Selection::Active, None), Ok(()));
    assert!(jsprint.current_sprint.is_none());
}
