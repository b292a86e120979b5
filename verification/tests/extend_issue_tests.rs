use jsprint::extend_issue::{
    IssueDisplayable, IssueReviewLevel, ReviewLevel, StatusCategory, REVIEW_HIGH_THRESHOLD,
    REVIEW_LOW_THRESHOLD,
};
use jsprint::ordered_map::OrderedMap;
use jsprint::time::Instant;
use jsprint::tracker::Issue;

fn issue(key: &str) -> Issue {
    Issue {
        key: key.to_string(),
        id: 1,
        permalink: format!("https://jira.example.org/browse/{}", key),
        assignee: None,
        status: None,
        summary: None,
        labels: vec![],
        resolution_date: None,
        fields: OrderedMap::new(),
    }
}

fn resolved(date: &str) -> Issue {
    let mut issue = issue("BIDEV-1");
    issue.resolution_date = Some(date.to_string());
    issue
}

// 2020-01-05T00:00:00Z
const NOW: Instant = Instant { secs: 1578182400, nanos: 0 };

#[test]
fn review_level_by_days() {
    assert_eq!(ReviewLevel::of_days(Some(1)), ReviewLevel::Low);
    assert_eq!(ReviewLevel::of_days(Some(2)), ReviewLevel::Medium);
    assert_eq!(ReviewLevel::of_days(Some(3)), ReviewLevel::Medium);
    assert_eq!(ReviewLevel::of_days(Some(4)), ReviewLevel::High);
    assert_eq!(ReviewLevel::of_days(None), ReviewLevel::Unknown);
}

#[test]
fn review_level_at_the_edges() {
    assert_eq!(REVIEW_LOW_THRESHOLD, 1);
    assert_eq!(REVIEW_HIGH_THRESHOLD, 3);
    assert_eq!(ReviewLevel::of_days(Some(0)), ReviewLevel::Low);
    assert_eq!(ReviewLevel::of_days(Some(-3)), ReviewLevel::Low);
    assert_eq!(ReviewLevel::of_days(Some(i64::MIN)), ReviewLevel::Low);
    assert_eq!(ReviewLevel::of_days(Some(i64::MAX)), ReviewLevel::High);
}

#[test]
fn days_on_review_are_whole_days() {
    assert_eq!(resolved("2020-01-01T00:00:00Z").days_on_review_at(&NOW), Some(4));
    assert_eq!(resolved("2020-01-01T00:00:01Z").days_on_review_at(&NOW), Some(3));
    assert_eq!(resolved("2020-01-04 23:59:59+0000").days_on_review_at(&NOW), Some(0));
    assert_eq!(resolved("2020-01-04T01:00:00+01:00").days_on_review_at(&NOW), Some(1));
    assert_eq!(resolved("2019-12-31T12:00:00.500Z").days_on_review_at(&NOW), Some(4));
}

#[test]
fn days_on_review_are_negative_before_the_resolution() {
    assert_eq!(resolved("2020-01-06T00:00:00Z").days_on_review_at(&NOW), Some(-1));
    assert_eq!(resolved("2020-01-05T12:00:00Z").days_on_review_at(&NOW), Some(0));
    assert_eq!(resolved("2020-01-15T00:00:01Z").days_on_review_at(&NOW), Some(-10));
}

#[test]
fn days_on_review_need_a_resolution_date() {
    assert_eq!(issue("BIDEV-1").days_on_review_at(&NOW), None);
    assert_eq!(issue("BIDEV-1").days_on_review(), None);
    assert_eq!(resolved("yesterday").days_on_review_at(&NOW), None);
    assert_eq!(resolved("").days_on_review(), None);
    assert_eq!(resolved("2020-01-01").days_on_review_at(&NOW), None);
}

#[test]
fn days_on_review_need_a_time_that_chrono_has() {
    let never = Instant { secs: i64::MAX, nanos: 0 };
    assert_eq!(resolved("2020-01-01T00:00:00Z").days_on_review_at(&never), None);
    let odd = Instant { secs: 0, nanos: 2_000_000_000 };
    assert_eq!(resolved("2020-01-01T00:00:00Z").days_on_review_at(&odd), None);
}

#[test]
fn days_on_review_now_count_from_the_resolution() {
    // Resolved at the start of 2020: by now that is many days ago.
    let days = resolved("2020-01-01T00:00:00Z").days_on_review().unwrap();
    assert!(days > 2000);
    assert_eq!(resolved("2020-01-01T00:00:00Z").review_level(), ReviewLevel::High);
    assert_eq!(resolved("9999-01-01T00:00:00Z").review_level(), ReviewLevel::Low);
    assert_eq!(issue("BIDEV-1").review_level(), ReviewLevel::Unknown);
}

#[test]
fn review_level_of_an_issue() {
    assert_eq!(resolved("2020-01-04T00:00:00Z").review_level_at(&NOW), ReviewLevel::Low);
    assert_eq!(resolved("2020-01-03T00:00:00Z").review_level_at(&NOW), ReviewLevel::Medium);
    assert_eq!(resolved("2020-01-02T00:00:00Z").review_level_at(&NOW), ReviewLevel::Medium);
    assert_eq!(resolved("2020-01-01T00:00:00Z").review_level_at(&NOW), ReviewLevel::High);
    assert_eq!(resolved("2020-02-01T00:00:00Z").review_level_at(&NOW), ReviewLevel::Low);
    assert_eq!(issue("BIDEV-1").review_level_at(&NOW), ReviewLevel::Unknown);
    assert_eq!(resolved("soon").review_level_at(&NOW), ReviewLevel::Unknown);
}

#[test]
fn summary_or_placeholder() {
    let mut issue = issue("BIDEV-1");
    assert_eq!(issue.display_summary(), "<no summary>");
    issue.summary = Some("Fix the build".to_string());
    assert_eq!(issue.display_summary(), "Fix the build");
    issue.summary = Some(String::new());
    assert_eq!(issue.display_summary(), "");
}

#[test]
fn status_with_its_kind() {
    let cases = [
        ("Backlog", StatusCategory::Backlog),
        ("Open", StatusCategory::InProgress),
        ("In Progress", StatusCategory::InProgress),
        ("Reopened", StatusCategory::InProgress),
        ("On Review", StatusCategory::InReview),
        ("Resolved", StatusCategory::Done),
        ("Closed", StatusCategory::Done),
        ("On Production", StatusCategory::Done),
        ("In Build - Ok", StatusCategory::Done),
        ("Blocked", StatusCategory::Other),
        ("open", StatusCategory::Other),
        ("", StatusCategory::Other),
    ];
    for (name, category) in cases {
        let mut issue = issue("BIDEV-1");
        issue.status = Some(name.to_string());
        let shown = issue.colored_status();
        assert_eq!(shown.name, name);
        assert_eq!(shown.category, category, "{}", name);
        assert_eq!(StatusCategory::of_name(name), category);
    }
    let shown = issue("BIDEV-1").colored_status();
    assert_eq!(shown.name, "<no status>");
    assert_eq!(shown.category, StatusCategory::Other);
}

#[test]
fn field_of_an_issue() {
    let mut issue = issue("BIDEV-1");
    assert_eq!(issue.field("updated"), None);
    issue.fields.insert("updated".to_string(), "2020-01-01".to_string());
    assert_eq!(issue.field("updated"), Some("2020-01-01"));
    assert_eq!(issue.field("update"), None);
}
