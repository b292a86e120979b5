use jsprint::commands::labels_count;
use jsprint::commands::report::{self, RANK_FIELD};
use jsprint::commands::reviews::{self, days_text, review_mark, REVIEW_PADDING};
use jsprint::commands::sprint;
use jsprint::commands::sprints::{self, SPRINTS_WINDOW};
use jsprint::extend_issue::ReviewLevel;
use jsprint::extend_issues::Issues;
use jsprint::extend_sprints::Sprints;
use jsprint::listing::{grouped, sorted, Group, SortBy};
use jsprint::ordered_map::OrderedMap;
use jsprint::tracker::{Issue, Sprint, SprintState};

fn issue(id: u64, assignee: Option<&str>, fields: &[(&str, &str)]) -> Issue {
    let mut map = OrderedMap::new();
    for (name, text) in fields {
        map.insert(name.to_string(), text.to_string());
    }
    Issue {
        key: format!("BIDEV-{}", id),
        id,
        permalink: format!("https://jira.example.org/browse/BIDEV-{}", id),
        assignee: assignee.map(|s| s.to_string()),
        status: Some("Open".to_string()),
        summary: None,
        labels: vec![],
        resolution_date: None,
        fields: map,
    }
}

fn labelled(labels: &[&str]) -> Issue {
    let mut issue = issue(1, None, &[]);
    issue.labels = labels.iter().map(|s| s.to_string()).collect();
    issue
}

fn sprint(id: u64, name: &str, state: SprintState, start: Option<&str>) -> Sprint {
    Sprint { id, name: name.to_string(), state, start_date: start.map(|s| s.to_string()) }
}

fn shape(groups: &[Group]) -> Vec<(String, Vec<u64>)> {
    groups
        .iter()
        .map(|group| (group.assignee.clone(), group.issues.iter().map(|issue| issue.id).collect()))
        .collect()
}

fn shown(listing: &sprints::Listing) -> Vec<u64> {
    listing.sprints.iter().map(|sprint| sprint.id).collect()
}

/// Ten sprints that have begun, in the order of their start dates, the one
/// at place `active` active, and two to come.
fn board(active: Option<usize>) -> Sprints {
    let mut sprints: Sprints = vec![];
    sprints.push(sprint(101, "Next B", SprintState::Future, None));
    // Put in from the last to the first, so that sorting has work to do.
    for place in (0..10).rev() {
        let state = if Some(place) == active { SprintState::Active } else { SprintState::Closed };
        let start = format!("2020-01-{:02}T00:00:00.000Z", place + 1);
        sprints.push(sprint(place as u64, &format!("Sprint {}", place), state, Some(&start)));
    }
    sprints.push(sprint(100, "Next A", SprintState::Future, None));
    sprints
}

#[test]
fn sprint_window_around_the_active_sprint() {
    assert_eq!(SPRINTS_WINDOW, 2);
    let sprints = board(Some(5));
    let listing = sprints::command(&sprints);
    assert_eq!(shown(&listing), vec![3, 4, 5, 6, 100, 101]);
    assert_eq!(listing.id_padding, 3);
}

#[test]
fn sprint_window_at_the_start() {
    let sprints = board(Some(0));
    assert_eq!(shown(&sprints::command(&sprints)), vec![0, 1, 100, 101]);
    let sprints = board(Some(1));
    assert_eq!(shown(&sprints::command(&sprints)), vec![0, 1, 2, 100, 101]);
    let sprints = board(Some(2));
    assert_eq!(shown(&sprints::command(&sprints)), vec![0, 1, 2, 3, 100, 101]);
}

#[test]
fn sprint_window_at_the_end() {
    let sprints = board(Some(9));
    assert_eq!(shown(&sprints::command(&sprints)), vec![7, 8, 9, 100, 101]);
    let sprints = board(Some(8));
    assert_eq!(shown(&sprints::command(&sprints)), vec![6, 7, 8, 9, 100, 101]);
}

#[test]
fn sprint_window_without_active_sprint_is_everything() {
    let sprints = board(None);
    assert_eq!(shown(&sprints::command(&sprints)), vec![0, 1, 2, 3, 4, 5, 6, 7, 8, 9, 100, 101]);
}

#[test]
fn sprints_without_start_date_come_first() {
    let sprints: Sprints = vec![
        sprint(1, "c", SprintState::Closed, Some("2020-02-01")),
        sprint(2, "b", SprintState::Unknown, None),
        sprint(3, "a", SprintState::Closed, Some("2020-01-01")),
        sprint(4, "z", SprintState::Future, Some("2019-01-01")),
        sprint(5, "y", SprintState::Future, Some("2018-01-01")),
        sprint(6, "d", SprintState::Closed, None),
    ];
    assert_eq!(shown(&sprints::command(&sprints)), vec![2, 6, 3, 1, 5, 4]);
    let none: Sprints = vec![];
    let listing = sprints::command(&none);
    assert!(listing.sprints.is_empty());
    assert_eq!(listing.id_padding, 0);
}

#[test]
fn sprint_window_is_around_the_first_active_sprint() {
    let sprints: Sprints = vec![
        sprint(1, "a", SprintState::Closed, Some("1")),
        sprint(2, "b", SprintState::Active, Some("2")),
        sprint(3, "c", SprintState::Closed, Some("3")),
        sprint(4, "d", SprintState::Active, Some("4")),
        sprint(5, "e", SprintState::Closed, Some("5")),
    ];
    assert_eq!(shown(&sprints::command(&sprints)), vec![1, 2, 3]);
}

#[test]
fn sprint_listing_groups_and_sorts_by_id() {
    let issues: Issues = vec![
        issue(30, Some("Zoe"), &[]),
        issue(20, None, &[]),
        issue(10, Some("Zoe"), &[]),
        issue(5, Some("Al"), &[]),
    ];
    let listing = sprint::command(&issues).unwrap();
    assert_eq!(
        shape(&listing.groups),
        vec![
            ("<unassigned>".to_string(), vec![20]),
            ("Al".to_string(), vec![5]),
            ("Zoe".to_string(), vec![10, 30]),
        ]
    );
    assert_eq!(listing.key_padding, 8);
    assert_eq!(listing.status_padding, 4);
    assert_eq!(listing.permalink_padding, "https://jira.example.org/browse/BIDEV-30".len());
    let none: Issues = vec![];
    assert!(sprint::command(&none).is_none());
}

#[test]
fn report_sorts_by_rank() {
    assert_eq!(RANK_FIELD, "customfield_14560");
    let issues: Issues = vec![
        issue(1, Some("Zoe"), &[(RANK_FIELD, "0|i0000z:")]),
        issue(2, Some("Zoe"), &[(RANK_FIELD, "0|i00007:")]),
        issue(3, Some("Zoe"), &[]),
        issue(4, Some("Al"), &[(RANK_FIELD, "1")]),
        issue(5, Some("Zoe"), &[(RANK_FIELD, "0|i00007:")]),
    ];
    let listing = report::command(&issues).unwrap();
    assert_eq!(
        shape(&listing.groups),
        vec![("Al".to_string(), vec![4]), ("Zoe".to_string(), vec![3, 2, 5, 1])]
    );
    assert_eq!(listing.status_padding, 4);
    assert_eq!(listing.permalink_padding, "https://jira.example.org/browse/BIDEV-1".len());
    let none: Issues = vec![];
    assert!(report::command(&none).is_none());
}

#[test]
fn reviews_sort_by_last_update() {
    let issues: Issues = vec![
        issue(1, None, &[("updated", "2020-03-01T10:00:00.000+0000")]),
        issue(2, None, &[("updated", "2020-01-01T10:00:00.000+0000")]),
        issue(3, None, &[("updated", "2020-02-01T10:00:00.000+0000")]),
    ];
    let listing = reviews::command(&issues).unwrap();
    assert_eq!(shape(&listing.groups), vec![("<unassigned>".to_string(), vec![2, 3, 1])]);
    assert_eq!(listing.permalink_padding, "https://jira.example.org/browse/BIDEV-1".len());
    let none: Issues = vec![];
    assert!(reviews::command(&none).is_none());
}

#[test]
fn review_marks_and_days() {
    assert_eq!(REVIEW_PADDING, 6);
    assert_eq!(review_mark(ReviewLevel::Low), "**");
    assert_eq!(review_mark(ReviewLevel::Medium), "****");
    assert_eq!(review_mark(ReviewLevel::High), "******");
    assert_eq!(review_mark(ReviewLevel::Unknown), "------");
    assert_eq!(days_text(None), "x");
    assert_eq!(days_text(Some(0)), "0");
    assert_eq!(days_text(Some(12)), "12");
    assert_eq!(days_text(Some(-3)), "-3");
}

#[test]
fn grouping_and_sorting_by_a_field() {
    let issues: Issues = vec![
        issue(1, Some("b"), &[("k", "2")]),
        issue(2, Some("a"), &[("k", "1")]),
        issue(3, Some("b"), &[("k", "1")]),
    ];
    assert_eq!(
        shape(&grouped(&issues, SortBy::Field("k"))),
        vec![("a".to_string(), vec![2]), ("b".to_string(), vec![3, 1])]
    );
    assert_eq!(
        shape(&grouped(&issues, SortBy::Id)),
        vec![("a".to_string(), vec![2]), ("b".to_string(), vec![1, 3])]
    );
    let list: Vec<&Issue> = issues.iter().collect();
    let ids: Vec<u64> = sorted(&list, SortBy::Field("k")).iter().map(|issue| issue.id).collect();
    assert_eq!(ids, vec![2, 3, 1]);
    let ids: Vec<u64> = sorted(&list, SortBy::Field("none")).iter().map(|issue| issue.id).collect();
    assert_eq!(ids, vec![1, 2, 3]);
}

#[test]
fn labels_are_counted_by_display_name() {
    let issues: Issues = vec![labelled(&["a", "b"]), labelled(&["a"])];
    let mut mapping = OrderedMap::new();
    mapping.insert("a".to_string(), "Alpha".to_string());
    let counts = labels_count::command(&issues, &mapping);
    assert_eq!(counts.keys(), vec!["<b>", "Alpha"]);
    assert_eq!(counts.get("Alpha"), Some(&2));
    assert_eq!(counts.get("<b>"), Some(&1));
    assert_eq!(counts.get("a"), None);
}

#[test]
fn labels_with_one_display_name_are_counted_together() {
    let issues: Issues = vec![labelled(&["a", "b", "c"]), labelled(&[]), labelled(&["b", "<c>"])];
    let mut mapping = OrderedMap::new();
    mapping.insert("a".to_string(), "AB".to_string());
    mapping.insert("b".to_string(), "AB".to_string());
    mapping.insert("<c>".to_string(), "<c>".to_string());
    let counts = labels_count::command(&issues, &mapping);
    assert_eq!(counts.keys(), vec!["<c>", "AB"]);
    assert_eq!(counts.get("AB"), Some(&3));
    assert_eq!(counts.get("<c>"), Some(&2));
    let none: Issues = vec![];
    assert!(labels_count::command(&none, &mapping).is_empty());
    assert!(labels_count::command(&vec![labelled(&[])], &mapping).is_empty());
}
