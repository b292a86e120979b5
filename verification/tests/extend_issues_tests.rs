use jsprint::extend_issues::{Issues, IssuesGrouping, IssuesPadding, UNASSIGNED};
use jsprint::extend_sprints::{Sprints, SprintsPadding};
use jsprint::ordered_map::OrderedMap;
use jsprint::tracker::{Issue, Sprint, SprintState};

fn issue(key: &str, id: u64, assignee: Option<&str>) -> Issue {
    Issue {
        key: key.to_string(),
        id,
        permalink: format!("https://jira.example.org/browse/{}", key),
        assignee: assignee.map(|s| s.to_string()),
        status: None,
        summary: None,
        labels: vec![],
        resolution_date: None,
        fields: OrderedMap::new(),
    }
}

#[test]
fn paddings_of_no_issues_are_zero() {
    let issues: Issues = vec![];
    assert_eq!(issues.permalink_padding(), 0);
    assert_eq!(issues.status_padding(), 0);
    assert_eq!(issues.key_padding(), 0);
    assert!(issues.group_by_assignee().is_empty());
    let sprints: Sprints = vec![];
    assert_eq!(sprints.id_padding(), 0);
}

#[test]
fn permalink_padding_is_the_longest_permalink() {
    let mut issues: Issues = vec![issue("A", 1, None), issue("B", 2, None), issue("C", 3, None)];
    issues[0].permalink = "abc".to_string();
    issues[1].permalink = "abcdefghij".to_string();
    issues[2].permalink = "abcde".to_string();
    assert_eq!(issues.permalink_padding(), 10);
}

#[test]
fn status_padding_counts_a_missing_status_as_empty() {
    let mut issues: Issues = vec![issue("A", 1, None), issue("B", 2, None)];
    assert_eq!(issues.status_padding(), 0);
    issues[1].status = Some("Open".to_string());
    assert_eq!(issues.status_padding(), 4);
    issues[0].status = Some("In Progress".to_string());
    assert_eq!(issues.status_padding(), 11);
}

#[test]
fn key_padding_is_the_longest_key() {
    let issues: Issues = vec![issue("BIDEV-1", 1, None), issue("BIDEV-1024", 2, None), issue("X", 3, None)];
    assert_eq!(issues.key_padding(), 10);
}

#[test]
fn paddings_are_lengths_in_bytes() {
    let issues: Issues = vec![issue("é", 1, None)];
    assert_eq!(issues.key_padding(), 2);
}

#[test]
fn id_padding_is_the_longest_identifier() {
    let sprints: Sprints = [7, 1234, 99]
        .iter()
        .map(|&id| Sprint { id, name: format!("Sprint {}", id), state: SprintState::Closed, start_date: None })
        .collect();
    assert_eq!(sprints.id_padding(), 4);
}

#[test]
fn issues_are_grouped_by_assignee() {
    let issues: Issues = vec![
        issue("BIDEV-1", 1, Some("Zoe")),
        issue("BIDEV-2", 2, None),
        issue("BIDEV-3", 3, Some("Zoe")),
    ];
    let groups = issues.group_by_assignee();
    assert_eq!(groups.len(), 2);
    assert_eq!(groups.keys(), vec![UNASSIGNED, "Zoe"]);
    let keys = |name: &str| -> Vec<String> {
        groups.get(name).unwrap().iter().map(|issue| issue.key.clone()).collect()
    };
    assert_eq!(keys("Zoe"), vec!["BIDEV-1", "BIDEV-3"]);
    assert_eq!(keys("<unassigned>"), vec!["BIDEV-2"]);
    assert!(groups.get("zoe").is_none());
}

#[test]
fn groups_keep_the_order_of_the_issues() {
    let issues: Issues = vec![
        issue("E", 5, Some("b")),
        issue("D", 4, Some("a")),
        issue("C", 3, Some("b")),
        issue("B", 2, Some("a")),
        issue("A", 1, Some("b")),
    ];
    let groups = issues.group_by_assignee();
    assert_eq!(groups.keys(), vec!["a", "b"]);
    let ids: Vec<u64> = groups.get("b").unwrap().iter().map(|issue| issue.id).collect();
    assert_eq!(ids, vec![5, 3, 1]);
    let ids: Vec<u64> = groups.get("a").unwrap().iter().map(|issue| issue.id).collect();
    assert_eq!(ids, vec![4, 2]);
}
