//! The session: the settings it runs with, the sprint it looks at, and the
//! filters by which it asks the tracker for that sprint's issues.

use crate::command::CommandError;
use crate::decimal::{decimal, u64_to_string};
use crate::settings::{Settings, SettingsView};
use crate::tokens::{join, join_with};
use crate::tracker::Sprint;
use vstd::prelude::*;

verus! {

/// The state of a session.
#[derive(Clone, Debug)]
pub struct JSprint {
    pub settings: Settings,
    /// The sprint that commands act on. There is none until one is chosen.
    pub current_sprint: Option<Sprint>,
}

/// The clause that keeps the issues of `project`.
pub open spec fn project_clause(project: Seq<char>) -> Seq<char> {
    "project = '"@ + project + "'"@
}

/// The clause that keeps the issues of the sprint `id`.
pub open spec fn sprint_clause(id: u64) -> Seq<char> {
    "sprint = "@ + decimal(id as nat)
}

/// The clause that keeps the issues assigned to nobody or to one of
/// `members`.
pub open spec fn assignee_clause(members: Seq<Seq<char>>) -> Seq<char> {
    "(assignee IS NULL or assignee IN ("@ + join(members, ","@) + "))"@
}

/// The clause that keeps the issues with no label or with one of `labels`.
pub open spec fn labels_clause(labels: Seq<Seq<char>>) -> Seq<char> {
    "(labels IS NULL or labels IN ("@ + join(labels, ","@) + "))"@
}

/// The clause that keeps the issues that are resolved or on review.
pub open spec fn review_clause() -> Seq<char> {
    "(status = \"Resolved\" or status = \"On Review\")"@
}

/// The clauses that select the issues of the sprint `id` for a team: the
/// project, the sprint, the team's members if it names any, and the team's
/// labels if it names any, in this order.
pub open spec fn filter_clauses(settings: SettingsView, id: u64) -> Seq<Seq<char>> {
    seq![project_clause(settings.jira_project), sprint_clause(id)] + (if settings.team_members.len()
        > 0 {
        seq![assignee_clause(settings.team_members)]
    } else {
        seq![]
    }) + (if settings.team_labels.len() > 0 {
        seq![labels_clause(settings.team_labels)]
    } else {
        seq![]
    })
}

/// The clauses that select the issues under review of the sprint `id`: the
/// clauses for the sprint's issues, and then the review clause.
pub open spec fn review_clauses(settings: SettingsView, id: u64) -> Seq<Seq<char>> {
    filter_clauses(settings, id).push(review_clause())
}

/// The query that asks for the issues that meet every one of `clauses`.
pub open spec fn query(clauses: Seq<Seq<char>>) -> Seq<char> {
    join(clauses, " AND "@)
}

/// The order of the clauses: the project and the sprint come first; the
/// clause for the team's members, where there is one, is the third; the
/// clause for the team's labels, where there is one, is the last; and a team
/// without members and labels adds nothing to the first two.
pub proof fn lemma_clause_order(settings: SettingsView, id: u64)
    ensures
        ({
            let clauses = filter_clauses(settings, id);
            let members = settings.team_members.len() > 0;
            let labels = settings.team_labels.len() > 0;
            &&& clauses.len() == 2 + (if members { 1int } else { 0 }) + (if labels { 1int } else { 0 })
            &&& clauses[0] == project_clause(settings.jira_project)
            &&& clauses[1] == sprint_clause(id)
            &&& members ==> clauses[2] == assignee_clause(settings.team_members)
            &&& labels ==> clauses.last() == labels_clause(settings.team_labels)
            &&& !members && !labels ==> clauses == seq![
                project_clause(settings.jira_project),
                sprint_clause(id),
            ]
        }),
{
    let clauses = filter_clauses(settings, id);
    if settings.team_members.len() == 0 && settings.team_labels.len() == 0 {
        assert(clauses =~= seq![project_clause(settings.jira_project), sprint_clause(id)]);
    }
}

/// Giving the team members puts their clause after the sprint's and before
/// that of the labels, and changes no other clause.
pub proof fn lemma_members_clause(settings: SettingsView, members: Seq<Seq<char>>, id: u64)
    requires
        settings.team_members.len() == 0,
        members.len() > 0,
    ensures
        filter_clauses(SettingsView { team_members: members, ..settings }, id) == filter_clauses(
            settings,
            id,
        ).insert(2, assignee_clause(members)),
{
    let with = SettingsView { team_members: members, ..settings };
    assert(filter_clauses(with, id) =~= filter_clauses(settings, id).insert(
        2,
        assignee_clause(members),
    ));
}

/// Giving the team labels puts their clause after all the others.
pub proof fn lemma_labels_clause(settings: SettingsView, labels: Seq<Seq<char>>, id: u64)
    requires
        settings.team_labels.len() == 0,
        labels.len() > 0,
    ensures
        filter_clauses(SettingsView { team_labels: labels, ..settings }, id) == filter_clauses(
            settings,
            id,
        ).push(labels_clause(labels)),
{
    let with = SettingsView { team_labels: labels, ..settings };
    assert(filter_clauses(with, id) =~= filter_clauses(settings, id).push(labels_clause(labels)));
}

/// Whatever the team, the clauses for the issues under review are those
/// for the sprint's issues with the review clause after them.
pub proof fn lemma_review_clause_last(settings: SettingsView, id: u64)
    ensures
        review_clauses(settings, id).last() == review_clause(),
        review_clauses(settings, id).drop_last() == filter_clauses(settings, id),
{
    assert(review_clauses(settings, id).drop_last() =~= filter_clauses(settings, id));
}

/// `before`, `middle` and `after` in a row.
fn enclose(before: &str, middle: &str, after: &str) -> (r: String)
    ensures
        r@ == before@ + middle@ + after@,
{
    let mut out = before.to_owned();
    out.append(middle);
    out.append(after);
    out
}

/// The prompt of a session whose current sprint is called `name`, or that
/// has no current sprint.
pub open spec fn prompt_for(name: Option<Seq<char>>) -> Seq<char> {
    "JSprint ["@ + (match name {
        Some(text) => text,
        None => "<none>"@,
    }) + "] >>> "@
}

impl JSprint {
    /// A session with `settings` and no current sprint.
    pub fn new(settings: Settings) -> (r: JSprint)
        ensures
            r.settings == settings,
            r.current_sprint is None,
    {
        JSprint { settings, current_sprint: None }
    }

    /// The prompt for the next command line: it names the current sprint.
    pub fn prompt(&self) -> (r: String)
        ensures
            r@ == prompt_for(
                match self.current_sprint {
                    Some(sprint) => Some(sprint.name@),
                    None => None,
                },
            ),
    {
        match &self.current_sprint {
            Some(sprint) => enclose("JSprint [", sprint.name.as_str(), "] >>> "),
            None => enclose("JSprint [", "<none>", "] >>> "),
        }
    }

    /// The current sprint, or the report that there is none.
    pub fn sprint(&self) -> (r: Result<&Sprint, CommandError>)
        ensures
            match r {
                Ok(sprint) => self.current_sprint == Some(*sprint),
                Err(why) => self.current_sprint is None && why == CommandError::NoCurrentSprint,
            },
    {
        match &self.current_sprint {
            Some(sprint) => Ok(sprint),
            None => Err(CommandError::NoCurrentSprint),
        }
    }

    /// The clauses that select the issues of `sprint` for the team.
    pub fn jql_filters(&self, sprint: &Sprint) -> (r: Vec<String>)
        ensures
            r.deep_view() == filter_clauses(self.settings@, sprint.id),
    {
        let mut jql: Vec<String> = Vec::new();
        jql.push(enclose("project = '", self.settings.jira_project.as_str(), "'"));
        let mut of_sprint = "sprint = ".to_owned();
        of_sprint.append(u64_to_string(sprint.id).as_str());
        jql.push(of_sprint);
        if self.settings.team_members.len() > 0 {
            let members = join_with(&self.settings.team_members, ",");
            jql.push(enclose("(assignee IS NULL or assignee IN (", members.as_str(), "))"));
        }
        if self.settings.team_labels.len() > 0 {
            let labels = join_with(&self.settings.team_labels, ",");
            jql.push(enclose("(labels IS NULL or labels IN (", labels.as_str(), "))"));
        }
        assert(jql.deep_view() =~= filter_clauses(self.settings@, sprint.id));
        jql
    }

    /// The query that asks the tracker for the issues of `sprint`.
    pub fn get_issues(&self, sprint: &Sprint) -> (r: String)
        ensures
            r@ == query(filter_clauses(self.settings@, sprint.id)),
    {
        let jql = self.jql_filters(sprint);
        join_with(&jql, " AND ")
    }

    /// The query that asks the tracker for the issues of `sprint` that are
    /// resolved or on review.
    pub fn get_issues_on_review(&self, sprint: &Sprint) -> (r: String)
        ensures
            r@ == query(review_clauses(self.settings@, sprint.id)),
    {
        let mut jql = self.jql_filters(sprint);
        let ghost before = jql.deep_view();
        jql.push("(status = \"Resolved\" or status = \"On Review\")".to_owned());
        assert(jql.deep_view() =~= before.push(review_clause()));
        join_with(&jql, " AND ")
    }
}

} // verus!
