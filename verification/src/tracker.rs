//! What the shell holds of the tracker's data: sprints and issues, as plain
//! values.

use crate::order::str_eq;
use crate::ordered_map::{text_values, OrderedMap};
use vstd::prelude::*;

verus! {

/// Where a sprint stands in its life.
#[derive(Clone, Copy, Debug, PartialEq, Eq, Structural)]
pub enum SprintState {
    Active,
    Future,
    Closed,
    Unknown,
}

/// The state that the tracker's name for it stands for.
pub open spec fn state_named(name: Option<Seq<char>>) -> SprintState {
    match name {
        Some(text) => if text == "active"@ {
            SprintState::Active
        } else if text == "future"@ {
            SprintState::Future
        } else if text == "closed"@ {
            SprintState::Closed
        } else {
            SprintState::Unknown
        },
        None => SprintState::Unknown,
    }
}

impl SprintState {
    /// The state that the tracker calls `name`: `active`, `future` or
    /// `closed`; any other name, or none, is an unknown state.
    pub fn from_name(name: Option<&str>) -> (r: SprintState)
        ensures
            r == state_named(
                match name {
                    Some(text) => Some(text@),
                    None => None,
                },
            ),
    {
        match name {
            Some(text) => if str_eq(text, "active") {
                SprintState::Active
            } else if str_eq(text, "future") {
                SprintState::Future
            } else if str_eq(text, "closed") {
                SprintState::Closed
            } else {
                SprintState::Unknown
            },
            None => SprintState::Unknown,
        }
    }
}

/// A sprint of the board.
#[derive(Clone, Debug)]
pub struct Sprint {
    pub id: u64,
    pub name: String,
    pub state: SprintState,
    /// When the sprint starts, as the tracker writes it; sprints are put
    /// in order by it.
    pub start_date: Option<String>,
}

/// A sprint as a mathematical value.
pub struct SprintView {
    pub id: u64,
    pub name: Seq<char>,
    pub state: SprintState,
    pub start_date: Option<Seq<char>>,
}

impl View for Sprint {
    type V = SprintView;

    open spec fn view(&self) -> SprintView {
        SprintView {
            id: self.id,
            name: self.name@,
            state: self.state,
            start_date: self.start_date.deep_view(),
        }
    }
}

impl DeepView for Sprint {
    type V = SprintView;

    open spec fn deep_view(&self) -> SprintView {
        self@
    }
}

/// An issue of the board.
#[derive(Clone, Debug)]
pub struct Issue {
    /// The key by which the tracker's users name the issue.
    pub key: String,
    pub id: u64,
    /// The address at which the tracker shows the issue.
    pub permalink: String,
    /// The display name of the user the issue is assigned to.
    pub assignee: Option<String>,
    /// The name of the issue's status.
    pub status: Option<String>,
    pub summary: Option<String>,
    pub labels: Vec<String>,
    /// When the issue was resolved, as the tracker writes it.
    pub resolution_date: Option<String>,
    /// The issue's other fields that hold text, by the tracker's name for
    /// each.
    pub fields: OrderedMap<String>,
}

/// An issue as a mathematical value.
pub struct IssueView {
    pub key: Seq<char>,
    pub id: u64,
    pub permalink: Seq<char>,
    pub assignee: Option<Seq<char>>,
    pub status: Option<Seq<char>>,
    pub summary: Option<Seq<char>>,
    pub labels: Seq<Seq<char>>,
    pub resolution_date: Option<Seq<char>>,
    pub fields: Map<Seq<char>, Seq<char>>,
}

impl View for Issue {
    type V = IssueView;

    open spec fn view(&self) -> IssueView {
        IssueView {
            key: self.key@,
            id: self.id,
            permalink: self.permalink@,
            assignee: self.assignee.deep_view(),
            status: self.status.deep_view(),
            summary: self.summary.deep_view(),
            labels: self.labels.deep_view(),
            resolution_date: self.resolution_date.deep_view(),
            fields: text_values(self.fields@),
        }
    }
}

impl DeepView for Issue {
    type V = IssueView;

    open spec fn deep_view(&self) -> IssueView {
        self@
    }
}

impl IssueView {
    /// The text of the field called `name`, if the issue has it.
    pub open spec fn field(self, name: Seq<char>) -> Option<Seq<char>> {
        if self.fields.contains_key(name) {
            Some(self.fields[name])
        } else {
            None
        }
    }
}

impl Issue {
    /// The text of the field called `name`, if the issue has it.
    pub fn field(&self, name: &str) -> (r: Option<&str>)
        ensures
            r.deep_view() == self@.field(name@),
    {
        match self.fields.get(name) {
            Some(text) => Some(text.as_str()),
            None => None,
        }
    }
}

} // verus!
