//! What is shown of one issue: its summary, its status, and how long it has
//! been waiting for review.

use crate::order::str_eq;
use crate::time::{days_between, parse_utc, utc_now, utc_timestamp, whole_days, Instant};
use crate::tracker::{Issue, IssueView};
use vstd::prelude::*;

verus! {

/// Up to this many days on review an issue is at the low level.
pub const REVIEW_LOW_THRESHOLD: i64 = 1;

/// Up to this many days on review an issue is at most at the medium level.
pub const REVIEW_HIGH_THRESHOLD: i64 = 3;

/// How pressing the review of an issue is.
#[derive(Clone, Copy, Debug, PartialEq, Eq, Structural)]
pub enum ReviewLevel {
    Low,
    Medium,
    High,
    Unknown,
}

/// The kind of a status, by which it is coloured.
#[derive(Clone, Copy, Debug, PartialEq, Eq, Structural)]
pub enum StatusCategory {
    /// Not yet planned.
    Backlog,
    /// Open or being worked on.
    InProgress,
    /// Waiting for review.
    InReview,
    /// Resolved, closed or delivered.
    Done,
    /// Any other status, or none.
    Other,
}

/// A status as it is shown: its name and its kind.
#[derive(Clone, Debug)]
pub struct StatusDisplay {
    pub name: String,
    pub category: StatusCategory,
}

/// The level for `days` on review: low up to 1 day, medium up to 3 days,
/// high beyond; unknown where the days are not known.
pub open spec fn level_of_days(days: Option<i64>) -> ReviewLevel {
    match days {
        Some(d) => if d <= REVIEW_LOW_THRESHOLD {
            ReviewLevel::Low
        } else if d <= REVIEW_HIGH_THRESHOLD {
            ReviewLevel::Medium
        } else {
            ReviewLevel::High
        },
        None => ReviewLevel::Unknown,
    }
}

/// The whole days from the resolution of `issue` to `now`, negative where
/// the resolution lies after `now`; `None` where the issue has no
/// resolution date, or none that can be read as a point in time.
pub open spec fn days_on_review_at(issue: IssueView, now: Instant) -> Option<i64> {
    match issue.resolution_date {
        Some(text) => match utc_timestamp(text) {
            Some((secs, nanos)) => days_between(now.secs, now.nanos, secs, nanos),
            None => None,
        },
        None => None,
    }
}

/// The summary shown for `issue`: its own, or a placeholder.
pub open spec fn summary_shown(issue: IssueView) -> Seq<char> {
    match issue.summary {
        Some(text) => text,
        None => "<no summary>"@,
    }
}

/// The kind of the status called `name`.
pub open spec fn category_of(name: Seq<char>) -> StatusCategory {
    if name == "Backlog"@ {
        StatusCategory::Backlog
    } else if name == "Open"@ || name == "In Progress"@ || name == "Reopened"@ {
        StatusCategory::InProgress
    } else if name == "On Review"@ {
        StatusCategory::InReview
    } else if name == "Resolved"@ || name == "Closed"@ || name == "On Production"@ || name
        == "In Build - Ok"@ {
        StatusCategory::Done
    } else {
        StatusCategory::Other
    }
}

/// The name shown for the status of `issue`: its own, or a placeholder.
pub open spec fn status_shown(issue: IssueView) -> Seq<char> {
    match issue.status {
        Some(name) => name,
        None => "<no status>"@,
    }
}

/// The kind of the status of `issue`; an issue without status is of no
/// particular kind.
pub open spec fn status_category(issue: IssueView) -> StatusCategory {
    match issue.status {
        Some(name) => category_of(name),
        None => StatusCategory::Other,
    }
}

impl ReviewLevel {
    /// The level for `days` on review.
    pub fn of_days(days: Option<i64>) -> (r: ReviewLevel)
        ensures
            r == level_of_days(days),
    {
        match days {
            Some(d) => if d <= REVIEW_LOW_THRESHOLD {
                ReviewLevel::Low
            } else if d <= REVIEW_HIGH_THRESHOLD {
                ReviewLevel::Medium
            } else {
                ReviewLevel::High
            },
            None => ReviewLevel::Unknown,
        }
    }
}

impl StatusCategory {
    /// The kind of the status called `name`.
    pub fn of_name(name: &str) -> (r: StatusCategory)
        ensures
            r == category_of(name@),
    {
        if str_eq(name, "Backlog") {
            StatusCategory::Backlog
        } else if str_eq(name, "Open") || str_eq(name, "In Progress") || str_eq(name, "Reopened") {
            StatusCategory::InProgress
        } else if str_eq(name, "On Review") {
            StatusCategory::InReview
        } else if str_eq(name, "Resolved") || str_eq(name, "Closed") || str_eq(
            name,
            "On Production",
        ) || str_eq(name, "In Build - Ok") {
            StatusCategory::Done
        } else {
            StatusCategory::Other
        }
    }
}

/// How long an issue has been on review.
pub trait IssueReviewLevel {
    /// The whole days since the issue was resolved, at the current time.
    fn days_on_review(&self) -> Option<i64>;

    /// The whole days from the issue's resolution to `now`.
    fn days_on_review_at(&self, now: &Instant) -> Option<i64>;

    /// The review level of the issue, at the current time.
    fn review_level(&self) -> ReviewLevel;

    /// The review level of the issue at `now`.
    fn review_level_at(&self, now: &Instant) -> ReviewLevel;
}

/// What is shown of an issue.
pub trait IssueDisplayable {
    /// The summary of the issue, or a placeholder where it has none.
    fn display_summary(&self) -> String;

    /// The status of the issue and its kind, with a placeholder where it
    /// has none.
    fn colored_status(&self) -> StatusDisplay;
}

impl IssueReviewLevel for Issue {
    /// The days on review at the time of the call: what `days_on_review_at`
    /// gives for some point in time.
    fn days_on_review(&self) -> (r: Option<i64>)
        ensures
            exists|now: Instant| r == days_on_review_at(self@, now),
            self@.resolution_date is None ==> r is None,
    {
        let now = utc_now();
        self.days_on_review_at(&now)
    }

    fn days_on_review_at(&self, now: &Instant) -> (r: Option<i64>)
        ensures
            r == days_on_review_at(self@, *now),
    {
        match &self.resolution_date {
            Some(text) => match parse_utc(text.as_str()) {
                Some(resolved) => whole_days(now, &resolved),
                None => None,
            },
            None => None,
        }
    }

    /// The review level at the time of the call: what `review_level_at`
    /// gives for some point in time.
    fn review_level(&self) -> (r: ReviewLevel)
        ensures
            exists|now: Instant| r == level_of_days(days_on_review_at(self@, now)),
            self@.resolution_date is None ==> r == ReviewLevel::Unknown,
    {
        ReviewLevel::of_days(self.days_on_review())
    }

    fn review_level_at(&self, now: &Instant) -> (r: ReviewLevel)
        ensures
            r == level_of_days(days_on_review_at(self@, *now)),
    {
        ReviewLevel::of_days(self.days_on_review_at(now))
    }
}

impl IssueDisplayable for Issue {
    fn display_summary(&self) -> (r: String)
        ensures
            r@ == summary_shown(self@),
    {
        match &self.summary {
            Some(text) => text.clone(),
            None => "<no summary>".to_owned(),
        }
    }

    fn colored_status(&self) -> (r: StatusDisplay)
        ensures
            r.name@ == status_shown(self@),
            r.category == status_category(self@),
    {
        match &self.status {
            Some(name) => StatusDisplay {
                name: name.clone(),
                category: StatusCategory::of_name(name.as_str()),
            },
            None => StatusDisplay { name: "<no status>".to_owned(), category: StatusCategory::Other },
        }
    }
}

} // verus!
