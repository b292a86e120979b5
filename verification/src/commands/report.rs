//! The command that reports the issues of the current sprint by rank.

use crate::extend_issues::{permalink_widths, status_widths, widest, Issues, IssuesPadding};
use crate::listing::{grouped, is_grouping, Group, SortBy, SortByView};
use vstd::prelude::*;

verus! {

/// The name of the field that holds the rank of an issue.
pub const RANK_FIELD: &'static str = "customfield_14560";

/// The issues of a sprint as they are reported: by assignee, each
/// assignee's issues by rank.
#[derive(Clone, Debug)]
pub struct Listing<'a> {
    /// The width of the column of permalinks.
    pub permalink_padding: usize,
    /// The width of the column of statuses.
    pub status_padding: usize,
    pub groups: Vec<Group<'a>>,
}

/// The report on `issues`, the issues of a sprint; `None` where the sprint
/// has no issues.
pub fn command<'a>(issues: &'a Issues) -> (r: Option<Listing<'a>>)
    ensures
        r is None <==> issues.len() == 0,
        r matches Some(listing) ==> {
            &&& listing.permalink_padding == widest(permalink_widths(issues.deep_view()))
            &&& listing.status_padding == widest(status_widths(issues.deep_view()))
            &&& is_grouping(
                listing.groups.deep_view(),
                issues.deep_view(),
                SortByView::Field(RANK_FIELD@),
            )
        },
{
    if issues.len() == 0 {
        return None;
    }
    Some(
        Listing {
            permalink_padding: issues.permalink_padding(),
            status_padding: issues.status_padding(),
            groups: grouped(issues, SortBy::Field(RANK_FIELD)),
        },
    )
}

} // verus!
