//! The command that lists the issues of the current sprint.

use crate::extend_issues::{key_widths, permalink_widths, status_widths, widest, Issues, IssuesPadding};
use crate::listing::{grouped, is_grouping, Group, SortBy, SortByView};
use vstd::prelude::*;

verus! {

/// The issues of a sprint as they are listed: by assignee, each
/// assignee's issues by number.
#[derive(Clone, Debug)]
pub struct Listing<'a> {
    /// The width of the column of statuses.
    pub status_padding: usize,
    /// The width of the column of keys.
    pub key_padding: usize,
    /// The width of the column of permalinks.
    pub permalink_padding: usize,
    pub groups: Vec<Group<'a>>,
}

/// The listing of `issues`, the issues of a sprint; `None` where the sprint
/// has no issues.
pub fn command<'a>(issues: &'a Issues) -> (r: Option<Listing<'a>>)
    ensures
        r is None <==> issues.len() == 0,
        r matches Some(listing) ==> {
            &&& listing.status_padding == widest(status_widths(issues.deep_view()))
            &&& listing.key_padding == widest(key_widths(issues.deep_view()))
            &&& listing.permalink_padding == widest(permalink_widths(issues.deep_view()))
            &&& is_grouping(listing.groups.deep_view(), issues.deep_view(), SortByView::Id)
        },
{
    if issues.len() == 0 {
        return None;
    }
    Some(
        Listing {
            status_padding: issues.status_padding(),
            key_padding: issues.key_padding(),
            permalink_padding: issues.permalink_padding(),
            groups: grouped(issues, SortBy::Id),
        },
    )
}

} // verus!
