//! The command that lists the issues waiting for review.

use crate::decimal::{i64_to_string, signed_decimal};
use crate::extend_issue::ReviewLevel;
use crate::extend_issues::{permalink_widths, widest, Issues, IssuesPadding};
use crate::listing::{grouped, is_grouping, Group, SortBy, SortByView};
use vstd::prelude::*;

verus! {

/// The width of the column of review marks.
pub const REVIEW_PADDING: usize = 6;

/// The name of the field that holds when an issue was last updated.
pub const UPDATED_FIELD: &'static str = "updated";

/// The issues under review as they are listed: by assignee, each
/// assignee's issues from the one updated longest ago.
#[derive(Clone, Debug)]
pub struct Listing<'a> {
    /// The width of the column of permalinks.
    pub permalink_padding: usize,
    pub groups: Vec<Group<'a>>,
}

/// The mark shown for a review level: the more pressing, the longer.
pub open spec fn mark_of(level: ReviewLevel) -> Seq<char> {
    match level {
        ReviewLevel::Low => "**"@,
        ReviewLevel::Medium => "****"@,
        ReviewLevel::High => "******"@,
        ReviewLevel::Unknown => "------"@,
    }
}

/// The text shown for the days on review: the number, or `x` where it is
/// not known.
pub open spec fn days_shown(days: Option<i64>) -> Seq<char> {
    match days {
        Some(d) => signed_decimal(d as int),
        None => "x"@,
    }
}

/// The mark shown for `level`.
pub fn review_mark(level: ReviewLevel) -> (r: &'static str)
    ensures
        r@ == mark_of(level),
{
    match level {
        ReviewLevel::Low => "**",
        ReviewLevel::Medium => "****",
        ReviewLevel::High => "******",
        ReviewLevel::Unknown => "------",
    }
}

/// The text shown for `days` on review.
pub fn days_text(days: Option<i64>) -> (r: String)
    ensures
        r@ == days_shown(days),
{
    match days {
        Some(d) => i64_to_string(d),
        None => "x".to_owned(),
    }
}

/// The listing of `issues`, the issues of a sprint that are under review;
/// `None` where there are none.
pub fn command<'a>(issues: &'a Issues) -> (r: Option<Listing<'a>>)
    ensures
        r is None <==> issues.len() == 0,
        r matches Some(listing) ==> {
            &&& listing.permalink_padding == widest(permalink_widths(issues.deep_view()))
            &&& is_grouping(
                listing.groups.deep_view(),
                issues.deep_view(),
                SortByView::Field(UPDATED_FIELD@),
            )
        },
{
    if issues.len() == 0 {
        return None;
    }
    Some(
        Listing {
            permalink_padding: issues.permalink_padding(),
            groups: grouped(issues, SortBy::Field(UPDATED_FIELD)),
        },
    )
}

} // verus!
