//! The command that puts issues back into the backlog.

use crate::command::{CommandError, CommandErrorView};
use crate::commands::{arguments, get_issue_keys, issue_keys};
use crate::tokens::{split_words, words};
use vstd::prelude::*;

verus! {

/// The keys of the issues that the command line `line` asks to put into
/// the backlog. The arguments are the words of the line after the first,
/// and each is an issue number. The first that is none is reported; then
/// that there is no argument.
pub open spec fn requested_issues(line: Seq<char>) -> Result<Seq<Seq<char>>, CommandErrorView> {
    match issue_keys(arguments(words(line))) {
        Ok(keys) => if keys.len() == 0 {
            Err(CommandErrorView::NoIssueNumbers)
        } else {
            Ok(keys)
        },
        Err(why) => Err(why),
    }
}

/// Reads the command line `line` as a request to put issues into the
/// backlog, and gives the keys of the issues.
pub fn command(line: &str) -> (r: Result<Vec<String>, CommandError>)
    ensures
        match r {
            Ok(keys) => requested_issues(line@) == Ok::<Seq<Seq<char>>, CommandErrorView>(
                keys.deep_view(),
            ),
            Err(why) => requested_issues(line@) == Err::<Seq<Seq<char>>, CommandErrorView>(why@),
        },
{
    let tokens = split_words(line);
    let from: usize = if tokens.len() > 0 {
        1
    } else {
        0
    };
    assert(tokens.deep_view().skip(from as int) =~= arguments(words(line@)));
    let issues = get_issue_keys(&tokens, from)?;
    if issues.len() == 0 {
        return Err(CommandError::NoIssueNumbers);
    }
    Ok(issues)
}

} // verus!
