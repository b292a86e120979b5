//! The command that assigns issues to a user.

use crate::command::{CommandError, CommandErrorView};
use crate::commands::{arguments, get_issue_keys, issue_keys};
use crate::tokens::{lemma_split_len, split, split_on};
use vstd::prelude::*;

verus! {

/// Issues to assign to a user.
#[derive(Clone, Debug, PartialEq, Eq)]
pub struct Assignment {
    /// The user, as the tracker names them.
    pub assignee: String,
    /// The keys of the issues.
    pub issues: Vec<String>,
}

/// An assignment as a mathematical value.
pub struct AssignmentView {
    pub assignee: Seq<char>,
    pub issues: Seq<Seq<char>>,
}

impl View for Assignment {
    type V = AssignmentView;

    open spec fn view(&self) -> AssignmentView {
        AssignmentView { assignee: self.assignee@, issues: self.issues.deep_view() }
    }
}

/// What the command line `line` asks to assign. The arguments are the
/// fields of the line after the first, between single spaces: the assignee,
/// then at least one issue number. That there is no argument is reported
/// first; then that there is no issue number; then the first argument after
/// the assignee that is no issue number.
pub open spec fn requested_assignment(line: Seq<char>) -> Result<AssignmentView, CommandErrorView> {
    let args = arguments(split(line, ' '));
    if args.len() == 0 {
        Err(CommandErrorView::NoAssignee)
    } else if args.len() == 1 {
        Err(CommandErrorView::NoIssuesToAssign)
    } else {
        match issue_keys(args.drop_first()) {
            Ok(keys) => Ok(AssignmentView { assignee: args[0], issues: keys }),
            Err(why) => Err(why),
        }
    }
}

/// Reads the command line `line` as a request to assign issues.
pub fn command(line: &str) -> (r: Result<Assignment, CommandError>)
    ensures
        match r {
            Ok(request) => requested_assignment(line@) == Ok::<AssignmentView, CommandErrorView>(
                request@,
            ),
            Err(why) => requested_assignment(line@) == Err::<AssignmentView, CommandErrorView>(
                why@,
            ),
        },
{
    let fields = split_on(line, ' ');
    proof {
        lemma_split_len(line@, ' ');
        let args = arguments(split(line@, ' '));
        assert(fields.deep_view().skip(1) =~= args);
        if args.len() > 1 {
            assert(fields.deep_view().skip(2) =~= args.drop_first());
        }
    }
    if fields.len() == 1 {
        return Err(CommandError::NoAssignee);
    }
    if fields.len() == 2 {
        return Err(CommandError::NoIssuesToAssign);
    }
    let issues = get_issue_keys(&fields, 2)?;
    Ok(Assignment { assignee: fields[1].clone(), issues })
}

} // verus!
