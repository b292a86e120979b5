//! The command that moves issues into the current sprint.

use crate::command::{CommandError, CommandErrorView};
use crate::commands::{arguments, get_issue_keys, issue_keys};
use crate::jsprint::JSprint;
use crate::tokens::{split, split_on};
use crate::tracker::SprintView;
use vstd::prelude::*;

verus! {

/// Issues to move into a sprint.
#[derive(Clone, Debug, PartialEq, Eq)]
pub struct Move {
    pub sprint_id: u64,
    /// The keys of the issues.
    pub issues: Vec<String>,
}

/// A move as a mathematical value.
pub struct MoveView {
    pub sprint_id: u64,
    pub issues: Seq<Seq<char>>,
}

impl View for Move {
    type V = MoveView;

    open spec fn view(&self) -> MoveView {
        MoveView { sprint_id: self.sprint_id, issues: self.issues.deep_view() }
    }
}

/// What the command line `line` asks to move, with `current` the current
/// sprint. The arguments are the fields of the line after the first,
/// between single spaces, and each is an issue number. The first that is
/// none is reported; then that there is no argument; then that there is no
/// current sprint.
pub open spec fn requested_move(current: Option<SprintView>, line: Seq<char>) -> Result<
    MoveView,
    CommandErrorView,
> {
    match issue_keys(arguments(split(line, ' '))) {
        Ok(keys) => if keys.len() == 0 {
            Err(CommandErrorView::NoIssueNumbers)
        } else {
            match current {
                Some(sprint) => Ok(MoveView { sprint_id: sprint.id, issues: keys }),
                None => Err(CommandErrorView::NoCurrentSprint),
            }
        },
        Err(why) => Err(why),
    }
}

/// Reads the command line `line` as a request to move issues into the
/// current sprint.
pub fn command(jsprint: &JSprint, line: &str) -> (r: Result<Move, CommandError>)
    ensures
        match r {
            Ok(request) => requested_move(jsprint.current_sprint.deep_view(), line@) == Ok::<
                MoveView,
                CommandErrorView,
            >(request@),
            Err(why) => requested_move(jsprint.current_sprint.deep_view(), line@) == Err::<
                MoveView,
                CommandErrorView,
            >(why@),
        },
{
    let fields = split_on(line, ' ');
    proof {
        crate::tokens::lemma_split_len(line@, ' ');
        assert(fields.deep_view().skip(1) =~= arguments(split(line@, ' ')));
    }
    let issues = get_issue_keys(&fields, 1)?;
    if issues.len() == 0 {
        return Err(CommandError::NoIssueNumbers);
    }
    match &jsprint.current_sprint {
        Some(sprint) => Ok(Move { sprint_id: sprint.id, issues }),
        None => Err(CommandError::NoCurrentSprint),
    }
}

} // verus!
