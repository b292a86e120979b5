//! Why a command does nothing.

use vstd::prelude::*;

verus! {

/// Why a command was not carried out. The session goes on after each of
/// these.
#[derive(Clone, Debug, PartialEq, Eq)]
pub enum CommandError {
    /// The session has no current sprint.
    NoCurrentSprint,
    /// The command takes issue numbers and got none.
    NoIssueNumbers,
    /// The command takes an assignee and issue numbers and got neither.
    NoAssignee,
    /// The command got an assignee and no issue number to assign.
    NoIssuesToAssign,
    /// This argument stands where an issue number belongs and is none.
    NotAnIssueNumber(String),
    /// The command takes one sprint identifier and got more arguments.
    TooManySprintIds,
    /// This argument stands where a sprint identifier belongs and is none.
    NotASprintId(String),
    /// The tracker has no sprint with this identifier.
    UnknownSprint(u64),
}

/// A reason as a mathematical value.
pub enum CommandErrorView {
    NoCurrentSprint,
    NoIssueNumbers,
    NoAssignee,
    NoIssuesToAssign,
    NotAnIssueNumber(Seq<char>),
    TooManySprintIds,
    NotASprintId(Seq<char>),
    UnknownSprint(u64),
}

impl View for CommandError {
    type V = CommandErrorView;

    open spec fn view(&self) -> CommandErrorView {
        match self {
            CommandError::NoCurrentSprint => CommandErrorView::NoCurrentSprint,
            CommandError::NoIssueNumbers => CommandErrorView::NoIssueNumbers,
            CommandError::NoAssignee => CommandErrorView::NoAssignee,
            CommandError::NoIssuesToAssign => CommandErrorView::NoIssuesToAssign,
            CommandError::NotAnIssueNumber(text) => CommandErrorView::NotAnIssueNumber(text@),
            CommandError::TooManySprintIds => CommandErrorView::TooManySprintIds,
            CommandError::NotASprintId(text) => CommandErrorView::NotASprintId(text@),
            CommandError::UnknownSprint(id) => CommandErrorView::UnknownSprint(*id),
        }
    }
}

} // verus!
