//! The command that chooses the current sprint.

use crate::command::{CommandError, CommandErrorView};
use crate::commands::arguments;
use crate::decimal::{parse_u64, parsed_up_to};
use crate::jsprint::JSprint;
use crate::tokens::{lemma_split_len, split, split_on};
use crate::tracker::Sprint;
use vstd::prelude::*;

verus! {

/// Which sprint to make the current one.
#[derive(Clone, Copy, Debug, PartialEq, Eq, Structural)]
pub enum Selection {
    /// The sprint that is active on the board.
    Active,
    /// The sprint with this identifier.
    ById(u64),
}

/// The sprint that the command line `line` asks for. The arguments are the
/// fields of the line after the first, between single spaces. Without
/// argument it is the active sprint; with one, the sprint whose identifier
/// the argument is. More than one argument is reported, and so is one that
/// is no number of 64 bits.
pub open spec fn requested_sprint(line: Seq<char>) -> Result<Selection, CommandErrorView> {
    let args = arguments(split(line, ' '));
    if args.len() == 0 {
        Ok(Selection::Active)
    } else if args.len() > 1 {
        Err(CommandErrorView::TooManySprintIds)
    } else {
        match parsed_up_to(args[0], u64::MAX as nat) {
            Some(id) => Ok(Selection::ById(id as u64)),
            None => Err(CommandErrorView::NotASprintId(args[0])),
        }
    }
}

/// The current sprint after the tracker has answered a selection with
/// `found`, where it was `current` before. The active sprint becomes the
/// current one even where there is none; a sprint asked for by its
/// identifier becomes the current one if the tracker has it.
pub open spec fn selected<S>(selection: Selection, found: Option<S>, current: Option<S>) -> Option<S> {
    match selection {
        Selection::Active => found,
        Selection::ById(_) => if found is Some {
            found
        } else {
            current
        },
    }
}

/// Reads the command line `line` as a choice of the current sprint.
pub fn command(line: &str) -> (r: Result<Selection, CommandError>)
    ensures
        match r {
            Ok(selection) => requested_sprint(line@) == Ok::<Selection, CommandErrorView>(selection),
            Err(why) => requested_sprint(line@) == Err::<Selection, CommandErrorView>(why@),
        },
{
    let fields = split_on(line, ' ');
    proof {
        lemma_split_len(line@, ' ');
        assert(fields.deep_view().skip(1) =~= arguments(split(line@, ' ')));
    }
    if fields.len() == 1 {
        return Ok(Selection::Active);
    }
    if fields.len() > 2 {
        return Err(CommandError::TooManySprintIds);
    }
    match parse_u64(fields[1].as_str()) {
        Some(id) => Ok(Selection::ById(id)),
        None => Err(CommandError::NotASprintId(fields[1].clone())),
    }
}

/// Makes `found`, the tracker's answer to `selection`, the current sprint
/// of the session. Where the tracker has no sprint with the identifier
/// asked for, the session is left as it is and that is reported.
pub fn select(jsprint: &mut JSprint, selection: Selection, found: Option<Sprint>) -> (r: Result<
    (),
    CommandError,
>)
    ensures
        final(jsprint).settings == old(jsprint).settings,
        final(jsprint).current_sprint == selected(selection, found, old(jsprint).current_sprint),
        match r {
            Ok(_) => selection is Active || found is Some,
            Err(why) => selection matches Selection::ById(id) && found is None && why
                == CommandError::UnknownSprint(id),
        },
{
    match selection {
        Selection::Active => {
            jsprint.current_sprint = found;
            Ok(())
        },
        Selection::ById(id) => match found {
            Some(sprint) => {
                jsprint.current_sprint = Some(sprint);
                Ok(())
            },
            None => Err(CommandError::UnknownSprint(id)),
        },
    }
}

} // verus!
