//! The loop of the shell, one turn at a time: read a line, then stop or
//! dispatch it.

use crate::commands_processor::{CommandProcessor, Dispatch};
use crate::order::str_eq;
use vstd::prelude::*;

verus! {

/// What a turn of the loop comes to.
pub enum Turn<'a, H> {
    /// The loop ends.
    Stop,
    /// The line goes into the history, this is done for it, and the loop
    /// reads on.
    Dispatch(Dispatch<'a, H>),
}

/// Whether `line` asks to leave the shell: it is `q` or `quit`, and
/// nothing else.
pub open spec fn is_quit(line: Seq<char>) -> bool {
    line == "q"@ || line == "quit"@
}

/// Decides what to do after reading `input`: a line, or `None` where the
/// input has ended, was interrupted or could not be read. The loop stops
/// at the end of the input and at a line that asks to leave; every other
/// line is dispatched to `processor`.
pub fn turn<'a, H>(processor: &'a CommandProcessor<H>, input: Option<&str>) -> (r: Turn<'a, H>)
    ensures
        match input {
            None => r is Stop,
            Some(line) => if is_quit(line@) {
                r is Stop
            } else {
                r matches Turn::Dispatch(dispatch) && processor.calls_for(line@, dispatch)
            },
        },
{
    match input {
        None => Turn::Stop,
        Some(line) => if str_eq(line, "q") || str_eq(line, "quit") {
            Turn::Stop
        } else {
            Turn::Dispatch(processor.process(line))
        },
    }
}

} // verus!
