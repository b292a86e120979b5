//! The registry of commands: which handler a command line is for.

use crate::order::str_eq;
use crate::ordered_map::{ascending, OrderedMap};
use crate::tokens::{split_words, words};
use vstd::prelude::*;

verus! {

/// The commands of a shell, each a handler of type `H` under its name.
pub struct CommandProcessor<H> {
    commands: OrderedMap<H>,
}

/// What a command line calls for.
pub enum Dispatch<'a, H> {
    /// Nothing: the line holds no word.
    Nothing,
    /// The list of the commands' names, in ascending order.
    Help(Vec<String>),
    /// Running this handler on the line.
    Run(&'a H),
    /// The report that no command has this name.
    Unknown(String),
}

/// The name of the command that `line` calls: its first word.
pub open spec fn command_name(line: Seq<char>) -> Option<Seq<char>> {
    if words(line).len() > 0 {
        Some(words(line)[0])
    } else {
        None
    }
}

/// Whether `name` asks for the list of commands.
pub open spec fn is_help(name: Seq<char>) -> bool {
    name == "h"@ || name == "help"@
}

/// Of two handlers registered under one name the second stays: the
/// registry is as if the first had never been registered.
pub proof fn lemma_last_registration_stays<H>(
    registry: Map<Seq<char>, H>,
    name: Seq<char>,
    first: H,
    second: H,
)
    ensures
        registry.insert(name, first).insert(name, second) == registry.insert(name, second),
        registry.insert(name, first).insert(name, second)[name] == second,
{
    assert(registry.insert(name, first).insert(name, second) =~= registry.insert(name, second));
}

/// A registration leaves the handlers under other names as they are, and
/// a name under which nothing was registered has no handler.
pub proof fn lemma_registration_is_local<H>(
    registry: Map<Seq<char>, H>,
    name: Seq<char>,
    command: H,
    other: Seq<char>,
)
    requires
        other != name,
    ensures
        registry.insert(name, command).contains_key(other) == registry.contains_key(other),
        registry.contains_key(other) ==> registry.insert(name, command)[other] == registry[other],
        !Map::<Seq<char>, H>::empty().contains_key(other),
{
}

impl<H> CommandProcessor<H> {
    /// The handlers, each under its command's name.
    pub closed spec fn view(&self) -> Map<Seq<char>, H> {
        self.commands@
    }

    /// The names of the commands, in ascending order.
    pub closed spec fn names(&self) -> Seq<Seq<char>> {
        self.commands.ordered_keys()
    }

    /// A registry without commands.
    pub fn new() -> (r: Self)
        ensures
            r@ == Map::<Seq<char>, H>::empty(),
    {
        CommandProcessor { commands: OrderedMap::new() }
    }

    /// Puts `command` under the name `cmd`, in place of any handler that
    /// was there.
    pub fn register_command(&mut self, cmd: &str, command: H)
        ensures
            final(self)@ == old(self)@.insert(cmd@, command),
    {
        self.commands.insert(cmd.to_owned(), command);
    }

    /// The handler under the name `cmd`, if there is one.
    pub fn get_command(&self, cmd: &str) -> (r: Option<&H>)
        ensures
            match r {
                Some(command) => self@.contains_key(cmd@) && *command == self@[cmd@],
                None => !self@.contains_key(cmd@),
            },
    {
        self.commands.get(cmd)
    }

    /// The names of the commands, in ascending order.
    pub fn help(&self) -> (r: Vec<String>)
        ensures
            r.deep_view() == self.names(),
            ascending(r.deep_view()),
            r.deep_view().to_set() == self@.dom(),
    {
        self.commands.keys()
    }

    /// Whether `dispatch` is what the command line `line` calls for. The
    /// first word of the line is the command's name. A line without a word
    /// calls for nothing; `h` and `help` call for the list of commands,
    /// whatever is registered under them; the name of a registered command
    /// calls for its handler; any other name is reported.
    pub open spec fn calls_for(&self, line: Seq<char>, dispatch: Dispatch<'_, H>) -> bool {
        match command_name(line) {
            None => dispatch is Nothing,
            Some(name) => if is_help(name) {
                &&& dispatch matches Dispatch::Help(names)
                &&& names.deep_view() == self.names()
                &&& ascending(names.deep_view())
                &&& names.deep_view().to_set() == self@.dom()
            } else if self@.contains_key(name) {
                dispatch matches Dispatch::Run(command) && *command == self@[name]
            } else {
                dispatch matches Dispatch::Unknown(text) && text@ == name
            },
        }
    }

    /// Decides what the command line `line` calls for.
    pub fn process(&self, line: &str) -> (r: Dispatch<'_, H>)
        ensures
            self.calls_for(line@, r),
    {
        let mut tokens = split_words(line);
        if tokens.len() == 0 {
            return Dispatch::Nothing;
        }
        let name = tokens.swap_remove(0);
        if str_eq(name.as_str(), "h") || str_eq(name.as_str(), "help") {
            return Dispatch::Help(self.help());
        }
        match self.get_command(name.as_str()) {
            Some(command) => Dispatch::Run(command),
            None => Dispatch::Unknown(name),
        }
    }
}

} // verus!
