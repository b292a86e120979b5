//! The commands of the shell. Each module holds what one command decides;
//! carrying the decision out against the tracker, and printing, is left to
//! the caller.

pub mod add_to_sprint;
pub mod assign;
pub mod backlog;
pub mod labels_count;
pub mod report;
pub mod reviews;
pub mod sprint;
pub mod sprints;
pub mod use_sprint;

use crate::command::{CommandError, CommandErrorView};
use crate::decimal::{decimal, parse_u32, parsed_up_to, u64_to_string};
use crate::tokens::{lemma_run_len_is, run_len};
use vstd::prelude::*;

verus! {

/// The key of the issue whose number `text` is: the project's prefix, a
/// hyphen and the number in decimal. `None` where `text` is no number that
/// fits 32 bits.
pub open spec fn issue_key(text: Seq<char>) -> Option<Seq<char>> {
    match parsed_up_to(text, u32::MAX as nat) {
        Some(number) => Some("BIDEV-"@ + decimal(number)),
        None => None,
    }
}

/// The test for not being an issue number.
pub open spec fn is_no_issue_number() -> spec_fn(Seq<char>) -> bool {
    |text: Seq<char>| issue_key(text) is None
}

/// The keys of the issues whose numbers `args` are, or the first of `args`
/// that is no issue number.
pub open spec fn issue_keys(args: Seq<Seq<char>>) -> Result<Seq<Seq<char>>, CommandErrorView> {
    let bad = run_len(args, is_no_issue_number());
    if bad < args.len() {
        Err(CommandErrorView::NotAnIssueNumber(args[bad as int]))
    } else {
        Ok(Seq::new(args.len(), |i: int| issue_key(args[i]).unwrap()))
    }
}

/// What follows the first of `tokens`: the arguments after a command's
/// name.
pub open spec fn arguments(tokens: Seq<Seq<char>>) -> Seq<Seq<char>> {
    if tokens.len() > 0 {
        tokens.drop_first()
    } else {
        tokens
    }
}

/// The key of the issue with the number that `issue_str` holds.
pub fn get_issue_key_from_number(issue_str: &str) -> (r: Result<String, &'static str>)
    ensures
        match r {
            Ok(key) => issue_key(issue_str@) == Some(key@),
            Err(why) => issue_key(issue_str@) is None && why@ == "Issue number is not a number"@,
        },
{
    match parse_u32(issue_str) {
        Some(issue) => {
            let mut key = "BIDEV-".to_owned();
            key.append(u64_to_string(issue as u64).as_str());
            Ok(key)
        },
        None => Err("Issue number is not a number"),
    }
}

/// The keys of the issues whose numbers the strings of `tokens` after the
/// first `from` are.
pub fn get_issue_keys(tokens: &Vec<String>, from: usize) -> (r: Result<Vec<String>, CommandError>)
    requires
        from <= tokens.len(),
    ensures
        match r {
            Ok(keys) => issue_keys(tokens.deep_view().skip(from as int)) == Ok::<
                Seq<Seq<char>>,
                CommandErrorView,
            >(keys.deep_view()),
            Err(why) => issue_keys(tokens.deep_view().skip(from as int)) == Err::<
                Seq<Seq<char>>,
                CommandErrorView,
            >(why@),
        },
{
    let ghost args = tokens.deep_view().skip(from as int);
    let mut keys: Vec<String> = Vec::new();
    let mut i: usize = from;
    while i < tokens.len()
        invariant
            from <= i <= tokens.len(),
            args == tokens.deep_view().skip(from as int),
            keys.len() == i - from,
            forall|j: int| 0 <= j < i - from ==> issue_key(args[j]) == Some(#[trigger] keys@[j]@),
        decreases tokens.len() - i,
    {
        assert(args[i - from] == tokens@[i as int]@);
        match get_issue_key_from_number(tokens[i].as_str()) {
            Ok(key) => {
                keys.push(key);
            },
            Err(_) => {
                proof {
                    assert forall|j: int| 0 <= j < i - from implies !is_no_issue_number()(
                        args[j],
                    ) by {
                        assert(issue_key(args[j]) == Some(keys@[j]@));
                    }
                    lemma_run_len_is(args, is_no_issue_number(), i - from);
                }
                return Err(CommandError::NotAnIssueNumber(tokens[i].clone()));
            },
        }
        i += 1;
    }
    proof {
        assert forall|j: int| 0 <= j < args.len() implies !is_no_issue_number()(args[j]) by {
            assert(issue_key(args[j]) == Some(keys@[j]@));
        }
        lemma_run_len_is(args, is_no_issue_number(), args.len() as int);
        assert(keys.deep_view() =~= Seq::new(args.len(), |i: int| issue_key(args[i]).unwrap()));
    }
    Ok(keys)
}

} // verus!
