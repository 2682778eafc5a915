//! The command words of the interactive menu and their parser.

use vstd::prelude::*;
use vstd::string::StrSliceExecFns;

verus! {

/// A command typed at the interactive prompt. Unrecognized input maps to
/// `Empty`.
#[derive(Clone, Copy, Debug, PartialEq, Eq, Structural)]
pub enum Command {
    Add,
    List,
    Done,
    Undone,
    Delete,
    Menu,
    Exit,
    Empty,
}

/// What `parse_command` returns for a given (already normalized) input line.
pub open spec fn spec_parse_command(s: Seq<char>) -> Command {
    if s == "add"@ {
        Command::Add
    } else if s == "list"@ {
        Command::List
    } else if s == "done"@ {
        Command::Done
    } else if s == "undone"@ {
        Command::Undone
    } else if s == "delete"@ {
        Command::Delete
    } else if s == "menu"@ {
        Command::Menu
    } else if s == "exit"@ {
        Command::Exit
    } else {
        Command::Empty
    }
}

/// Compares two string slices character by character.
pub fn str_eq(a: &str, b: &str) -> (r: bool)
    ensures
        r == (a@ == b@),
{
    let an = a.unicode_len();
    let bn = b.unicode_len();
    if an != bn {
        assert(a@ != b@) by {
            assert(a@.len() != b@.len());
        }
        return false;
    }
    let mut i: usize = 0;
    while i < an
        invariant
            an == a@.len(),
            bn == b@.len(),
            an == bn,
            i <= an,
            forall|k: int| 0 <= k < i ==> a@[k] == b@[k],
        decreases an - i,
    {
        if a.get_char(i) != b.get_char(i) {
            return false;
        }
        i += 1;
    }
    assert(a@ =~= b@);
    true
}

/// Maps a trimmed, lowercased input line to its command; anything outside the
/// fixed table is `Empty`.
pub fn parse_command(input: &str) -> (r: Command)
    ensures
        r == spec_parse_command(input@),
{
    if str_eq(input, "add") {
        Command::Add
    } else if str_eq(input, "list") {
        Command::List
    } else if str_eq(input, "done") {
        Command::Done
    } else if str_eq(input, "undone") {
        Command::Undone
    } else if str_eq(input, "delete") {
        Command::Delete
    } else if str_eq(input, "menu") {
        Command::Menu
    } else if str_eq(input, "exit") {
        Command::Exit
    } else {
        Command::Empty
    }
}

} // verus!
