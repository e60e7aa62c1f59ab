//! The command dispatcher: maps the first token of a line to the builtin it
//! names, to the exit directive, to a silent no-op for an empty line, or to
//! an unknown-command diagnostic.
use vstd::prelude::*;

use crate::text::str_eq;

verus! {

/// The builtins a command name can resolve to.
#[derive(Clone, Copy, Debug, PartialEq, Eq, Structural)]
pub enum Builtin {
    Echo,
    Cd,
    Ls,
    Pwd,
    Cat,
    Cp,
    Rm,
    Mv,
    Mkdir,
}

/// What one read-evaluate cycle does with a command name.
#[derive(Clone, Copy, Debug, PartialEq, Eq, Structural)]
pub enum Action {
    /// Empty input: no action, the loop prompts again.
    Nothing,
    /// The exit directive: the loop terminates.
    Quit,
    /// A known builtin, to be invoked with the argument tokens.
    Run(Builtin),
    /// An unrecognized name: print the not-found diagnostic and prompt again.
    Unknown,
}

/// The action a command name maps to.
pub open spec fn action_of(name: Seq<char>) -> Action {
    if name.len() == 0 {
        Action::Nothing
    } else if name == "exit"@ {
        Action::Quit
    } else if name == "echo"@ {
        Action::Run(Builtin::Echo)
    } else if name == "cd"@ {
        Action::Run(Builtin::Cd)
    } else if name == "ls"@ {
        Action::Run(Builtin::Ls)
    } else if name == "pwd"@ {
        Action::Run(Builtin::Pwd)
    } else if name == "cat"@ {
        Action::Run(Builtin::Cat)
    } else if name == "cp"@ {
        Action::Run(Builtin::Cp)
    } else if name == "rm"@ {
        Action::Run(Builtin::Rm)
    } else if name == "mv"@ {
        Action::Run(Builtin::Mv)
    } else if name == "mkdir"@ {
        Action::Run(Builtin::Mkdir)
    } else {
        Action::Unknown
    }
}

/// Resolves a command name to its action. An empty name does nothing, `exit`
/// ends the loop, every other unknown name leaves the loop running.
pub fn dispatch(name: &str) -> (r: Action)
    ensures
        r == action_of(name@),
{
    if name.is_empty() {
        Action::Nothing
    } else if str_eq(name, "exit") {
        Action::Quit
    } else if str_eq(name, "echo") {
        Action::Run(Builtin::Echo)
    } else if str_eq(name, "cd") {
        Action::Run(Builtin::Cd)
    } else if str_eq(name, "ls") {
        Action::Run(Builtin::Ls)
    } else if str_eq(name, "pwd") {
        Action::Run(Builtin::Pwd)
    } else if str_eq(name, "cat") {
        Action::Run(Builtin::Cat)
    } else if str_eq(name, "cp") {
        Action::Run(Builtin::Cp)
    } else if str_eq(name, "rm") {
        Action::Run(Builtin::Rm)
    } else if str_eq(name, "mv") {
        Action::Run(Builtin::Mv)
    } else if str_eq(name, "mkdir") {
        Action::Run(Builtin::Mkdir)
    } else {
        Action::Unknown
    }
}

/// An empty input line produces no tokens at all, and an empty command name
/// maps to no action: such a cycle performs nothing and alters no state.
pub proof fn lemma_empty_line_is_no_op(s: Seq<char>)
    ensures
        s.len() == 0 ==> crate::tokenizer::tokens_of(s).len() == 0,
        action_of(Seq::<char>::empty()) == Action::Nothing,
{
    crate::tokenizer::lemma_tokens_nonempty(s);
}

/// The diagnostic printed for an unknown command name.
pub fn not_found_message(name: &str) -> (r: String)
    ensures
        r@ == "Command '"@ + name@ + "' not found."@,
{
    let mut s = String::from_str("Command '");
    s.append(name);
    s.append("' not found.");
    s
}

/// The prompt printed before each read: the current directory, colored, then
/// a dollar sign and a space.
pub fn prompt_string(path: &str) -> (r: String)
    ensures
        r@ == "\u{1b}[36m"@ + path@ + "\u{1b}[0m$ "@,
{
    let mut s = String::from_str("\u{1b}[36m");
    s.append(path);
    s.append("\u{1b}[0m$ ");
    s
}

} // verus!
