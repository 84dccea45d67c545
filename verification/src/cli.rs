//! The shape of a command line.

use vstd::prelude::*;
use vstd::string::StringExecFns;

verus! {

/// What the program is asked to do.
#[derive(Clone, Copy, Debug, PartialEq, Eq, Structural)]
pub enum Action {
    /// Trim the silences of a WAV file.
    Cut,
    /// Convert an MP3 file into a looped WAV file.
    Convert,
}

/// A well-formed command line: an action, the file to read and the file to
/// write.
#[derive(Debug)]
pub struct Invocation {
    /// What to do.
    pub action: Action,
    /// The file to read.
    pub input_file: String,
    /// The file to write.
    pub output_file: String,
}

/// The action that a word on the command line names, if it names one.
pub open spec fn action_named(word: Seq<char>) -> Option<Action> {
    if word == "cut"@ {
        Some(Action::Cut)
    } else if word == "convert"@ {
        Some(Action::Convert)
    } else {
        None
    }
}

/// Reads an action name: `cut` or `convert`, and nothing else.
pub fn parse_action(word: &String) -> (action: Option<Action>)
    ensures
        action == action_named(word@),
{
    if *word == String::from_str("cut") {
        Some(Action::Cut)
    } else if *word == String::from_str("convert") {
        Some(Action::Convert)
    } else {
        None
    }
}

/// Reads a whole command line, program name first. It is well formed when
/// exactly three arguments follow the program name and the first of them
/// names an action; the other two are the input and the output file.
pub fn parse_args(args: &Vec<String>) -> (invocation: Option<Invocation>)
    ensures
        match invocation {
            Some(found) => {
                &&& args@.len() == 4
                &&& action_named(args@[1]@) == Some(found.action)
                &&& found.input_file@ == args@[2]@
                &&& found.output_file@ == args@[3]@
            },
            None => args@.len() != 4 || action_named(args@[1]@) is None,
        },
{
    if args.len() != 4 {
        return None;
    }
    match parse_action(&args[1]) {
        None => None,
        Some(action) => Some(
            Invocation { action, input_file: args[2].clone(), output_file: args[3].clone() },
        ),
    }
}

} // verus!
