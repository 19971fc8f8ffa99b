//! The operation of a run, and the argument that selects it.

use vstd::prelude::*;
use crate::text::text_eq;

verus! {

/// What a run does with every manifest.
#[derive(Debug, Clone, Copy, PartialEq, Eq, Structural)]
pub enum K8sCommand {
    Apply,
    Delete,
}

/// The texts of a list of arguments.
pub open spec fn arg_texts(args: Seq<String>) -> Seq<Seq<char>> {
    args.map_values(|arg: String| arg@)
}

/// The operation that a list of arguments selects: deletion where the
/// argument after the program's name is the deletion flag, else application.
pub open spec fn selected_command(args: Seq<Seq<char>>) -> K8sCommand {
    if args.len() > 1 && args[1] == "--delete"@ {
        K8sCommand::Delete
    } else {
        K8sCommand::Apply
    }
}

impl K8sCommand {
    /// The operation's name as the messages show it.
    pub open spec fn name_text(self) -> Seq<char> {
        match self {
            K8sCommand::Apply => "Apply"@,
            K8sCommand::Delete => "Delete"@,
        }
    }

    /// The verb that the cluster tool is given.
    pub open spec fn verb_text(self) -> Seq<char> {
        match self {
            K8sCommand::Apply => "apply"@,
            K8sCommand::Delete => "delete"@,
        }
    }

    /// Reads the operation from the process's arguments, the program's name
    /// first. Anything but the deletion flag in second place selects
    /// application; later arguments are not looked at.
    pub fn from_args(args: &Vec<String>) -> (command: K8sCommand)
        ensures
            command == selected_command(arg_texts(args@)),
    {
        if args.len() > 1 && text_eq(args[1].as_str(), "--delete") {
            K8sCommand::Delete
        } else {
            K8sCommand::Apply
        }
    }

    /// The operation's name as the messages show it.
    pub fn name(&self) -> (name: String)
        ensures
            name@ == self.name_text(),
    {
        match self {
            K8sCommand::Apply => String::from_str("Apply"),
            K8sCommand::Delete => String::from_str("Delete"),
        }
    }

    /// The verb that the cluster tool is given: the name in lower case.
    pub fn verb(&self) -> (verb: String)
        ensures
            verb@ == self.verb_text(),
    {
        match self {
            K8sCommand::Apply => String::from_str("apply"),
            K8sCommand::Delete => String::from_str("delete"),
        }
    }
}

/// The lower-case form of a letter of the Latin alphabet; any other
/// character itself.
pub open spec fn ascii_lower(c: char) -> char {
    if 'A' <= c && c <= 'Z' {
        ((c as u8) + 32) as char
    } else {
        c
    }
}

/// The verb of an operation is its name in lower case.
pub proof fn lemma_verb_is_lower_case_name(command: K8sCommand)
    ensures
        command.verb_text() == command.name_text().map_values(|c: char| ascii_lower(c)),
{
    reveal_strlit("Apply");
    reveal_strlit("apply");
    reveal_strlit("Delete");
    reveal_strlit("delete");
    assert(command.verb_text() =~= command.name_text().map_values(|c: char| ascii_lower(c)));
}

} // verus!
