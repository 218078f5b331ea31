//! The scopes whose `PATH` is cleaned, and the operator's choice among them.
use vstd::prelude::*;
use crate::text::same_text;

verus! {

/// A scope of environment variables.
#[derive(PartialEq, Eq, Structural, Clone, Copy, Debug)]
pub enum Mode {
    /// The current user's variables.
    User,
    /// The machine-wide variables; writing them needs elevation.
    System,
}

/// The scopes cleaned for a choice of the scope menu, in the order in which
/// they are cleaned, or `None` for a choice that the menu does not offer.
pub open spec fn scopes_of(choice: Seq<char>) -> Option<Seq<Mode>> {
    if choice == "user"@ {
        Some(seq![Mode::User])
    } else if choice == "system"@ {
        Some(seq![Mode::System])
    } else if choice == "both"@ {
        Some(seq![Mode::User, Mode::System])
    } else {
        None
    }
}

/// The scopes to clean for the menu choice `choice` ("user", "system" or
/// "both"); "both" cleans the user scope, then the system scope.
pub fn scopes_for(choice: &str) -> (r: Option<Vec<Mode>>)
    ensures
        r is Some <==> scopes_of(choice@) is Some,
        r is Some ==> r->0@ == scopes_of(choice@)->0,
{
    if same_text(choice, "user") {
        Some(vec![Mode::User])
    } else if same_text(choice, "system") {
        Some(vec![Mode::System])
    } else if same_text(choice, "both") {
        Some(vec![Mode::User, Mode::System])
    } else {
        None
    }
}

impl Mode {
    /// The registry key, under the scope's root, that holds its variables.
    pub fn subkey(&self) -> (r: &'static str)
        ensures
            *self == Mode::User ==> r@ == "Environment"@,
            *self == Mode::System ==> r@
                == "SYSTEM\\CurrentControlSet\\Control\\Session Manager\\Environment"@,
    {
        match self {
            Mode::User => "Environment",
            Mode::System => "SYSTEM\\CurrentControlSet\\Control\\Session Manager\\Environment",
        }
    }

    /// The name of the scope's removal report in the scratch directory.
    pub fn report_file_name(&self) -> (r: &'static str)
        ensures
            *self == Mode::User ==> r@ == "removed_paths_User.txt"@,
            *self == Mode::System ==> r@ == "removed_paths_System.txt"@,
    {
        match self {
            Mode::User => "removed_paths_User.txt",
            Mode::System => "removed_paths_System.txt",
        }
    }
}

} // verus!
