//! Encounter tracker: a verified roster of combat participants driven by a
//! small textual command language.
//!
//! The roster model ([`game::Game`]) holds entities with a team, accumulated
//! damage and timed status effects; the command interpreter
//! ([`game::Game::process_command`]) tokenizes one line of text, resolves
//! verb abbreviations, validates arguments and applies the matching roster
//! operation. Saving and loading go through a flat `name|team` text format;
//! the file system itself is left to the caller.
pub mod command;
pub mod entity;
pub mod game;
pub mod laws;
pub mod team;
pub mod text;

use vstd::prelude::*;

verus! {

/// Everything a command can fail with. Reading or writing the file a save
/// name refers to is the caller's business, so file-system failures do not
/// appear here.
#[derive(Debug, Copy, Clone, PartialEq, Eq, Structural)]
pub enum CmdError {
    /// The line held fewer arguments than its verb requires.
    MissingArguments,
    /// The verb is not one of the known commands.
    UnknownCommand,
    /// `add_entity` saw a name already present, ignoring ASCII case.
    DuplicateEntity,
    /// An amount or length did not read as a 16-bit decimal number.
    InvalidNumber,
    /// A loaded save held a line without exactly one `|`.
    InvalidSaveFormat,
}

impl CmdError {
    /// A short human-readable description, displayed verbatim by callers.
    pub fn message(&self) -> (r: String)
        ensures
            r@ == spec_error_message(*self),
    {
        match self {
            CmdError::MissingArguments => String::from_str("Not enough arguments"),
            CmdError::UnknownCommand => String::from_str(
                "Unrecognized command use help to list commands",
            ),
            CmdError::DuplicateEntity => String::from_str("This entity already exists"),
            CmdError::InvalidNumber => String::from_str("Invalid number"),
            CmdError::InvalidSaveFormat => String::from_str("Invalid save file"),
        }
    }
}

/// The description text of each error.
pub open spec fn spec_error_message(e: CmdError) -> Seq<char> {
    match e {
        CmdError::MissingArguments => "Not enough arguments"@,
        CmdError::UnknownCommand => "Unrecognized command use help to list commands"@,
        CmdError::DuplicateEntity => "This entity already exists"@,
        CmdError::InvalidNumber => "Invalid number"@,
        CmdError::InvalidSaveFormat => "Invalid save file"@,
    }
}

} // verus!
