//! The failures that commands report: bad user input, each with the
//! message the user sees.
use vstd::prelude::*;

verus! {

/// A validation or input failure of one of the commands.
#[derive(Debug, Clone, Copy, PartialEq, Eq, Structural)]
pub enum TaskError {
    /// The task name is empty.
    EmptyName,
    /// The task name is over 200 characters.
    NameTooLong,
    /// The tag name is empty.
    EmptyTag,
    /// A deadline string matches none of the accepted date formats.
    InvalidDate,
    /// No ids were given to the remove command.
    NoIds,
    /// None of the given id strings is a number.
    NoValidIds,
}

/// The message that each error carries to the user.
pub open spec fn spec_error_message(e: TaskError) -> Seq<char> {
    match e {
        TaskError::EmptyName => "Task name cannot be empty"@,
        TaskError::NameTooLong => "Task name too long (max 200 characters)"@,
        TaskError::EmptyTag => "Tag name cannot be empty"@,
        TaskError::InvalidDate => "Invalid date format. Use DD.MM.YYYY, YYYY-MM-DD, or DD/MM/YYYY"@,
        TaskError::NoIds => "No IDs provided"@,
        TaskError::NoValidIds => "No valid numeric IDs provided"@,
    }
}

impl TaskError {
    /// The human-readable message for this error.
    pub fn message(&self) -> (r: String)
        ensures
            r@ == spec_error_message(*self),
    {
        match self {
            TaskError::EmptyName => String::from_str("Task name cannot be empty"),
            TaskError::NameTooLong => String::from_str("Task name too long (max 200 characters)"),
            TaskError::EmptyTag => String::from_str("Tag name cannot be empty"),
            TaskError::InvalidDate => String::from_str(
                "Invalid date format. Use DD.MM.YYYY, YYYY-MM-DD, or DD/MM/YYYY",
            ),
            TaskError::NoIds => String::from_str("No IDs provided"),
            TaskError::NoValidIds => String::from_str("No valid numeric IDs provided"),
        }
    }
}

} // verus!
