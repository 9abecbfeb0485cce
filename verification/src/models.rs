//! The two record types: a task and a tag, with their validation rules.
use vstd::prelude::*;

use crate::date::Date;
use crate::errors::TaskError;

verus! {

/// A task: a unique positive id, a name of 1 to 200 characters, a
/// free-form category tag, an optional deadline, and a completion flag.
#[derive(Debug, Clone, PartialEq, Eq)]
pub struct Task {
    /// Unique identifier among the active tasks (recycled after clearing).
    pub id: u32,
    /// Task name (1 to 200 characters).
    pub name: String,
    /// Tag for categorization; the empty tag is listed as "Untagged".
    pub tag: String,
    /// Optional deadline (a calendar date, no time component).
    pub deadline: Option<Date>,
    /// Soft-delete flag: set by remove, acted on by clear.
    pub completed: bool,
}

/// A tag: a non-empty name, unique within the tag collection.
#[derive(Debug, Clone, PartialEq, Eq)]
pub struct Tag {
    /// Tag name (unique identifier).
    pub name: String,
}

/// The rule a task must satisfy: non-empty name of at most 200
/// characters, a non-empty tag, and a deadline that exists in the
/// calendar when one is present.
pub open spec fn spec_task_valid(t: Task) -> bool {
    &&& 1 <= t.name@.len() <= 200
    &&& t.tag@.len() >= 1
    &&& match t.deadline {
        Some(d) => d.wf(),
        None => true,
    }
}

/// Whether a task's deadline, when present, is a valid calendar date.
pub open spec fn spec_deadline_wf(t: Task) -> bool {
    match t.deadline {
        Some(d) => d.wf(),
        None => true,
    }
}

/// Which validation rule a task breaks, when one does.
pub open spec fn spec_task_error(t: Task) -> Option<TaskError> {
    if t.name@.len() == 0 {
        Some(TaskError::EmptyName)
    } else if t.name@.len() > 200 {
        Some(TaskError::NameTooLong)
    } else if t.tag@.len() == 0 {
        Some(TaskError::EmptyTag)
    } else {
        None
    }
}

impl Task {
    /// Creates a new, not yet completed task.
    pub fn new(id: u32, name: String, tag: String, deadline: Option<Date>) -> (r: Task)
        ensures
            r == (Task { id, name, tag, deadline, completed: false }),
    {
        Task { id, name, tag, deadline, completed: false }
    }

    /// Checks the name and tag rules: the name must be non-empty and at
    /// most 200 characters, the tag non-empty; each failure is reported
    /// by its own error, checked in that order.
    pub fn validate(&self) -> (r: Result<(), TaskError>)
        ensures
            r is Ok <==> spec_task_error(*self) is None,
            r matches Err(e) ==> spec_task_error(*self) == Some(e),
            r is Ok && spec_deadline_wf(*self) ==> spec_task_valid(*self),
    {
        let n = self.name.as_str().unicode_len();
        if n == 0 {
            return Err(TaskError::EmptyName);
        }
        if n > 200 {
            return Err(TaskError::NameTooLong);
        }
        if self.tag.as_str().unicode_len() == 0 {
            return Err(TaskError::EmptyTag);
        }
        Ok(())
    }
}

impl Tag {
    /// Creates a new tag.
    pub fn new(name: String) -> (r: Tag)
        ensures
            r == (Tag { name }),
    {
        Tag { name }
    }

    /// Checks that the tag name is non-empty.
    pub fn validate(&self) -> (r: Result<(), TaskError>)
        ensures
            r is Ok <==> self.name@.len() > 0,
            r matches Err(e) ==> e == TaskError::EmptyTag,
    {
        if self.name.as_str().unicode_len() == 0 {
            return Err(TaskError::EmptyTag);
        }
        Ok(())
    }
}

} // verus!
