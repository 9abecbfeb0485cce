//! The add command: validate the input, allocate the next recycled id,
//! create the tag when it is new, and append the task.
use vstd::prelude::*;

use crate::date::{parse_date, spec_parse_date, spec_render_display, format_date_display, Date};
use crate::errors::TaskError;
use crate::models::{Tag, Task};
use crate::storage::{get_next_task_id, lemma_free_id_exists, spec_has_id, spec_tag_exists, tag_exists};
use crate::text::{push_padded_id, spec_padded_id};

verus! {

/// The views of an optional deadline argument.
pub open spec fn spec_opt_view(deadline: Option<String>) -> Option<Seq<char>> {
    match deadline {
        Some(s) => Some(s@),
        None => None,
    }
}

/// The validation failure the add command reports, when there is one;
/// the rules are checked in this order.
pub open spec fn spec_add_error(
    name: Seq<char>,
    tag: Seq<char>,
    deadline: Option<Seq<char>>,
) -> Option<TaskError> {
    if name.len() == 0 {
        Some(TaskError::EmptyName)
    } else if name.len() > 200 {
        Some(TaskError::NameTooLong)
    } else if tag.len() == 0 {
        Some(TaskError::EmptyTag)
    } else {
        match deadline {
            Some(ds) => if spec_parse_date(ds) is None {
                Some(TaskError::InvalidDate)
            } else {
                None
            },
            None => None,
        }
    }
}

/// The deadline the new task carries: the parsed date, when a deadline
/// string was given.
pub open spec fn spec_parsed_deadline(deadline: Option<Seq<char>>) -> Option<Date> {
    match deadline {
        Some(ds) => spec_parse_date(ds),
        None => None,
    }
}

/// What the add command returns on success.
#[derive(Debug)]
pub struct AddOutcome {
    /// The task collection with the new task appended.
    pub tasks: Vec<Task>,
    /// The tag collection, extended when the tag was new.
    pub tags: Vec<Tag>,
    /// The id given to the new task.
    pub new_id: u32,
    /// Whether the tag was created by this call.
    pub created_tag: bool,
}

/// Validates the input, then builds the new collections: the task gets
/// the smallest unused positive id and `completed == false`; the tag is
/// appended to the tag collection when it is not yet there.
pub fn add_task(
    name: String,
    tag: String,
    deadline: Option<String>,
    tasks: Vec<Task>,
    tags: Vec<Tag>,
) -> (r: Result<AddOutcome, TaskError>)
    requires
        tasks@.len() < u32::MAX,
    ensures
        r is Err <==> spec_add_error(name@, tag@, spec_opt_view(deadline)) is Some,
        r matches Err(e) ==> Some(e) == spec_add_error(name@, tag@, spec_opt_view(deadline)),
        r matches Ok(out) ==> {
            let parsed = spec_parsed_deadline(spec_opt_view(deadline));
            &&& out.new_id >= 1
            &&& !spec_has_id(tasks@, out.new_id as int)
            &&& (forall|j: int| 1 <= j < out.new_id ==> spec_has_id(tasks@, j))
            &&& out.created_tag == !spec_tag_exists(tags@, tag@)
            &&& out.tags@ == (if out.created_tag {
                tags@.push(Tag { name: tag })
            } else {
                tags@
            })
            &&& out.tasks@ == tasks@.push(
                Task { id: out.new_id, name, tag, deadline: parsed, completed: false },
            )
        },
{
    let name_len = name.as_str().unicode_len();
    if name_len == 0 {
        return Err(TaskError::EmptyName);
    }
    if name_len > 200 {
        return Err(TaskError::NameTooLong);
    }
    if tag.as_str().unicode_len() == 0 {
        return Err(TaskError::EmptyTag);
    }
    let parsed: Option<Date> = match &deadline {
        Some(ds) => {
            match parse_date(ds.as_str()) {
                Ok(d) => Some(d),
                Err(e) => {
                    return Err(e);
                },
            }
        },
        None => None,
    };
    proof {
        lemma_free_id_exists(tasks@);
    }
    let id = get_next_task_id(&tasks);
    let created = !tag_exists(&tags, tag.as_str());
    let mut new_tags = tags;
    if created {
        new_tags.push(Tag::new(tag.clone()));
    }
    let task = Task::new(id, name, tag, parsed);
    let mut new_tasks = tasks;
    new_tasks.push(task);
    Ok(AddOutcome { tasks: new_tasks, tags: new_tags, new_id: id, created_tag: created })
}

/// What add prints when it creates the tag.
pub open spec fn spec_tag_created_message(tag: Seq<char>) -> Seq<char> {
    "Created new tag: "@ + tag
}

/// Renders the notice that a new tag was created.
pub fn tag_created_message(tag: &str) -> (r: String)
    ensures
        r@ == spec_tag_created_message(tag@),
{
    let mut out = String::from_str("Created new tag: ");
    out.append(tag);
    out
}

/// What add prints on success: the zero-padded id, the name, the tag,
/// and either the deadline or a "no deadline" notice.
pub open spec fn spec_add_message(
    id: int,
    name: Seq<char>,
    tag: Seq<char>,
    parsed: Option<Date>,
) -> Seq<char> {
    "Created task "@ + spec_padded_id(id) + ": "@ + name + " ("@ + tag + ", "@ + (match parsed {
        Some(d) => "due "@ + spec_render_display(d),
        None => "no deadline"@,
    }) + ")"@
}

/// Renders the confirmation message for a created task.
pub fn add_message(id: u32, name: &str, tag: &str, parsed: &Option<Date>) -> (r: String)
    requires
        match *parsed {
            Some(d) => d.wf(),
            None => true,
        },
    ensures
        r@ == spec_add_message(id as int, name@, tag@, *parsed),
{
    let mut out = String::from_str("Created task ");
    push_padded_id(&mut out, id);
    out.append(": ");
    out.append(name);
    out.append(" (");
    out.append(tag);
    out.append(", ");
    match parsed {
        Some(d) => {
            out.append("due ");
            let ds = format_date_display(d);
            out.append(ds.as_str());
        },
        None => {
            out.append("no deadline");
        },
    }
    out.append(")");
    proof {
        assert(out@ =~= spec_add_message(id as int, name@, tag@, *parsed));
    }
    out
}

} // verus!
