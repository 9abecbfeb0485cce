use silver_tasks::add::{add_message, add_task, tag_created_message};
use silver_tasks::clear::{clear_message, clear_tasks};
use silver_tasks::date::parse_date;
use silver_tasks::errors::TaskError;
use silver_tasks::models::{Tag, Task};
use silver_tasks::remove::{not_found_message, parse_id, remove_tasks};

fn mk_task(id: u32, name: &str, tag: &str, date: Option<&str>) -> Task {
    let deadline = date.map(|s| parse_date(s).unwrap());
    Task::new(id, name.to_string(), tag.to_string(), deadline)
}

#[test]
fn test_clear_no_completed_trivial() {
    // trivial sanity check: clearing an empty collection removes nothing
    assert!(true);
}

#[test]
fn test_filter_completed_tasks() {
    let mut tasks = vec![
        Task::new(1, "A".to_string(), "T".to_string(), None),
        Task::new(2, "B".to_string(), "T".to_string(), None),
        Task::new(3, "C".to_string(), "T".to_string(), None),
    ];

    // Mark tasks 1 and 3 as completed
    tasks[0].completed = true;
    tasks[2].completed = true;

    let (kept, _removed) = clear_tasks(tasks);

    assert_eq!(kept.len(), 1);
    assert_eq!(kept[0].id, 2);
}

#[test]
fn test_filter_no_completed_tasks() {
    let tasks = vec![
        Task::new(1, "A".to_string(), "T".to_string(), None),
        Task::new(2, "B".to_string(), "T".to_string(), None),
    ];

    let original_count = tasks.len();
    let (kept, _removed) = clear_tasks(tasks);

    assert_eq!(kept.len(), original_count);
}

#[test]
fn test_filter_all_completed() {
    let mut tasks = vec![
        Task::new(1, "A".to_string(), "T".to_string(), None),
        Task::new(2, "B".to_string(), "T".to_string(), None),
    ];

    for t in &mut tasks {
        t.completed = true;
    }

    let (kept, _removed) = clear_tasks(tasks);
    assert_eq!(kept.len(), 0);
}

#[test]
fn clear_reports_counts_and_keeps_the_rest() {
    let mut tasks = vec![
        mk_task(1, "A", "T", None),
        mk_task(2, "B", "T", None),
        mk_task(3, "C", "T", None),
    ];
    tasks[0].completed = true;
    tasks[2].completed = true;

    let (kept, removed) = clear_tasks(tasks);
    assert_eq!(removed, 2);
    assert_eq!(kept.len(), 1);
    assert_eq!(kept[0].id, 2);
    assert_eq!(clear_message(removed), "Cleared 2 completed tasks");
    assert_eq!(clear_message(0), "No completed tasks to clear");
}

#[test]
fn test_parse_id() {
    assert_eq!(parse_id("001"), Some(1));
    assert_eq!(parse_id("12"), Some(12));
    assert_eq!(parse_id("abc"), None);
    assert_eq!(parse_id("000"), Some(0));
}

#[test]
fn test_parse_id_leading_zeros() {
    assert_eq!(parse_id("0001"), Some(1));
    assert_eq!(parse_id("00100"), Some(100));
    assert_eq!(parse_id("010"), Some(10));
}

#[test]
fn test_parse_id_whitespace() {
    assert_eq!(parse_id("  5  "), Some(5));
    assert_eq!(parse_id("\t10\t"), Some(10));
}

#[test]
fn parse_id_bounds_and_signs() {
    assert_eq!(parse_id("4294967295"), Some(4294967295));
    assert_eq!(parse_id("4294967296"), None);
    assert_eq!(parse_id("99999999999999999999"), None);
    assert_eq!(parse_id("+7"), Some(7));
    assert_eq!(parse_id("-7"), None);
    assert_eq!(parse_id("+"), None);
    assert_eq!(parse_id(""), None);
    assert_eq!(parse_id("  "), None);
    assert_eq!(parse_id("1 2"), None);
}

#[test]
fn remove_marks_requested_ids() {
    let tasks = vec![
        mk_task(1, "A", "T", None),
        mk_task(2, "B", "T", None),
        mk_task(3, "C", "T", None),
    ];
    let ids = vec!["001".to_string(), " 02 ".to_string()];
    let out = remove_tasks(&ids, tasks).unwrap();
    assert!(out.marked_any);
    assert!(out.not_found.is_empty());
    assert!(out.tasks[0].completed);
    assert!(out.tasks[1].completed);
    assert!(!out.tasks[2].completed);
}

#[test]
fn remove_reports_missing_ids_but_still_marks() {
    let tasks = vec![mk_task(1, "A", "T", None), mk_task(2, "B", "T", None)];
    let ids = vec!["2".to_string(), "999".to_string(), "junk".to_string()];
    let out = remove_tasks(&ids, tasks).unwrap();
    assert!(out.marked_any);
    assert!(!out.tasks[0].completed);
    assert!(out.tasks[1].completed);
    assert_eq!(out.not_found, vec!["999".to_string()]);
    assert_eq!(
        not_found_message(&out.not_found),
        "One or more IDs could not be found: 999"
    );
}

#[test]
fn remove_errors_exactly_on_empty_or_nonnumeric_input() {
    let tasks = vec![mk_task(1, "A", "T", None)];
    assert_eq!(remove_tasks(&vec![], tasks.clone()).unwrap_err(), TaskError::NoIds);
    let ids = vec!["abc".to_string(), "-".to_string()];
    assert_eq!(remove_tasks(&ids, tasks).unwrap_err(), TaskError::NoValidIds);
}

#[test]
fn remove_is_idempotent_on_completed_tasks() {
    let tasks = vec![mk_task(1, "A", "T", None), mk_task(2, "B", "T", None)];
    let ids = vec!["1".to_string()];
    let once = remove_tasks(&ids, tasks).unwrap();
    let again = remove_tasks(&ids, once.tasks.clone()).unwrap();
    assert_eq!(once.tasks, again.tasks);
    assert!(again.marked_any);
}

#[test]
fn add_appends_task_and_creates_tag() {
    let out = add_task(
        "Read chapter 3".to_string(),
        "Automata".to_string(),
        Some("15.02.2026".to_string()),
        vec![],
        vec![],
    )
    .unwrap();
    assert_eq!(out.new_id, 1);
    assert!(out.created_tag);
    assert_eq!(out.tags, vec![Tag::new("Automata".to_string())]);
    assert_eq!(out.tasks.len(), 1);
    let t = &out.tasks[0];
    assert_eq!(t.id, 1);
    assert_eq!(t.name, "Read chapter 3");
    assert_eq!(t.tag, "Automata");
    assert_eq!(t.deadline, Some(parse_date("15.02.2026").unwrap()));
    assert!(!t.completed);
    assert_eq!(
        add_message(out.new_id, &t.name, &t.tag, &t.deadline),
        "Created task 001: Read chapter 3 (Automata, due 15.02.2026)"
    );
    assert_eq!(tag_created_message("Automata"), "Created new tag: Automata");
}

#[test]
fn add_recycles_the_lowest_free_id_and_keeps_known_tags() {
    let tasks = vec![mk_task(1, "A", "T", None), mk_task(3, "C", "T", None)];
    let tags = vec![Tag::new("T".to_string())];
    let out = add_task("B".to_string(), "T".to_string(), None, tasks, tags.clone()).unwrap();
    assert_eq!(out.new_id, 2);
    assert!(!out.created_tag);
    assert_eq!(out.tags, tags);
    assert_eq!(out.tasks[2].id, 2);
    assert_eq!(out.tasks[2].deadline, None);
    assert_eq!(
        add_message(out.new_id, "B", "T", &None),
        "Created task 002: B (T, no deadline)"
    );
}

#[test]
fn add_validates_in_order() {
    let e = add_task("".to_string(), "T".to_string(), None, vec![], vec![]).unwrap_err();
    assert_eq!(e, TaskError::EmptyName);
    assert_eq!(e.message(), "Task name cannot be empty");

    let long = "x".repeat(201);
    let e = add_task(long, "T".to_string(), None, vec![], vec![]).unwrap_err();
    assert_eq!(e, TaskError::NameTooLong);
    assert_eq!(e.message(), "Task name too long (max 200 characters)");

    let e = add_task("A".to_string(), "".to_string(), None, vec![], vec![]).unwrap_err();
    assert_eq!(e, TaskError::EmptyTag);
    assert_eq!(e.message(), "Tag name cannot be empty");

    let e = add_task(
        "A".to_string(),
        "T".to_string(),
        Some("not a date".to_string()),
        vec![],
        vec![],
    )
    .unwrap_err();
    assert_eq!(e, TaskError::InvalidDate);
    assert_eq!(
        e.message(),
        "Invalid date format. Use DD.MM.YYYY, YYYY-MM-DD, or DD/MM/YYYY"
    );
}

#[test]
fn add_accepts_a_name_of_exactly_200_characters() {
    let name = "y".repeat(200);
    let out = add_task(name.clone(), "T".to_string(), None, vec![], vec![]).unwrap();
    assert_eq!(out.tasks[0].name, name);
}

#[test]
fn validate_checks_name_and_tag_rules() {
    let ok = Task::new(1, "A".to_string(), "T".to_string(), None);
    assert!(ok.validate().is_ok());

    let empty_name = Task::new(1, "".to_string(), "T".to_string(), None);
    assert_eq!(empty_name.validate().unwrap_err(), TaskError::EmptyName);

    let long_name = Task::new(1, "z".repeat(201), "T".to_string(), None);
    assert_eq!(long_name.validate().unwrap_err(), TaskError::NameTooLong);

    let empty_tag = Task::new(1, "A".to_string(), "".to_string(), None);
    assert_eq!(empty_tag.validate().unwrap_err(), TaskError::EmptyTag);

    assert!(Tag::new("T".to_string()).validate().is_ok());
    assert_eq!(
        Tag::new("".to_string()).validate().unwrap_err(),
        TaskError::EmptyTag
    );
}

#[test]
fn parse_id_trims_unicode_whitespace() {
    assert_eq!(parse_id("\u{a0}5"), Some(5));
    assert_eq!(parse_id("\u{2003}7\u{3000}"), Some(7));
    assert_eq!(parse_id("\u{85}\u{202f}12\u{1680}"), Some(12));
    assert_eq!(parse_id("\u{2028}\u{2029}"), None);
}

#[test]
fn remove_accepts_ids_padded_with_unicode_whitespace() {
    let tasks = vec![mk_task(5, "A", "T", None)];
    let ids = vec!["\u{a0}5\u{3000}".to_string()];
    let out = remove_tasks(&ids, tasks).unwrap();
    assert!(out.marked_any);
    assert!(out.tasks[0].completed);
    assert!(out.not_found.is_empty());
}
