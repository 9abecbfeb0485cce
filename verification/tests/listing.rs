use silver_tasks::date::parse_date;
use silver_tasks::list::{list_tasks, sort_list};
use silver_tasks::models::Task;
use silver_tasks::text::strike;

fn mk_task(id: u32, name: &str, tag: &str, date: Option<&str>) -> Task {
    let deadline = date.map(|s| parse_date(s).unwrap());
    Task::new(id, name.to_string(), tag.to_string(), deadline)
}

#[test]
fn test_grouping_and_sorting() {
    let tasks = vec![
        mk_task(1, "A", "T1", Some("17.02.2026")),
        mk_task(2, "B", "T1", Some("16.02.2026")),
        mk_task(3, "C", "T2", None),
        mk_task(4, "D", "T2", Some("18.02.2026")),
    ];

    let sorted = sort_list(tasks);

    // the T1 group comes first, ordered by deadline
    assert_eq!(sorted[0].id, 2);
    assert_eq!(sorted[1].id, 1);

    // within T2 the dated task comes before the undated one
    assert_eq!(sorted[2].id, 4);
    assert_eq!(sorted[3].id, 3);
}

#[test]
fn test_formatting_date_no_deadline() {
    let t = mk_task(5, "Task5", "X", None);
    let date_str = match t.deadline {
        Some(d) => silver_tasks::date::format_date_display(&d),
        None => "no deadline".to_string(),
    };
    assert_eq!(date_str, "no deadline");
}

#[test]
fn test_strike_formatting() {
    let text = "Hello";
    let struck = strike(text);
    assert!(struck.contains("\x1b[9m"));
    assert!(struck.contains("\x1b[0m"));
    assert!(struck.contains("Hello"));
}

#[test]
fn test_strike_contains_original_text() {
    let text = "Task Name";
    let struck = strike(text);
    assert!(struck.contains("Task Name"));
}

#[test]
fn test_grouping_and_sorting_with_completed() {
    let mut tasks = vec![
        mk_task(1, "A", "T1", Some("17.02.2026")),
        mk_task(2, "B", "T1", Some("16.02.2026")),
        mk_task(3, "C", "T2", None),
        mk_task(4, "D", "T2", Some("18.02.2026")),
    ];

    // Mark task 2 as completed
    tasks[1].completed = true;

    let sorted = sort_list(tasks);

    // Both active and completed tasks stay in the T1 group, sorted by deadline
    let t1 = &sorted[..2];
    assert_eq!(t1.len(), 2);
    assert!(t1.iter().any(|t| t.id == 1));
    assert!(t1.iter().any(|t| t.id == 2));
    assert!(t1.iter().any(|t| t.completed));
}

#[test]
fn list_prints_a_notice_for_an_empty_collection() {
    let lines = list_tasks(vec![]);
    assert_eq!(lines, vec!["No tasks found".to_string()]);
}

#[test]
fn list_renders_aligned_columns() {
    let tasks = vec![
        mk_task(1, "Task1", "Test", Some("17.02.2026")),
        mk_task(2, "Task2", "Test", Some("16.02.2026")),
        mk_task(3, "Task3", "Test", None),
    ];
    let lines = list_tasks(tasks);
    assert_eq!(
        lines,
        vec![
            "Test".to_string(),
            "    002 - Task2        16.02.2026".to_string(),
            "    001 - Task1        17.02.2026".to_string(),
            "    003 - Task3".to_string(),
        ]
    );
}

#[test]
fn list_aligns_dates_across_groups_and_orders_tags() {
    let tasks = vec![
        mk_task(1, "Longer name", "Beta", Some("01.01.2027")),
        mk_task(2, "Tiny", "Alpha", Some("02.01.2027")),
    ];
    let lines = list_tasks(tasks);
    assert_eq!(
        lines,
        vec![
            "Alpha".to_string(),
            "    002 - Tiny               02.01.2027".to_string(),
            "Beta".to_string(),
            "    001 - Longer name        01.01.2027".to_string(),
        ]
    );
}

#[test]
fn list_substitutes_untagged_for_an_empty_tag() {
    let tasks = vec![mk_task(7, "Loose", "", None)];
    let lines = list_tasks(tasks);
    assert_eq!(
        lines,
        vec!["Untagged".to_string(), "    007 - Loose".to_string()]
    );
}

#[test]
fn list_strikes_through_completed_tasks() {
    let mut tasks = vec![
        mk_task(1, "Done", "Test", Some("17.02.2026")),
        mk_task(2, "Open", "Test", None),
    ];
    tasks[0].completed = true;
    let lines = list_tasks(tasks);
    assert_eq!(lines[0], "Test");
    assert_eq!(lines[1], "    001 - \x1b[9mDone\x1b[0m        \x1b[9m17.02.2026\x1b[0m");
    assert_eq!(lines[2], "    002 - Open");
}

#[test]
fn list_breaks_undated_ties_by_id() {
    let tasks = vec![
        mk_task(9, "Late", "Test", None),
        mk_task(2, "Early", "Test", None),
    ];
    let sorted = sort_list(tasks);
    assert_eq!(sorted[0].id, 2);
    assert_eq!(sorted[1].id, 9);
}

#[test]
fn list_merges_an_empty_tag_with_a_literal_untagged_tag() {
    let tasks = vec![
        mk_task(1, "Implicit", "", None),
        mk_task(2, "Explicit", "Untagged", None),
    ];
    let lines = list_tasks(tasks);
    assert_eq!(
        lines,
        vec![
            "Untagged".to_string(),
            "    001 - Implicit".to_string(),
            "    002 - Explicit".to_string(),
        ]
    );
}
