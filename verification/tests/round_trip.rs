use serde_json::{Number, Value};
use silver_tasks::date::{format_date_iso, parse_date};
use silver_tasks::models::Task;

// The same flat JSON shape the program stores on disk: an array of
// objects with id, name, tag, deadline (ISO string or null), completed.
fn task_to_value(t: &Task) -> Value {
    let mut m = serde_json::Map::new();
    m.insert("id".to_string(), Value::Number(Number::from(t.id)));
    m.insert("name".to_string(), Value::String(t.name.clone()));
    m.insert("tag".to_string(), Value::String(t.tag.clone()));
    let deadline = match &t.deadline {
        Some(d) => Value::String(format_date_iso(d)),
        None => Value::Null,
    };
    m.insert("deadline".to_string(), deadline);
    m.insert("completed".to_string(), Value::Bool(t.completed));
    Value::Object(m)
}

fn task_from_value(v: &Value) -> Task {
    let id = v.get("id").unwrap().as_u64().unwrap() as u32;
    let name = v.get("name").unwrap().as_str().unwrap().to_string();
    let tag = v.get("tag").unwrap().as_str().unwrap().to_string();
    let deadline = match v.get("deadline").unwrap() {
        Value::Null => None,
        d => Some(parse_date(d.as_str().unwrap()).unwrap()),
    };
    let completed = v.get("completed").unwrap().as_bool().unwrap();
    let mut t = Task::new(id, name, tag, deadline);
    t.completed = completed;
    t
}

#[test]
fn round_trip_preserves_every_field() {
    let mut with_deadline = Task::new(
        1,
        "Read chapter 3".to_string(),
        "Automata".to_string(),
        Some(parse_date("2026-02-15").unwrap()),
    );
    with_deadline.completed = true;
    let without_deadline = Task::new(2, "Rewatch lecture 1".to_string(), "Calculus".to_string(), None);
    let tasks = vec![with_deadline, without_deadline];

    let values: Vec<Value> = tasks.iter().map(task_to_value).collect();
    let text = serde_json::to_string(&Value::Array(values)).unwrap();
    let back: Value = serde_json::from_str(&text).unwrap();
    let restored: Vec<Task> = back.as_array().unwrap().iter().map(task_from_value).collect();

    assert_eq!(tasks, restored);
}

#[test]
fn round_trip_preserves_a_null_deadline() {
    let task = Task::new(3, "No date".to_string(), "T".to_string(), None);
    let text = serde_json::to_string(&task_to_value(&task)).unwrap();
    let back: Value = serde_json::from_str(&text).unwrap();
    assert!(back.get("deadline").unwrap().is_null());
    assert_eq!(task_from_value(&back), task);
}
