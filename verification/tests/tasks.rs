//! Tests for tasks and the task collection.

use notnow::ids::Id;
use notnow::ser;
use notnow::tags::Templates;
use notnow::tasks::Task;
use notnow::tasks::Tasks;

fn make_tasks(count: usize) -> Vec<ser::tasks::Task> {
    (1..=count)
        .map(|i| ser::tasks::Task { summary: i.to_string(), tags: Vec::new() })
        .collect()
}

#[test]
fn add_task() {
    let mut tasks = Tasks::with_serde_tasks(make_tasks(3)).unwrap();
    let tags = Vec::new();
    tasks.add("4".to_string(), tags);

    assert_eq!(tasks.to_serde(), make_tasks(4));
}

#[test]
fn remove_task() {
    let mut tasks = Tasks::with_serde_tasks(make_tasks(3)).unwrap();
    let id = tasks.iter()[1].id();
    tasks.remove(id);

    let mut expected = make_tasks(3);
    expected.remove(1);

    assert_eq!(tasks.to_serde(), expected);
}

#[test]
fn update_task() {
    let mut tasks = Tasks::with_serde_tasks(make_tasks(3)).unwrap();
    let mut task = tasks.iter()[1].clone();
    task.summary = "amended".to_string();
    tasks.update(task);

    let mut expected = make_tasks(3);
    expected[1].summary = "amended".to_string();

    assert_eq!(tasks.to_serde(), expected);
}

#[test]
fn task_completion() {
    let templates = Templates::new();
    let mut task = Task::new("test task".to_string());
    assert!(!task.is_complete());
    task.toggle_complete(&templates);
    assert!(task.is_complete());
}

#[test]
fn toggle_complete_twice_is_identity() {
    // Toggling completion twice leaves the tag set and the completion
    // status unchanged, whether the task starts complete or not.
    let ser_templates = ser::tags::Templates(vec![ser::tags::Template {
        id: ser::tags::Id::new(5),
        name: "urgent".to_string(),
    }]);
    let (templates, map) = Templates::with_serde(&ser_templates);
    let docs = vec![ser::tasks::Task {
        summary: "tagged".to_string(),
        tags: vec![ser::tags::Tag { id: ser::tags::Id::new(5) }],
    }];
    let tasks = Tasks::with_serde(&docs, &templates, &map).unwrap();
    let mut task = tasks.iter()[0].clone();

    let before = task.to_serde();
    assert!(!task.is_complete());
    task.toggle_complete(&templates);
    assert!(task.is_complete());
    task.toggle_complete(&templates);
    assert!(!task.is_complete());
    assert_eq!(task.to_serde(), before);

    // Starting from the complete state instead.
    task.toggle_complete(&templates);
    let completed = task.to_serde();
    task.toggle_complete(&templates);
    task.toggle_complete(&templates);
    assert!(task.is_complete());
    assert_eq!(task.to_serde(), completed);
}

#[test]
fn add_then_remove_restores_serialized_form() {
    let mut tasks = Tasks::with_serde_tasks(make_tasks(3)).unwrap();
    let before = tasks.to_serde();
    let id = tasks.add("transient".to_string(), Vec::new());
    tasks.remove(id);
    assert_eq!(tasks.to_serde(), before);
}

#[test]
fn tags_are_deduplicated_and_sorted() {
    let ser_templates = ser::tags::Templates(vec![
        ser::tags::Template { id: ser::tags::Id::new(9), name: "nine".to_string() },
        ser::tags::Template { id: ser::tags::Id::new(3), name: "three".to_string() },
    ]);
    let (templates, map) = Templates::with_serde(&ser_templates);
    let docs = vec![ser::tasks::Task {
        summary: "messy".to_string(),
        tags: vec![
            ser::tags::Tag { id: ser::tags::Id::new(9) },
            ser::tags::Tag { id: ser::tags::Id::new(3) },
            ser::tags::Tag { id: ser::tags::Id::new(9) },
        ],
    }];
    let tasks = Tasks::with_serde(&docs, &templates, &map).unwrap();
    let task = &tasks.iter()[0];
    let tags = task.tags();
    assert_eq!(tags.len(), 2);
    assert_eq!(tags[0].id().value(), 3);
    assert_eq!(tags[0].name(), "three");
    assert_eq!(tags[1].id().value(), 9);
    assert_eq!(tags[1].name(), "nine");
}

#[test]
fn load_rejects_unknown_tag() {
    let docs = vec![ser::tasks::Task {
        summary: "broken".to_string(),
        tags: vec![ser::tags::Tag { id: ser::tags::Id::new(7) }],
    }];
    let err = Tasks::with_serde_tasks(docs).unwrap_err();
    assert_eq!(err.message(), "Encountered invalid tag Id 7");
}

#[test]
fn serde_round_trip_reproduces_collection() {
    // Serializing a collection and deserializing it against the same
    // registry reproduces an equal collection: summaries, tag sets, and
    // order.
    let ser_templates = ser::tags::Templates(vec![
        ser::tags::Template { id: ser::tags::Id::new(1), name: "home".to_string() },
        ser::tags::Template { id: ser::tags::Id::new(2), name: "work".to_string() },
    ]);
    let (templates, map) = Templates::with_serde(&ser_templates);
    let docs = vec![
        ser::tasks::Task {
            summary: "alpha".to_string(),
            tags: vec![
                ser::tags::Tag { id: ser::tags::Id::new(2) },
                ser::tags::Tag { id: ser::tags::Id::new(1) },
            ],
        },
        ser::tasks::Task { summary: "beta".to_string(), tags: Vec::new() },
    ];
    let tasks = Tasks::with_serde(&docs, &templates, &map).unwrap();
    let serialized = tasks.to_serde();
    let reloaded = Tasks::with_serde(&serialized, &templates, &map).unwrap();
    assert_eq!(reloaded.to_serde(), serialized);
    assert_eq!(reloaded.iter().len(), 2);
    assert_eq!(reloaded.iter()[0].summary, "alpha");
    assert_eq!(reloaded.iter()[0].tags().len(), 2);
    assert_eq!(reloaded.iter()[1].summary, "beta");
}

#[test]
fn task_ids_are_unique_and_increasing() {
    let mut tasks = Tasks::with_serde_tasks(make_tasks(0)).unwrap();
    let a = tasks.add("first".to_string(), Vec::new());
    let b = tasks.add("second".to_string(), Vec::new());
    assert!(a != b);
    assert!(a.value() < b.value());
    let _ = Id::<notnow::tasks::T>::from_value(a.value());
}
