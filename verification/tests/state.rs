//! Tests for the program state: the all-or-nothing load of the two
//! documents, validation, and the save-side conversion.

use notnow::ser;
use notnow::state::State;

fn ser_id(value: u64) -> ser::tags::Id {
    ser::tags::Id::new(value)
}

#[test]
fn load_state_with_invalid_tag() {
    let prog_state = ser::state::ProgState { queries: Vec::new() };
    let templates = ser::tags::Templates(Vec::new());
    let tasks = vec![ser::tasks::Task {
        summary: "a task!".to_string(),
        tags: vec![ser::tags::Tag { id: ser_id(42) }],
    }];
    let task_state = ser::tasks::Tasks { templates, tasks };

    let err = State::with_serde(&prog_state, &task_state).unwrap_err();
    assert_eq!(err.message(), "Encountered invalid tag Id 42");
}

#[test]
fn load_state() {
    let prog_state = ser::state::ProgState { queries: Vec::new() };

    let id_tag1 = ser_id(29);
    let id_tag2 = ser_id(1337 + 42 - 1);

    let templates = ser::tags::Templates(vec![
        ser::tags::Template { id: id_tag1, name: "tag1".to_string() },
        ser::tags::Template { id: id_tag2, name: "tag2".to_string() },
    ]);

    let tasks = vec![
        ser::tasks::Task {
            summary: "a task!".to_string(),
            tags: vec![ser::tags::Tag { id: id_tag2 }],
        },
        ser::tasks::Task { summary: "an untagged task".to_string(), tags: Vec::new() },
        ser::tasks::Task {
            summary: "a tag1 task".to_string(),
            tags: vec![ser::tags::Tag { id: id_tag1 }],
        },
        ser::tasks::Task {
            summary: "a doubly tagged task".to_string(),
            tags: vec![ser::tags::Tag { id: id_tag2 }, ser::tags::Tag { id: id_tag1 }],
        },
    ];
    let task_state = ser::tasks::Tasks { templates, tasks };

    let state = State::with_serde(&prog_state, &task_state).unwrap();
    let tasks = state.tasks();

    let task1 = &tasks[0];
    assert_eq!(task1.tags().len(), 1);
    assert_eq!(task1.tags()[0].name(), "tag2");

    let task2 = &tasks[1];
    assert_eq!(task2.tags().len(), 0);

    let task3 = &tasks[2];
    assert_eq!(task3.tags().len(), 1);
    assert_eq!(task3.tags()[0].name(), "tag1");

    let task4 = &tasks[3];
    assert_eq!(task4.tags().len(), 2);
}

#[test]
fn load_absent_documents_yields_empty_state() {
    // Both documents missing: zero tasks and only the implicit all-query.
    let state = State::from_documents(None, None).unwrap();
    assert_eq!(state.tasks().len(), 0);
    assert_eq!(state.queries().len(), 1);
    assert_eq!(state.queries()[0].name(), "all");
}

#[test]
fn load_rejects_unknown_query_tag() {
    let prog_state = ser::state::ProgState {
        queries: vec![ser::query::Query {
            name: "broken".to_string(),
            tags: vec![ser::tags::Tag { id: ser_id(99) }],
        }],
    };
    let err = State::from_documents(Some(prog_state), None).unwrap_err();
    assert_eq!(err.message(), "Encountered invalid tag Id 99");
    assert!(err.message().contains("99"));
}

#[test]
fn state_serde_round_trip() {
    // Converting a loaded state back into its documents and loading those
    // again reproduces the same documents.
    let prog_state = ser::state::ProgState {
        queries: vec![ser::query::Query {
            name: "home only".to_string(),
            tags: vec![ser::tags::Tag { id: ser_id(1) }],
        }],
    };
    let templates = ser::tags::Templates(vec![
        ser::tags::Template { id: ser_id(1), name: "home".to_string() },
        ser::tags::Template { id: ser_id(2), name: "work".to_string() },
    ]);
    let tasks = vec![
        ser::tasks::Task {
            summary: "alpha".to_string(),
            tags: vec![ser::tags::Tag { id: ser_id(2) }, ser::tags::Tag { id: ser_id(1) }],
        },
        ser::tasks::Task { summary: "beta".to_string(), tags: Vec::new() },
    ];
    let task_state = ser::tasks::Tasks { templates, tasks };

    let state = State::with_serde(&prog_state, &task_state).unwrap();
    let (prog1, task1) = state.to_serde();
    let state2 = State::with_serde(&prog1, &task1).unwrap();
    let (prog2, task2) = state2.to_serde();
    assert_eq!(prog1, prog2);
    assert_eq!(task1, task2);
}

#[test]
fn add_and_remove_restore_serialized_state() {
    let prog_state = ser::state::ProgState { queries: Vec::new() };
    let task_state = ser::tasks::Tasks {
        templates: ser::tags::Templates(Vec::new()),
        tasks: vec![ser::tasks::Task { summary: "keep me".to_string(), tags: Vec::new() }],
    };
    let mut state = State::with_serde(&prog_state, &task_state).unwrap();
    let before = state.to_serde();
    let id = state.add_task("fleeting".to_string(), Vec::new());
    state.remove_task(id);
    let after = state.to_serde();
    assert_eq!(before, after);
}

#[test]
fn validate_tags_reports_first_bad_reference() {
    let doc = ser::tasks::Tasks {
        templates: ser::tags::Templates(vec![ser::tags::Template {
            id: ser_id(1),
            name: "ok".to_string(),
        }]),
        tasks: vec![
            ser::tasks::Task {
                summary: "fine".to_string(),
                tags: vec![ser::tags::Tag { id: ser_id(1) }],
            },
            ser::tasks::Task {
                summary: "broken".to_string(),
                tags: vec![ser::tags::Tag { id: ser_id(8) }, ser::tags::Tag { id: ser_id(9) }],
            },
        ],
    };
    let err = doc.validate_tags().unwrap_err();
    assert_eq!(err.message(), "Encountered invalid tag Id 8");

    let ok = ser::tasks::Tasks {
        templates: ser::tags::Templates(vec![ser::tags::Template {
            id: ser_id(1),
            name: "ok".to_string(),
        }]),
        tasks: vec![ser::tasks::Task {
            summary: "fine".to_string(),
            tags: vec![ser::tags::Tag { id: ser_id(1) }],
        }],
    };
    assert!(ok.validate_tags().is_ok());
}

#[test]
fn reserved_completion_id_is_ignored() {
    // A template definition claiming the reserved completion id is
    // dropped: the implicit completion template keeps its role, and the
    // definition is not persisted back.
    let prog_state = ser::state::ProgState { queries: Vec::new() };
    let task_state = ser::tasks::Tasks {
        templates: ser::tags::Templates(vec![ser::tags::Template {
            id: ser_id(u64::MAX),
            name: "boom".to_string(),
        }]),
        tasks: vec![ser::tasks::Task {
            summary: "already done".to_string(),
            tags: vec![ser::tags::Tag { id: ser_id(u64::MAX) }],
        }],
    };
    let state = State::with_serde(&prog_state, &task_state).unwrap();
    let tasks = state.tasks();
    assert!(tasks[0].is_complete());
    assert_eq!(tasks[0].tags()[0].name(), "complete");
    let (_prog, task_doc) = state.to_serde();
    assert_eq!(task_doc.templates.0.len(), 0);
}

#[test]
fn duplicate_template_ids_first_wins() {
    let prog_state = ser::state::ProgState { queries: Vec::new() };
    let task_state = ser::tasks::Tasks {
        templates: ser::tags::Templates(vec![
            ser::tags::Template { id: ser_id(1), name: "first".to_string() },
            ser::tags::Template { id: ser_id(1), name: "second".to_string() },
        ]),
        tasks: vec![ser::tasks::Task {
            summary: "tagged".to_string(),
            tags: vec![ser::tags::Tag { id: ser_id(1) }],
        }],
    };
    let state = State::with_serde(&prog_state, &task_state).unwrap();
    assert_eq!(state.tasks()[0].tags()[0].name(), "first");
    let (_prog, task_doc) = state.to_serde();
    assert_eq!(task_doc.templates.0.len(), 1);
    assert_eq!(task_doc.templates.0[0].name, "first");
}
