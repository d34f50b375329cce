//! Tests for filtered views and their selection cursor.

use notnow::ids::Id;
use notnow::query::Query;
use notnow::ser;
use notnow::tags::Templates;
use notnow::tasks::Tasks;

fn sample() -> (Templates, Tasks) {
    let ser_templates = ser::tags::Templates(vec![
        ser::tags::Template { id: ser::tags::Id::new(1), name: "home".to_string() },
        ser::tags::Template { id: ser::tags::Id::new(2), name: "work".to_string() },
    ]);
    let (templates, map) = Templates::with_serde(&ser_templates);
    let docs = vec![
        ser::tasks::Task {
            summary: "water plants".to_string(),
            tags: vec![ser::tags::Tag { id: ser::tags::Id::new(1) }],
        },
        ser::tasks::Task {
            summary: "file report".to_string(),
            tags: vec![ser::tags::Tag { id: ser::tags::Id::new(2) }],
        },
        ser::tasks::Task {
            summary: "clean desk".to_string(),
            tags: vec![
                ser::tags::Tag { id: ser::tags::Id::new(1) },
                ser::tags::Tag { id: ser::tags::Id::new(2) },
            ],
        },
        ser::tasks::Task { summary: "breathe".to_string(), tags: Vec::new() },
    ];
    let tasks = Tasks::with_serde(&docs, &templates, &map).unwrap();
    (templates, tasks)
}

#[test]
fn empty_filter_matches_all() {
    let (_templates, tasks) = sample();
    let query = Query::new("all".to_string(), Vec::new());
    let listed = query.enumerate(&tasks);
    assert_eq!(listed.len(), 4);
    assert_eq!(listed[0].summary, "water plants");
    assert_eq!(listed[3].summary, "breathe");
}

#[test]
fn filter_keeps_only_tagged_tasks() {
    let (templates, tasks) = sample();
    let home = templates.instantiate(Id::from_value(1));
    let query = Query::new("home".to_string(), vec![home]);
    assert_eq!(query.name(), "home");
    let listed = query.enumerate(&tasks);
    assert_eq!(listed.len(), 2);
    assert_eq!(listed[0].summary, "water plants");
    assert_eq!(listed[1].summary, "clean desk");

    for task in tasks.iter() {
        let has_home = task.tags().iter().any(|t| t.id().value() == 1);
        assert_eq!(query.matches(task), has_home);
    }
}

#[test]
fn filter_requires_every_listed_tag() {
    let (templates, tasks) = sample();
    let home = templates.instantiate(Id::from_value(1));
    let work = templates.instantiate(Id::from_value(2));
    let query = Query::new("both".to_string(), vec![home, work]);
    let listed = query.enumerate(&tasks);
    assert_eq!(listed.len(), 1);
    assert_eq!(listed[0].summary, "clean desk");
}

#[test]
fn navigation_wraps_over_filtered_tasks() {
    let (templates, tasks) = sample();
    let home = templates.instantiate(Id::from_value(1));
    let mut query = Query::new("home".to_string(), vec![home]);

    // Two matching tasks; starting resolved at index zero, three forward
    // advances wrap to (0 + 3) mod 2, and their cumulative delta of three
    // exceeds the two filtered elements: a cycle.
    query.advance();
    query.advance();
    query.advance();
    assert_eq!(query.normalize(&tasks), 1);
    assert!(query.has_cycled(2));
    query.reset_cycled();
    assert!(!query.has_cycled(2));

    // Advancing backwards wraps the other way; the cumulative delta
    // grows in magnitude towards the negative side.
    query.reverse(true);
    query.advance();
    query.advance();
    assert_eq!(query.normalize(&tasks), 1);
    assert!(!query.has_cycled(2));
    query.advance();
    assert!(query.has_cycled(2));
}

#[test]
fn query_serde_round_trip() {
    let ser_templates = ser::tags::Templates(vec![ser::tags::Template {
        id: ser::tags::Id::new(4),
        name: "later".to_string(),
    }]);
    let (templates, map) = Templates::with_serde(&ser_templates);
    let serquery = ser::query::Query {
        name: "postponed".to_string(),
        tags: vec![ser::tags::Tag { id: ser::tags::Id::new(4) }],
    };
    let query = Query::with_serde(&serquery, &templates, &map).unwrap();
    assert_eq!(query.to_serde(), serquery);

    let broken = ser::query::Query {
        name: "broken".to_string(),
        tags: vec![ser::tags::Tag { id: ser::tags::Id::new(5) }],
    };
    let err = Query::with_serde(&broken, &templates, &map).unwrap_err();
    assert_eq!(err.message(), "Encountered invalid tag Id 5");
}
