use studymood::todos::{apply_update, owns_todo, Model, Timestamp, TodoUpdate};

fn item() -> Model {
    Model {
        id: 1,
        title: "Read".to_string(),
        descr: "Chapter 3".to_string(),
        created_at: Some(Timestamp { secs: 10, nanos: 0 }),
        dtime: Timestamp { secs: 100, nanos: 5 },
        uid: 9,
        status: "todo".to_string(),
    }
}

#[test]
fn empty_update_keeps_item() {
    let m = apply_update(item(), TodoUpdate { title: None, description: None, dtime: None, status: None });
    assert_eq!(m.title, "Read");
    assert_eq!(m.descr, "Chapter 3");
    assert!(m.dtime == Timestamp { secs: 100, nanos: 5 });
    assert_eq!(m.status, "todo");
}

#[test]
fn update_replaces_given_fields_only() {
    let m = apply_update(
        item(),
        TodoUpdate {
            title: None,
            description: Some("Chapter 4".to_string()),
            dtime: Some(Timestamp { secs: 200, nanos: 0 }),
            status: Some("done".to_string()),
        },
    );
    assert_eq!((m.id, m.uid), (1, 9));
    assert_eq!(m.title, "Read");
    assert_eq!(m.descr, "Chapter 4");
    assert!(m.dtime == Timestamp { secs: 200, nanos: 0 });
    assert!(m.created_at == Some(Timestamp { secs: 10, nanos: 0 }));
    assert_eq!(m.status, "done");
}

#[test]
fn ownership_by_id() {
    assert!(owns_todo(&[3, 5, 8], 5));
    assert!(!owns_todo(&[3, 5, 8], 4));
    assert!(!owns_todo(&[], 1));
}
