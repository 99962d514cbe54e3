use riic_planner::store::{
    is_valid_id, migrate, now, order_listing, Collection, Document, DocumentMeta, FileStore, StoreError,
    SCHEMA_VERSION,
};

fn doc(version: u32) -> Document {
    let mut d = Document::new(Some("first".to_owned()), serde_json::Value::Null);
    d.schema_version = version;
    d
}

#[test]
fn new_documents_have_valid_ids_and_equal_timestamps() {
    let d = Document::new(Some("first".to_owned()), serde_json::Value::Bool(true));
    assert_eq!(d.id.len(), 36);
    assert!(is_valid_id(&d.id));
    assert_eq!(d.schema_version, SCHEMA_VERSION);
    assert_eq!(d.created_at, d.updated_at);
    assert!(d.created_at.ends_with('Z'));
    let m = d.meta();
    assert_eq!(m.id, d.id);
    assert_eq!(m.name.as_deref(), Some("first"));
    let mut t = d;
    let created = t.created_at.clone();
    t.touch();
    assert_eq!(t.created_at, created);
}

#[test]
fn migrate_keeps_current_and_refuses_others() {
    let current = doc(SCHEMA_VERSION);
    let id = current.id.clone();
    assert_eq!(migrate(current).ok().map(|d| d.id), Some(id));
    match migrate(doc(SCHEMA_VERSION + 1)) {
        Err(StoreError::NewerSchema { version, supported, .. }) => {
            assert_eq!((version, supported), (2, 1));
        }
        other => panic!("expected a newer-schema refusal, got {other:?}"),
    }
    match migrate(doc(0)) {
        Err(StoreError::Migration { from, reason, .. }) => {
            assert_eq!(from, 0);
            assert_eq!(reason, "no migration is defined for this version");
        }
        other => panic!("expected a migration refusal, got {other:?}"),
    }
}

#[test]
fn ids_are_checked_before_any_path_is_built() {
    let store = FileStore::from_root(std::path::PathBuf::from("/data"));
    assert!(matches!(
        store.path(Collection::Solves, "../etc/passwd"),
        Err(StoreError::BadId(id)) if id == "../etc/passwd"
    ));
    assert!(matches!(store.path(Collection::Solves, ""), Err(StoreError::BadId(_))));
    let long = "a".repeat(65);
    assert!(matches!(store.path(Collection::Bases, &long), Err(StoreError::BadId(_))));
    assert!(matches!(store.path(Collection::Bases, "caf\u{e9}"), Err(StoreError::BadId(_))));
    let p = store.path(Collection::Rosters, "abc-DEF_09").ok().unwrap();
    assert_eq!(p.collection, Collection::Rosters);
    assert_eq!(p.file, "abc-DEF_09.json");
    assert_eq!(store.root().join(p.collection.as_str()).join(&p.file), std::path::PathBuf::from("/data/rosters/abc-DEF_09.json"));
    assert_eq!(store.root(), std::path::Path::new("/data"));
    assert!(is_valid_id(&"z".repeat(64)));
}

#[test]
fn collections_name_their_directories() {
    let names: Vec<&str> = Collection::ALL.iter().map(|c| c.as_str()).collect();
    assert_eq!(names, vec!["rosters", "bases", "solves"]);
}

fn meta(id: &str, created: &str) -> DocumentMeta {
    DocumentMeta {
        id: id.to_owned(),
        name: None,
        schema_version: 1,
        created_at: created.to_owned(),
        updated_at: created.to_owned(),
    }
}

#[test]
fn listings_are_newest_first_then_by_id() {
    let listed = order_listing(vec![
        meta("b", "2024-01-01T00:00:00.000Z"),
        meta("c", "2024-03-01T00:00:00.000Z"),
        meta("a", "2024-01-01T00:00:00.000Z"),
        meta("d", "2023-12-31T23:59:59.999Z"),
    ]);
    let ids: Vec<&str> = listed.iter().map(|m| m.id.as_str()).collect();
    assert_eq!(ids, vec!["c", "a", "b", "d"]);
}

#[test]
fn store_errors_read_as_sentences() {
    assert_eq!(StoreError::BadId("a b".to_owned()).message(), "invalid document id \"a b\"");
    let newer = StoreError::NewerSchema { id: "d1".to_owned(), version: 3, supported: 1 };
    assert_eq!(newer.message(), "document d1 has schema version 3, newer than the supported 1");
    let stuck = StoreError::Migration { id: "d2".to_owned(), from: 0, reason: "gone".to_owned() };
    assert_eq!(stuck.message(), "document d2: cannot migrate from version 0: gone");
    let io = StoreError::Io {
        path: "/tmp/x.json".to_owned(),
        source: std::io::Error::new(std::io::ErrorKind::Other, "disk on fire"),
    };
    assert_eq!(io.message(), "/tmp/x.json: disk on fire");
}

#[test]
fn timestamps_have_the_fixed_millisecond_form() {
    let t = now();
    let c: Vec<char> = t.chars().collect();
    assert_eq!(c.len(), 24);
    for (i, ch) in c.iter().enumerate() {
        match i {
            4 | 7 => assert_eq!(*ch, '-'),
            10 => assert_eq!(*ch, 'T'),
            13 | 16 => assert_eq!(*ch, ':'),
            19 => assert_eq!(*ch, '.'),
            23 => assert_eq!(*ch, 'Z'),
            _ => assert!(ch.is_ascii_digit()),
        }
    }
    let doc = Document::new(None, serde_json::Value::Null);
    assert_eq!(doc.created_at.len(), 24);
    assert_eq!(doc.created_at, doc.updated_at);
}

#[test]
fn the_root_is_the_directory_the_store_was_given() {
    let store = FileStore::from_root(std::path::PathBuf::from("/srv/riic"));
    assert_eq!(store.root(), &std::path::PathBuf::from("/srv/riic"));
}

