use api_workbench::failure::Failure;
use api_workbench::listing::sort_by_recency;
use api_workbench::model::{
    copy_items, copy_text, Collection, CollectionItem, CollectionMeta, Environment,
    EnvironmentState, EnvironmentVariable, Header, RequestPayload,
};
use api_workbench::names::{
    collection_file_name, collections_dir_name, environments_file_name, is_document_file,
};
use api_workbench::store::{read_stored, DocumentStore, Stored};

fn request_item(id: &str) -> CollectionItem {
    CollectionItem::Request {
        id: id.to_string(),
        name: format!("request {id}"),
        request: RequestPayload {
            url: "https://example.test/items".to_string(),
            method: "POST".to_string(),
            headers: vec![
                Header { key: "Accept".to_string(), value: "*/*".to_string(), enabled: true },
                Header { key: "X-Off".to_string(), value: "0".to_string(), enabled: false },
            ],
            body: Some("{}".to_string()),
        },
        created_at: 10,
        updated_at: 20,
    }
}

fn collection(id: &str, updated_at: u64) -> Collection {
    Collection {
        id: id.to_string(),
        name: format!("collection {id}"),
        description: Some(format!("about {id}")),
        created_at: 1,
        updated_at,
        items: vec![
            CollectionItem::Folder {
                id: "f1".to_string(),
                name: "folder".to_string(),
                items: vec![
                    request_item("r1"),
                    CollectionItem::Folder {
                        id: "f2".to_string(),
                        name: "inner".to_string(),
                        items: vec![request_item("r2")],
                        expanded: false,
                    },
                ],
                expanded: true,
            },
            request_item("r3"),
        ],
    }
}

fn meta(id: &str, updated_at: u64) -> CollectionMeta {
    CollectionMeta {
        id: id.to_string(),
        name: format!("collection {id}"),
        description: Some(format!("about {id}")),
        updated_at,
    }
}

fn environments() -> EnvironmentState {
    EnvironmentState {
        environments: vec![Environment {
            id: "dev".to_string(),
            name: "Development".to_string(),
            variables: vec![EnvironmentVariable {
                key: "host".to_string(),
                value: "localhost".to_string(),
                enabled: true,
            }],
            created_at: 5,
            updated_at: 6,
        }],
        active_environment_id: Some("dev".to_string()),
    }
}

fn updated_times(metas: &[CollectionMeta]) -> Vec<u64> {
    metas.iter().map(|m| m.updated_at).collect()
}

fn listed_ids(metas: &[CollectionMeta]) -> Vec<String> {
    metas.iter().map(|m| m.id.clone()).collect()
}

#[test]
fn files_are_named_by_identifier() {
    assert_eq!(collection_file_name("abc"), "abc.json");
    assert_eq!(collection_file_name(""), ".json");
    assert_eq!(collection_file_name("a.b"), "a.b.json");
    assert_eq!(collection_file_name("\u{e9}t\u{e9}"), "\u{e9}t\u{e9}.json");
    assert_eq!(collections_dir_name(), "collections");
    assert_eq!(environments_file_name(), "environments.json");
}

#[test]
fn documents_are_told_by_their_ending() {
    assert!(is_document_file("abc.json"));
    assert!(is_document_file("a.json"));
    assert!(is_document_file("a.b.json"));
    assert!(is_document_file("..json"));
    assert!(is_document_file("\u{e9}.json"));
    assert!(!is_document_file(".json"));
    assert!(!is_document_file("json"));
    assert!(!is_document_file(""));
    assert!(!is_document_file("abc.JSON"));
    assert!(!is_document_file("abc.json.bak"));
    assert!(!is_document_file("abc.jso"));
    assert!(!is_document_file("abcjson"));
    assert!(!is_document_file("abc.json "));
}

#[test]
fn saved_collection_is_fetched_unchanged() {
    let mut store = DocumentStore::new();
    let file = store.save(collection("c1", 7));
    assert_eq!(file, "c1.json");
    assert_eq!(store.get("c1"), Ok(&collection("c1", 7)));
}

#[test]
fn saving_again_overwrites() {
    let mut store = DocumentStore::new();
    store.save(collection("c1", 7));
    let mut changed = collection("c1", 8);
    changed.name = "renamed".to_string();
    changed.items.clear();
    store.save(changed);
    let fetched = store.get("c1").unwrap();
    assert_eq!(fetched.name, "renamed");
    assert_eq!(fetched.updated_at, 8);
    assert!(fetched.items.is_empty());
    assert_eq!(store.list().len(), 1);
}

#[test]
fn a_missing_collection_is_not_found() {
    let mut store = DocumentStore::new();
    store.save(collection("here", 1));
    let outcome = store.get("gone");
    assert_eq!(outcome, Err(Failure::NotFound("gone".to_string())));
    assert_eq!(outcome.unwrap_err().message(), "Collection not found: gone");
}

#[test]
fn a_corrupt_file_is_surfaced_by_get_and_skipped_by_list() {
    let mut store = DocumentStore::new();
    store.save(collection("good", 3));
    store.record_file("bad.json".to_string(), Stored::Corrupt("expected value".to_string()));
    store.record_file("locked.json".to_string(), Stored::Unreadable("denied".to_string()));
    assert_eq!(store.get("bad"), Err(Failure::CorruptDocument("expected value".to_string())));
    assert_eq!(store.get("locked"), Err(Failure::IoFailure("denied".to_string())));
    assert_eq!(store.list(), vec![meta("good", 3)]);
}

#[test]
fn deleting_twice_does_not_fail() {
    let mut store = DocumentStore::new();
    store.save(collection("c1", 1));
    store.save(collection("c2", 2));
    assert_eq!(store.delete("c1"), Some("c1.json".to_string()));
    assert_eq!(store.delete("c1"), None);
    assert_eq!(store.get("c1"), Err(Failure::NotFound("c1".to_string())));
    assert_eq!(store.get("c2"), Ok(&collection("c2", 2)));
}

#[test]
fn deleting_what_never_existed_is_no_failure() {
    let mut store = DocumentStore::new();
    assert_eq!(store.delete("nothing"), None);
    assert!(store.list().is_empty());
}

#[test]
fn listing_is_most_recent_first() {
    let mut store = DocumentStore::new();
    store.save(collection("a", 100));
    store.save(collection("b", 300));
    store.save(collection("c", 200));
    let listed = store.list();
    assert_eq!(updated_times(&listed), vec![300, 200, 100]);
    assert_eq!(listed, vec![meta("b", 300), meta("c", 200), meta("a", 100)]);
}

#[test]
fn listing_of_equal_times_puts_the_later_file_first() {
    let mut store = DocumentStore::new();
    store.save(collection("a", 5));
    store.save(collection("b", 5));
    store.save(collection("c", 9));
    store.save(collection("d", 5));
    assert_eq!(listed_ids(&store.list()), vec!["c", "d", "b", "a"]);
}

#[test]
fn listing_passes_over_files_that_are_no_documents() {
    let mut store = DocumentStore::new();
    store.record_file("notes.txt".to_string(), Stored::Document(collection("notes", 50)));
    store.record_file(".json".to_string(), Stored::Document(collection("", 60)));
    store.record_file("kept.json".to_string(), Stored::Document(collection("other-id", 70)));
    assert_eq!(store.list(), vec![meta("other-id", 70)]);
    assert_eq!(store.get("kept"), Ok(&collection("other-id", 70)));
    assert_eq!(store.get("other-id"), Err(Failure::NotFound("other-id".to_string())));
    assert_eq!(store.get(""), Ok(&collection("", 60)));
}

#[test]
fn sorting_handles_the_extremes() {
    assert!(sort_by_recency(&Vec::new()).is_empty());
    let metas = vec![meta("zero", 0), meta("max", u64::MAX), meta("one", 1)];
    assert_eq!(updated_times(&sort_by_recency(&metas)), vec![u64::MAX, 1, 0]);
    let already = vec![meta("x", 3), meta("y", 2), meta("z", 1)];
    assert_eq!(sort_by_recency(&already), already);
}

#[test]
fn import_replaces_a_collection_with_the_same_identifier() {
    let mut store = DocumentStore::new();
    store.save(collection("shared", 1));
    store.save(collection("other", 2));
    let incoming = Collection {
        id: "shared".to_string(),
        name: "imported".to_string(),
        description: None,
        created_at: 40,
        updated_at: 41,
        items: Vec::new(),
    };
    let outcome = store.import(Stored::Document(incoming.clone()));
    assert_eq!(outcome, Ok(incoming.clone()));
    assert_eq!(store.get("shared"), Ok(&incoming));
    assert_eq!(store.get("other"), Ok(&collection("other", 2)));
    assert_eq!(listed_ids(&store.list()), vec!["shared", "other"]);
}

#[test]
fn import_of_a_new_identifier_adds_a_collection() {
    let mut store = DocumentStore::new();
    store.save(collection("a", 1));
    assert_eq!(store.import(Stored::Document(collection("b", 2))), Ok(collection("b", 2)));
    assert_eq!(listed_ids(&store.list()), vec!["b", "a"]);
}

#[test]
fn a_failed_import_changes_nothing() {
    let mut store = DocumentStore::new();
    store.save(collection("a", 1));
    assert_eq!(
        store.import(Stored::Corrupt("missing field `id`".to_string())),
        Err(Failure::CorruptDocument("missing field `id`".to_string()))
    );
    assert_eq!(
        store.import(Stored::Unreadable("no such file".to_string())),
        Err(Failure::IoFailure("no such file".to_string()))
    );
    assert_eq!(store.list(), vec![meta("a", 1)]);
}

#[test]
fn a_fresh_store_loads_empty_environments() {
    let store = DocumentStore::new();
    assert_eq!(
        store.load_environments(),
        Ok(EnvironmentState { environments: Vec::new(), active_environment_id: None })
    );
    assert_eq!(EnvironmentState::empty().environments.len(), 0);
    assert!(store.list().is_empty());
}

#[test]
fn saved_environments_are_loaded_unchanged() {
    let mut store = DocumentStore::new();
    store.save_environments(environments());
    assert_eq!(store.load_environments(), Ok(environments()));
    store.save_environments(EnvironmentState::empty());
    assert_eq!(store.load_environments(), Ok(EnvironmentState::empty()));
}

#[test]
fn imported_environments_replace_the_saved_ones() {
    let mut store = DocumentStore::new();
    store.save_environments(environments());
    let incoming = EnvironmentState {
        environments: Vec::new(),
        active_environment_id: Some("stale".to_string()),
    };
    assert_eq!(store.import_environments(Stored::Document(incoming.clone())), Ok(incoming.clone()));
    assert_eq!(store.load_environments(), Ok(incoming));
}

#[test]
fn a_failed_environments_import_changes_nothing() {
    let mut store = DocumentStore::new();
    store.save_environments(environments());
    assert_eq!(
        store.import_environments(Stored::Corrupt("trailing comma".to_string())),
        Err(Failure::CorruptDocument("trailing comma".to_string()))
    );
    assert_eq!(
        store.import_environments(Stored::Unreadable("denied".to_string())),
        Err(Failure::IoFailure("denied".to_string()))
    );
    assert_eq!(store.load_environments(), Ok(environments()));
}

#[test]
fn an_environments_file_that_does_not_parse_is_surfaced() {
    let mut store = DocumentStore::new();
    store.record_environments(Stored::Corrupt("not json".to_string()));
    assert_eq!(store.load_environments(), Err(Failure::CorruptDocument("not json".to_string())));
    store.record_environments(Stored::Unreadable("denied".to_string()));
    assert_eq!(store.load_environments(), Err(Failure::IoFailure("denied".to_string())));
    store.record_environments(Stored::Document(environments()));
    assert_eq!(store.load_environments(), Ok(environments()));
}

#[test]
fn reading_a_stored_document_gives_it_or_the_failure() {
    let document: Stored<Collection> = Stored::Document(collection("x", 1));
    assert_eq!(read_stored(&document), Ok(&collection("x", 1)));
    let corrupt: Stored<Collection> = Stored::Corrupt("c".to_string());
    assert_eq!(read_stored(&corrupt), Err(Failure::CorruptDocument("c".to_string())));
    let unreadable: Stored<Collection> = Stored::Unreadable("u".to_string());
    assert_eq!(read_stored(&unreadable), Err(Failure::IoFailure("u".to_string())));
}

#[test]
fn copies_are_deep_and_equal() {
    let deep = collection("deep", 9);
    let copy = deep.clone();
    assert_eq!(copy, deep);
    assert_eq!(copy_items(&deep.items), deep.items);
    assert_eq!(environments().clone(), environments());
    assert_eq!(copy_text(&Some("t".to_string())), Some("t".to_string()));
    assert_eq!(copy_text(&None), None);
    assert_eq!(meta("m", 2).clone(), meta("m", 2));
}

#[test]
fn a_meta_is_the_projection_of_its_collection() {
    assert_eq!(collection("p", 77).meta(), meta("p", 77));
    let mut plain = collection("q", 1);
    plain.description = None;
    assert_eq!(plain.meta().description, None);
}
