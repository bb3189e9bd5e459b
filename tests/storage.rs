use backend::doc_status::{
    DocProcessingStatus, DocRecord, DocStatus, JsonDocStatusConfig, JsonDocStatusStorage,
};
use backend::json::{JsonArray, JsonObject, JsonValue};
use backend::kv_store::{JsonKvStorage, JsonKvStorageConfig};

fn obj(pairs: Vec<(&str, JsonValue)>) -> JsonValue {
    let mut o = JsonObject::Empty;
    for (k, v) in pairs {
        o = o.set(k.to_string(), v);
    }
    JsonValue::Object(o)
}

fn s(v: &str) -> JsonValue {
    JsonValue::Str(v.to_string())
}

fn field<'a>(v: &'a JsonValue, k: &str) -> Option<&'a JsonValue> {
    v.field(&k.to_string())
}

fn kv_config(namespace: &str) -> JsonKvStorageConfig {
    JsonKvStorageConfig {
        working_dir: "/data".to_string(),
        namespace: namespace.to_string(),
        workspace: None,
    }
}

/// Reopens a store from what a flush of `storage` would write.
fn reopen_kv(storage: &JsonKvStorage, namespace: &str, written: Vec<(String, JsonValue)>) -> JsonKvStorage {
    let mut reopened = JsonKvStorage::new(kv_config(namespace));
    let _ = storage;
    reopened.initialize(written);
    reopened
}

#[test]
fn json_kv_roundtrip_delete_and_reload() {
    let mut storage = JsonKvStorage::new(kv_config("kv_roundtrip"));
    assert!(!storage.initialize(Vec::new()));

    let records = vec![
        ("doc-1".to_string(), obj(vec![("value", JsonValue::Int(1))])),
        (
            "doc-2".to_string(),
            obj(vec![
                ("value", JsonValue::Int(2)),
                ("create_time", JsonValue::Int(1)),
                ("update_time", JsonValue::Int(1)),
            ]),
        ),
    ];
    storage.upsert(records, 1_700_000_000);
    let snapshot = storage.snapshot_if_dirty().expect("store is dirty after upsert");
    storage.mark_synced();
    assert!(storage.snapshot_if_dirty().is_none());

    let stored = storage.get_by_id(&"doc-1".to_string());
    assert!(stored.is_some());

    let existing = storage.filter_keys(&vec!["doc-1".to_string(), "missing".to_string()]);
    assert!(!existing.contains(&"doc-1".to_string()));
    assert!(existing.contains(&"missing".to_string()));

    let mut reopened = reopen_kv(&storage, "kv_roundtrip", snapshot);
    let all = reopened.get_all();
    assert_eq!(all.len(), 2);
    assert!(all.iter().any(|(k, _)| k == "doc-1"));

    reopened.delete(&vec!["doc-1".to_string()]);
    assert!(reopened.is_dirty());
    reopened.mark_synced();
    assert!(reopened.get_by_id(&"doc-1".to_string()).is_none());

    reopened.drop_all();
    assert!(reopened.get_all().is_empty());
    assert!(reopened.is_dirty());
}

#[test]
fn json_kv_migrates_legacy_cache_structure() {
    let legacy = vec![(
        "modeA".to_string(),
        obj(vec![
            ("hash1", obj(vec![("cache_type", s("extract")), ("return", s("value1"))])),
            ("hash2", obj(vec![("cache_type", s("embed")), ("return", s("value2"))])),
        ]),
    )];
    let mut storage = JsonKvStorage::new(kv_config("legacy_cache"));
    let migrated = storage.initialize(legacy);
    assert!(migrated);

    let all = storage.get_all();
    assert!(all.iter().any(|(k, _)| k == "modeA:extract:hash1"));
    assert!(all.iter().any(|(k, _)| k == "modeA:embed:hash2"));
}

fn status(
    id: &str,
    st: DocStatus,
    summary: Option<&str>,
    length: Option<i64>,
    created: &str,
    updated: &str,
    path: &str,
    track: &str,
    chunks: Vec<&str>,
    metadata: Option<JsonValue>,
    error: Option<&str>,
) -> DocProcessingStatus {
    DocProcessingStatus {
        id: Some(id.to_string()),
        status: st,
        content_summary: summary.map(|x| x.to_string()),
        content_length: length,
        created_at: Some(created.to_string()),
        updated_at: Some(updated.to_string()),
        file_path: Some(path.to_string()),
        track_id: Some(track.to_string()),
        chunks_list: Some(chunks.into_iter().map(|c| c.to_string()).collect()),
        metadata,
        error_msg: error.map(|x| x.to_string()),
    }
}

fn seeded_doc_status() -> JsonDocStatusStorage {
    let config = JsonDocStatusConfig {
        working_dir: "/data".to_string(),
        namespace: "doc_status".to_string(),
        workspace: Some("workspace".to_string()),
    };
    let mut storage = JsonDocStatusStorage::new(config);
    storage.initialize(Vec::new());
    let docs = vec![
        (
            "doc-1".to_string(),
            status(
                "doc-1",
                DocStatus::PROCESSED,
                Some("summary 1"),
                Some(100),
                "2025-02-10T12:00:00Z",
                "2025-02-10T12:05:00Z",
                "/tmp/doc-1.pdf",
                "track-1",
                vec!["chunk-a", "chunk-b"],
                Some(obj(vec![("score", JsonValue::Number("0.99".to_string()))])),
                None,
            ),
        ),
        (
            "doc-2".to_string(),
            status(
                "doc-2",
                DocStatus::PROCESSING,
                None,
                None,
                "2025-02-10T12:01:00Z",
                "2025-02-10T12:06:00Z",
                "/tmp/doc-2.pdf",
                "track-1",
                vec!["chunk-x"],
                None,
                Some("pending"),
            ),
        ),
        (
            "doc-3".to_string(),
            status(
                "doc-3",
                DocStatus::PROCESSED,
                Some("summary 3"),
                Some(250),
                "2025-02-10T12:02:00Z",
                "2025-02-10T12:07:00Z",
                "/tmp/doc-3.pdf",
                "track-2",
                vec!["chunk-y"],
                Some(obj(vec![("tags", JsonValue::Array(JsonArray::Item(Box::new(s("science")), Box::new(JsonArray::Empty))))])),
                None,
            ),
        ),
    ];
    storage.upsert(docs);
    storage
}

fn count_of(counts: &[(DocStatus, usize)], st: DocStatus) -> Option<usize> {
    counts.iter().find(|(s, _)| *s == st).map(|(_, c)| *c)
}

#[test]
fn json_doc_status_roundtrip_and_pagination() {
    let mut storage = seeded_doc_status();
    assert!(storage.snapshot_if_dirty().is_some());
    storage.mark_synced();

    let counts = storage.status_counts();
    assert_eq!(count_of(&counts, DocStatus::PROCESSED), Some(2));

    let counts_with_total = storage.status_counts_with_total();
    assert_eq!(count_of(&counts_with_total, DocStatus::ALL), Some(3));

    let by_status = storage.docs_by_status(DocStatus::PROCESSED);
    assert_eq!(by_status.len(), 2);

    let by_track = storage.docs_by_track_id(&"track-1".to_string());
    assert_eq!(by_track.len(), 2);

    let (page, total) = storage.docs_paginated(Some(DocStatus::PROCESSED), 1, 2, "updated_at", "desc");
    assert_eq!(total, 2);
    assert_eq!(page.len(), 2);

    storage.delete(&vec!["doc-2".to_string()]);
    let written = storage.snapshot_if_dirty().expect("dirty after delete");
    storage.mark_synced();
    assert!(storage.get_by_id(&"doc-2".to_string()).is_none());

    let mut reopened = JsonDocStatusStorage::new(JsonDocStatusConfig {
        working_dir: "/data".to_string(),
        namespace: "doc_status".to_string(),
        workspace: Some("workspace".to_string()),
    });
    reopened.initialize(written);
    assert!(reopened.get_by_id(&"doc-1".to_string()).is_some());

    reopened.drop_all();
    assert!(reopened.status_counts().is_empty());
}

#[test]
fn pagination_orders_by_update_time() {
    let storage = seeded_doc_status();
    let (page1, total) = storage.docs_paginated(None, 1, 2, "updated_at", "desc");
    assert_eq!(total, 3);
    // The page size is clamped up to 10, so all three fit on the first page.
    let ids: Vec<&str> = page1.iter().map(|(id, _)| id.as_str()).collect();
    assert_eq!(ids, vec!["doc-3", "doc-2", "doc-1"]);
    let (page2, _) = storage.docs_paginated(None, 2, 2, "updated_at", "desc");
    assert!(page2.is_empty());
    let (asc, _) = storage.docs_paginated(None, 0, 500, "bogus", "ASC");
    let ids: Vec<&str> = asc.iter().map(|(id, _)| id.as_str()).collect();
    assert_eq!(ids, vec!["doc-1", "doc-2", "doc-3"]);
    let (default_dir, _) = storage.docs_paginated(None, 1, 2, "updated_at", "");
    let default_dir: Vec<&str> = default_dir.iter().map(|(id, _)| id.as_str()).collect();
    assert_eq!(default_dir, vec!["doc-3", "doc-2", "doc-1"]);
    let (again, _) = storage.docs_paginated(None, 1, 2, "updated_at", "desc");
    let again: Vec<&str> = again.iter().map(|(id, _)| id.as_str()).collect();
    assert_eq!(again, vec!["doc-3", "doc-2", "doc-1"]);
}

#[test]
fn pagination_pages_concatenate() {
    let config = JsonDocStatusConfig {
        working_dir: "/data".to_string(),
        namespace: "doc_status".to_string(),
        workspace: None,
    };
    let mut storage = JsonDocStatusStorage::new(config);
    let mut docs = Vec::new();
    for i in 0..25 {
        let id = format!("doc-{:02}", i);
        let updated = format!("2025-02-10T12:{:02}:00Z", (i * 7) % 25);
        docs.push((
            id.clone(),
            status(&id, DocStatus::PENDING, None, None, "2025-02-10T11:00:00Z", &updated, "f", "t", vec![], None, None),
        ));
    }
    storage.upsert(docs);
    let (all, total) = storage.docs_paginated(None, 1, 200, "updated_at", "desc");
    assert_eq!(total, 25);
    let mut joined = Vec::new();
    for p in 1..=3 {
        let (page, _) = storage.docs_paginated(None, p, 10, "updated_at", "desc");
        joined.extend(page.into_iter().map(|(id, _)| id));
    }
    let all: Vec<String> = all.into_iter().map(|(id, _)| id).collect();
    assert_eq!(joined, all);
}

#[test]
fn doc_status_normalizes_missing_path_and_metadata() {
    let mut storage = JsonDocStatusStorage::new(JsonDocStatusConfig {
        working_dir: "/data".to_string(),
        namespace: "doc_status".to_string(),
        workspace: None,
    });
    let rec = DocRecord {
        status: DocStatus::PENDING,
        content_summary: None,
        content_length: None,
        created_at: None,
        updated_at: None,
        file_path: None,
        track_id: None,
        chunks_list: vec![],
        metadata: JsonValue::Null,
        error_msg: None,
    };
    storage.initialize(vec![("doc-x".to_string(), rec)]);
    let st = storage.get_by_id(&"doc-x".to_string()).unwrap();
    assert_eq!(st.file_path.as_deref(), Some("no-file-path"));
    assert!(matches!(st.metadata, Some(JsonValue::Object(JsonObject::Empty))));
    let found = storage.get_doc_by_file_path(&"no-file-path".to_string()).unwrap();
    assert_eq!(found.id.as_deref(), Some("doc-x"));
    assert!(storage.get_doc_by_file_path(&"other".to_string()).is_none());
    assert_eq!(storage.file_name(), "doc_status_doc_status.json");
    assert_eq!(storage.final_namespace(), "__doc_status");
}

#[test]
fn upsert_then_get_decorates_record() {
    let mut storage = JsonKvStorage::new(kv_config("text_chunks"));
    storage.upsert(vec![("k".to_string(), s("plain"))], 42);
    let rec = storage.get_by_id(&"k".to_string()).unwrap();
    assert!(matches!(field(&rec, "_id"), Some(JsonValue::Str(x)) if x == "k"));
    assert!(matches!(field(&rec, "update_time"), Some(JsonValue::Int(42))));
    assert!(matches!(field(&rec, "create_time"), Some(JsonValue::Int(42))));
    assert!(matches!(field(&rec, "value"), Some(JsonValue::Str(x)) if x == "plain"));
    assert!(matches!(field(&rec, "llm_cache_list"), Some(JsonValue::Array(JsonArray::Empty))));
    // A second upsert keeps the creation time and leaves one entry.
    storage.upsert(vec![("k".to_string(), rec.deep_clone())], 50);
    let rec2 = storage.get_by_id(&"k".to_string()).unwrap();
    assert!(matches!(field(&rec2, "create_time"), Some(JsonValue::Int(42))));
    assert!(matches!(field(&rec2, "update_time"), Some(JsonValue::Int(50))));
    assert_eq!(storage.get_all().len(), 1);
}

#[test]
fn read_defaults_times_to_zero() {
    let mut storage = JsonKvStorage::new(kv_config("full_docs"));
    storage.initialize(vec![("d".to_string(), obj(vec![("content", s("x"))]))]);
    let rec = storage.get_by_id(&"d".to_string()).unwrap();
    assert!(matches!(field(&rec, "create_time"), Some(JsonValue::Int(0))));
    assert!(matches!(field(&rec, "update_time"), Some(JsonValue::Int(0))));
    assert!(field(&rec, "llm_cache_list").is_none());
    assert_eq!(storage.file_name(), "kv_store_full_docs.json");
}

#[test]
fn flat_cache_is_not_migrated() {
    let flat = vec![("m:extract:h".to_string(), obj(vec![("return", s("x"))]))];
    let mut storage = JsonKvStorage::new(kv_config("llm_response_cache"));
    assert!(!storage.initialize(flat));
    assert!(storage.get_by_id(&"m:extract:h".to_string()).is_some());
}

#[test]
fn legacy_cache_without_type_defaults_to_extract() {
    let legacy = vec![(
        "modeA".to_string(),
        obj(vec![
            ("h1", obj(vec![("cache_type", s("extract")), ("return", s("x"))])),
            ("h2", obj(vec![("cache_type", s("embed")), ("return", s("y"))])),
            ("h3", obj(vec![("return", s("z"))])),
        ]),
    )];
    let mut storage = JsonKvStorage::new(kv_config("llm_response_cache"));
    assert!(storage.initialize(legacy));
    let all = storage.get_all();
    assert_eq!(all.len(), 3);
    let e = storage.get_by_id(&"modeA:embed:h2".to_string()).unwrap();
    assert!(matches!(field(&e, "return"), Some(JsonValue::Str(x)) if x == "y"));
    assert!(storage.get_by_id(&"modeA:extract:h3".to_string()).is_some());
}

#[test]
fn workspace_sets_namespace_and_directory() {
    let storage = JsonKvStorage::new(JsonKvStorageConfig {
        working_dir: "/data".to_string(),
        namespace: "full_docs".to_string(),
        workspace: Some("w1".to_string()),
    });
    assert_eq!(storage.final_namespace(), "w1_full_docs");
    assert_eq!(storage.dir(), "/data/w1");
    let plain = JsonKvStorage::new(JsonKvStorageConfig {
        working_dir: "/data".to_string(),
        namespace: "full_docs".to_string(),
        workspace: Some(String::new()),
    });
    assert_eq!(plain.final_namespace(), "__full_docs");
    assert_eq!(plain.dir(), "/data");
}

#[test]
fn legacy_scenario_flattens_and_keeps_return() {
    let legacy = vec![(
        "modeA".to_string(),
        obj(vec![
            ("h1", obj(vec![("cache_type", s("extract")), ("return", s("x"))])),
            ("h2", obj(vec![("cache_type", s("embed")), ("return", s("y"))])),
        ]),
    )];
    let mut storage = JsonKvStorage::new(kv_config("llm_response_cache"));
    assert!(storage.initialize(legacy));
    assert!(!storage.is_dirty());
    let all = storage.get_all();
    assert_eq!(all.len(), 2);
    let x = storage.get_by_id(&"modeA:extract:h1".to_string()).unwrap();
    assert!(matches!(field(&x, "return"), Some(JsonValue::Str(v)) if v == "x"));
    let raw = storage.snapshot();
    let mut keys: Vec<&str> = raw.iter().map(|(k, _)| k.as_str()).collect();
    keys.sort();
    assert_eq!(keys, vec!["modeA:embed:h2", "modeA:extract:h1"]);
    // The raw contents carry no read decoration.
    assert!(raw.iter().all(|(_, v)| field(v, "_id").is_none()));
}

#[test]
fn clean_store_has_no_snapshot_and_empty_upsert_keeps_it_clean() {
    let mut storage = JsonKvStorage::new(kv_config("full_docs"));
    storage.initialize(Vec::new());
    storage.upsert(Vec::new(), 5);
    assert!(!storage.is_dirty());
    assert!(storage.snapshot_if_dirty().is_none());
    storage.delete(&vec!["absent".to_string()]);
    assert!(!storage.is_dirty());
    storage.drop_all();
    assert!(!storage.is_dirty());
}
