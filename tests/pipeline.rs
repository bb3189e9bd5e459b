use backend::chunker::{chunking_by_token_size, ChunkConfig, ChunkError, TiktokenTokenizer, TokenizerChunker};
use backend::doc_status::{DocStatus, JsonDocStatusConfig, JsonDocStatusStorage};
use backend::documents::{enqueued_candidate, normalize_extension, split_file_name, DocumentManager, FilenameError};
use backend::graph::build_graph_payloads;
use backend::ids::{chunk_id, compute_mdhash_id, doc_id, entity_id, error_id, job_id, relation_id, signed_decimal_string};
use backend::json::{JsonArray, JsonObject, JsonValue};
use backend::kv_store::{JsonKvStorage, JsonKvStorageConfig};
use backend::llm::{failure_detail, next_poll_delay, next_post_delay, poll_state, post_action, post_backoff, structured_candidates, PollState, PostAction};
use backend::pipeline::{chunk_records, document_content, pending_chunks_for_doc, DocumentError, plan_pending_documents, sanitize_text, summarize_content, with_chunk_status, PipelineConfig};
use backend::scheduler::{
    apply_rollup, process_chunk_result, record_failure, rollup, schedule_tick, ChunkStatus, ChunkUpdate, Job, JobResult, JobStatus, Queue, QueueError, Rollup,
};
use backend::schemas::{is_disease, is_symptom, matches_query, EntitiesRelationships, EntityType, ExtractedEntity, ExtractedRelationship};
use backend::status_service::{DocStatusService, PendingDocument};
use backend::chunker::Chunk;
use backend::extractor::{ExtractError, Utf8DocumentExtractor};
use backend::graph::{EntityNode, RelationEdge};
use backend::manager::{StorageManager, StoragesStatus};

fn obj(pairs: Vec<(&str, JsonValue)>) -> JsonValue {
    let mut o = JsonObject::Empty;
    for (k, v) in pairs {
        o = o.set(k.to_string(), v);
    }
    JsonValue::Object(o)
}

fn s(v: &str) -> JsonValue {
    JsonValue::Str(v.to_string())
}

fn str_field(v: &JsonValue, k: &str) -> Option<String> {
    v.str_field(&k.to_string()).cloned()
}

fn kv(namespace: &str) -> JsonKvStorage {
    JsonKvStorage::new(JsonKvStorageConfig { working_dir: "/data".to_string(), namespace: namespace.to_string(), workspace: None })
}

fn doc_status_store() -> JsonDocStatusStorage {
    JsonDocStatusStorage::new(JsonDocStatusConfig { working_dir: "/data".to_string(), namespace: "doc_status".to_string(), workspace: None })
}

#[test]
fn mdhash_id_is_prefix_and_sha256_hex() {
    assert_eq!(
        compute_mdhash_id("abc", "doc-"),
        "doc-ba7816bf8f01cfea414140de5dae2223b00361a396177a9cb410ff61f20015ad"
    );
    assert_eq!(chunk_id("abc"), "chunk-ba7816bf8f01cfea414140de5dae2223b00361a396177a9cb410ff61f20015ad");
    assert_eq!(chunk_id("same"), chunk_id("same"));
    assert_ne!(chunk_id("same"), chunk_id("other"));
    assert_eq!(doc_id("").len(), 4 + 64);
    assert_eq!(entity_id("d", "n", "Gene"), compute_mdhash_id("d:n:Gene", "entity-"));
    assert_eq!(relation_id("d", "a", "b"), compute_mdhash_id("d:a:b", "rel-"));
    assert_eq!(error_id("t", "f.txt"), compute_mdhash_id("error-t-f.txt", "error-"));
    assert_eq!(job_id("doc-1", -12), compute_mdhash_id("doc-1:-12", "job-"));
    assert_eq!(signed_decimal_string(i64::MIN), "-9223372036854775808");
    assert_eq!(signed_decimal_string(1700000000), "1700000000");
}

#[test]
fn chunker_windows_cover_text() {
    let tok = TiktokenTokenizer::new().expect("tokenizer");
    let content = "foo ".repeat(1200);
    let tokens = tok.encode(&content).expect("encodes");
    let chunks = chunking_by_token_size(&tok, &content, None, false, 50, 500).ok().expect("chunks");
    assert!(chunks.len() >= 2);
    let total: usize = chunks.iter().map(|c| c.tokens).sum();
    assert_eq!(total - (chunks.len() - 1) * 50, tokens.len());
    for (i, c) in chunks.iter().enumerate() {
        assert_eq!(c.chunk_order_index, i);
        assert!(c.tokens <= 500);
        let start = i * 450;
        let end = (start + 500).min(tokens.len());
        let text = tok.decode(&tokens[start..end]).unwrap();
        assert_eq!(c.content, text.trim());
    }
}

#[test]
fn chunker_rejects_large_overlap_and_empty_text() {
    let tok = TiktokenTokenizer::new().expect("tokenizer");
    let r = chunking_by_token_size(&tok, "abc", None, false, 10, 10);
    assert!(matches!(r, Err(ChunkError::OverlapTooLarge { overlap: 10, max: 10 })));
    let empty = chunking_by_token_size(&tok, "", None, false, 1, 10).ok().unwrap();
    assert!(empty.is_empty());
}

#[test]
fn chunker_splits_by_delimiter() {
    let tok = TiktokenTokenizer::new().expect("tokenizer");
    let only = chunking_by_token_size(&tok, "a b\n\n c \n\nd", Some("\n\n"), true, 1, 2).ok().unwrap();
    let texts: Vec<&str> = only.iter().map(|c| c.content.as_str()).collect();
    assert_eq!(texts, vec!["a b", "c", "d"]);
    let long = "word ".repeat(30);
    let text = format!("short\n\n{}", long);
    let bounded = chunking_by_token_size(&tok, &text, Some("\n\n"), false, 2, 10).ok().unwrap();
    assert_eq!(bounded[0].content, "short");
    assert!(bounded.len() > 2);
    for (i, c) in bounded.iter().enumerate() {
        assert_eq!(c.chunk_order_index, i);
        assert!(c.tokens <= 10);
    }
}

#[test]
fn tokenizer_chunker_ids_are_content_addressed() {
    let chunker = TokenizerChunker::new(TiktokenTokenizer::new().expect("tokenizer"));
    let config = ChunkConfig { max_tokens: 20, overlap_tokens: 5, split_by_character: None, split_by_character_only: false };
    let chunks = chunker.chunk(&"alpha beta gamma ".repeat(20), &config).ok().unwrap();
    assert!(chunks.len() > 1);
    for (i, c) in chunks.iter().enumerate() {
        assert_eq!(c.id, chunk_id(&c.content));
        assert_eq!(c.order, i);
    }
    let d = ChunkConfig::default();
    assert_eq!((d.max_tokens, d.overlap_tokens), (500, 50));
}

#[test]
fn text_sanitizing_and_summary() {
    assert_eq!(sanitize_text("  a\r\nb \r "), "a\nb");
    assert_eq!(summarize_content("  short  "), "short");
    let long = "x".repeat(250);
    let summary = summarize_content(&long);
    assert_eq!(summary.chars().count(), 201);
    assert!(summary.ends_with('\u{2026}'));
}

#[test]
fn filenames_are_sanitized_and_checked() {
    let exts: Vec<String> = vec![".txt".into(), ".MD".into(), "json".into(), ".csv".into()];
    let dm = DocumentManager::new("/data/input".to_string(), Some("w1".to_string()), &exts);
    assert_eq!(dm.input_dir(), "/data/input/w1");
    assert_eq!(dm.sanitize_filename("  a.txt "), Ok("a.txt".to_string()));
    assert_eq!(dm.sanitize_filename("   "), Err(FilenameError::Empty));
    assert_eq!(dm.sanitize_filename("../a.txt"), Err(FilenameError::Invalid));
    assert_eq!(dm.sanitize_filename("a/b.txt"), Err(FilenameError::Invalid));
    assert_eq!(dm.sanitize_filename("a\\b.txt"), Err(FilenameError::Invalid));
    assert!(dm.is_supported_file("notes.MD"));
    assert!(dm.is_supported_file("dir/a.txt"));
    assert!(!dm.is_supported_file("a.pdf"));
    assert!(!dm.is_supported_file(".txt"));
    assert!(!dm.is_supported_file("README"));
    assert_eq!(normalize_extension(".TXT"), "txt");
}

#[test]
fn quarantine_names_avoid_collisions() {
    assert_eq!(enqueued_candidate("a.txt", 0), "a.txt");
    assert_eq!(enqueued_candidate("a.txt", 1), "a_1.txt");
    assert_eq!(enqueued_candidate("archive.tar.gz", 12), "archive.tar_12.gz");
    assert_eq!(enqueued_candidate("README", 2), "README_2");
    assert_eq!(enqueued_candidate(".env", 3), ".env_3");
    let (stem, ext) = split_file_name("a.b.c");
    assert_eq!((stem.as_str(), ext.as_deref()), ("a.b", Some("c")));
}

#[test]
fn llm_retry_and_poll_decisions() {
    assert_eq!(post_action(200, 0), PostAction::Poll);
    assert_eq!(post_action(429, 0), PostAction::Retry);
    assert_eq!(post_action(503, 3), PostAction::Retry);
    assert_eq!(post_action(500, 4), PostAction::Exhausted);
    assert_eq!(post_action(400, 0), PostAction::Fail);
    assert_eq!(next_post_delay(300, 0), 540);
    assert_eq!(next_post_delay(972, 7), 1750 + 7);
    let d = post_backoff(300);
    assert!((540..790).contains(&d));
    assert_eq!(next_poll_delay(2000), 4000);
    assert_eq!(next_poll_delay(16000), 20000);
    assert_eq!(poll_state(&obj(vec![("status", s("completed"))])), PollState::Completed);
    assert_eq!(poll_state(&obj(vec![("status", s("cancelled"))])), PollState::Failed);
    assert_eq!(poll_state(&obj(vec![("status", s("queued"))])), PollState::Running);
    let failed = obj(vec![("last_error", obj(vec![("message", s("boom"))]))]);
    assert_eq!(failure_detail(&failed).as_deref(), Some("boom"));
}

#[test]
fn structured_candidates_follow_documented_order() {
    let block = obj(vec![("text", s("{\"entities\":[]}"))]);
    let item = obj(vec![("parsed", s("p")), ("content", JsonValue::Array(JsonArray::Item(Box::new(block), Box::new(JsonArray::Empty))))]);
    let root = obj(vec![
        ("output_text", s("t")),
        ("output", JsonValue::Array(JsonArray::Item(Box::new(item), Box::new(JsonArray::Empty)))),
    ]);
    let c = structured_candidates(&root);
    let texts: Vec<String> = c.iter().map(|v| match v { JsonValue::Str(x) => x.clone(), _ => String::new() }).collect();
    assert_eq!(texts, vec!["t".to_string(), "p".to_string(), "{\"entities\":[]}".to_string()]);
}

#[test]
fn graph_helpers_match_types_and_queries() {
    assert!(is_symptom("symptom"));
    assert!(is_disease("DISEASE"));
    assert!(!is_disease("Gene"));
    assert!(matches_query("Hutchinson Progeria", "progeria"));
    assert!(!matches_query("Gene X", "progeria"));
    assert_eq!(EntityType::DrugCompoundChemicalSubstance.as_str(), "Drug/Compound/Chemical Substance");
    assert_eq!(EntityType::all().len(), 37);
    assert_eq!(EntityType::from_name("Clinical Trial"), Some(EntityType::ClinicalTrial));
    assert_eq!(EntityType::from_name("Compound"), None);
}

fn entity(name: &str, t: EntityType) -> ExtractedEntity {
    ExtractedEntity { entity_name: name.to_string(), entity_type: t, entity_description: format!("{} desc", name) }
}

fn rel(a: &str, b: &str) -> ExtractedRelationship {
    ExtractedRelationship { source_entity: a.to_string(), target_entity: b.to_string(), relationship_keywords: vec!["k".to_string()], relationship_description: "d".to_string() }
}

#[test]
fn relationships_resolve_within_the_batch() {
    let er = EntitiesRelationships {
        entities: vec![entity("A", EntityType::Gene), entity("B", EntityType::DiseaseDisorder), entity("A", EntityType::Gene)],
        relationships: vec![rel("A", "B"), rel("A", "Missing")],
    };
    let (ents, rels) = build_graph_payloads(&"doc-1".to_string(), &"chunk-1".to_string(), 0, &er);
    assert_eq!(ents.len(), 2);
    assert_eq!(rels.len(), 1);
    assert_eq!(rels[0].0, relation_id("doc-1", "A", "B"));
    let v = &rels[0].1;
    assert_eq!(str_field(v, "source_entity_id"), Some(entity_id("doc-1", "A", "Gene")));
    assert_eq!(str_field(v, "target_entity_id"), Some(entity_id("doc-1", "B", "Disease/Disorder")));
    assert!(ents.iter().any(|(k, _)| Some(k.clone()) == str_field(v, "target_entity_id")));
}

#[test]
fn queue_is_bounded_fifo() {
    let mut q = Queue::new(2);
    let j1 = Job::new_at("doc-1".to_string(), 1, 0);
    let j2 = Job::new_at("doc-2".to_string(), 1, 0);
    let j3 = Job::new_at("doc-3".to_string(), 1, 0);
    let id1 = j1.job_id.clone();
    assert_eq!(q.enqueue(id1.clone(), j1), Ok(id1.clone()));
    let dup = Job::new_at("doc-1".to_string(), 1, 0);
    assert_eq!(q.enqueue(id1.clone(), dup), Err(QueueError::AlreadyQueued));
    let id2 = j2.job_id.clone();
    assert!(q.enqueue(id2.clone(), j2).is_ok());
    assert_eq!(q.enqueue(j3.job_id.clone(), j3), Err(QueueError::CapacityReached));
    assert_eq!(q.peek(0), Some(id1.clone()));
    assert_eq!(q.mark_processing(&id1), Ok(()));
    assert_eq!(q.peek(0), Some(id2.clone()));
    assert_eq!(q.mark_done(&"nope".to_string()), Err(QueueError::UnknownJob));
    let first = q.dequeue().unwrap();
    assert_eq!(first.job_id, id1);
    assert_eq!(first.job_status, JobStatus::Processing);
    let mut spent = Job::new_at("doc-9".to_string(), 1, 0);
    spent.current_retry = 6;
    assert_eq!(q.requeue(spent, 5), Err(QueueError::MaxRetriesReached));
    let later = Job { next_run_at: 100, ..Job::new_at("doc-4".to_string(), 2, 0) };
    let later_id = later.job_id.clone();
    q.mark_processing(&id2).unwrap();
    q.requeue(later, 100).unwrap();
    assert_eq!(q.peek(99), None);
    assert_eq!(q.peek(100), Some(later_id));
}

#[test]
fn retries_stop_after_the_limit() {
    let c = backend::scheduler::chunk_to_chunk_state(
        vec![Chunk { id: "c".into(), content: "x".into(), order: 0, token_count: 1 }],
        &"d".to_string(),
        0,
    )
    .pop()
    .unwrap();
    let mut state = c;
    let mut dispatches = 1;
    loop {
        let (next, resend) = record_failure(state, "err".to_string());
        state = next;
        if !resend {
            break;
        }
        dispatches += 1;
    }
    assert_eq!(dispatches, 11);
    assert_eq!(state.chunk_status, ChunkStatus::Failed);
    assert_eq!(state.error.as_deref(), Some("err"));
    assert_eq!(rollup(&vec![state]), Some(Rollup::Failed));
}

#[test]
fn ingest_is_idempotent_by_content() {
    let mut full_docs = kv("full_docs");
    let mut status = doc_status_store();
    let content = "foo ".repeat(1200);
    let docs = vec![(content.clone(), "a.txt".to_string())];
    let now = "2025-01-01T00:00:00+00:00".to_string();
    let planned = plan_pending_documents(&docs, &"track".to_string(), &status, &now);
    assert_eq!(planned.len(), 1);
    let id = planned[0].id.clone();
    assert_eq!(id, doc_id(content.trim()));
    assert_eq!(planned[0].content, content);
    DocStatusService.enqueue_pending(planned, &mut full_docs, &mut status, 1);
    let stored = full_docs.get_by_id(&id).unwrap();
    assert_eq!(str_field(&stored, "content"), Some(content.clone()));
    assert_eq!(document_content(&full_docs, &id), Ok(content.clone()));
    assert_eq!(document_content(&full_docs, &"doc-none".to_string()), Err(DocumentError::Missing));
    assert_eq!(status.get_by_id(&id).unwrap().status, DocStatus::PENDING);
    let again = plan_pending_documents(&vec![(content.clone(), "a2.txt".to_string())], &"t2".to_string(), &status, &now);
    assert!(again.is_empty());
    assert_eq!(full_docs.get_all().len(), 1);
    let blank = plan_pending_documents(&vec![("  \r\n ".to_string(), "b.txt".to_string())], &"t".to_string(), &status, &now);
    assert!(blank.is_empty());
}

fn ten_chunks(doc: &str) -> Vec<Chunk> {
    (0..10)
        .map(|i| {
            let content = format!("chunk text {}", i);
            Chunk { id: chunk_id(&content), content, order: 9 - i, token_count: 3 }
        })
        .collect()
}

#[test]
fn partial_failure_then_recovery() {
    let doc = "doc-p".to_string();
    let mut text_chunks = kv("text_chunks");
    let mut entities = kv("full_entities");
    let mut relations = kv("full_relations");
    let mut status = doc_status_store();
    let planned = vec![PendingDocument {
        id: doc.clone(),
        content: "c".into(),
        summary: "c".into(),
        length: 1,
        file_path: "p.txt".into(),
        track_id: "t".into(),
        created_at: "2025-01-01T00:00:00+00:00".into(),
    }];
    let mut full_docs = kv("full_docs");
    DocStatusService.enqueue_pending(planned, &mut full_docs, &mut status, 1);
    text_chunks.upsert(chunk_records(&doc, &ten_chunks(&doc), &"p.txt".to_string()), 1);

    let mut queue = Queue::new(10);
    let job = Job::new_at(doc.clone(), 1, 0);
    let jid = job.job_id.clone();
    queue.enqueue(jid.clone(), job).unwrap();
    let plan = schedule_tick(&mut queue, &text_chunks.get_all(), &mut status, 0, 2).expect("a job is due");
    assert_eq!(plan.dispatches.len(), 10);
    let orders: Vec<usize> = plan.dispatches.iter().map(|d| d.chunk.chunk_order_index).collect();
    assert_eq!(orders, (0..10).collect::<Vec<_>>());
    assert_eq!(status.get_by_id(&doc).unwrap().status, DocStatus::PROCESSING);

    let mut outcome = None;
    for d in plan.dispatches {
        let cid = d.chunk.chunk_id.clone();
        queue.update_chunk(&jid, &cid, ChunkUpdate::Running);
        if d.chunk.chunk_order_index % 3 == 2 {
            let mut c = d.chunk;
            loop {
                let (next, resend) = record_failure(c, "llm down".to_string());
                queue.update_chunk(&jid, &cid, ChunkUpdate::Failure("llm down".to_string()));
                c = next;
                if !resend {
                    break;
                }
            }
            let rec = text_chunks.get_by_id(&cid).unwrap();
            text_chunks.upsert(vec![(cid.clone(), with_chunk_status(rec, "Failed", Some("llm down".to_string())))], 3);
            outcome = queue.job_rollup(&jid);
        } else {
            let rec = text_chunks.get_by_id(&cid).unwrap();
            text_chunks.upsert(vec![(cid.clone(), with_chunk_status(rec, "Success", None))], 3);
            let er = EntitiesRelationships {
                entities: vec![entity(&format!("E{}", d.chunk.chunk_order_index), EntityType::Gene)],
                relationships: vec![],
            };
            let result = JobResult { entity_relationships: er, chunk_id: cid, job_id: jid.clone(), doc_id: doc.clone(), chunk_order_index: d.chunk.chunk_order_index };
            outcome = process_chunk_result(&mut queue, result, &mut entities, &mut relations, 4);
        }
    }
    assert_eq!(outcome, Some(Rollup::PartiallyFailed));
    assert_eq!(entities.get_all().len(), 7);
    let records = text_chunks.get_all();
    let failed = records.iter().filter(|(_, v)| str_field(v, "status").as_deref() == Some("Failed")).count();
    let succeeded = records.iter().filter(|(_, v)| str_field(v, "status").as_deref() == Some("Success")).count();
    assert_eq!((succeeded, failed), (7, 3));

    // Restart: the chunk store is reloaded from its snapshot.
    let snapshot = text_chunks.snapshot_if_dirty().unwrap();
    let mut reloaded = kv("text_chunks");
    reloaded.initialize(snapshot);
    let pending = pending_chunks_for_doc(&reloaded.get_all(), &doc);
    assert_eq!(pending.len(), 3);
    assert!(pending.iter().all(|c| c.order % 3 == 2));
    let other = pending_chunks_for_doc(&reloaded.get_all(), &"doc-other".to_string());
    assert!(other.is_empty());
}

#[test]
fn extractor_refuses_bad_files() {
    let exts: Vec<String> = vec![".txt".into()];
    let dm = DocumentManager::new("/in".to_string(), None, &exts);
    let ex = Utf8DocumentExtractor::new();
    assert_eq!(ex.extract(vec![], "a.txt", &dm), Err(ExtractError::Empty));
    assert_eq!(ex.extract(b"hi".to_vec(), "a.pdf", &dm), Err(ExtractError::Unsupported));
    assert_eq!(ex.extract(vec![0xff, 0xfe], "a.txt", &dm), Err(ExtractError::NotUtf8));
    assert_eq!(ex.extract(b" \n\t".to_vec(), "a.txt", &dm), Err(ExtractError::Whitespace));
    assert_eq!(ex.extract("h\u{e9}llo".as_bytes().to_vec(), "a.txt", &dm), Ok("h\u{e9}llo".to_string()));
    assert_eq!(dm.input_dir(), "/in");
}

#[test]
fn stored_records_read_back_as_typed_nodes() {
    let er = EntitiesRelationships { entities: vec![entity("A", EntityType::Gene), entity("B", EntityType::SymptomPhenotype)], relationships: vec![rel("A", "B")] };
    let (ents, rels) = build_graph_payloads(&"doc-1".to_string(), &"chunk-1".to_string(), 4, &er);
    let node = EntityNode::from_record(&ents[0].1).unwrap();
    assert_eq!((node.entity_name.as_str(), node.entity_type.as_str(), node.chunk_order_index), ("A", "Gene", 4));
    let edge = RelationEdge::from_record(&rels[0].1).unwrap();
    assert_eq!(edge.relationship_keywords, vec!["k".to_string()]);
    assert_eq!(edge.source_entity_id, entity_id("doc-1", "A", "Gene"));
    assert!(EntityNode::from_record(&s("x")).is_none());
}

#[test]
fn storage_manager_initializes_once() {
    let mut m = StorageManager::new();
    assert!(m.is_empty());
    m.register("full_docs".to_string());
    m.register("doc_status".to_string());
    assert_eq!(m.status(), StoragesStatus::Created);
    assert_eq!(m.initialize_all(), vec!["full_docs".to_string(), "doc_status".to_string()]);
    assert_eq!(m.status(), StoragesStatus::Initialized);
    assert!(m.initialize_all().is_empty());
    assert_eq!(m.finalize_all().len(), 2);
    assert_eq!(StoragesStatus::default(), StoragesStatus::Created);
}

#[test]
fn status_transitions_keep_creation_time() {
    let mut status = doc_status_store();
    let mut full_docs = kv("full_docs");
    let d = PendingDocument {
        id: "doc-t".into(),
        content: "c".into(),
        summary: "c".into(),
        length: 1,
        file_path: "t.txt".into(),
        track_id: "tr".into(),
        created_at: "2025-01-01T00:00:00+00:00".into(),
    };
    DocStatusService.enqueue_pending(vec![d], &mut full_docs, &mut status, 1);
    let prev = status.get_by_id(&"doc-t".to_string()).unwrap();
    assert_eq!(prev.chunks_list, Some(vec![]));
    DocStatusService.mark_processing(&mut status, &"doc-t".to_string(), &prev, &vec!["c1".to_string(), "c2".to_string()]);
    let p = status.get_by_id(&"doc-t".to_string()).unwrap();
    assert_eq!(p.status, DocStatus::PROCESSING);
    assert_eq!(p.created_at.as_deref(), Some("2025-01-01T00:00:00+00:00"));
    assert_eq!(p.chunks_list.as_ref().map(|c| c.len()), Some(2));
    DocStatusService.mark_failed(&mut status, &"doc-t".to_string(), &p, &"boom".to_string());
    let f = status.get_by_id(&"doc-t".to_string()).unwrap();
    assert_eq!(f.status, DocStatus::FAILED);
    assert_eq!(f.error_msg.as_deref(), Some("boom"));
    assert_eq!(f.chunks_list, Some(vec![]));
    DocStatusService.record_intake_error(&mut status, &"bad.pdf".to_string(), &"tr".to_string(), &"file_extraction".to_string(), &"unsupported".to_string());
    let e = status.get_by_id(&error_id("tr", "bad.pdf")).unwrap();
    assert_eq!(e.status, DocStatus::FAILED);
    assert_eq!(e.content_summary.as_deref(), Some("file_extraction failed for bad.pdf"));
    let cfg = PipelineConfig::default().chunk_config();
    assert_eq!((cfg.max_tokens, cfg.overlap_tokens), (500, 50));
}

#[test]
fn rollup_outcome_is_written_to_job_and_document() {
    let mut status = doc_status_store();
    let mut full_docs = kv("full_docs");
    let d = PendingDocument {
        id: "doc-r".into(),
        content: "c".into(),
        summary: "c".into(),
        length: 1,
        file_path: "r.txt".into(),
        track_id: "tr".into(),
        created_at: "2025-01-01T00:00:00+00:00".into(),
    };
    DocStatusService.enqueue_pending(vec![d], &mut full_docs, &mut status, 1);
    let mut queue = Queue::new(4);
    let job = Job::new_at("doc-r".to_string(), 1, 0);
    let jid = job.job_id.clone();
    queue.enqueue(jid.clone(), job).unwrap();
    let chunks = vec![
        Chunk { id: "c1".into(), content: "a".into(), order: 0, token_count: 1 },
        Chunk { id: "c2".into(), content: "b".into(), order: 1, token_count: 1 },
    ];
    queue.attach_chunks(&jid, backend::scheduler::chunk_to_chunk_state(chunks, &"doc-r".to_string(), 0)).unwrap();
    let doc = "doc-r".to_string();
    queue.update_chunk(&jid, &"c1".to_string(), ChunkUpdate::Success(EntitiesRelationships { entities: vec![], relationships: vec![] }));
    queue.update_chunk(&jid, &"c2".to_string(), ChunkUpdate::Failure("boom".to_string()));
    // A chunk with retries left is not settled yet.
    assert_eq!(apply_rollup(&mut queue, &mut status, &jid, &doc), Ok(None));
    for _ in 0..10 {
        queue.update_chunk(&jid, &"c2".to_string(), ChunkUpdate::Failure("boom".to_string()));
    }
    assert_eq!(apply_rollup(&mut queue, &mut status, &jid, &doc), Ok(Some(Rollup::PartiallyFailed)));
    let st = status.get_by_id(&doc).unwrap();
    assert_eq!(st.status, DocStatus::PARTIALLY_FAILED);
    assert_eq!(st.error_msg.as_deref(), Some("boom"));
    let meta = st.metadata.unwrap();
    assert!(matches!(meta.field(&"succeeded_chunks".to_string()), Some(JsonValue::Int(1))));
    assert!(matches!(meta.field(&"failed_chunks".to_string()), Some(JsonValue::Int(1))));
    assert_eq!(queue.get(&jid).unwrap().job_status, JobStatus::PartiallyFailed);
    assert_eq!(apply_rollup(&mut queue, &mut status, &"none".to_string(), &doc), Err(QueueError::UnknownJob));
}

#[test]
fn chunker_reports_encoding_failure() {
    let tok = TiktokenTokenizer::new().expect("tokenizer");
    let spaces = " ".repeat(1_100_000) + "x";
    assert!(tok.encode(&spaces).is_none());
    let r = chunking_by_token_size(&tok, &spaces, None, false, 50, 500);
    assert!(matches!(r, Err(ChunkError::Encode)));
}

#[test]
fn extraction_schema_lists_the_vocabulary() {
    let schema = backend::schemas::entities_relationships_schema();
    let get = |v: &JsonValue, k: &str| v.field(&k.to_string()).map(|x| x.deep_clone());
    let props = get(&schema, "properties").unwrap();
    let ents = get(&props, "entities").unwrap();
    assert_eq!(str_field(&ents, "type").as_deref(), Some("array"));
    let et = get(&get(&get(&ents, "items").unwrap(), "properties").unwrap(), "entity_type").unwrap();
    let mut names = Vec::new();
    if let Some(JsonValue::Array(a)) = get(&et, "enum") {
        let mut cur = &a;
        while let JsonArray::Item(v, rest) = cur {
            if let JsonValue::Str(t) = &**v {
                names.push(t.clone());
            }
            cur = rest;
        }
    }
    assert_eq!(names.len(), 37);
    assert_eq!(names[2], "Patient/Participant");
    assert_eq!(str_field(&schema, "type").as_deref(), Some("object"));
}
