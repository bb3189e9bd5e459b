//! Document-level state transitions written into the doc-status store.
use crate::doc_status::{
    clone_opt, clone_strings, ov, record_of, sv, written, DocProcessingStatus, DocStatus,
    DocStatusView, JsonDocStatusStorage,
};
use crate::ids::{error_id, error_id_spec};
use crate::json::{JsonObject, JsonValue};
use crate::keyed::{has_key, keys_unique, lookup};
use crate::kv_store::{upserted, JsonKvStorage};
use vstd::prelude::*;
use vstd::string::*;

verus! {

/// Relies on `chrono::Utc::now` and `DateTime::to_rfc3339`: the current
/// time as RFC 3339 text; nothing is known of which time.
#[verifier::external_body]
pub(crate) fn now_rfc3339() -> (r: String) {
    chrono::Utc::now().to_rfc3339()
}

/// A new document waiting to be processed.
#[derive(Debug)]
pub struct PendingDocument {
    pub id: String,
    pub content: String,
    pub summary: String,
    pub length: i64,
    pub file_path: String,
    pub track_id: String,
    pub created_at: String,
}

/// Status of a newly enqueued document.
pub open spec fn pending_view(d: PendingDocument) -> DocStatusView {
    DocStatusView {
        id: Some(d.id@),
        status: DocStatus::PENDING,
        content_summary: Some(d.summary@),
        content_length: Some(d.length),
        created_at: Some(d.created_at@),
        updated_at: Some(d.created_at@),
        file_path: Some(d.file_path@),
        track_id: Some(d.track_id@),
        chunks_list: Some(Seq::empty()),
        metadata: None,
        error_msg: None,
    }
}

/// Status of document `id` moved to `status` at `now`, keeping what the
/// previous status says of the document.
pub open spec fn transition_view(
    id: Seq<char>,
    prev: DocStatusView,
    status: DocStatus,
    now: Seq<char>,
    chunks: Seq<Seq<char>>,
    error: Option<Seq<char>>,
) -> DocStatusView {
    DocStatusView {
        id: Some(id),
        status,
        updated_at: Some(now),
        chunks_list: Some(chunks),
        error_msg: error,
        ..prev
    }
}

pub fn pending_status(d: &PendingDocument) -> (r: DocProcessingStatus)
    ensures
        r@ == pending_view(*d),
{
    let r = DocProcessingStatus {
        id: Some(d.id.clone()),
        status: DocStatus::PENDING,
        content_summary: Some(d.summary.clone()),
        content_length: Some(d.length),
        created_at: Some(d.created_at.clone()),
        updated_at: Some(d.created_at.clone()),
        file_path: Some(d.file_path.clone()),
        track_id: Some(d.track_id.clone()),
        chunks_list: Some(Vec::new()),
        metadata: None,
        error_msg: None,
    };
    assert(sv(Seq::<String>::empty()) =~= Seq::<Seq<char>>::empty());
    assert(r@ =~= pending_view(*d));
    r
}

/// The status of `doc_id` moved to `status` at time `now`.
pub fn transition_status(
    doc_id: &String,
    prev: &DocProcessingStatus,
    status: DocStatus,
    now: String,
    chunk_ids: &Vec<String>,
    error: Option<String>,
) -> (r: DocProcessingStatus)
    ensures
        r@ == transition_view(doc_id@, prev@, status, now@, sv(chunk_ids@), ov(error)),
{
    let r = DocProcessingStatus {
        id: Some(doc_id.clone()),
        status,
        content_summary: clone_opt(&prev.content_summary),
        content_length: prev.content_length,
        created_at: clone_opt(&prev.created_at),
        updated_at: Some(now),
        file_path: clone_opt(&prev.file_path),
        track_id: clone_opt(&prev.track_id),
        chunks_list: Some(clone_strings(chunk_ids)),
        metadata: match &prev.metadata {
            Some(m) => Some(m.deep_clone()),
            None => None,
        },
        error_msg: error,
    };
    r
}

/// The status record written for a failed intake of `file_name`.
pub open spec fn intake_error_view(file_name: Seq<char>, track_id: Seq<char>, error_type: Seq<char>, message: Seq<char>, now: Seq<char>, r: DocStatusView) -> bool {
    &&& r.id is None
    &&& r.status == DocStatus::FAILED
    &&& r.content_summary == Some(error_type + " failed for "@ + file_name)
    &&& r.content_length == Some(0i64)
    &&& r.created_at == Some(now)
    &&& r.updated_at == Some(now)
    &&& r.file_path == Some(file_name)
    &&& r.track_id == Some(track_id)
    &&& r.chunks_list == Some(Seq::<Seq<char>>::empty())
    &&& r.metadata is Some
    &&& r.metadata->0.str_field_spec("error_type"@) == Some(error_type)
    &&& r.metadata->0.str_field_spec("error_message"@) == Some(message)
    &&& r.error_msg == Some(message)
}

/// The id and status record of a failed intake.
pub fn intake_error_record(file_name: &String, track_id: &String, error_type: &String, message: &String, now: String) -> (r: (String, DocProcessingStatus))
    ensures
        r.0@ == error_id_spec(track_id@, file_name@),
        intake_error_view(file_name@, track_id@, error_type@, message@, now@, r.1@),
{
    let k_type = String::from_str("error_type");
    let k_msg = String::from_str("error_message");
    let v_type = JsonValue::Str(error_type.clone());
    let v_msg = JsonValue::Str(message.clone());
    let o0 = JsonObject::Empty.set(k_type, v_type);
    let o1 = o0.set(k_msg, v_msg);
    proof {
        reveal_strlit("error_type");
        reveal_strlit("error_message");
        assert("error_type"@.len() != "error_message"@.len());
        o0.lemma_set_get(k_msg, v_msg, "error_type"@);
        JsonObject::Empty.lemma_set_get(k_type, v_type, "error_type"@);
        o0.lemma_set_get(k_msg, v_msg, "error_message"@);
    }
    let summary = error_type.clone().concat(" failed for ").concat(file_name.as_str());
    let st = DocProcessingStatus {
        id: None,
        status: DocStatus::FAILED,
        content_summary: Some(summary),
        content_length: Some(0),
        created_at: Some(now.clone()),
        updated_at: Some(now),
        file_path: Some(file_name.clone()),
        track_id: Some(track_id.clone()),
        chunks_list: Some(Vec::new()),
        metadata: Some(JsonValue::Object(o1)),
        error_msg: Some(message.clone()),
    };
    assert(sv(Seq::<String>::empty()) =~= Seq::<Seq<char>>::empty());
    (error_id(track_id.as_str(), file_name.as_str()), st)
}

/// The full-document records of pending documents: `{content}` per id.
pub open spec fn content_record(v: JsonValue, content: Seq<char>) -> bool {
    v.str_field_spec("content"@) == Some(content)
}

/// Status of document `id` moved to PARTIALLY_FAILED at `now` with
/// metadata `m` and message `err`.
pub open spec fn partial_view(id: Seq<char>, prev: DocStatusView, m: JsonValue, now: Seq<char>, chunks: Seq<Seq<char>>, err: Seq<char>) -> DocStatusView {
    transition_view(id, DocStatusView { metadata: Some(m), ..prev }, DocStatus::PARTIALLY_FAILED, now, chunks, Some(err))
}

/// `m` records a mixed outcome: how many chunks succeeded and failed.
pub open spec fn mixed_outcome(m: JsonValue, succeeded: i64, failed: i64) -> bool {
    &&& m is Object
    &&& m.field_spec("succeeded_chunks"@) == Some(JsonValue::Int(succeeded))
    &&& m.field_spec("failed_chunks"@) == Some(JsonValue::Int(failed))
}

/// The status with its metadata replaced by `m`.
pub fn with_metadata(prev: &DocProcessingStatus, m: JsonValue) -> (r: DocProcessingStatus)
    ensures
        r@ == (DocStatusView { metadata: Some(m), ..prev@ }),
{
    let r = DocProcessingStatus {
        id: clone_opt(&prev.id),
        status: prev.status,
        content_summary: clone_opt(&prev.content_summary),
        content_length: prev.content_length,
        created_at: clone_opt(&prev.created_at),
        updated_at: clone_opt(&prev.updated_at),
        file_path: clone_opt(&prev.file_path),
        track_id: clone_opt(&prev.track_id),
        chunks_list: match &prev.chunks_list {
            Some(c) => Some(clone_strings(c)),
            None => None,
        },
        metadata: Some(m),
        error_msg: clone_opt(&prev.error_msg),
    };
    r
}

/// Writes document-level state transitions.
pub struct DocStatusService;

impl DocStatusService {
    /// The ids among `doc_ids` that the doc-status store does not hold.
    pub fn filter_new_ids(&self, doc_status: &JsonDocStatusStorage, doc_ids: &Vec<String>) -> (r: Vec<String>)
        requires
            doc_status.wf(),
        ensures
            crate::kv_store::str_set(r@) == crate::kv_store::str_set(doc_ids@).difference(doc_status@.dom()),
    {
        doc_status.filter_keys(doc_ids)
    }

    /// Writes each document's content into the full-document store (at
    /// Unix time `now`) and its PENDING status with an empty chunk list.
    pub fn enqueue_pending(&self, documents: Vec<PendingDocument>, full_docs: &mut JsonKvStorage, doc_status: &mut JsonDocStatusStorage, now: i64)
        requires
            old(full_docs).wf(),
            old(doc_status).wf(),
            forall|i: int, j: int| 0 <= i < documents@.len() && 0 <= j < documents@.len() && i != j ==> documents@[i].id@ != documents@[j].id@,
        ensures
            final(full_docs).wf(),
            final(doc_status).wf(),
            final(full_docs)@.dom() == old(full_docs)@.dom().union(Set::new(|k: Seq<char>| exists|i: int| 0 <= i < documents@.len() && (#[trigger] documents@[i]).id@ == k)),
            final(doc_status)@.dom() == old(doc_status)@.dom().union(Set::new(|k: Seq<char>| exists|i: int| 0 <= i < documents@.len() && (#[trigger] documents@[i]).id@ == k)),
            forall|i: int| 0 <= i < documents@.len() ==> content_record(final(full_docs)@[(#[trigger] documents@[i]).id@], documents@[i].content@),
            forall|i: int| 0 <= i < documents@.len() ==> final(doc_status)@[(#[trigger] documents@[i]).id@] == record_of(pending_view(documents@[i])),
            forall|k: Seq<char>| !(exists|i: int| 0 <= i < documents@.len() && (#[trigger] documents@[i]).id@ == k) ==> final(full_docs)@.contains_key(k) == old(full_docs)@.contains_key(k) && (old(full_docs)@.contains_key(k) ==> final(full_docs)@[k] == old(full_docs)@[k]) && final(doc_status)@.contains_key(k) == old(doc_status)@.contains_key(k) && (old(doc_status)@.contains_key(k) ==> final(doc_status)@[k] == old(doc_status)@[k]),
    {
        let ghost docs = documents@;
        let mut docs_payload: Vec<(String, JsonValue)> = Vec::new();
        let mut status_payload: Vec<(String, DocProcessingStatus)> = Vec::new();
        let mut i: usize = 0;
        while i < documents.len()
            invariant
                docs == documents@,
                i <= docs.len(),
                docs_payload@.len() == i,
                status_payload@.len() == i,
                forall|j: int| 0 <= j < i ==> (#[trigger] docs_payload@[j]).0@ == docs[j].id@ && content_record(docs_payload@[j].1, docs[j].content@),
                forall|j: int| 0 <= j < i ==> (#[trigger] status_payload@[j]).0@ == docs[j].id@ && status_payload@[j].1@ == pending_view(docs[j]),
            decreases documents.len() - i,
        {
            let d = &documents[i];
            let k_content = String::from_str("content");
            let v = JsonValue::Str(d.content.clone());
            let obj = JsonObject::Empty.set(k_content, v);
            proof {
                JsonObject::Empty.lemma_set_get(k_content, v, "content"@);
            }
            docs_payload.push((d.id.clone(), JsonValue::Object(obj)));
            status_payload.push((d.id.clone(), pending_status(d)));
            i = i + 1;
        }
        let ghost ids = Set::new(|k: Seq<char>| exists|i: int| 0 <= i < docs.len() && (#[trigger] docs[i]).id@ == k);
        proof {
            assert(keys_unique(docs_payload@));
            assert(keys_unique(status_payload@));
            assert forall|k: Seq<char>| has_key(docs_payload@, k) == ids.contains(k) by {
                if has_key(docs_payload@, k) {
                    let j = choose|j: int| 0 <= j < docs_payload@.len() && docs_payload@[j].0@ == k;
                    assert(docs[j].id@ == k);
                }
                if ids.contains(k) {
                    let j = choose|j: int| 0 <= j < docs.len() && (#[trigger] docs[j]).id@ == k;
                    assert(docs_payload@[j].0@ == k);
                }
            }
            assert forall|k: Seq<char>| has_key(status_payload@, k) == ids.contains(k) by {
                if has_key(status_payload@, k) {
                    let j = choose|j: int| 0 <= j < status_payload@.len() && status_payload@[j].0@ == k;
                    assert(docs[j].id@ == k);
                }
                if ids.contains(k) {
                    let j = choose|j: int| 0 <= j < docs.len() && (#[trigger] docs[j]).id@ == k;
                    assert(status_payload@[j].0@ == k);
                }
            }
            assert(crate::keyed::key_set(docs_payload@) =~= ids);
            assert(crate::keyed::key_set(status_payload@) =~= ids);
        }
        let ghost dp = docs_payload@;
        let ghost stp = status_payload@;
        full_docs.upsert(docs_payload, now);
        doc_status.upsert(status_payload);
        proof {
            assert forall|j: int| 0 <= j < docs.len() implies content_record(full_docs@[(#[trigger] docs[j]).id@], docs[j].content@) by {
                crate::keyed::lemma_lookup_index(dp, j);
                assert(has_key(dp, docs[j].id@)) by {
                    assert(dp[j].0@ == docs[j].id@);
                }
                assert(full_docs@.contains_key(docs[j].id@));
                crate::keyed::lemma_lookup_index(dp, j);
                reveal_strlit("content");
                reveal_strlit("_id");
                reveal_strlit("create_time");
                reveal_strlit("update_time");
                reveal_strlit("llm_cache_list");
                assert("content"@.len() != "_id"@.len());
                assert("content"@.len() != "update_time"@.len());
                assert("content"@ != "create_time"@);
                assert("content"@.len() != "llm_cache_list"@.len());
            }
            assert forall|j: int| 0 <= j < docs.len() implies doc_status@[(#[trigger] docs[j]).id@] == record_of(pending_view(docs[j])) by {
                crate::keyed::lemma_lookup_index(stp, j);
                assert(has_key(stp, docs[j].id@)) by {
                    assert(stp[j].0@ == docs[j].id@);
                }
                assert(crate::keyed::key_set(stp).contains(docs[j].id@));
                assert(doc_status@.contains_key(docs[j].id@));
                assert(lookup(stp, docs[j].id@) == Some(stp[j].1));
            }
            assert forall|k: Seq<char>| !(exists|i: int| 0 <= i < docs.len() && (#[trigger] docs[i]).id@ == k) implies full_docs@.contains_key(k) == old(full_docs)@.contains_key(k) && (old(full_docs)@.contains_key(k) ==> full_docs@[k] == old(full_docs)@[k]) && doc_status@.contains_key(k) == old(doc_status)@.contains_key(k) && (old(doc_status)@.contains_key(k) ==> doc_status@[k] == old(doc_status)@[k]) by {
                assert(!ids.contains(k));
                assert(!crate::keyed::key_set(dp).contains(k));
                assert(!crate::keyed::key_set(stp).contains(k));
                assert(!has_key(dp, k));
                assert(!has_key(stp, k));
            }
        }
    }

    /// Writes `status` for `doc_id` from its previous status, at the
    /// current time.
    fn write_transition(&self, doc_status: &mut JsonDocStatusStorage, doc_id: &String, prev: &DocProcessingStatus, status: DocStatus, chunk_ids: &Vec<String>, error: Option<String>)
        requires
            old(doc_status).wf(),
        ensures
            final(doc_status).wf(),
            final(doc_status)@.dom() == old(doc_status)@.dom().insert(doc_id@),
            forall|k: Seq<char>| k != doc_id@ && #[trigger] final(doc_status)@.contains_key(k) ==> final(doc_status)@[k] == old(doc_status)@[k],
            exists|now: Seq<char>| final(doc_status)@[doc_id@] == record_of(transition_view(doc_id@, prev@, status, now, sv(chunk_ids@), ov(error))),
    {
        let now = now_rfc3339();
        let ghost nowv = now@;
        let ghost errv = ov(error);
        let st = transition_status(doc_id, prev, status, now, chunk_ids, error);
        let mut payload: Vec<(String, DocProcessingStatus)> = Vec::new();
        payload.push((doc_id.clone(), st));
        let ghost p = payload@;
        proof {
            assert(crate::keyed::key_set(p) =~= Set::empty().insert(doc_id@)) by {
                assert forall|k: Seq<char>| has_key(p, k) == (k == doc_id@) by {
                    if k == doc_id@ {
                        assert(p[0].0@ == k);
                    }
                }
            }
            assert(lookup(p, doc_id@) == Some(st)) by {
                assert(p.drop_first() =~= Seq::<(String, DocProcessingStatus)>::empty());
            }
        }
        doc_status.upsert(payload);
        proof {
            assert(has_key(p, doc_id@)) by {
                assert(p[0].0@ == doc_id@);
            }
            assert(final(doc_status)@.dom() =~= old(doc_status)@.dom().insert(doc_id@));
            assert forall|k: Seq<char>| k != doc_id@ && #[trigger] doc_status@.contains_key(k) implies doc_status@[k] == old(doc_status)@[k] by {
                if has_key(p, k) {
                    let j = choose|j: int| 0 <= j < p.len() && p[j].0@ == k;
                }
            }
            assert(doc_status@.contains_key(doc_id@));
            assert(doc_status@[doc_id@] == record_of(transition_view(doc_id@, prev@, status, nowv, sv(chunk_ids@), errv)));
        }
    }

    /// PROCESSING with the chunk list set.
    pub fn mark_processing(&self, doc_status: &mut JsonDocStatusStorage, doc_id: &String, prev: &DocProcessingStatus, chunk_ids: &Vec<String>)
        requires
            old(doc_status).wf(),
        ensures
            final(doc_status).wf(),
            final(doc_status)@.dom() == old(doc_status)@.dom().insert(doc_id@),
            forall|k: Seq<char>| k != doc_id@ && #[trigger] final(doc_status)@.contains_key(k) ==> final(doc_status)@[k] == old(doc_status)@[k],
            exists|now: Seq<char>| final(doc_status)@[doc_id@] == record_of(transition_view(doc_id@, prev@, DocStatus::PROCESSING, now, sv(chunk_ids@), None)),
    {
        self.write_transition(doc_status, doc_id, prev, DocStatus::PROCESSING, chunk_ids, None)
    }

    /// PROCESSED, keeping the chunk list.
    pub fn mark_processed(&self, doc_status: &mut JsonDocStatusStorage, doc_id: &String, prev: &DocProcessingStatus, chunk_ids: &Vec<String>)
        requires
            old(doc_status).wf(),
        ensures
            final(doc_status).wf(),
            final(doc_status)@.dom() == old(doc_status)@.dom().insert(doc_id@),
            forall|k: Seq<char>| k != doc_id@ && #[trigger] final(doc_status)@.contains_key(k) ==> final(doc_status)@[k] == old(doc_status)@[k],
            exists|now: Seq<char>| final(doc_status)@[doc_id@] == record_of(transition_view(doc_id@, prev@, DocStatus::PROCESSED, now, sv(chunk_ids@), None)),
    {
        self.write_transition(doc_status, doc_id, prev, DocStatus::PROCESSED, chunk_ids, None)
    }

    /// FAILED with message `err` and an empty chunk list.
    pub fn mark_failed(&self, doc_status: &mut JsonDocStatusStorage, doc_id: &String, prev: &DocProcessingStatus, err: &String)
        requires
            old(doc_status).wf(),
        ensures
            final(doc_status).wf(),
            final(doc_status)@.dom() == old(doc_status)@.dom().insert(doc_id@),
            forall|k: Seq<char>| k != doc_id@ && #[trigger] final(doc_status)@.contains_key(k) ==> final(doc_status)@[k] == old(doc_status)@[k],
            exists|now: Seq<char>| final(doc_status)@[doc_id@] == record_of(transition_view(doc_id@, prev@, DocStatus::FAILED, now, Seq::empty(), Some(err@))),
    {
        let empty: Vec<String> = Vec::new();
        proof {
            assert(sv(empty@) =~= Seq::<Seq<char>>::empty());
        }
        self.write_transition(doc_status, doc_id, prev, DocStatus::FAILED, &empty, Some(err.clone()))
    }

    /// PARTIALLY_FAILED with the chunk list kept, the worst chunk error as
    /// message, and the mixed outcome in `metadata`: the previous metadata
    /// object with `succeeded_chunks` and `failed_chunks` set.
    pub fn mark_partially_failed(&self, doc_status: &mut JsonDocStatusStorage, doc_id: &String, prev: &DocProcessingStatus, chunk_ids: &Vec<String>, err: &String, succeeded: i64, failed: i64)
        requires
            old(doc_status).wf(),
        ensures
            final(doc_status).wf(),
            final(doc_status)@.dom() == old(doc_status)@.dom().insert(doc_id@),
            forall|k: Seq<char>| k != doc_id@ && #[trigger] final(doc_status)@.contains_key(k) ==> final(doc_status)@[k] == old(doc_status)@[k],
            exists|now: Seq<char>, m: JsonValue| mixed_outcome(m, succeeded, failed) && final(doc_status)@[doc_id@] == record_of(#[trigger] partial_view(doc_id@, prev@, m, now, sv(chunk_ids@), err@)),
    {
        let base = match &prev.metadata {
            Some(JsonValue::Object(o)) => o.deep_clone(),
            _ => JsonObject::Empty,
        };
        let ks = String::from_str("succeeded_chunks");
        let kf = String::from_str("failed_chunks");
        let o1 = base.set(ks, JsonValue::Int(succeeded));
        let o2 = o1.set(kf, JsonValue::Int(failed));
        proof {
            reveal_strlit("succeeded_chunks");
            reveal_strlit("failed_chunks");
            assert("succeeded_chunks"@.len() != "failed_chunks"@.len());
            o1.lemma_set_get(kf, JsonValue::Int(failed), "succeeded_chunks"@);
            base.lemma_set_get(ks, JsonValue::Int(succeeded), "succeeded_chunks"@);
            o1.lemma_set_get(kf, JsonValue::Int(failed), "failed_chunks"@);
        }
        let m = JsonValue::Object(o2);
        let ghost mv = m;
        let next = with_metadata(prev, m);
        self.write_transition(doc_status, doc_id, &next, DocStatus::PARTIALLY_FAILED, chunk_ids, Some(err.clone()));
        proof {
            let now = choose|now: Seq<char>| doc_status@[doc_id@] == record_of(transition_view(doc_id@, next@, DocStatus::PARTIALLY_FAILED, now, sv(chunk_ids@), Some(err@)));
            assert(transition_view(doc_id@, next@, DocStatus::PARTIALLY_FAILED, now, sv(chunk_ids@), Some(err@)) == partial_view(doc_id@, prev@, mv, now, sv(chunk_ids@), err@));
            assert(mixed_outcome(mv, succeeded, failed));
        }
    }

    /// Writes the record of a failed intake of `file_name`, keyed by the
    /// intake-error id.
    pub fn record_intake_error(&self, doc_status: &mut JsonDocStatusStorage, file_name: &String, track_id: &String, error_type: &String, message: &String)
        requires
            old(doc_status).wf(),
        ensures
            final(doc_status).wf(),
            final(doc_status)@.dom() == old(doc_status)@.dom().insert(error_id_spec(track_id@, file_name@)),
            exists|now: Seq<char>, r: DocStatusView| intake_error_view(file_name@, track_id@, error_type@, message@, now, r) && final(doc_status)@[error_id_spec(track_id@, file_name@)] == record_of(r),
            forall|k: Seq<char>| k != error_id_spec(track_id@, file_name@) && #[trigger] final(doc_status)@.contains_key(k) ==> final(doc_status)@[k] == old(doc_status)@[k],
    {
        let now = now_rfc3339();
        let ghost nowv = now@;
        let (id, st) = intake_error_record(file_name, track_id, error_type, message, now);
        let ghost sv_ = st@;
        let mut payload: Vec<(String, DocProcessingStatus)> = Vec::new();
        payload.push((id, st));
        let ghost p = payload@;
        proof {
            assert(crate::keyed::key_set(p) =~= Set::empty().insert(p[0].0@)) by {
                assert forall|k: Seq<char>| has_key(p, k) == (k == p[0].0@) by {}
            }
            assert(lookup(p, p[0].0@) == Some(p[0].1)) by {
                assert(p.drop_first() =~= Seq::<(String, DocProcessingStatus)>::empty());
            }
        }
        doc_status.upsert(payload);
        proof {
            assert(has_key(p, p[0].0@));
            assert(final(doc_status)@.dom() =~= old(doc_status)@.dom().insert(p[0].0@));
            assert(doc_status@.contains_key(p[0].0@));
            assert(intake_error_view(file_name@, track_id@, error_type@, message@, nowv, sv_));
            assert(doc_status@[error_id_spec(track_id@, file_name@)] == record_of(sv_));
            assert forall|k: Seq<char>| k != error_id_spec(track_id@, file_name@) && #[trigger] doc_status@.contains_key(k) implies doc_status@[k] == old(doc_status)@[k] by {
                if has_key(p, k) {
                    let j = choose|j: int| 0 <= j < p.len() && p[j].0@ == k;
                }
            }
        }
    }
}

} // verus!
