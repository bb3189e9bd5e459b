//! Properties that relate several operations of the library.
use crate::chunker::{window_texts, windows, windows_from};
use crate::doc_status::DocStatus;
use crate::graph::relation_record_ok;
use crate::ids::{chunk_id_spec, doc_id_spec, sha256_hex};
use crate::json::{base_get, JsonValue};
use crate::keyed::{has_key, key_set, keys_unique, lemma_lookup_some, lookup, to_map};
use crate::kv_store::{decorated, normalized, or_default, upserted, JsonKvStorage};
use crate::paging::{page_len, page_start, clamp_size};
use crate::pipeline::{planned_from, sanitize_text_spec};
use crate::scheduler::{failure_step, is_terminal, rollup_doc_status_spec, rollup_spec, ChunkState, ChunkStatus};
use crate::status_service::PendingDocument;
use vstd::prelude::*;

verus! {

/// A chunk's id is `"chunk-"` followed by the digest of its content, so
/// equal contents get equal ids.
pub proof fn law_content_addressing(a: Seq<char>, b: Seq<char>)
    ensures
        chunk_id_spec(a) == "chunk-"@ + sha256_hex(a),
        a == b ==> chunk_id_spec(a) == chunk_id_spec(b),
{
}

proof fn lemma_windows_from_shape(start: nat, len: nat, max: nat, step: nat)
    requires
        start < len,
        0 < step <= max,
    ensures
        ({
            let w = windows_from(start, len, max, step);
            &&& w.len() > 0
            &&& w[0].0 == start
            &&& w[w.len() - 1].1 == len
            &&& forall|i: int| 0 <= i < w.len() ==> start <= (#[trigger] w[i]).0 < w[i].1 <= len && w[i].1 - w[i].0 <= max
            &&& forall|i: int| 0 <= i < w.len() - 1 ==> w[i + 1].0 == (#[trigger] w[i]).0 + step && w[i].1 == w[i].0 + max
        }),
    decreases len - start,
{
    let w = windows_from(start, len, max, step);
    let end = if start + max < len { start + max } else { len };
    if end == len || start + step >= len {
        assert(end == len);
    } else {
        let t = windows_from(start + step, len, max, step);
        lemma_windows_from_shape(start + step, len, max, step);
        assert(w =~= seq![(start as int, end as int)] + t);
        assert forall|i: int| 0 <= i < w.len() implies start <= (#[trigger] w[i]).0 < w[i].1 <= len && w[i].1 - w[i].0 <= max by {
            if i > 0 {
                assert(w[i] == t[i - 1]);
            }
        }
        assert forall|i: int| 0 <= i < w.len() - 1 implies w[i + 1].0 == (#[trigger] w[i]).0 + step && w[i].1 == w[i].0 + max by {
            assert(w[i + 1] == t[i]);
            if i > 0 {
                let k = i - 1;
                assert(w[i] == t[k]);
                assert(t[k + 1].0 == t[k].0 + step);
                assert(k + 1 == i);
            }
        }
    }
}

/// For a text of `len > 0` tokens and `overlap < max`, the windows start at
/// 0, end at `len`, are at most `max` wide, and each shares exactly
/// `overlap` tokens with the next, so together they cover `[0, len)`.
pub proof fn law_window_coverage(len: nat, max: nat, overlap: nat)
    requires
        overlap < max,
        len > 0,
    ensures
        ({
            let w = windows(len, max, overlap);
            &&& w.len() > 0
            &&& w[0].0 == 0
            &&& w[w.len() - 1].1 == len
            &&& forall|i: int| 0 <= i < w.len() ==> 0 <= (#[trigger] w[i]).0 < w[i].1 <= len && w[i].1 - w[i].0 <= max
            &&& forall|i: int| 0 <= i < w.len() - 1 ==> w[i + 1].0 <= (#[trigger] w[i]).1 && w[i].1 - w[i + 1].0 == overlap
        }),
{
    lemma_windows_from_shape(0, len, max, (max - overlap) as nat);
}

/// Total width of the windows.
pub open spec fn window_sum(w: Seq<(int, int)>) -> int
    decreases w.len(),
{
    if w.len() == 0 {
        0
    } else {
        (w[0].1 - w[0].0) + window_sum(w.drop_first())
    }
}

/// Total token count of decoded windows.
pub open spec fn token_sum(t: Seq<(nat, Seq<char>)>) -> int
    decreases t.len(),
{
    if t.len() == 0 {
        0
    } else {
        token_sum(t.drop_last()) + t.last().0
    }
}

proof fn lemma_windows_from_sum(start: nat, len: nat, max: nat, step: nat)
    requires
        start < len,
        0 < step <= max,
    ensures
        window_sum(windows_from(start, len, max, step)) - (windows_from(start, len, max, step).len() - 1) * (max - step) == len - start,
    decreases len - start,
{
    let w = windows_from(start, len, max, step);
    let end = if start + max < len { start + max } else { len };
    if end == len || start + step >= len {
        assert(end == len);
        assert(w.drop_first() =~= Seq::<(int, int)>::empty());
        assert(window_sum(Seq::<(int, int)>::empty()) == 0);
        assert(window_sum(w) == len - start);
    } else {
        let t = windows_from(start + step, len, max, step);
        lemma_windows_from_sum(start + step, len, max, step);
        assert(w.drop_first() =~= t);
        assert(w.len() == t.len() + 1);
        assert(window_sum(w) == max + window_sum(t));
        assert((w.len() - 1) * (max - step) == t.len() * (max - step)) by {
            assert(w.len() - 1 == t.len());
        }
        assert(t.len() * (max - step) == (t.len() - 1) * (max - step) + (max - step)) by (nonlinear_arith);
    }
}

proof fn lemma_texts_counts(tokens: Seq<u32>, ws: Seq<(int, int)>, t: Seq<(nat, Seq<char>)>)
    requires
        window_texts(tokens, ws) == Some(t),
        forall|i: int| 0 <= i < ws.len() ==> (#[trigger] ws[i]).0 <= ws[i].1,
    ensures
        t.len() == ws.len(),
        token_sum(t) == window_sum(ws),
    decreases ws.len(),
{
    if ws.len() > 0 {
        let p = window_texts(tokens, ws.drop_last())->0;
        lemma_texts_counts(tokens, ws.drop_last(), p);
        assert(t.drop_last() =~= p);
        lemma_window_sum_last(ws);
    }
}

proof fn lemma_window_sum_last(w: Seq<(int, int)>)
    requires
        w.len() > 0,
    ensures
        window_sum(w) == window_sum(w.drop_last()) + (w.last().1 - w.last().0),
    decreases w.len(),
{
    if w.len() > 1 {
        lemma_window_sum_last(w.drop_first());
        assert(w.drop_first().drop_last() =~= w.drop_last().drop_first());
    } else {
        assert(w.drop_first() =~= Seq::<(int, int)>::empty());
        assert(w.drop_last() =~= Seq::<(int, int)>::empty());
    }
}

/// The token counts of the chunks of a text of `L > 0` tokens, less
/// `(n - 1) * overlap` for `n` chunks, add up to `L`; each chunk's text is
/// the decoded window (trimmed by the chunker).
pub proof fn law_window_token_sum(tokens: Seq<u32>, max: nat, overlap: nat, t: Seq<(nat, Seq<char>)>)
    requires
        overlap < max,
        tokens.len() > 0,
        window_texts(tokens, windows(tokens.len(), max, overlap)) == Some(t),
    ensures
        token_sum(t) - (t.len() - 1) * overlap == tokens.len(),
{
    let ws = windows(tokens.len(), max, overlap);
    law_window_coverage(tokens.len(), max, overlap);
    lemma_texts_counts(tokens, ws, t);
    lemma_windows_from_sum(0, tokens.len(), max, (max - overlap) as nat);
}

/// Listing position `i` is on page `i / size + 1` at index `i % size`, for
/// every page size in range: the pages, concatenated, give the listing.
pub proof fn law_pages_concatenate(total: nat, page_size: nat, i: nat)
    requires
        10 <= page_size <= 200,
        i < total,
    ensures
        ({
            let p = i / page_size + 1;
            &&& page_start(p, page_size) + i % page_size == i
            &&& i % page_size < page_len(p, page_size, total)
        }),
{
    let p = i / page_size + 1;
    assert(clamp_size(page_size) == page_size);
    assert(page_start(p, page_size) == (i / page_size) * page_size);
    assert((i / page_size) * page_size + i % page_size == i) by (nonlinear_arith)
        requires page_size > 0;
    assert(i % page_size < page_size) by (nonlinear_arith)
        requires page_size > 0;
}

/// Once every chunk of a document with chunks is settled, the document is
/// PROCESSED exactly when all chunks succeeded, FAILED exactly when all
/// failed, and PARTIALLY_FAILED otherwise.
pub proof fn law_rollup(cs: Seq<ChunkState>)
    requires
        cs.len() > 0,
        forall|i: int| 0 <= i < cs.len() ==> is_terminal(#[trigger] cs[i]),
    ensures
        rollup_spec(cs) is Some,
        (rollup_doc_status_spec(rollup_spec(cs)->0) == DocStatus::PROCESSED) <==> forall|i: int| 0 <= i < cs.len() ==> (#[trigger] cs[i]).chunk_status == ChunkStatus::Success,
        (rollup_doc_status_spec(rollup_spec(cs)->0) == DocStatus::FAILED) <==> forall|i: int| 0 <= i < cs.len() ==> (#[trigger] cs[i]).chunk_status == ChunkStatus::Failed,
        (rollup_doc_status_spec(rollup_spec(cs)->0) == DocStatus::PARTIALLY_FAILED) <==> !(forall|i: int| 0 <= i < cs.len() ==> (#[trigger] cs[i]).chunk_status == ChunkStatus::Success) && !(forall|i: int| 0 <= i < cs.len() ==> (#[trigger] cs[i]).chunk_status == ChunkStatus::Failed),
{
    if forall|i: int| 0 <= i < cs.len() ==> (#[trigger] cs[i]).chunk_status == ChunkStatus::Success {
        assert(cs[0].chunk_status != ChunkStatus::Failed);
    }
}

/// After the entity records of a chunk are upserted into the entity store,
/// both ends of each of its relationship records are stored entities.
pub proof fn law_entity_locality(
    old_entities: Map<Seq<char>, JsonValue>,
    new_entities: Map<Seq<char>, JsonValue>,
    entity_records: Seq<(String, JsonValue)>,
    now: int,
    cache_list: bool,
    relation: JsonValue,
    doc: Seq<char>,
    chunk: Seq<char>,
)
    requires
        upserted(old_entities, new_entities, entity_records, now, cache_list),
        relation_record_ok(relation, doc, chunk, to_map(entity_records).dom()),
    ensures
        new_entities.contains_key(relation.str_field_spec("source_entity_id"@)->0),
        new_entities.contains_key(relation.str_field_spec("target_entity_id"@)->0),
{
    let s = relation.str_field_spec("source_entity_id"@)->0;
    let t = relation.str_field_spec("target_entity_id"@)->0;
    lemma_lookup_some(entity_records, s);
    lemma_lookup_some(entity_records, t);
    assert(key_set(entity_records).contains(s));
    assert(key_set(entity_records).contains(t));
}

/// How many times the worker dispatches chunk `c` when its extractions
/// fail with the messages `errors`, one per dispatch, each failure handled
/// by `record_failure` (a success ends the dispatching).
pub open spec fn dispatch_count(c: ChunkState, errors: Seq<String>) -> nat
    decreases errors.len(),
{
    1 + if errors.len() > 0 && failure_step(c, errors[0]).1 {
        dispatch_count(failure_step(c, errors[0]).0, errors.drop_first())
    } else {
        0
    }
}

proof fn lemma_dispatch_count(c: ChunkState, errors: Seq<String>)
    requires
        c.current_retry <= c.max_retries,
    ensures
        dispatch_count(c, errors) <= c.max_retries - c.current_retry + 1,
    decreases errors.len(),
{
    if errors.len() > 0 && failure_step(c, errors[0]).1 {
        lemma_dispatch_count(failure_step(c, errors[0]).0, errors.drop_first());
    }
}

/// A chunk that has not been retried yet is dispatched at most
/// `max_retries + 1` times, whatever its extractions return.
pub proof fn law_retry_bound(c: ChunkState, errors: Seq<String>)
    requires
        c.current_retry == 0,
    ensures
        dispatch_count(c, errors) <= c.max_retries + 1,
{
    lemma_dispatch_count(c, errors);
}

/// Reading back an upserted record gives the record as written: `_id` is
/// its key, `update_time` the upsert time, `create_time` kept or the upsert
/// time, and every other member unchanged.
pub proof fn law_upsert_then_get(
    old: Map<Seq<char>, JsonValue>,
    new: Map<Seq<char>, JsonValue>,
    records: Seq<(String, JsonValue)>,
    now: int,
    cache_list: bool,
    k: Seq<char>,
    r: JsonValue,
)
    requires
        upserted(old, new, records, now, cache_list),
        has_key(records, k),
        normalized(r, k, new[k]),
    ensures
        new.contains_key(k),
        r.str_field_spec("_id"@) == Some(k),
        r.field_spec("update_time"@) == Some(JsonValue::Int(now as i64)),
        r.field_spec("create_time"@) == or_default(base_get(lookup(records, k)->0, "create_time"@), JsonValue::Int(now as i64)),
        forall|q: Seq<char>| q != "_id"@ && q != "create_time"@ && q != "update_time"@ && q != "llm_cache_list"@ ==> #[trigger] r.field_spec(q) == base_get(lookup(records, k)->0, q),
{
    assert(key_set(records).contains(k));
    assert(new.contains_key(k));
    let x = lookup(records, k)->0;
    assert(decorated(new[k], k, x, now, cache_list));
    assert forall|q: Seq<char>| q != "_id"@ && q != "create_time"@ && q != "update_time"@ && q != "llm_cache_list"@ implies #[trigger] r.field_spec(q) == base_get(x, q) by {
        assert(r.field_spec(q) == base_get(new[k], q));
        assert(new[k].field_spec(q) == base_get(x, q));
    }
}

/// A well-formed store holds exactly one entry for a key it contains, so
/// upserting the same record twice leaves one entry.
pub proof fn law_single_entry(store: &JsonKvStorage, k: Seq<char>)
    requires
        store.wf(),
        store@.contains_key(k),
    ensures
        store.entry_count(k) == 1,
{
    store.lemma_entry_count(k);
}

/// Ingesting the same documents twice: after the first plan is enqueued,
/// planning the same documents again plans nothing, so neither store gains
/// a key.
pub proof fn law_idempotent_ingest(
    docs: Seq<(String, String)>,
    before: Map<Seq<char>, crate::doc_status::DocRecordView>,
    first: Seq<PendingDocument>,
    after: Map<Seq<char>, crate::doc_status::DocRecordView>,
    second: Seq<PendingDocument>,
    track_id: Seq<char>,
    now: Seq<char>,
)
    requires
        forall|j: int| 0 <= j < docs.len() && sanitize_text_spec((#[trigger] docs[j]).0@).len() > 0 && !before.contains_key(doc_id_spec(sanitize_text_spec(docs[j].0@))) ==> exists|t: int| 0 <= t < first.len() && (#[trigger] first[t]).id@ == doc_id_spec(sanitize_text_spec(docs[j].0@)),
        forall|k: Seq<char>| #[trigger] before.contains_key(k) ==> after.contains_key(k),
        forall|t: int| 0 <= t < first.len() ==> after.contains_key((#[trigger] first[t]).id@),
        forall|t: int| 0 <= t < second.len() ==> !after.contains_key((#[trigger] second[t]).id@) && sanitize_text_spec(second[t].content@).len() > 0 && exists|j: int| 0 <= j < docs.len() && planned_from(second[t], (#[trigger] docs[j]).0@, docs[j].1@, track_id, now),
    ensures
        second.len() == 0,
{
    if second.len() > 0 {
        let j = choose|j: int| 0 <= j < docs.len() && planned_from(second[0], (#[trigger] docs[j]).0@, docs[j].1@, track_id, now);
        let id = doc_id_spec(sanitize_text_spec(docs[j].0@));
        assert(second[0].id@ == id);
        if !before.contains_key(id) {
            let t = choose|t: int| 0 <= t < first.len() && (#[trigger] first[t]).id@ == id;
            assert(after.contains_key(first[t].id@));
        }
    }
}

} // verus!
