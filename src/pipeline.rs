//! Document intake and the records the pipeline writes for chunks.
use crate::chunker::Chunk;
use crate::doc_status::JsonDocStatusStorage;
use crate::ids::{doc_id, doc_id_spec};
use crate::keyed::{find_key, keys_unique, put, to_map};
use crate::status_service::PendingDocument;
use crate::json::{JsonObject, JsonValue};
use crate::text::{chars_of, string_of, trim_seq, trim_str};
use vstd::prelude::*;
use vstd::string::*;

verus! {

/// A stored chunk record of document `doc` that still needs extraction:
/// its status is `Pending` or `Failed`.
pub open spec fn selectable(v: JsonValue, doc: Seq<char>) -> bool {
    (v.str_field_spec("status"@) == Some("Pending"@) || v.str_field_spec("status"@) == Some("Failed"@))
        && v.str_field_spec("full_doc_id"@) == Some(doc)
}

/// A non-negative integer value that fits `usize`.
pub open spec fn nat_of(v: Option<JsonValue>) -> Option<nat> {
    match v {
        Some(JsonValue::Int(i)) => if 0 <= i && i <= usize::MAX { Some(i as nat) } else { None },
        _ => None,
    }
}

/// The token count of a chunk record: `token`, or `tokens` when absent.
pub open spec fn tokens_of(v: JsonValue) -> Option<nat> {
    if v.field_spec("token"@) is Some {
        nat_of(v.field_spec("token"@))
    } else {
        nat_of(v.field_spec("tokens"@))
    }
}

/// The chunk that record `v` of key `k` describes, if it is complete.
pub open spec fn record_chunk(k: Seq<char>, v: JsonValue, c: Chunk) -> bool {
    &&& c.id@ == k
    &&& v.str_field_spec("content"@) == Some(c.content@)
    &&& nat_of(v.field_spec("chunk_order_index"@)) == Some(c.order as nat)
    &&& tokens_of(v) == Some(c.token_count as nat)
}

/// The record is complete: content, order and token count are present.
pub open spec fn complete(v: JsonValue) -> bool {
    v.str_field_spec("content"@) is Some && nat_of(v.field_spec("chunk_order_index"@)) is Some && tokens_of(v) is Some
}

/// `c` comes from a record of `records` that needs extraction for `doc`.
pub open spec fn from_records(c: Chunk, records: Seq<(String, JsonValue)>, doc: Seq<char>) -> bool {
    exists|j: int| 0 <= j < records.len() && selectable(records[j].1, doc) && record_chunk(#[trigger] records[j].0@, records[j].1, c)
}

fn nat_field(v: &JsonValue, k: &String) -> (r: Option<usize>)
    ensures
        match r {
            Some(n) => nat_of(v.field_spec(k@)) == Some(n as nat),
            None => nat_of(v.field_spec(k@)) is None,
        },
{
    match v.field(k) {
        Some(JsonValue::Int(i)) => {
            if *i >= 0 {
                if (*i as u64) <= (usize::MAX as u64) {
                    Some(*i as usize)
                } else {
                    None
                }
            } else {
                None
            }
        },
        _ => None,
    }
}

fn chunk_from_record(k: &String, v: &JsonValue) -> (r: Option<Chunk>)
    ensures
        match r {
            Some(c) => record_chunk(k@, *v, c),
            None => !complete(*v),
        },
{
    let content = match v.str_field(&String::from_str("content")) {
        Some(c) => c.clone(),
        None => {
            return None;
        },
    };
    let order = match nat_field(v, &String::from_str("chunk_order_index")) {
        Some(o) => o,
        None => {
            return None;
        },
    };
    let k_token = String::from_str("token");
    let tokens = if v.field(&k_token).is_some() {
        nat_field(v, &k_token)
    } else {
        nat_field(v, &String::from_str("tokens"))
    };
    match tokens {
        Some(t) => Some(Chunk { id: k.clone(), content, order, token_count: t }),
        None => None,
    }
}

fn is_selectable(v: &JsonValue, doc_id: &String) -> (r: bool)
    ensures
        r == selectable(*v, doc_id@),
{
    let status_ok = match v.str_field(&String::from_str("status")) {
        Some(s) => *s == String::from_str("Pending") || *s == String::from_str("Failed"),
        None => false,
    };
    let doc_ok = match v.str_field(&String::from_str("full_doc_id")) {
        Some(d) => *d == *doc_id,
        None => false,
    };
    status_ok && doc_ok
}

/// The chunks of document `doc_id` among the stored chunk records that
/// still need extraction (status `Pending` or `Failed`), in ascending
/// chunk order. Incomplete records are skipped.
pub fn pending_chunks_for_doc(records: &Vec<(String, JsonValue)>, doc_id: &String) -> (r: Vec<Chunk>)
    ensures
        forall|t: int| 0 <= t < r@.len() ==> from_records(#[trigger] r@[t], records@, doc_id@),
        forall|j: int| 0 <= j < records@.len() && selectable(records@[j].1, doc_id@) && complete(records@[j].1) ==> exists|t: int| 0 <= t < r@.len() && (#[trigger] r@[t]).id@ == records@[j].0@,
        forall|a: int, b: int| 0 <= a < b < r@.len() ==> r@[a].order <= r@[b].order,
        keys_unique(records@) ==> distinct_ids(r@),
{
    let mut rem: Vec<Chunk> = Vec::new();
    let mut i: usize = 0;
    while i < records.len()
        invariant
            i <= records@.len(),
            forall|t: int| 0 <= t < rem@.len() ==> from_records(#[trigger] rem@[t], records@, doc_id@),
            forall|j: int| 0 <= j < i && selectable(records@[j].1, doc_id@) && complete(records@[j].1) ==> exists|t: int| 0 <= t < rem@.len() && (#[trigger] rem@[t]).id@ == records@[j].0@,
            forall|t: int| 0 <= t < rem@.len() ==> exists|q: int| 0 <= q < i && (#[trigger] rem@[t]).id@ == records@[q].0@,
            keys_unique(records@) ==> distinct_ids(rem@),
        decreases records.len() - i,
    {
        if is_selectable(&records[i].1, doc_id) {
            match chunk_from_record(&records[i].0, &records[i].1) {
                Some(c) => {
                    let ghost before = rem@;
                    rem.push(c);
                    proof {
                        assert(from_records(rem@[rem@.len() - 1], records@, doc_id@)) by {
                            assert(record_chunk(records@[i as int].0@, records@[i as int].1, c));
                        }
                        assert forall|t: int| 0 <= t < rem@.len() implies from_records(#[trigger] rem@[t], records@, doc_id@) by {
                            if t < before.len() {
                                assert(rem@[t] == before[t]);
                            }
                        }
                        assert forall|j: int| 0 <= j < i + 1 && selectable(records@[j].1, doc_id@) && complete(records@[j].1) implies exists|t: int| 0 <= t < rem@.len() && (#[trigger] rem@[t]).id@ == records@[j].0@ by {
                            if j < i {
                                let t = choose|t: int| 0 <= t < before.len() && (#[trigger] before[t]).id@ == records@[j].0@;
                                assert(rem@[t] == before[t]);
                            } else {
                                assert(rem@[rem@.len() - 1].id@ == records@[j].0@);
                            }
                        }
                        assert forall|t: int| 0 <= t < rem@.len() implies exists|q: int| 0 <= q < i + 1 && (#[trigger] rem@[t]).id@ == records@[q].0@ by {
                            if t < before.len() {
                                assert(rem@[t] == before[t]);
                            } else {
                                assert(rem@[t].id@ == records@[i as int].0@);
                            }
                        }
                        if keys_unique(records@) {
                            assert forall|a: int, b: int| 0 <= a < rem@.len() && 0 <= b < rem@.len() && a != b implies rem@[a].id@ != rem@[b].id@ by {
                                if a < before.len() && b < before.len() {
                                    assert(rem@[a] == before[a] && rem@[b] == before[b]);
                                } else if a < before.len() {
                                    assert(rem@[a] == before[a]);
                                    let q = choose|q: int| 0 <= q < i && (#[trigger] before[a]).id@ == records@[q].0@;
                                    assert(records@[q].0@ != records@[i as int].0@);
                                } else {
                                    assert(rem@[b] == before[b]);
                                    let q = choose|q: int| 0 <= q < i && (#[trigger] before[b]).id@ == records@[q].0@;
                                    assert(records@[q].0@ != records@[i as int].0@);
                                }
                            }
                        }
                    }
                },
                None => {},
            }
        }
        i = i + 1;
    }
    let ghost before = rem@;
    let out = sort_by_order(rem);
    assert(keys_unique(records@) ==> distinct_ids(out@));
    proof {
        assert forall|t: int| 0 <= t < out@.len() implies from_records(#[trigger] out@[t], records@, doc_id@) by {
            assert(out@.contains(out@[t]));
            vstd::seq_lib::to_multiset_contains(out@, out@[t]);
            vstd::seq_lib::to_multiset_contains(before, out@[t]);
            let u = choose|u: int| 0 <= u < before.len() && before[u] == out@[t];
        }
        assert forall|j: int| 0 <= j < records@.len() && selectable(records@[j].1, doc_id@) && complete(records@[j].1) implies exists|t: int| 0 <= t < out@.len() && (#[trigger] out@[t]).id@ == records@[j].0@ by {
            let u = choose|u: int| 0 <= u < before.len() && (#[trigger] before[u]).id@ == records@[j].0@;
            assert(before.contains(before[u]));
            vstd::seq_lib::to_multiset_contains(before, before[u]);
            vstd::seq_lib::to_multiset_contains(out@, before[u]);
            let t = choose|t: int| 0 <= t < out@.len() && out@[t] == before[u];
            assert(out@[t].id@ == records@[j].0@);
        }
    }
    out
}

/// No two chunks share an id.
pub open spec fn distinct_ids(s: Seq<Chunk>) -> bool {
    forall|a: int, b: int| 0 <= a < s.len() && 0 <= b < s.len() && a != b ==> s[a].id@ != s[b].id@
}

/// The chunks in ascending chunk order.
fn sort_by_order(v: Vec<Chunk>) -> (r: Vec<Chunk>)
    ensures
        distinct_ids(v@) ==> distinct_ids(r@),
        r@.to_multiset() == v@.to_multiset(),
        forall|a: int, b: int| 0 <= a < b < r@.len() ==> r@[a].order <= r@[b].order,
{
    broadcast use vstd::seq_lib::group_to_multiset_ensures, vstd::multiset::group_multiset_axioms;
    let ghost m = v@.to_multiset();
    let ghost dv = distinct_ids(v@);
    let mut rem = v;
    let mut out: Vec<Chunk> = Vec::new();
    proof {
        vstd::multiset::lemma_multiset_empty_len(out@.to_multiset());
    }
    assert(out@.to_multiset() =~= vstd::multiset::Multiset::empty());
    assert(rem@.to_multiset().add(out@.to_multiset()) =~= m);
    while rem.len() > 0
        invariant
            rem@.to_multiset().add(out@.to_multiset()) == m,
            dv ==> distinct_ids(rem@) && distinct_ids(out@),
            dv ==> forall|a: int, t: int| 0 <= a < out@.len() && 0 <= t < rem@.len() ==> out@[a].id@ != rem@[t].id@,
            forall|a: int, b: int| 0 <= a < b < out@.len() ==> out@[a].order <= out@[b].order,
            forall|a: int, t: int| 0 <= a < out@.len() && 0 <= t < rem@.len() ==> out@[a].order <= rem@[t].order,
        decreases rem.len(),
    {
        let mut bp: usize = 0;
        let mut t: usize = 1;
        while t < rem.len()
            invariant
                rem@.len() > 0,
                bp < rem@.len(),
                1 <= t <= rem@.len(),
                forall|u: int| 0 <= u < t ==> rem@[bp as int].order <= rem@[u].order,
            decreases rem.len() - t,
        {
            if rem[t].order < rem[bp].order {
                bp = t;
            }
            t = t + 1;
        }
        let ghost old_rem = rem@;
        let ghost old_out = out@;
        let c = rem.remove(bp);
        out.push(c);
        proof {
            assert(rem@ == old_rem.remove(bp as int));
            assert(old_rem[bp as int] == c);
            vstd::seq_lib::to_multiset_remove(old_rem, bp as int);
            assert(rem@.to_multiset() == old_rem.to_multiset().remove(c));
            assert(out@ == old_out.push(c));
            vstd::seq_lib::to_multiset_build(old_out, c);
            assert(out@.to_multiset() =~= old_out.to_multiset().insert(c));
            assert(old_rem.to_multiset().count(c) > 0) by {
                vstd::seq_lib::to_multiset_contains(old_rem, c);
                assert(old_rem[bp as int] == c);
            }
            assert(rem@.to_multiset().add(out@.to_multiset()) =~= m);
            assert forall|a: int, t2: int| 0 <= a < out@.len() && 0 <= t2 < rem@.len() implies out@[a].order <= rem@[t2].order by {
                let u = if t2 < bp { t2 } else { t2 + 1 };
                assert(rem@[t2] == old_rem[u]);
                if a < old_out.len() {
                    assert(out@[a] == old_out[a]);
                }
            }
            assert forall|a: int, b: int| 0 <= a < b < out@.len() implies out@[a].order <= out@[b].order by {
                if b == out@.len() - 1 {
                    assert(out@[a] == old_out[a]);
                }
            }
            if dv {
                assert forall|a: int, b: int| 0 <= a < rem@.len() && 0 <= b < rem@.len() && a != b implies rem@[a].id@ != rem@[b].id@ by {
                    let a2 = if a < bp { a } else { a + 1 };
                    let b2 = if b < bp { b } else { b + 1 };
                    assert(rem@[a] == old_rem[a2] && rem@[b] == old_rem[b2]);
                }
                assert forall|a: int, t2: int| 0 <= a < out@.len() && 0 <= t2 < rem@.len() implies out@[a].id@ != rem@[t2].id@ by {
                    let u = if t2 < bp { t2 } else { t2 + 1 };
                    assert(rem@[t2] == old_rem[u]);
                    if a < old_out.len() {
                        assert(out@[a] == old_out[a]);
                    } else {
                        assert(out@[a] == old_rem[bp as int]);
                    }
                }
                assert forall|a: int, b: int| 0 <= a < out@.len() && 0 <= b < out@.len() && a != b implies out@[a].id@ != out@[b].id@ by {
                    if a < old_out.len() && b < old_out.len() {
                        assert(out@[a] == old_out[a] && out@[b] == old_out[b]);
                    } else if a < old_out.len() {
                        assert(out@[a] == old_out[a]);
                        assert(out@[b] == old_rem[bp as int]);
                    } else {
                        assert(out@[b] == old_out[b]);
                        assert(out@[a] == old_rem[bp as int]);
                    }
                }
            }
        }
    }
    proof {
        vstd::multiset::lemma_multiset_empty_len(rem@.to_multiset());
    }
    assert(rem@.to_multiset() =~= vstd::multiset::Multiset::empty());
    assert(out@.to_multiset() =~= m);
    out
}

/// Drops carriage returns, then trims whitespace at both ends.
pub open spec fn sanitize_text_spec(s: Seq<char>) -> Seq<char> {
    trim_seq(s.filter(|c: char| c != '\r'))
}

/// The text with carriage returns removed and trimmed.
pub fn sanitize_text(input: &str) -> (r: String)
    ensures
        r@ == sanitize_text_spec(input@),
{
    let v = chars_of(input);
    let mut kept: Vec<char> = Vec::new();
    let mut i: usize = 0;
    while i < v.len()
        invariant
            v@ == input@,
            i <= v@.len(),
            kept@ == v@.subrange(0, i as int).filter(|c: char| c != '\r'),
        decreases v.len() - i,
    {
        let ghost pre = v@.subrange(0, i as int);
        assert(v@.subrange(0, i + 1) =~= pre.push(v@[i as int]));
        proof {
            pre.lemma_filter_push(v@[i as int], |c: char| c != '\r');
        }
        if v[i] != '\r' {
            kept.push(v[i]);
        }
        i = i + 1;
    }
    assert(v@.subrange(0, i as int) =~= v@);
    let s = string_of(kept.as_slice());
    trim_str(s.as_str())
}

/// Longest summary kept, in characters.
pub const SUMMARY_MAX_CHARS: usize = 200;

/// The trimmed content, cut to its first 200 characters followed by an
/// ellipsis when longer.
pub open spec fn summary_spec(content: Seq<char>) -> Seq<char> {
    let t = trim_seq(content);
    if t.len() <= 200 {
        t
    } else {
        t.subrange(0, 200).push('\u{2026}')
    }
}

/// A short summary of a document's content.
pub fn summarize_content(content: &str) -> (r: String)
    ensures
        r@ == summary_spec(content@),
{
    let t = trim_str(content);
    let v = chars_of(t.as_str());
    if v.len() <= SUMMARY_MAX_CHARS {
        return t;
    }
    let mut out: Vec<char> = Vec::new();
    let mut i: usize = 0;
    while i < SUMMARY_MAX_CHARS
        invariant
            v@ == trim_seq(content@),
            v@.len() > 200,
            i <= 200,
            out@ == v@.subrange(0, i as int),
        decreases 200 - i,
    {
        out.push(v[i]);
        i = i + 1;
        assert(out@ =~= v@.subrange(0, i as int));
    }
    out.push('\u{2026}');
    string_of(out.as_slice())
}

/// Number of characters of the content.
pub fn content_length(content: &str) -> (r: usize)
    ensures
        r == content@.len(),
{
    content.unicode_len()
}

/// `d` is the pending document planned for content `content` from file
/// `path`, under `track_id` at time `now`: the content is kept as given,
/// while the id and summary come from the sanitized text.
pub open spec fn planned_from(d: PendingDocument, content: Seq<char>, path: Seq<char>, track_id: Seq<char>, now: Seq<char>) -> bool {
    let c = sanitize_text_spec(content);
    &&& d.content@ == content
    &&& d.id@ == doc_id_spec(c)
    &&& d.summary@ == summary_spec(c)
    &&& d.length == (if content.len() <= i64::MAX { content.len() as i64 } else { i64::MAX })
    &&& d.file_path@ == path
    &&& d.track_id@ == track_id
    &&& d.created_at@ == now
}

/// The documents of `docs` (content and file path) that are new: their
/// sanitized content is not empty and its document id is not in the store.
/// Documents with equal content are planned once, from the first of them.
pub fn plan_pending_documents(docs: &Vec<(String, String)>, track_id: &String, doc_status: &JsonDocStatusStorage, now: &String) -> (r: Vec<PendingDocument>)
    requires
        doc_status.wf(),
    ensures
        forall|a: int, b: int| 0 <= a < r@.len() && 0 <= b < r@.len() && a != b ==> r@[a].id@ != r@[b].id@,
        forall|t: int| 0 <= t < r@.len() ==> !doc_status@.contains_key((#[trigger] r@[t]).id@) && sanitize_text_spec(r@[t].content@).len() > 0 && exists|j: int| 0 <= j < docs@.len() && planned_from(r@[t], (#[trigger] docs@[j]).0@, docs@[j].1@, track_id@, now@),
        forall|j: int| 0 <= j < docs@.len() && sanitize_text_spec((#[trigger] docs@[j]).0@).len() > 0 && !doc_status@.contains_key(doc_id_spec(sanitize_text_spec(docs@[j].0@))) ==> exists|t: int| 0 <= t < r@.len() && (#[trigger] r@[t]).id@ == doc_id_spec(sanitize_text_spec(docs@[j].0@)),
{
    let mut out: Vec<PendingDocument> = Vec::new();
    let mut i: usize = 0;
    while i < docs.len()
        invariant
            doc_status.wf(),
            i <= docs@.len(),
            forall|a: int, b: int| 0 <= a < out@.len() && 0 <= b < out@.len() && a != b ==> out@[a].id@ != out@[b].id@,
            forall|t: int| 0 <= t < out@.len() ==> !doc_status@.contains_key((#[trigger] out@[t]).id@) && sanitize_text_spec(out@[t].content@).len() > 0 && exists|j: int| 0 <= j < docs@.len() && planned_from(out@[t], (#[trigger] docs@[j]).0@, docs@[j].1@, track_id@, now@),
            forall|j: int| 0 <= j < i && sanitize_text_spec((#[trigger] docs@[j]).0@).len() > 0 && !doc_status@.contains_key(doc_id_spec(sanitize_text_spec(docs@[j].0@))) ==> exists|t: int| 0 <= t < out@.len() && (#[trigger] out@[t]).id@ == doc_id_spec(sanitize_text_spec(docs@[j].0@)),
        decreases docs.len() - i,
    {
        let cleaned = sanitize_text(docs[i].0.as_str());
        let n = content_length(cleaned.as_str());
        if n > 0 {
            let id = doc_id(cleaned.as_str());
            let mut seen = false;
            let mut t: usize = 0;
            while t < out.len()
                invariant
                    t <= out@.len(),
                    !seen ==> forall|u: int| 0 <= u < t ==> (#[trigger] out@[u]).id@ != id@,
                    seen ==> exists|u: int| 0 <= u < out@.len() && (#[trigger] out@[u]).id@ == id@,
                decreases out.len() - t,
            {
                if out[t].id == id {
                    seen = true;
                }
                t = t + 1;
            }
            let present = doc_status.filter_keys(&vec![id.clone()]);
            proof {
                let one = seq![id];
                assert(crate::kv_store::str_set(one).contains(id@)) by {
                    assert(one[0]@ == id@);
                }
                if present@.len() > 0 {
                    assert(crate::kv_store::str_set(present@).contains(present@[0]@));
                } else {
                    assert(!crate::kv_store::str_set(present@).contains(id@));
                }
            }
            if !seen && present.len() > 0 {
                let raw_len = content_length(docs[i].0.as_str());
                let length: i64 = if (raw_len as u64) <= (i64::MAX as u64) { raw_len as i64 } else { i64::MAX };
                let d = PendingDocument {
                    id,
                    content: docs[i].0.clone(),
                    summary: summarize_content(cleaned.as_str()),
                    length,
                    file_path: docs[i].1.clone(),
                    track_id: track_id.clone(),
                    created_at: now.clone(),
                };
                let ghost before = out@;
                proof {
                    assert(planned_from(d, docs@[i as int].0@, docs@[i as int].1@, track_id@, now@));
                }
                out.push(d);
                proof {
                    assert forall|t2: int| 0 <= t2 < out@.len() implies !doc_status@.contains_key((#[trigger] out@[t2]).id@) && sanitize_text_spec(out@[t2].content@).len() > 0 && exists|j: int| 0 <= j < docs@.len() && planned_from(out@[t2], (#[trigger] docs@[j]).0@, docs@[j].1@, track_id@, now@) by {
                        if t2 < before.len() {
                            assert(out@[t2] == before[t2]);
                        } else {
                            assert(planned_from(out@[t2], docs@[i as int].0@, docs@[i as int].1@, track_id@, now@));
                        }
                    }
                    assert forall|j: int| 0 <= j < i + 1 && sanitize_text_spec((#[trigger] docs@[j]).0@).len() > 0 && !doc_status@.contains_key(doc_id_spec(sanitize_text_spec(docs@[j].0@))) implies exists|t2: int| 0 <= t2 < out@.len() && (#[trigger] out@[t2]).id@ == doc_id_spec(sanitize_text_spec(docs@[j].0@)) by {
                        if j < i {
                            let t2 = choose|t2: int| 0 <= t2 < before.len() && (#[trigger] before[t2]).id@ == doc_id_spec(sanitize_text_spec(docs@[j].0@));
                            assert(out@[t2] == before[t2]);
                        } else {
                            assert(out@[out@.len() - 1].id@ == id@);
                        }
                    }
                }
            }
        }
        i = i + 1;
    }
    out
}

/// The record stored for a new chunk of document `doc` from file `path`.
pub open spec fn new_chunk_record(v: JsonValue, doc: Seq<char>, c: Chunk, path: Seq<char>) -> bool {
    &&& selectable(v, doc)
    &&& v.str_field_spec("status"@) == Some("Pending"@)
    &&& record_chunk(c.id@, v, c)
    &&& v.str_field_spec("file_path"@) == Some(path)
}

fn chunk_record(doc_id: &String, c: &Chunk, file_path: &String) -> (r: JsonValue)
    requires
        c.order <= i64::MAX,
        c.token_count <= i64::MAX,
    ensures
        new_chunk_record(r, doc_id@, *c, file_path@),
{
    let k1 = String::from_str("content");
    let k2 = String::from_str("full_doc_id");
    let k3 = String::from_str("chunk_order_index");
    let k4 = String::from_str("file_path");
    let k5 = String::from_str("tokens");
    let k6 = String::from_str("status");
    let v1 = JsonValue::Str(c.content.clone());
    let v2 = JsonValue::Str(doc_id.clone());
    let v3 = JsonValue::Int(c.order as i64);
    let v4 = JsonValue::Str(file_path.clone());
    let v5 = JsonValue::Int(c.token_count as i64);
    let v6 = JsonValue::Str(String::from_str("Pending"));
    let o1 = JsonObject::Empty.set(k1, v1);
    let o2 = o1.set(k2, v2);
    let o3 = o2.set(k3, v3);
    let o4 = o3.set(k4, v4);
    let o5 = o4.set(k5, v5);
    let o6 = o5.set(k6, v6);
    proof {
        reveal_strlit("content");
        reveal_strlit("full_doc_id");
        reveal_strlit("chunk_order_index");
        reveal_strlit("file_path");
        reveal_strlit("tokens");
        reveal_strlit("status");
        reveal_strlit("token");
        assert("content"@.len() == 7 && "full_doc_id"@.len() == 11 && "chunk_order_index"@.len() == 17);
        assert("file_path"@.len() == 9 && "tokens"@.len() == 6 && "status"@.len() == 6 && "token"@.len() == 5);
        assert("tokens"@[0] != "status"@[0]);
        o5.lemma_set_get(k6, v6, "status"@);
        o5.lemma_set_get(k6, v6, "tokens"@);
        o4.lemma_set_get(k5, v5, "tokens"@);
        o5.lemma_set_get(k6, v6, "token"@);
        o4.lemma_set_get(k5, v5, "token"@);
        o3.lemma_set_get(k4, v4, "token"@);
        o2.lemma_set_get(k3, v3, "token"@);
        o1.lemma_set_get(k2, v2, "token"@);
        JsonObject::Empty.lemma_set_get(k1, v1, "token"@);
        o5.lemma_set_get(k6, v6, "file_path"@);
        o4.lemma_set_get(k5, v5, "file_path"@);
        o3.lemma_set_get(k4, v4, "file_path"@);
        o5.lemma_set_get(k6, v6, "chunk_order_index"@);
        o4.lemma_set_get(k5, v5, "chunk_order_index"@);
        o3.lemma_set_get(k4, v4, "chunk_order_index"@);
        o2.lemma_set_get(k3, v3, "chunk_order_index"@);
        o5.lemma_set_get(k6, v6, "full_doc_id"@);
        o4.lemma_set_get(k5, v5, "full_doc_id"@);
        o3.lemma_set_get(k4, v4, "full_doc_id"@);
        o2.lemma_set_get(k3, v3, "full_doc_id"@);
        o1.lemma_set_get(k2, v2, "full_doc_id"@);
        o5.lemma_set_get(k6, v6, "content"@);
        o4.lemma_set_get(k5, v5, "content"@);
        o3.lemma_set_get(k4, v4, "content"@);
        o2.lemma_set_get(k3, v3, "content"@);
        o1.lemma_set_get(k2, v2, "content"@);
        JsonObject::Empty.lemma_set_get(k1, v1, "content"@);
        assert((c.order as i64) as int == c.order as int);
        let r = JsonValue::Object(o6);
        assert(r.field_spec("token"@) is None);
        assert(r.field_spec("tokens"@) == Some(v5));
        assert(tokens_of(r) == Some(c.token_count as nat));
        assert(nat_of(r.field_spec("chunk_order_index"@)) == Some(c.order as nat));
        assert(r.str_field_spec("content"@) == Some(c.content@));
        assert(r.str_field_spec("status"@) == Some("Pending"@));
        assert(r.str_field_spec("full_doc_id"@) == Some(doc_id@));
        assert(r.str_field_spec("file_path"@) == Some(file_path@));
    }
    JsonValue::Object(o6)
}

/// Chunk records of document `doc_id` from file `file_path`, keyed by
/// chunk id, each with status `Pending`.
pub fn chunk_records(doc_id: &String, chunks: &Vec<Chunk>, file_path: &String) -> (r: Vec<(String, JsonValue)>)
    requires
        forall|i: int| 0 <= i < chunks@.len() ==> (#[trigger] chunks@[i]).order <= i64::MAX && chunks@[i].token_count <= i64::MAX,
    ensures
        keys_unique(r@),
        to_map(r@).dom() == Set::new(|k: Seq<char>| exists|i: int| 0 <= i < chunks@.len() && (#[trigger] chunks@[i]).id@ == k),
        forall|k: Seq<char>| #[trigger] to_map(r@).contains_key(k) ==> exists|i: int| 0 <= i < chunks@.len() && (#[trigger] chunks@[i]).id@ == k && new_chunk_record(to_map(r@)[k], doc_id@, chunks@[i], file_path@),
{
    let mut out: Vec<(String, JsonValue)> = Vec::new();
    let mut i: usize = 0;
    assert(to_map(out@).dom() =~= Set::new(|k: Seq<char>| exists|t: int| 0 <= t < 0 && (#[trigger] chunks@[t]).id@ == k));
    while i < chunks.len()
        invariant
            i <= chunks@.len(),
            forall|t: int| 0 <= t < chunks@.len() ==> (#[trigger] chunks@[t]).order <= i64::MAX && chunks@[t].token_count <= i64::MAX,
            keys_unique(out@),
            to_map(out@).dom() == Set::new(|k: Seq<char>| exists|t: int| 0 <= t < i && (#[trigger] chunks@[t]).id@ == k),
            forall|k: Seq<char>| #[trigger] to_map(out@).contains_key(k) ==> exists|t: int| 0 <= t < chunks@.len() && (#[trigger] chunks@[t]).id@ == k && new_chunk_record(to_map(out@)[k], doc_id@, chunks@[t], file_path@),
        decreases chunks.len() - i,
    {
        let c = &chunks[i];
        let rec = chunk_record(doc_id, c, file_path);
        let ghost before = to_map(out@);
        put(&mut out, c.id.clone(), rec);
        proof {
            assert(to_map(out@).dom() =~= Set::new(|k: Seq<char>| exists|t: int| 0 <= t < i + 1 && (#[trigger] chunks@[t]).id@ == k)) by {
                assert forall|k: Seq<char>| (exists|t: int| 0 <= t < i + 1 && (#[trigger] chunks@[t]).id@ == k) == (before.contains_key(k) || k == c.id@) by {
                    if exists|t: int| 0 <= t < i + 1 && (#[trigger] chunks@[t]).id@ == k {
                        let t = choose|t: int| 0 <= t < i + 1 && (#[trigger] chunks@[t]).id@ == k;
                        if t < i {
                            assert(before.dom().contains(k));
                        }
                    }
                    if k == c.id@ {
                        assert(chunks@[i as int].id@ == k);
                    }
                }
            }
            assert forall|k: Seq<char>| #[trigger] to_map(out@).contains_key(k) implies exists|t: int| 0 <= t < chunks@.len() && (#[trigger] chunks@[t]).id@ == k && new_chunk_record(to_map(out@)[k], doc_id@, chunks@[t], file_path@) by {
                if k == c.id@ {
                    assert(chunks@[i as int].id@ == k);
                } else {
                    assert(before.contains_key(k));
                }
            }
        }
        i = i + 1;
    }
    out
}

/// The stored chunk record with its status set (and, after a failure, its
/// error message).
pub fn with_chunk_status(record: JsonValue, status: &str, error: Option<String>) -> (r: JsonValue)
    ensures
        r.str_field_spec("status"@) == Some(status@),
        error is Some ==> r.str_field_spec("error"@) == Some(error->0@),
        forall|q: Seq<char>| q != "status"@ && q != "error"@ ==> #[trigger] r.field_spec(q) == crate::json::base_get(record, q),
{
    let o0 = crate::json::into_object(record);
    let ks = String::from_str("status");
    let vs = JsonValue::Str(String::from_str(status));
    let o1 = o0.set(ks, vs);
    proof {
        reveal_strlit("status");
        reveal_strlit("error");
        assert("status"@.len() != "error"@.len());
        assert forall|q: Seq<char>| #[trigger] o1.get_spec(q) == (if q == "status"@ { Some(vs) } else { o0.get_spec(q) }) by {
            o0.lemma_set_get(ks, vs, q);
        }
    }
    match error {
        Some(e) => {
            let ke = String::from_str("error");
            let ve = JsonValue::Str(e);
            let o2 = o1.set(ke, ve);
            proof {
                assert forall|q: Seq<char>| #[trigger] o2.get_spec(q) == (if q == "error"@ { Some(ve) } else { o1.get_spec(q) }) by {
                    o1.lemma_set_get(ke, ve, q);
                }
            }
            JsonValue::Object(o2)
        },
        None => JsonValue::Object(o1),
    }
}

/// How the pipeline cuts documents into chunks.
#[derive(Debug)]
pub struct PipelineConfig {
    pub chunk_size: usize,
    pub chunk_overlap: usize,
    pub split_by_character: Option<String>,
    pub split_by_character_only: bool,
}

impl Default for PipelineConfig {
    fn default() -> (r: PipelineConfig)
        ensures
            r.chunk_size == 500,
            r.chunk_overlap == 50,
            r.split_by_character is None,
            !r.split_by_character_only,
    {
        PipelineConfig { chunk_size: 500, chunk_overlap: 50, split_by_character: None, split_by_character_only: false }
    }
}

impl PipelineConfig {
    /// The chunker settings of this configuration.
    pub fn chunk_config(&self) -> (r: crate::chunker::ChunkConfig)
        ensures
            r.max_tokens == self.chunk_size,
            r.overlap_tokens == self.chunk_overlap,
            r.split_by_character == self.split_by_character,
            r.split_by_character_only == self.split_by_character_only,
    {
        crate::chunker::ChunkConfig {
            max_tokens: self.chunk_size,
            overlap_tokens: self.chunk_overlap,
            split_by_character: crate::doc_status::clone_opt(&self.split_by_character),
            split_by_character_only: self.split_by_character_only,
        }
    }
}

/// Why a document's text could not be read for processing.
#[derive(Clone, Copy, Debug, PartialEq, Eq, Structural)]
pub enum DocumentError {
    /// The full-document store holds no record for the id.
    Missing,
    /// The record has no text `content`.
    NoContent,
}

/// The text `content` of a stored full-document record.
pub open spec fn stored_content(v: JsonValue) -> Option<Seq<char>> {
    match crate::json::base_get(v, "content"@) {
        Some(JsonValue::Str(c)) => Some(c@),
        _ => None,
    }
}

/// The text of document `doc_id`: a missing record or a record without
/// text content is a fatal error for the document.
pub fn document_content(full_docs: &crate::kv_store::JsonKvStorage, doc_id: &String) -> (r: Result<String, DocumentError>)
    requires
        full_docs.wf(),
    ensures
        !full_docs@.contains_key(doc_id@) ==> r == Err::<String, DocumentError>(DocumentError::Missing),
        full_docs@.contains_key(doc_id@) ==> match stored_content(full_docs@[doc_id@]) {
            Some(c) => r is Ok && r->Ok_0@ == c,
            None => r == Err::<String, DocumentError>(DocumentError::NoContent),
        },
{
    match full_docs.get_by_id(doc_id) {
        None => Err(DocumentError::Missing),
        Some(rec) => {
            proof {
                reveal_strlit("content");
                reveal_strlit("_id");
                reveal_strlit("create_time");
                reveal_strlit("update_time");
                assert("content"@.len() != "_id"@.len() && "content"@.len() != "update_time"@.len() && "content"@[0] == "create_time"@[0] && "content"@[1] != "create_time"@[1]);
                assert(rec.field_spec("content"@) == crate::json::base_get(full_docs@[doc_id@], "content"@));
            }
            match rec.str_field(&String::from_str("content")) {
                Some(c) => Ok(c.clone()),
                None => Err(DocumentError::NoContent),
            }
        },
    }
}

} // verus!
