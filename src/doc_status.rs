//! The store of per-document processing records.
use crate::json::{JsonObject, JsonValue};
use crate::keyed::{
    find_key, has_key, key_set, keys_unique, lemma_lookup_index, lemma_lookup_some, lookup, put,
    remove_key, to_map,
};
use crate::kv_store::{prefix_and_dir, str_set, workspace_dir, workspace_prefix};
use vstd::prelude::*;
use vstd::string::*;

verus! {

/// Processing state of a document. `ALL` only labels the total in counts.
#[allow(non_camel_case_types)]
#[derive(Clone, Copy, Debug, PartialEq, Eq, Hash, Structural)]
pub enum DocStatus {
    PENDING,
    PROCESSING,
    PROCESSED,
    FAILED,
    PARTIALLY_FAILED,
    ALL,
}

pub open spec fn ov(o: Option<String>) -> Option<Seq<char>> {
    match o {
        Some(s) => Some(s@),
        None => None,
    }
}

pub open spec fn sv(v: Seq<String>) -> Seq<Seq<char>> {
    Seq::new(v.len(), |i: int| v[i]@)
}

/// A document's processing record as callers read and write it.
#[derive(Debug)]
pub struct DocProcessingStatus {
    pub id: Option<String>,
    pub status: DocStatus,
    pub content_summary: Option<String>,
    pub content_length: Option<i64>,
    pub created_at: Option<String>,
    pub updated_at: Option<String>,
    pub file_path: Option<String>,
    pub track_id: Option<String>,
    pub chunks_list: Option<Vec<String>>,
    pub metadata: Option<JsonValue>,
    pub error_msg: Option<String>,
}

pub struct DocStatusView {
    pub id: Option<Seq<char>>,
    pub status: DocStatus,
    pub content_summary: Option<Seq<char>>,
    pub content_length: Option<i64>,
    pub created_at: Option<Seq<char>>,
    pub updated_at: Option<Seq<char>>,
    pub file_path: Option<Seq<char>>,
    pub track_id: Option<Seq<char>>,
    pub chunks_list: Option<Seq<Seq<char>>>,
    pub metadata: Option<JsonValue>,
    pub error_msg: Option<Seq<char>>,
}

impl View for DocProcessingStatus {
    type V = DocStatusView;

    open spec fn view(&self) -> DocStatusView {
        DocStatusView {
            id: ov(self.id),
            status: self.status,
            content_summary: ov(self.content_summary),
            content_length: self.content_length,
            created_at: ov(self.created_at),
            updated_at: ov(self.updated_at),
            file_path: ov(self.file_path),
            track_id: ov(self.track_id),
            chunks_list: match self.chunks_list {
                Some(v) => Some(sv(v@)),
                None => None,
            },
            metadata: self.metadata,
            error_msg: ov(self.error_msg),
        }
    }
}

/// A document's processing record as the store keeps it.
#[derive(Debug)]
pub struct DocRecord {
    pub status: DocStatus,
    pub content_summary: Option<String>,
    pub content_length: Option<i64>,
    pub created_at: Option<String>,
    pub updated_at: Option<String>,
    pub file_path: Option<String>,
    pub track_id: Option<String>,
    pub chunks_list: Vec<String>,
    pub metadata: JsonValue,
    pub error_msg: Option<String>,
}

pub struct DocRecordView {
    pub status: DocStatus,
    pub content_summary: Option<Seq<char>>,
    pub content_length: Option<i64>,
    pub created_at: Option<Seq<char>>,
    pub updated_at: Option<Seq<char>>,
    pub file_path: Option<Seq<char>>,
    pub track_id: Option<Seq<char>>,
    pub chunks_list: Seq<Seq<char>>,
    pub metadata: JsonValue,
    pub error_msg: Option<Seq<char>>,
}

impl View for DocRecord {
    type V = DocRecordView;

    open spec fn view(&self) -> DocRecordView {
        DocRecordView {
            status: self.status,
            content_summary: ov(self.content_summary),
            content_length: self.content_length,
            created_at: ov(self.created_at),
            updated_at: ov(self.updated_at),
            file_path: ov(self.file_path),
            track_id: ov(self.track_id),
            chunks_list: sv(self.chunks_list@),
            metadata: self.metadata,
            error_msg: ov(self.error_msg),
        }
    }
}

/// A record as kept: a missing `file_path` becomes `"no-file-path"` and a
/// null `metadata` becomes `{}`.
pub open spec fn normalize_view(r: DocRecordView) -> DocRecordView {
    DocRecordView {
        file_path: if r.file_path is None {
            Some("no-file-path"@)
        } else {
            r.file_path
        },
        metadata: if r.metadata is Null {
            JsonValue::Object(JsonObject::Empty)
        } else {
            r.metadata
        },
        ..r
    }
}

/// The record kept for a written status.
pub open spec fn record_of(s: DocStatusView) -> DocRecordView {
    normalize_view(
        DocRecordView {
            status: s.status,
            content_summary: s.content_summary,
            content_length: s.content_length,
            created_at: s.created_at,
            updated_at: s.updated_at,
            file_path: s.file_path,
            track_id: s.track_id,
            chunks_list: match s.chunks_list {
                Some(c) => c,
                None => Seq::empty(),
            },
            metadata: match s.metadata {
                Some(m) => m,
                None => JsonValue::Object(JsonObject::Empty),
            },
            error_msg: s.error_msg,
        },
    )
}

/// The status read back for record `r` of document `id`.
pub open spec fn status_of(id: Seq<char>, r: DocRecordView) -> DocStatusView {
    DocStatusView {
        id: Some(id),
        status: r.status,
        content_summary: r.content_summary,
        content_length: r.content_length,
        created_at: r.created_at,
        updated_at: r.updated_at,
        file_path: Some(
            match r.file_path {
                Some(p) => p,
                None => "no-file-path"@,
            },
        ),
        track_id: r.track_id,
        chunks_list: Some(r.chunks_list),
        metadata: Some(
            if r.metadata is Null {
                JsonValue::Object(JsonObject::Empty)
            } else {
                r.metadata
            },
        ),
        error_msg: r.error_msg,
    }
}

pub fn clone_opt(o: &Option<String>) -> (r: Option<String>)
    ensures
        r == *o,
{
    match o {
        Some(s) => Some(s.clone()),
        None => None,
    }
}

pub fn clone_strings(v: &Vec<String>) -> (r: Vec<String>)
    ensures
        r@ == v@,
{
    let mut r: Vec<String> = Vec::new();
    let mut i: usize = 0;
    while i < v.len()
        invariant
            i <= v@.len(),
            r@ == v@.subrange(0, i as int),
        decreases v.len() - i,
    {
        r.push(v[i].clone());
        i = i + 1;
        assert(r@ =~= v@.subrange(0, i as int));
    }
    assert(v@.subrange(0, i as int) =~= v@);
    r
}

impl DocRecord {
    pub fn copy(&self) -> (r: DocRecord)
        ensures
            r@ == self@,
    {
        DocRecord {
            status: self.status,
            content_summary: clone_opt(&self.content_summary),
            content_length: self.content_length,
            created_at: clone_opt(&self.created_at),
            updated_at: clone_opt(&self.updated_at),
            file_path: clone_opt(&self.file_path),
            track_id: clone_opt(&self.track_id),
            chunks_list: clone_strings(&self.chunks_list),
            metadata: self.metadata.deep_clone(),
            error_msg: clone_opt(&self.error_msg),
        }
    }

    /// The record with defaults for a missing file path and null metadata.
    pub fn normalize(self) -> (r: DocRecord)
        ensures
            r@ == normalize_view(self@),
    {
        let mut r = self;
        if r.file_path.is_none() {
            r.file_path = Some(String::from_str("no-file-path"));
        }
        if matches!(r.metadata, JsonValue::Null) {
            r.metadata = JsonValue::Object(JsonObject::Empty);
        }
        r
    }

    /// The record as a status of document `id`.
    pub fn to_status(&self, id: &String) -> (r: DocProcessingStatus)
        ensures
            r@ == status_of(id@, self@),
    {
        let file_path = match &self.file_path {
            Some(p) => p.clone(),
            None => String::from_str("no-file-path"),
        };
        let metadata = if matches!(self.metadata, JsonValue::Null) {
            JsonValue::Object(JsonObject::Empty)
        } else {
            self.metadata.deep_clone()
        };
        DocProcessingStatus {
            id: Some(id.clone()),
            status: self.status,
            content_summary: clone_opt(&self.content_summary),
            content_length: self.content_length,
            created_at: clone_opt(&self.created_at),
            updated_at: clone_opt(&self.updated_at),
            file_path: Some(file_path),
            track_id: clone_opt(&self.track_id),
            chunks_list: Some(clone_strings(&self.chunks_list)),
            metadata: Some(metadata),
            error_msg: clone_opt(&self.error_msg),
        }
    }

    /// The record kept for a written status.
    pub fn from_status(s: DocProcessingStatus) -> (r: DocRecord)
        ensures
            r@ == record_of(s@),
    {
        let rec = DocRecord {
            status: s.status,
            content_summary: s.content_summary,
            content_length: s.content_length,
            created_at: s.created_at,
            updated_at: s.updated_at,
            file_path: s.file_path,
            track_id: s.track_id,
            chunks_list: match s.chunks_list {
                Some(c) => c,
                None => Vec::new(),
            },
            metadata: match s.metadata {
                Some(m) => m,
                None => JsonValue::Object(JsonObject::Empty),
            },
            error_msg: s.error_msg,
        };
        proof {
            if s.chunks_list is None {
                assert(sv(rec.chunks_list@) =~= Seq::<Seq<char>>::empty());
            }
        }
        rec.normalize()
    }
}

/// Records as a map from document id to record view.
pub open spec fn record_map(s: Seq<(String, DocRecord)>) -> Map<Seq<char>, DocRecordView> {
    Map::new(|k: Seq<char>| lookup(s, k) is Some, |k: Seq<char>| lookup(s, k)->0@)
}

/// Where a doc-status store lives and what it is called.
pub struct JsonDocStatusConfig {
    pub working_dir: String,
    pub namespace: String,
    pub workspace: Option<String>,
}

/// The doc-status store.
pub struct JsonDocStatusStorage {
    final_namespace: String,
    dir: String,
    file_name: String,
    data: Vec<(String, DocRecord)>,
    dirty: bool,
}

impl View for JsonDocStatusStorage {
    type V = Map<Seq<char>, DocRecordView>;

    closed spec fn view(&self) -> Map<Seq<char>, DocRecordView> {
        record_map(self.data@)
    }
}

impl JsonDocStatusStorage {
    pub closed spec fn wf(&self) -> bool {
        keys_unique(self.data@)
    }

    pub closed spec fn dirty_spec(&self) -> bool {
        self.dirty
    }

    pub closed spec fn final_namespace_spec(&self) -> String {
        self.final_namespace
    }

    pub closed spec fn dir_spec(&self) -> String {
        self.dir
    }

    pub closed spec fn file_name_spec(&self) -> String {
        self.file_name
    }

    /// An empty, clean store whose file is `doc_status_{namespace}.json`.
    pub fn new(config: JsonDocStatusConfig) -> (r: JsonDocStatusStorage)
        ensures
            r.wf(),
            r@ == Map::<Seq<char>, DocRecordView>::empty(),
            !r.dirty_spec(),
            r.final_namespace_spec()@ == workspace_prefix(config.workspace) + "_"@
                + config.namespace@,
            r.dir_spec()@ == workspace_dir(config.working_dir@, config.workspace),
            r.file_name_spec()@ == "doc_status_"@ + config.namespace@ + ".json"@,
    {
        let JsonDocStatusConfig { working_dir, namespace, workspace } = config;
        let (prefix, dir) = prefix_and_dir(working_dir, workspace);
        let final_namespace = prefix.concat("_").concat(namespace.as_str());
        let file_name = String::from_str("doc_status_").concat(namespace.as_str()).concat(".json");
        let r = JsonDocStatusStorage { final_namespace, dir, file_name, data: Vec::new(), dirty: false };
        assert(r@ =~= Map::<Seq<char>, DocRecordView>::empty());
        r
    }

    pub fn final_namespace(&self) -> (r: &String)
        ensures
            *r == self.final_namespace_spec(),
    {
        &self.final_namespace
    }

    pub fn dir(&self) -> (r: &String)
        ensures
            *r == self.dir_spec(),
    {
        &self.dir
    }

    pub fn file_name(&self) -> (r: &String)
        ensures
            *r == self.file_name_spec(),
    {
        &self.file_name
    }

    pub fn is_dirty(&self) -> (r: bool)
        ensures
            r == self.dirty_spec(),
    {
        self.dirty
    }

    /// Loads the records read from the store's file, normalized; the store
    /// is then clean.
    pub fn initialize(&mut self, data: Vec<(String, DocRecord)>)
        requires
            keys_unique(data@),
        ensures
            final(self).wf(),
            final(self)@ == Map::new(
                |k: Seq<char>| lookup(data@, k) is Some,
                |k: Seq<char>| normalize_view(lookup(data@, k)->0@),
            ),
            !final(self).dirty_spec(),
            final(self).final_namespace_spec() == old(self).final_namespace_spec(),
            final(self).dir_spec() == old(self).dir_spec(),
            final(self).file_name_spec() == old(self).file_name_spec(),
    {
        let ghost src = data@;
        let mut out: Vec<(String, DocRecord)> = Vec::new();
        let mut rest = data;
        let mut i: usize = 0;
        let n = rest.len();
        while i < n
            invariant
                n == src.len(),
                rest@.len() == n,
                forall|j: int| i <= j < n ==> #[trigger] rest@[j] == src[j],
                i <= n,
                out@.len() == i,
                forall|j: int|
                    0 <= j < i ==> (#[trigger] out@[j]).0 == src[j].0 && out@[j].1@
                        == normalize_view(src[j].1@),
            decreases n - i,
        {
            let k = rest[i].0.clone();
            let rec = rest[i].1.copy();
            out.push((k, rec.normalize()));
            i = i + 1;
        }
        proof {
            assert(keys_unique(out@));
            assert forall|q: Seq<char>| lookup(out@, q) is Some == (lookup(src, q) is Some) && (
            lookup(out@, q) is Some ==> lookup(out@, q)->0@ == normalize_view(lookup(src, q)->0@)) by {
                lemma_lookup_some(out@, q);
                lemma_lookup_some(src, q);
                if has_key(src, q) {
                    let j = choose|j: int| 0 <= j < src.len() && src[j].0@ == q;
                    assert(out@[j].0@ == q);
                    lemma_lookup_index(src, j);
                    lemma_lookup_index(out@, j);
                }
                if has_key(out@, q) {
                    let j = choose|j: int| 0 <= j < out@.len() && out@[j].0@ == q;
                    assert(src[j].0@ == q);
                }
            }
        }
        self.data = out;
        self.dirty = false;
        assert(self@ =~= Map::new(
            |k: Seq<char>| lookup(src, k) is Some,
            |k: Seq<char>| normalize_view(lookup(src, k)->0@),
        ));
    }
}

proof fn lemma_record_map_at(a: Seq<(String, DocRecord)>, q: Seq<char>)
    ensures
        record_map(a).contains_key(q) == (lookup(a, q) is Some),
        to_map(a).contains_key(q) == (lookup(a, q) is Some),
        lookup(a, q) is Some ==> record_map(a)[q] == lookup(a, q)->0@ && to_map(a)[q] == lookup(a, q)->0,
{
}

proof fn lemma_record_map_insert(a: Seq<(String, DocRecord)>, b: Seq<(String, DocRecord)>, k: Seq<char>, v: DocRecord)
    requires
        to_map(b) == to_map(a).insert(k, v),
    ensures
        record_map(b) == record_map(a).insert(k, v@),
{
    assert forall|q: Seq<char>| #[trigger] record_map(b).contains_key(q) == record_map(a).insert(k, v@).contains_key(q) by {
        lemma_record_map_at(a, q);
        lemma_record_map_at(b, q);
        assert(to_map(b).contains_key(q) == to_map(a).insert(k, v).contains_key(q));
    }
    assert forall|q: Seq<char>| #[trigger] record_map(b).contains_key(q) implies record_map(b)[q] == record_map(a).insert(k, v@)[q] by {
        lemma_record_map_at(a, q);
        lemma_record_map_at(b, q);
        assert(to_map(b)[q] == to_map(a).insert(k, v)[q]);
    }
    assert(record_map(b) =~= record_map(a).insert(k, v@));
}

proof fn lemma_record_map_remove(a: Seq<(String, DocRecord)>, b: Seq<(String, DocRecord)>, k: Seq<char>)
    requires
        to_map(b) == to_map(a).remove(k),
    ensures
        record_map(b) == record_map(a).remove(k),
{
    assert forall|q: Seq<char>| #[trigger] record_map(b).contains_key(q) == record_map(a).remove(k).contains_key(q) by {
        lemma_record_map_at(a, q);
        lemma_record_map_at(b, q);
        assert(to_map(b).contains_key(q) == to_map(a).remove(k).contains_key(q));
    }
    assert forall|q: Seq<char>| #[trigger] record_map(b).contains_key(q) implies record_map(b)[q] == record_map(a).remove(k)[q] by {
        lemma_record_map_at(a, q);
        lemma_record_map_at(b, q);
        assert(to_map(b)[q] == to_map(a).remove(k)[q]);
    }
    assert(record_map(b) =~= record_map(a).remove(k));
}

/// `new` is `old` after writing the statuses of `records`.
pub open spec fn written(
    old: Map<Seq<char>, DocRecordView>,
    new: Map<Seq<char>, DocRecordView>,
    records: Seq<(String, DocProcessingStatus)>,
) -> bool {
    &&& new.dom() == old.dom().union(key_set(records))
    &&& forall|k: Seq<char>|
        #[trigger] new.contains_key(k) ==> new[k] == if has_key(records, k) {
            record_of(lookup(records, k)->0@)
        } else {
            old[k]
        }
}

/// Records with a given status, or a given track id.
pub open spec fn matches_filter(r: DocRecordView, status: Option<DocStatus>, track: Option<Seq<char>>) -> bool {
    &&& (status is Some ==> r.status == status->0)
    &&& (track is Some ==> r.track_id == track)
}

/// The documents of `m` whose record satisfies the filter.
pub open spec fn filtered(m: Map<Seq<char>, DocRecordView>, status: Option<DocStatus>, track: Option<Seq<char>>) -> Set<Seq<char>> {
    Set::new(|k: Seq<char>| m.contains_key(k) && matches_filter(m[k], status, track))
}

/// Number of documents with status `st`.
pub open spec fn count_with_status(m: Map<Seq<char>, DocRecordView>, st: DocStatus) -> nat {
    filtered(m, Some(st), None).len()
}

impl JsonDocStatusStorage {
    /// Writes each status under its document id and marks the store dirty
    /// (unless `records` is empty); the caller then persists a snapshot.
    pub fn upsert(&mut self, records: Vec<(String, DocProcessingStatus)>)
        requires
            old(self).wf(),
            keys_unique(records@),
        ensures
            final(self).wf(),
            written(old(self)@, final(self)@, records@),
            final(self).dirty_spec() == (old(self).dirty_spec() || records@.len() > 0),
            final(self).final_namespace_spec() == old(self).final_namespace_spec(),
            final(self).dir_spec() == old(self).dir_spec(),
            final(self).file_name_spec() == old(self).file_name_spec(),
    {
        let ghost old_map = self@;
        let ghost recs = records@;
        let n = records.len();
        let mut rest = records;
        let mut i: usize = 0;
        while i < n
            invariant
                n == recs.len(),
                rest@.len() == n - i,
                forall|j: int| 0 <= j < n - i ==> #[trigger] rest@[j] == recs[j],
                i <= n,
                keys_unique(recs),
                keys_unique(self.data@),
                self.final_namespace == old(self).final_namespace,
                self.dir == old(self).dir,
                self.file_name == old(self).file_name,
                self.dirty == old(self).dirty,
                self@.dom() == old_map.dom().union(key_set(recs.subrange(n - i, n as int))),
                forall|k: Seq<char>|
                    #[trigger] self@.contains_key(k) ==> self@[k] == if has_key(recs.subrange(n - i, n as int), k) {
                        record_of(lookup(recs, k)->0@)
                    } else {
                        old_map[k]
                    },
            decreases n - i,
        {
            let (key, status) = rest.pop().unwrap();
            let ghost j = n - 1 - i;
            assert(recs[j] == (key, status));
            let rec = DocRecord::from_status(status);
            let ghost before = self.data@;
            proof {
                lemma_lookup_index(recs, j);
            }
            put(&mut self.data, key, rec);
            proof {
                lemma_record_map_insert(before, self.data@, key@, rec);
                let pre = recs.subrange(n - i, n as int);
                let cur = recs.subrange(j, n as int);
                assert forall|k: Seq<char>| has_key(cur, k) <==> (has_key(pre, k) || k == key@) by {
                    if has_key(cur, k) {
                        let t = choose|t: int| 0 <= t < cur.len() && cur[t].0@ == k;
                        if t > 0 {
                            assert(pre[t - 1].0@ == k);
                        }
                    }
                    if has_key(pre, k) {
                        let t = choose|t: int| 0 <= t < pre.len() && pre[t].0@ == k;
                        assert(cur[t + 1].0@ == k);
                    }
                    if k == key@ {
                        assert(cur[0].0@ == k);
                    }
                }
                assert(key_set(cur) =~= key_set(pre).insert(key@));
                assert(self@.dom() =~= old_map.dom().union(key_set(cur)));
            }
            i = i + 1;
        }
        assert(recs.subrange(0, n as int) =~= recs);
        if n > 0 {
            self.dirty = true;
        }
    }

    /// Removes the records of `ids`; dirty when one was present.
    pub fn delete(&mut self, ids: &Vec<String>)
        requires
            old(self).wf(),
        ensures
            final(self).wf(),
            final(self)@ == old(self)@.remove_keys(str_set(ids@)),
            final(self).dirty_spec() == (old(self).dirty_spec() || exists|j: int|
                0 <= j < ids@.len() && old(self)@.contains_key(#[trigger] ids@[j]@)),
            final(self).final_namespace_spec() == old(self).final_namespace_spec(),
            final(self).dir_spec() == old(self).dir_spec(),
            final(self).file_name_spec() == old(self).file_name_spec(),
    {
        let ghost old_map = self@;
        let mut removed_any = false;
        let mut i: usize = 0;
        while i < ids.len()
            invariant
                i <= ids@.len(),
                keys_unique(self.data@),
                self.final_namespace == old(self).final_namespace,
                self.dir == old(self).dir,
                self.file_name == old(self).file_name,
                self.dirty == old(self).dirty,
                self@ == old_map.remove_keys(str_set(ids@.subrange(0, i as int))),
                removed_any == exists|j: int| 0 <= j < i && old_map.contains_key(#[trigger] ids@[j]@),
            decreases ids.len() - i,
        {
            let ghost before_data = self.data@;
            let ghost before = self@;
            let was = remove_key(&mut self.data, &ids[i]);
            proof {
                lemma_record_map_remove(before_data, self.data@, ids@[i as int]@);
                let pre = ids@.subrange(0, i as int);
                let cur = ids@.subrange(0, i + 1);
                let x = ids@[i as int]@;
                assert(str_set(cur) =~= str_set(pre).insert(x)) by {
                    assert forall|k: Seq<char>| str_set(cur).contains(k) implies str_set(pre).insert(x).contains(k) by {
                        let j = choose|j: int| 0 <= j < cur.len() && cur[j]@ == k;
                        if j < i {
                            assert(pre[j]@ == k);
                        }
                    }
                    assert forall|k: Seq<char>| str_set(pre).insert(x).contains(k) implies str_set(cur).contains(k) by {
                        if str_set(pre).contains(k) {
                            let j = choose|j: int| 0 <= j < pre.len() && pre[j]@ == k;
                            assert(cur[j]@ == k);
                        } else {
                            assert(cur[i as int]@ == k);
                        }
                    }
                }
                assert(self@ =~= old_map.remove_keys(str_set(cur)));
                if old_map.contains_key(x) {
                    if str_set(pre).contains(x) {
                        let j = choose|j: int| 0 <= j < pre.len() && pre[j]@ == x;
                        assert(old_map.contains_key(ids@[j]@));
                    } else {
                        assert(before.contains_key(x));
                    }
                } else {
                    assert(!before.contains_key(x));
                }
                assert((removed_any || was) == exists|j: int|
                    0 <= j < i + 1 && old_map.contains_key(#[trigger] ids@[j]@)) by {
                    if exists|j: int| 0 <= j < i + 1 && old_map.contains_key(#[trigger] ids@[j]@) {
                        let j = choose|j: int| 0 <= j < i + 1 && old_map.contains_key(#[trigger] ids@[j]@);
                        if j < i {
                            assert(removed_any);
                        }
                    }
                }
            }
            if was {
                removed_any = true;
            }
            i = i + 1;
        }
        assert(ids@.subrange(0, i as int) =~= ids@);
        if removed_any {
            self.dirty = true;
        }
    }

    /// Removes every record; dirty when one was present.
    pub fn drop_all(&mut self)
        requires
            old(self).wf(),
        ensures
            final(self).wf(),
            final(self)@ == Map::<Seq<char>, DocRecordView>::empty(),
            final(self).dirty_spec() == (old(self).dirty_spec() || old(self)@.dom().len() > 0),
            final(self).final_namespace_spec() == old(self).final_namespace_spec(),
            final(self).dir_spec() == old(self).dir_spec(),
            final(self).file_name_spec() == old(self).file_name_spec(),
    {
        proof {
            self.lemma_dom();
        }
        if self.data.len() == 0 {
            return;
        }
        self.data = Vec::new();
        self.dirty = true;
        assert(self@ =~= Map::<Seq<char>, DocRecordView>::empty());
    }

    proof fn lemma_dom(&self)
        requires
            self.wf(),
        ensures
            self@.dom().finite(),
            self@.dom() == key_set(self.data@),
            (self.data@.len() == 0) == (self@.dom().len() == 0),
    {
        assert forall|k: Seq<char>| self@.dom().contains(k) == key_set(self.data@).contains(k) by {
            lemma_lookup_some(self.data@, k);
        }
        assert(self@.dom() =~= key_set(self.data@));
        lemma_key_set_finite(self.data@);
        if self.data@.len() > 0 {
            assert(self@.dom().contains(self.data@[0].0@)) by {
                assert(has_key(self.data@, self.data@[0].0@));
            }
        } else {
            assert(self@.dom() =~= Set::<Seq<char>>::empty());
        }
    }

    /// The status of document `id`, or `None`.
    pub fn get_by_id(&self, id: &String) -> (r: Option<DocProcessingStatus>)
        requires
            self.wf(),
        ensures
            r is Some == self@.contains_key(id@),
            r is Some ==> r->0@ == status_of(id@, self@[id@]),
    {
        match find_key(&self.data, id) {
            Some(i) => Some(self.data[i].1.to_status(id)),
            None => None,
        }
    }

    /// The statuses of `ids`, in order.
    pub fn get_by_ids(&self, ids: &Vec<String>) -> (r: Vec<Option<DocProcessingStatus>>)
        requires
            self.wf(),
        ensures
            r@.len() == ids@.len(),
            forall|i: int|
                0 <= i < ids@.len() ==> {
                    &&& (#[trigger] r@[i]) is Some == self@.contains_key(ids@[i]@)
                    &&& r@[i] is Some ==> r@[i]->0@ == status_of(ids@[i]@, self@[ids@[i]@])
                },
    {
        let mut out: Vec<Option<DocProcessingStatus>> = Vec::new();
        let mut i: usize = 0;
        while i < ids.len()
            invariant
                self.wf(),
                i <= ids@.len(),
                out@.len() == i,
                forall|j: int|
                    0 <= j < i ==> {
                        &&& (#[trigger] out@[j]) is Some == self@.contains_key(ids@[j]@)
                        &&& out@[j] is Some ==> out@[j]->0@ == status_of(ids@[j]@, self@[ids@[j]@])
                    },
            decreases ids.len() - i,
        {
            let r = self.get_by_id(&ids[i]);
            out.push(r);
            i = i + 1;
        }
        out
    }

    /// The ids among `keys` that the store does not hold.
    pub fn filter_keys(&self, keys: &Vec<String>) -> (r: Vec<String>)
        requires
            self.wf(),
        ensures
            str_set(r@) == str_set(keys@).difference(self@.dom()),
    {
        let mut out: Vec<String> = Vec::new();
        let mut i: usize = 0;
        while i < keys.len()
            invariant
                self.wf(),
                i <= keys@.len(),
                str_set(out@) == str_set(keys@.subrange(0, i as int)).difference(self@.dom()),
            decreases keys.len() - i,
        {
            let ghost pre = keys@.subrange(0, i as int);
            let ghost cur = keys@.subrange(0, i + 1);
            let ghost before = out@;
            let present = find_key(&self.data, &keys[i]);
            if present.is_none() {
                out.push(keys[i].clone());
            }
            proof {
                let x = keys@[i as int]@;
                assert(self@.contains_key(x) == present is Some);
                assert forall|k: Seq<char>| str_set(cur).contains(k) == (str_set(pre).contains(k) || k == x) by {
                    if str_set(cur).contains(k) {
                        let j = choose|j: int| 0 <= j < cur.len() && cur[j]@ == k;
                        if j < i {
                            assert(pre[j]@ == k);
                        }
                    }
                    if str_set(pre).contains(k) {
                        let j = choose|j: int| 0 <= j < pre.len() && pre[j]@ == k;
                        assert(cur[j]@ == k);
                    }
                    if k == x {
                        assert(cur[i as int]@ == k);
                    }
                }
                assert forall|k: Seq<char>| str_set(out@).contains(k) == (str_set(before).contains(k) || (k == x && present is None)) by {
                    if str_set(out@).contains(k) {
                        let j = choose|j: int| 0 <= j < out@.len() && out@[j]@ == k;
                        if j < before.len() {
                            assert(before[j]@ == k);
                        }
                    }
                    if str_set(before).contains(k) {
                        let j = choose|j: int| 0 <= j < before.len() && before[j]@ == k;
                        assert(out@[j]@ == k);
                    }
                    if k == x && present is None {
                        assert(out@[out@.len() - 1]@ == k);
                    }
                }
                assert forall|k: Seq<char>| str_set(out@).contains(k) == str_set(cur).difference(self@.dom()).contains(k) by {
                    assert(str_set(before).contains(k) == str_set(pre).difference(self@.dom()).contains(k));
                }
                assert(str_set(out@) =~= str_set(cur).difference(self@.dom()));
            }
            i = i + 1;
        }
        assert(keys@.subrange(0, i as int) =~= keys@);
        out
    }

    /// The records to write when the store is dirty; `None` when clean.
    pub fn snapshot_if_dirty(&self) -> (r: Option<Vec<(String, DocRecord)>>)
        requires
            self.wf(),
        ensures
            r is None == !self.dirty_spec(),
            r is Some ==> keys_unique(r->0@) && record_map(r->0@) == self@,
    {
        if !self.dirty {
            return None;
        }
        let mut out: Vec<(String, DocRecord)> = Vec::new();
        let mut i: usize = 0;
        while i < self.data.len()
            invariant
                self.wf(),
                i <= self.data@.len(),
                out@.len() == i,
                forall|j: int| 0 <= j < i ==> (#[trigger] out@[j]).0 == self.data@[j].0 && out@[j].1@ == self.data@[j].1@,
            decreases self.data.len() - i,
        {
            out.push((self.data[i].0.clone(), self.data[i].1.copy()));
            i = i + 1;
        }
        proof {
            assert(keys_unique(out@));
            assert forall|q: Seq<char>| lookup(out@, q) is Some == (lookup(self.data@, q) is Some) && (lookup(out@, q) is Some ==> lookup(out@, q)->0@ == lookup(self.data@, q)->0@) by {
                lemma_lookup_some(out@, q);
                lemma_lookup_some(self.data@, q);
                if has_key(self.data@, q) {
                    let j = choose|j: int| 0 <= j < self.data@.len() && self.data@[j].0@ == q;
                    assert(out@[j].0@ == q);
                    lemma_lookup_index(self.data@, j);
                    lemma_lookup_index(out@, j);
                }
                if has_key(out@, q) {
                    let j = choose|j: int| 0 <= j < out@.len() && out@[j].0@ == q;
                    assert(self.data@[j].0@ == q);
                }
            }
            assert(record_map(out@) =~= self@);
        }
        Some(out)
    }

    /// Records that the last snapshot was written; the store is clean.
    pub fn mark_synced(&mut self)
        requires
            old(self).wf(),
        ensures
            final(self).wf(),
            final(self)@ == old(self)@,
            !final(self).dirty_spec(),
            final(self).final_namespace_spec() == old(self).final_namespace_spec(),
            final(self).dir_spec() == old(self).dir_spec(),
            final(self).file_name_spec() == old(self).file_name_spec(),
    {
        self.dirty = false;
    }
}

pub proof fn lemma_key_set_finite<V>(s: Seq<(String, V)>)
    ensures
        key_set(s).finite(),
    decreases s.len(),
{
    if s.len() == 0 {
        assert(key_set(s) =~= Set::<Seq<char>>::empty());
    } else {
        lemma_key_set_finite(s.drop_last());
        assert forall|k: Seq<char>| #[trigger] key_set(s).contains(k) implies key_set(s.drop_last()).insert(s.last().0@).contains(k) by {
            let j = choose|j: int| 0 <= j < s.len() && s[j].0@ == k;
            if j < s.len() - 1 {
                assert(s.drop_last()[j].0@ == k);
            }
        }
        vstd::set_lib::lemma_set_subset_finite(key_set(s.drop_last()).insert(s.last().0@), key_set(s));
    }
}

/// The statuses of selected records: unique ids, exactly the ids of
/// `ids`, each with the status read back from `m`.
pub open spec fn statuses_of(r: Seq<(String, DocProcessingStatus)>, m: Map<Seq<char>, DocRecordView>, ids: Set<Seq<char>>) -> bool {
    &&& keys_unique(r)
    &&& key_set(r) == ids
    &&& forall|i: int| 0 <= i < r.len() ==> (#[trigger] r[i]).1@ == status_of(r[i].0@, m[r[i].0@])
}

/// `s` followed by `(st, n)` when `n`, the number of documents of `m` with
/// status `st`, is positive.
pub open spec fn push_count(s: Seq<(DocStatus, usize)>, m: Map<Seq<char>, DocRecordView>, st: DocStatus) -> Seq<(DocStatus, usize)> {
    if count_with_status(m, st) > 0 {
        s.push((st, count_with_status(m, st) as usize))
    } else {
        s
    }
}

/// Positive counts per status, in the order of the status list.
pub open spec fn status_count_list(m: Map<Seq<char>, DocRecordView>) -> Seq<(DocStatus, usize)> {
    push_count(
        push_count(
            push_count(
                push_count(push_count(Seq::empty(), m, DocStatus::PENDING), m, DocStatus::PROCESSING),
                m,
                DocStatus::PROCESSED,
            ),
            m,
            DocStatus::FAILED,
        ),
        m,
        DocStatus::PARTIALLY_FAILED,
    )
}

impl JsonDocStatusStorage {
    fn matches(r: &DocRecord, status: Option<DocStatus>, track: Option<&String>) -> (b: bool)
        ensures
            b == matches_filter(r@, status, match track { Some(t) => Some(t@), None => None }),
    {
        let s_ok = match status {
            Some(st) => r.status == st,
            None => true,
        };
        let t_ok = match track {
            Some(t) => match &r.track_id {
                Some(x) => *x == *t,
                None => false,
            },
            None => true,
        };
        s_ok && t_ok
    }

    /// Copies of the records that satisfy the filter, in stored order.
    pub(crate) fn select(&self, status: Option<DocStatus>, track: Option<&String>) -> (r: Vec<(String, DocRecord)>)
        requires
            self.wf(),
        ensures
            keys_unique(r@),
            key_set(r@) == filtered(self@, status, match track { Some(t) => Some(t@), None => None }),
            forall|i: int| 0 <= i < r@.len() ==> self@.contains_key((#[trigger] r@[i]).0@) && r@[i].1@ == self@[r@[i].0@],
    {
        let ghost tv = match track { Some(t) => Some(t@), None => None };
        let mut out: Vec<(String, DocRecord)> = Vec::new();
        let mut i: usize = 0;
        while i < self.data.len()
            invariant
                self.wf(),
                tv == match track { Some(t) => Some(t@), None => None::<Seq<char>> },
                i <= self.data@.len(),
                keys_unique(out@),
                forall|k: Seq<char>| has_key(out@, k) == (has_key(self.data@.subrange(0, i as int), k) && self@.contains_key(k) && matches_filter(self@[k], status, tv)),
                forall|j: int| 0 <= j < out@.len() ==> self@.contains_key((#[trigger] out@[j]).0@) && out@[j].1@ == self@[out@[j].0@],
            decreases self.data.len() - i,
        {
            let ghost before = out@;
            let ghost x = self.data@[i as int].0@;
            proof {
                lemma_lookup_index(self.data@, i as int);
                lemma_lookup_some(self.data@, x);
                assert(self@.contains_key(x) && self@[x] == self.data@[i as int].1@);
            }
            let m = Self::matches(&self.data[i].1, status, track);
            if m {
                proof {
                    assert(!has_key(before, x)) by {
                        if has_key(before, x) {
                            let t = choose|t: int| 0 <= t < self.data@.subrange(0, i as int).len() && self.data@.subrange(0, i as int)[t].0@ == x;
                            assert(self.data@[t].0@ == x);
                        }
                    }
                    crate::keyed::lemma_unique_push(before, (self.data@[i as int].0, self.data@[i as int].1));
                }
                out.push((self.data[i].0.clone(), self.data[i].1.copy()));
            }
            proof {
                assert forall|k: Seq<char>| has_key(self.data@.subrange(0, i + 1), k) == (has_key(self.data@.subrange(0, i as int), k) || k == x) by {
                    let cur = self.data@.subrange(0, i + 1);
                    let pre = self.data@.subrange(0, i as int);
                    if has_key(cur, k) {
                        let t = choose|t: int| 0 <= t < cur.len() && cur[t].0@ == k;
                        if t < i {
                            assert(pre[t].0@ == k);
                        }
                    }
                    if has_key(pre, k) {
                        let t = choose|t: int| 0 <= t < pre.len() && pre[t].0@ == k;
                        assert(cur[t].0@ == k);
                    }
                    if k == x {
                        assert(cur[i as int].0@ == k);
                    }
                }
                assert forall|k: Seq<char>| has_key(out@, k) == (has_key(before, k) || (k == x && out@.len() > before.len())) by {
                    if has_key(out@, k) {
                        let t = choose|t: int| 0 <= t < out@.len() && out@[t].0@ == k;
                        if t < before.len() {
                            assert(before[t].0@ == k);
                        }
                    }
                    if has_key(before, k) {
                        let t = choose|t: int| 0 <= t < before.len() && before[t].0@ == k;
                        assert(out@[t].0@ == k);
                    }
                    if k == x && out@.len() > before.len() {
                        assert(out@[before.len() as int].0@ == k);
                    }
                }
                assert((out@.len() > before.len()) == m);
                assert(m == matches_filter(self@[x], status, tv));
                assert(!has_key(self.data@.subrange(0, i as int), x)) by {
                    if has_key(self.data@.subrange(0, i as int), x) {
                        let t = choose|t: int| 0 <= t < self.data@.subrange(0, i as int).len() && self.data@.subrange(0, i as int)[t].0@ == x;
                        assert(self.data@[t].0@ == x);
                    }
                }
                assert forall|k: Seq<char>| has_key(out@, k) == (has_key(self.data@.subrange(0, i + 1), k) && self@.contains_key(k) && matches_filter(self@[k], status, tv)) by {
                    if k == x {
                        assert(!has_key(before, x));
                        assert(has_key(self.data@.subrange(0, i + 1), x));
                        assert(has_key(out@, k) == (has_key(before, k) || (k == x && out@.len() > before.len())));
                    } else {
                        assert(has_key(out@, k) == (has_key(before, k) || (k == x && out@.len() > before.len())));
                        assert(has_key(self.data@.subrange(0, i + 1), k) == (has_key(self.data@.subrange(0, i as int), k) || k == x));
                    }
                }
            }
            i = i + 1;
        }
        proof {
            assert(self.data@.subrange(0, i as int) =~= self.data@);
            assert forall|k: Seq<char>| key_set(out@).contains(k) == filtered(self@, status, tv).contains(k) by {
                lemma_lookup_some(self.data@, k);
            }
            assert(key_set(out@) =~= filtered(self@, status, tv));
        }
        out
    }

    fn statuses(&self, sel: Vec<(String, DocRecord)>, ghost_ids: Ghost<Set<Seq<char>>>) -> (r: Vec<(String, DocProcessingStatus)>)
        requires
            keys_unique(sel@),
            key_set(sel@) == ghost_ids@,
            forall|i: int| 0 <= i < sel@.len() ==> self@.contains_key((#[trigger] sel@[i]).0@) && sel@[i].1@ == self@[sel@[i].0@],
        ensures
            statuses_of(r@, self@, ghost_ids@),
    {
        let mut out: Vec<(String, DocProcessingStatus)> = Vec::new();
        let mut i: usize = 0;
        while i < sel.len()
            invariant
                i <= sel@.len(),
                out@.len() == i,
                forall|j: int| 0 <= j < sel@.len() ==> self@.contains_key((#[trigger] sel@[j]).0@) && sel@[j].1@ == self@[sel@[j].0@],
                forall|j: int| 0 <= j < i ==> (#[trigger] out@[j]).0 == sel@[j].0 && out@[j].1@ == status_of(sel@[j].0@, self@[sel@[j].0@]),
            decreases sel.len() - i,
        {
            let st = sel[i].1.to_status(&sel[i].0);
            out.push((sel[i].0.clone(), st));
            i = i + 1;
        }
        proof {
            assert forall|a: int, b: int| 0 <= a < out@.len() && 0 <= b < out@.len() && a != b implies out@[a].0@ != out@[b].0@ by {
                assert(out@[a].0 == sel@[a].0 && out@[b].0 == sel@[b].0);
            }
            assert forall|k: Seq<char>| key_set(out@).contains(k) == key_set(sel@).contains(k) by {
                if has_key(out@, k) {
                    let t = choose|t: int| 0 <= t < out@.len() && out@[t].0@ == k;
                    assert(sel@[t].0@ == k);
                }
                if has_key(sel@, k) {
                    let t = choose|t: int| 0 <= t < sel@.len() && sel@[t].0@ == k;
                    assert(out@[t].0@ == k);
                }
            }
            assert(key_set(out@) =~= key_set(sel@));
        }
        out
    }

    /// Every document with status `status`.
    pub fn docs_by_status(&self, status: DocStatus) -> (r: Vec<(String, DocProcessingStatus)>)
        requires
            self.wf(),
        ensures
            statuses_of(r@, self@, filtered(self@, Some(status), None)),
    {
        let sel = self.select(Some(status), None);
        self.statuses(sel, Ghost(filtered(self@, Some(status), None)))
    }

    /// Every document with track id `track_id`.
    pub fn docs_by_track_id(&self, track_id: &String) -> (r: Vec<(String, DocProcessingStatus)>)
        requires
            self.wf(),
        ensures
            statuses_of(r@, self@, filtered(self@, None, Some(track_id@))),
    {
        let sel = self.select(None, Some(track_id));
        self.statuses(sel, Ghost(filtered(self@, None, Some(track_id@))))
    }

    /// The number of documents with status `status`.
    pub fn count_status(&self, status: DocStatus) -> (r: usize)
        requires
            self.wf(),
        ensures
            r == count_with_status(self@, status),
    {
        let sel = self.select(Some(status), None);
        proof {
            lemma_key_set_len(sel@);
        }
        sel.len()
    }

    fn add_count(&self, out: &mut Vec<(DocStatus, usize)>, st: DocStatus)
        requires
            self.wf(),
        ensures
            final(out)@ == push_count(old(out)@, self@, st),
    {
        let c = self.count_status(st);
        if c > 0 {
            out.push((st, c));
        }
    }

    /// For each status held by at least one document, in the order
    /// PENDING, PROCESSING, PROCESSED, FAILED, PARTIALLY_FAILED, how many
    /// documents hold it.
    pub fn status_counts(&self) -> (r: Vec<(DocStatus, usize)>)
        requires
            self.wf(),
        ensures
            r@ == status_count_list(self@),
    {
        let mut out: Vec<(DocStatus, usize)> = Vec::new();
        self.add_count(&mut out, DocStatus::PENDING);
        self.add_count(&mut out, DocStatus::PROCESSING);
        self.add_count(&mut out, DocStatus::PROCESSED);
        self.add_count(&mut out, DocStatus::FAILED);
        self.add_count(&mut out, DocStatus::PARTIALLY_FAILED);
        out
    }

    /// `status_counts` followed by an `ALL` entry holding the number of
    /// documents.
    pub fn status_counts_with_total(&self) -> (r: Vec<(DocStatus, usize)>)
        requires
            self.wf(),
        ensures
            r@ == status_count_list(self@).push((DocStatus::ALL, self@.dom().len() as usize)),
    {
        let mut r = self.status_counts();
        proof {
            self.lemma_dom();
            lemma_key_set_len(self.data@);
        }
        let total = self.data.len();
        r.push((DocStatus::ALL, total));
        r
    }

    /// The first stored document whose file path is `file_path`.
    pub fn get_doc_by_file_path(&self, file_path: &String) -> (r: Option<DocProcessingStatus>)
        requires
            self.wf(),
        ensures
            r is None == !(exists|k: Seq<char>| #[trigger] self@.contains_key(k) && self@[k].file_path == Some(file_path@)),
            r is Some ==> {
                let k = r->0@.id->0;
                &&& r->0@.id is Some
                &&& self@.contains_key(k)
                &&& self@[k].file_path == Some(file_path@)
                &&& r->0@ == status_of(k, self@[k])
            },
    {
        let mut i: usize = 0;
        while i < self.data.len()
            invariant
                self.wf(),
                i <= self.data@.len(),
                forall|j: int| 0 <= j < i ==> (#[trigger] self.data@[j]).1@.file_path != Some(file_path@),
            decreases self.data.len() - i,
        {
            let matched = match &self.data[i].1.file_path {
                Some(p) => *p == *file_path,
                None => false,
            };
            if matched {
                proof {
                    lemma_lookup_index(self.data@, i as int);
                    let k = self.data@[i as int].0@;
                    lemma_lookup_some(self.data@, k);
                    assert(self@.contains_key(k) && self@[k].file_path == Some(file_path@));
                }
                return Some(self.data[i].1.to_status(&self.data[i].0));
            }
            i = i + 1;
        }
        proof {
            assert forall|k: Seq<char>| #[trigger] self@.contains_key(k) implies self@[k].file_path != Some(file_path@) by {
                lemma_lookup_some(self.data@, k);
                let j = choose|j: int| 0 <= j < self.data@.len() && self.data@[j].0@ == k;
                lemma_lookup_index(self.data@, j);
            }
        }
        None
    }
}

/// A sequence with unique keys has as many keys as entries.
pub proof fn lemma_key_set_len<V>(s: Seq<(String, V)>)
    requires
        keys_unique(s),
    ensures
        key_set(s).finite(),
        key_set(s).len() == s.len(),
    decreases s.len(),
{
    lemma_key_set_finite(s);
    if s.len() == 0 {
        assert(key_set(s) =~= Set::<Seq<char>>::empty());
    } else {
        let d = s.drop_last();
        assert(keys_unique(d)) by {
            assert forall|a: int, b: int| 0 <= a < d.len() && 0 <= b < d.len() && a != b implies d[a].0@ != d[b].0@ by {
                assert(d[a] == s[a] && d[b] == s[b]);
            }
        }
        lemma_key_set_len(d);
        assert forall|k: Seq<char>| key_set(s).contains(k) == key_set(d).insert(s.last().0@).contains(k) by {
            if has_key(s, k) {
                let j = choose|j: int| 0 <= j < s.len() && s[j].0@ == k;
                if j < s.len() - 1 {
                    assert(d[j].0@ == k);
                }
            }
            if has_key(d, k) {
                let j = choose|j: int| 0 <= j < d.len() && d[j].0@ == k;
                assert(s[j].0@ == k);
            }
        }
        assert(key_set(s) =~= key_set(d).insert(s.last().0@));
        assert(!key_set(d).contains(s.last().0@)) by {
            if has_key(d, s.last().0@) {
                let j = choose|j: int| 0 <= j < d.len() && d[j].0@ == s.last().0@;
                assert(s[j].0@ == s[s.len() - 1].0@);
            }
        }
    }
}

} // verus!
