//! A namespaced key-value store of JSON records with a dirty flag. The store
//! decides what is kept and when a snapshot is due; reading and writing the
//! file is left to the caller.
use crate::ids::{colon3, join_colon3};
use crate::json::{base_get, into_object, JsonArray, JsonObject, JsonValue};
use crate::keyed::{
    find_key, has_key, key_set, keys_unique, lemma_lookup_index, lemma_lookup_some, lookup, put,
    remove_key, to_map,
};
use crate::text::{ends_with, ends_with_seq};
use vstd::prelude::*;
use vstd::string::*;

verus! {

/// Where a store lives and what it is called.
pub struct JsonKvStorageConfig {
    pub working_dir: String,
    pub namespace: String,
    pub workspace: Option<String>,
}

/// `o` when it holds a value, else `d`.
pub open spec fn or_default(o: Option<JsonValue>, d: JsonValue) -> Option<JsonValue> {
    if o is Some {
        o
    } else {
        Some(d)
    }
}

/// `r` is record `v` of key `k` as a read returns it: an object with `_id`
/// set to the key and `create_time` / `update_time` defaulting to 0.
pub open spec fn normalized(r: JsonValue, k: Seq<char>, v: JsonValue) -> bool {
    &&& r is Object
    &&& r.str_field_spec("_id"@) == Some(k)
    &&& r.field_spec("create_time"@) == or_default(base_get(v, "create_time"@), JsonValue::Int(0))
    &&& r.field_spec("update_time"@) == or_default(base_get(v, "update_time"@), JsonValue::Int(0))
    &&& forall|q: Seq<char>|
        q != "_id"@ && q != "create_time"@ && q != "update_time"@ ==> #[trigger] r.field_spec(q)
            == base_get(v, q)
}

/// `r` is record `v` of key `k` as an upsert at time `now` stores it:
/// `create_time` kept when present (else `now`), `update_time` set to
/// `now`, `_id` set to the key, and, when `cache_list`, an empty
/// `llm_cache_list` added when absent.
pub open spec fn decorated(r: JsonValue, k: Seq<char>, v: JsonValue, now: int, cache_list: bool) -> bool {
    &&& r is Object
    &&& r.str_field_spec("_id"@) == Some(k)
    &&& r.field_spec("create_time"@) == or_default(base_get(v, "create_time"@), JsonValue::Int(now as i64))
    &&& r.field_spec("update_time"@) == Some(JsonValue::Int(now as i64))
    &&& r.field_spec("llm_cache_list"@) == (if cache_list {
        or_default(base_get(v, "llm_cache_list"@), JsonValue::Array(JsonArray::Empty))
    } else {
        base_get(v, "llm_cache_list"@)
    })
    &&& forall|q: Seq<char>|
        q != "_id"@ && q != "create_time"@ && q != "update_time"@ && q != "llm_cache_list"@
            ==> #[trigger] r.field_spec(q) == base_get(v, q)
}

/// A member value that is itself a cached response: an object with `return`.
pub open spec fn is_cache_entry(e: JsonValue) -> bool {
    e is Object && e.field_spec("return"@) is Some
}

/// The members of an object value, or none.
pub open spec fn inner_entries(v: JsonValue) -> Seq<(String, JsonValue)> {
    match v {
        JsonValue::Object(o) => o.entries(),
        _ => Seq::empty(),
    }
}

/// A top-level value in the legacy nested cache form `{hash: {return, ..}}`.
pub open spec fn is_legacy_value(v: JsonValue) -> bool {
    v is Object && forall|i: int|
        0 <= i < inner_entries(v).len() ==> is_cache_entry(#[trigger] inner_entries(v)[i].1)
}

/// Every top-level value is in the legacy nested form.
pub open spec fn is_legacy_store(data: Seq<(String, JsonValue)>) -> bool {
    data.len() > 0 && forall|i: int| 0 <= i < data.len() ==> is_legacy_value(#[trigger] data[i].1)
}

/// `cache_type` of a cached response, `"extract"` when absent.
pub open spec fn cache_type_of(e: JsonValue) -> Seq<char> {
    match e.str_field_spec("cache_type"@) {
        Some(t) => t,
        None => "extract"@,
    }
}

/// The flat `"{mode}:{cache_type}:{hash}"` entries of one mode.
pub open spec fn flat_entries(mode: Seq<char>, inner: Seq<(String, JsonValue)>) -> Seq<
    (Seq<char>, JsonValue),
> {
    Seq::new(inner.len(), |i: int| (colon3(mode, cache_type_of(inner[i].1), inner[i].0@), inner[i].1))
}

/// The flat entries of all modes, in order.
pub open spec fn all_flat(data: Seq<(String, JsonValue)>) -> Seq<(Seq<char>, JsonValue)>
    decreases data.len(),
{
    if data.len() == 0 {
        Seq::empty()
    } else {
        all_flat(data.drop_last()) + flat_entries(data.last().0@, inner_entries(data.last().1))
    }
}

/// `m` with the entries of `s` inserted in order.
pub open spec fn insert_all(m: Map<Seq<char>, JsonValue>, s: Seq<(Seq<char>, JsonValue)>) -> Map<
    Seq<char>,
    JsonValue,
>
    decreases s.len(),
{
    if s.len() == 0 {
        m
    } else {
        insert_all(m, s.drop_last()).insert(s.last().0, s.last().1)
    }
}

/// The contents after loading `data`, legacy nested cache form flattened.
pub open spec fn migrated_view(data: Seq<(String, JsonValue)>) -> Map<Seq<char>, JsonValue> {
    if is_legacy_store(data) {
        insert_all(Map::empty(), all_flat(data))
    } else {
        to_map(data)
    }
}

/// `new` is `old` after upserting `records` at `now`.
pub open spec fn upserted(
    old: Map<Seq<char>, JsonValue>,
    new: Map<Seq<char>, JsonValue>,
    records: Seq<(String, JsonValue)>,
    now: int,
    cache_list: bool,
) -> bool {
    &&& new.dom() == old.dom().union(key_set(records))
    &&& forall|k: Seq<char>|
        #[trigger] new.contains_key(k) ==> if has_key(records, k) {
            decorated(new[k], k, lookup(records, k)->0, now, cache_list)
        } else {
            new[k] == old[k]
        }
}

/// Key texts of a sequence of strings.
pub open spec fn str_set(s: Seq<String>) -> Set<Seq<char>> {
    Set::new(|k: Seq<char>| exists|i: int| 0 <= i < s.len() && s[i]@ == k)
}

/// A JSON key-value store for one namespace.
pub struct JsonKvStorage {
    namespace: String,
    final_namespace: String,
    dir: String,
    file_name: String,
    data: Vec<(String, JsonValue)>,
    dirty: bool,
}

impl View for JsonKvStorage {
    type V = Map<Seq<char>, JsonValue>;

    closed spec fn view(&self) -> Map<Seq<char>, JsonValue> {
        to_map(self.data@)
    }
}

proof fn lemma_names_distinct()
    ensures
        "_id"@ != "create_time"@,
        "_id"@ != "update_time"@,
        "_id"@ != "llm_cache_list"@,
        "create_time"@ != "update_time"@,
        "create_time"@ != "llm_cache_list"@,
        "update_time"@ != "llm_cache_list"@,
{
    reveal_strlit("_id");
    reveal_strlit("create_time");
    reveal_strlit("update_time");
    reveal_strlit("llm_cache_list");
    assert("_id"@.len() != "create_time"@.len());
    assert("_id"@.len() != "update_time"@.len());
    assert("_id"@.len() != "llm_cache_list"@.len());
    assert("create_time"@[0] != "update_time"@[0]);
    assert("create_time"@.len() != "llm_cache_list"@.len());
    assert("update_time"@.len() != "llm_cache_list"@.len());
}

/// Record `value` of key `key` as a read returns it.
pub fn normalize_record(key: &String, value: &JsonValue) -> (r: JsonValue)
    ensures
        normalized(r, key@, *value),
{
    let o0 = into_object(value.deep_clone());
    let k_ct = String::from_str("create_time");
    let k_ut = String::from_str("update_time");
    let k_id = String::from_str("_id");
    let o1 = o0.set_default(k_ct, JsonValue::Int(0));
    let o2 = o1.set_default(k_ut, JsonValue::Int(0));
    let idv = JsonValue::Str(key.clone());
    let o3 = o2.set(k_id, idv);
    proof {
        lemma_names_distinct();
        assert forall|q: Seq<char>| #[trigger] o3.get_spec(q) == (if q == "_id"@ {
            Some(idv)
        } else if q == "update_time"@ {
            or_default(base_get(*value, q), JsonValue::Int(0))
        } else if q == "create_time"@ {
            or_default(base_get(*value, q), JsonValue::Int(0))
        } else {
            base_get(*value, q)
        }) by {
            o0.lemma_set_get(k_ct, JsonValue::Int(0), q);
            o1.lemma_set_get(k_ut, JsonValue::Int(0), q);
            o2.lemma_set_get(k_id, idv, q);
        }
    }
    JsonValue::Object(o3)
}

impl JsonKvStorage {
    /// Well-formed: no two entries share a key.
    pub closed spec fn wf(&self) -> bool {
        keys_unique(self.data@)
    }

    pub closed spec fn dirty_spec(&self) -> bool {
        self.dirty
    }

    pub closed spec fn namespace_spec(&self) -> Seq<char> {
        self.namespace@
    }

    /// Upserts add an empty `llm_cache_list` to each record.
    pub open spec fn cache_list_spec(&self) -> bool {
        ends_with_seq(self.namespace_spec(), "text_chunks"@)
    }

    /// A store for `config`, empty and clean. Its logical name is the
    /// workspace (or `_`) and the namespace joined by `_`; its file is
    /// `kv_store_{namespace}.json` in the working directory, or in its
    /// workspace subdirectory.
    pub fn new(config: JsonKvStorageConfig) -> (r: JsonKvStorage)
        ensures
            r.wf(),
            r@ == Map::<Seq<char>, JsonValue>::empty(),
            !r.dirty_spec(),
            r.namespace_spec() == config.namespace@,
            r.final_namespace_spec()@ == workspace_prefix(config.workspace) + "_"@ + config.namespace@,
            r.dir_spec()@ == workspace_dir(config.working_dir@, config.workspace),
            r.file_name_spec()@ == "kv_store_"@ + config.namespace@ + ".json"@,
    {
        let JsonKvStorageConfig { working_dir, namespace, workspace } = config;
        let (prefix, dir) = prefix_and_dir(working_dir, workspace);
        let final_namespace = prefix.concat("_").concat(namespace.as_str());
        let file_name = String::from_str("kv_store_").concat(namespace.as_str()).concat(".json");
        let r = JsonKvStorage {
            namespace,
            final_namespace,
            dir,
            file_name,
            data: Vec::new(),
            dirty: false,
        };
        assert(r@ =~= Map::<Seq<char>, JsonValue>::empty());
        r
    }

    pub fn namespace(&self) -> (r: &String)
        ensures
            r@ == self.namespace_spec(),
    {
        &self.namespace
    }

    pub closed spec fn final_namespace_spec(&self) -> String {
        self.final_namespace
    }

    pub fn final_namespace(&self) -> (r: &String)
        ensures
            *r == self.final_namespace_spec(),
    {
        &self.final_namespace
    }

    pub closed spec fn dir_spec(&self) -> String {
        self.dir
    }

    /// Directory of the store's file.
    pub fn dir(&self) -> (r: &String)
        ensures
            *r == self.dir_spec(),
    {
        &self.dir
    }

    pub closed spec fn file_name_spec(&self) -> String {
        self.file_name
    }

    /// Name of the store's file within `dir`.
    pub fn file_name(&self) -> (r: &String)
        ensures
            *r == self.file_name_spec(),
    {
        &self.file_name
    }

    pub fn is_dirty(&self) -> (r: bool)
        ensures
            r == self.dirty_spec(),
    {
        self.dirty
    }

    fn namespace_requires_cache_list(&self) -> (r: bool)
        ensures
            r == self.cache_list_spec(),
    {
        ends_with(self.namespace.as_str(), "text_chunks")
    }

    fn decorate_upsert_record(&self, key: &String, value: JsonValue, now: i64) -> (r: JsonValue)
        ensures
            decorated(r, key@, value, now as int, self.cache_list_spec()),
    {
        let o0 = into_object(value);
        let k_cl = String::from_str("llm_cache_list");
        let o1 = if self.namespace_requires_cache_list() {
            o0.set_default(k_cl, JsonValue::Array(JsonArray::Empty))
        } else {
            o0
        };
        let k_ct = String::from_str("create_time");
        let k_ut = String::from_str("update_time");
        let k_id = String::from_str("_id");
        let o2 = o1.set_default(k_ct, JsonValue::Int(now));
        let o3 = o2.set(k_ut, JsonValue::Int(now));
        let idv = JsonValue::Str(key.clone());
        let o4 = o3.set(k_id, idv);
        proof {
            lemma_names_distinct();
            assert forall|q: Seq<char>| #[trigger] o1.get_spec(q) == (if q == "llm_cache_list"@
                && self.cache_list_spec() {
                or_default(base_get(value, q), JsonValue::Array(JsonArray::Empty))
            } else {
                base_get(value, q)
            }) by {
                o0.lemma_set_get(k_cl, JsonValue::Array(JsonArray::Empty), q);
            }
            assert forall|q: Seq<char>| #[trigger] o4.get_spec(q) == (if q == "_id"@ {
                Some(idv)
            } else if q == "update_time"@ {
                Some(JsonValue::Int(now))
            } else if q == "create_time"@ {
                or_default(o1.get_spec(q), JsonValue::Int(now))
            } else {
                o1.get_spec(q)
            }) by {
                o1.lemma_set_get(k_ct, JsonValue::Int(now), q);
                o2.lemma_set_get(k_ut, JsonValue::Int(now), q);
                o3.lemma_set_get(k_id, idv, q);
            }
        }
        JsonValue::Object(o4)
    }
}

/// `"_"` without a workspace, else the workspace name.
pub open spec fn workspace_prefix(workspace: Option<String>) -> Seq<char> {
    match workspace {
        Some(ws) => if ws@.len() > 0 {
            ws@
        } else {
            "_"@
        },
        None => "_"@,
    }
}

/// The working directory, or its workspace subdirectory.
pub open spec fn workspace_dir(working_dir: Seq<char>, workspace: Option<String>) -> Seq<char> {
    match workspace {
        Some(ws) => if ws@.len() > 0 {
            working_dir + "/"@ + ws@
        } else {
            working_dir
        },
        None => working_dir,
    }
}

/// The logical-name prefix and the directory for a workspace.
pub fn prefix_and_dir(working_dir: String, workspace: Option<String>) -> (r: (String, String))
    ensures
        r.0@ == workspace_prefix(workspace),
        r.1@ == workspace_dir(working_dir@, workspace),
{
    match workspace {
        Some(ws) => {
            if ws.as_str().unicode_len() > 0 {
                let dir = working_dir.concat("/").concat(ws.as_str());
                (ws, dir)
            } else {
                (String::from_str("_"), working_dir)
            }
        },
        None => (String::from_str("_"), working_dir),
    }
}

fn copy_entries(d: &Vec<(String, JsonValue)>) -> (r: Vec<(String, JsonValue)>)
    ensures
        r@ == d@,
{
    let mut r: Vec<(String, JsonValue)> = Vec::new();
    let mut i: usize = 0;
    while i < d.len()
        invariant
            i <= d@.len(),
            r@ == d@.subrange(0, i as int),
        decreases d.len() - i,
    {
        r.push((d[i].0.clone(), d[i].1.deep_clone()));
        i = i + 1;
        assert(r@ =~= d@.subrange(0, i as int));
    }
    assert(d@.subrange(0, i as int) =~= d@);
    r
}

fn is_legacy_value_exec(v: &JsonValue) -> (r: bool)
    ensures
        r == is_legacy_value(*v),
{
    match v {
        JsonValue::Object(o) => {
            let entries = o.deep_clone().into_entries();
            let ret = String::from_str("return");
            let mut i: usize = 0;
            while i < entries.len()
                invariant
                    entries@ == inner_entries(*v),
                    ret@ == "return"@,
                    i <= entries@.len(),
                    forall|j: int| 0 <= j < i ==> is_cache_entry(#[trigger] entries@[j].1),
                decreases entries.len() - i,
            {
                let e = &entries[i].1;
                let ok = match e {
                    JsonValue::Object(_) => e.field(&ret).is_some(),
                    _ => false,
                };
                if !ok {
                    return false;
                }
                i = i + 1;
            }
            true
        },
        _ => false,
    }
}

fn is_legacy_store_exec(data: &Vec<(String, JsonValue)>) -> (r: bool)
    ensures
        r == is_legacy_store(data@),
{
    if data.len() == 0 {
        return false;
    }
    let mut i: usize = 0;
    while i < data.len()
        invariant
            i <= data@.len(),
            forall|j: int| 0 <= j < i ==> is_legacy_value(#[trigger] data@[j].1),
        decreases data.len() - i,
    {
        if !is_legacy_value_exec(&data[i].1) {
            return false;
        }
        i = i + 1;
    }
    true
}

fn cache_type(e: &JsonValue) -> (r: String)
    ensures
        r@ == cache_type_of(*e),
{
    let k = String::from_str("cache_type");
    match e.str_field(&k) {
        Some(t) => t.clone(),
        None => String::from_str("extract"),
    }
}

proof fn lemma_insert_all_push(
    m: Map<Seq<char>, JsonValue>,
    s: Seq<(Seq<char>, JsonValue)>,
    e: (Seq<char>, JsonValue),
)
    ensures
        insert_all(m, s.push(e)) == insert_all(m, s).insert(e.0, e.1),
{
    assert(s.push(e).drop_last() =~= s);
}

/// Flattens the legacy nested cache form; other contents are kept as they
/// are. The flag tells whether any record was rewritten.
pub fn migrate_legacy_cache_structure(data: Vec<(String, JsonValue)>) -> (r: (
    Vec<(String, JsonValue)>,
    bool,
))
    requires
        keys_unique(data@),
    ensures
        keys_unique(r.0@),
        to_map(r.0@) == migrated_view(data@),
        r.1 == (is_legacy_store(data@) && all_flat(data@).len() > 0),
{
    if !is_legacy_store_exec(&data) {
        return (data, false);
    }
    let mut out: Vec<(String, JsonValue)> = Vec::new();
    let mut any = false;
    let mut i: usize = 0;
    assert(data@.subrange(0, 0) =~= Seq::<(String, JsonValue)>::empty());
    assert(to_map(out@) =~= Map::<Seq<char>, JsonValue>::empty());
    while i < data.len()
        invariant
            i <= data@.len(),
            keys_unique(out@),
            to_map(out@) == insert_all(Map::empty(), all_flat(data@.subrange(0, i as int))),
            any == (all_flat(data@.subrange(0, i as int)).len() > 0),
        decreases data.len() - i,
    {
        let mode = &data[i].0;
        let inner: Vec<(String, JsonValue)> = match &data[i].1 {
            JsonValue::Object(o) => o.deep_clone().into_entries(),
            _ => Vec::new(),
        };
        let ghost prefix = all_flat(data@.subrange(0, i as int));
        let ghost flat = flat_entries(mode@, inner@);
        assert(data@.subrange(0, i + 1).drop_last() =~= data@.subrange(0, i as int));
        assert(all_flat(data@.subrange(0, i + 1)) == prefix + flat);
        let mut j: usize = 0;
        assert(prefix + flat.subrange(0, 0) =~= prefix);
        while j < inner.len()
            invariant
                inner@ == inner_entries(data@[i as int].1),
                flat == flat_entries(mode@, inner@),
                mode == &data@[i as int].0,
                j <= inner@.len(),
                keys_unique(out@),
                to_map(out@) == insert_all(Map::empty(), prefix + flat.subrange(0, j as int)),
                any == ((prefix + flat.subrange(0, j as int)).len() > 0),
            decreases inner.len() - j,
        {
            let ct = cache_type(&inner[j].1);
            let key = join_colon3(mode.as_str(), ct.as_str(), inner[j].0.as_str());
            let value = inner[j].1.deep_clone();
            proof {
                assert(flat[j as int] == (key@, value));
                assert(prefix + flat.subrange(0, j + 1) =~= (prefix + flat.subrange(
                    0,
                    j as int,
                )).push((key@, value)));
                lemma_insert_all_push(Map::empty(), prefix + flat.subrange(0, j as int), (key@, value));
            }
            put(&mut out, key, value);
            any = true;
            j = j + 1;
        }
        assert(flat.subrange(0, j as int) =~= flat);
        i = i + 1;
    }
    assert(data@.subrange(0, i as int) =~= data@);
    (out, any)
}

impl JsonKvStorage {
    /// Loads `data`, the contents read from the store's file (empty when the
    /// file is missing or empty), flattening the legacy nested cache form.
    /// The store is then clean. The result tells whether a record was
    /// rewritten, in which case the caller persists a snapshot at once.
    pub fn initialize(&mut self, data: Vec<(String, JsonValue)>) -> (migrated: bool)
        requires
            keys_unique(data@),
        ensures
            final(self).wf(),
            final(self)@ == migrated_view(data@),
            !final(self).dirty_spec(),
            migrated == (is_legacy_store(data@) && all_flat(data@).len() > 0),
            final(self).namespace_spec() == old(self).namespace_spec(),
            final(self).dir_spec() == old(self).dir_spec(),
            final(self).file_name_spec() == old(self).file_name_spec(),
            final(self).final_namespace_spec() == old(self).final_namespace_spec(),
    {
        let (migrated_data, migrated) = migrate_legacy_cache_structure(data);
        self.data = migrated_data;
        self.dirty = false;
        migrated
    }

    /// Inserts or replaces each record, decorated for time `now` (Unix
    /// seconds). The store becomes dirty unless `records` is empty.
    pub fn upsert(&mut self, records: Vec<(String, JsonValue)>, now: i64)
        requires
            old(self).wf(),
            keys_unique(records@),
        ensures
            final(self).wf(),
            upserted(old(self)@, final(self)@, records@, now as int, old(self).cache_list_spec()),
            final(self).dirty_spec() == (old(self).dirty_spec() || records@.len() > 0),
            final(self).namespace_spec() == old(self).namespace_spec(),
            final(self).dir_spec() == old(self).dir_spec(),
            final(self).file_name_spec() == old(self).file_name_spec(),
            final(self).final_namespace_spec() == old(self).final_namespace_spec(),
    {
        let ghost old_map = self@;
        let ghost cache = self.cache_list_spec();
        let n = records.len();
        let mut i: usize = 0;
        while i < n
            invariant
                n == records@.len(),
                i <= n,
                keys_unique(records@),
                keys_unique(self.data@),
                cache == self.cache_list_spec(),
                self.namespace_spec() == old(self).namespace_spec(),
                self.dir_spec() == old(self).dir_spec(),
                self.file_name_spec() == old(self).file_name_spec(),
                self.final_namespace_spec() == old(self).final_namespace_spec(),
                self.dirty == old(self).dirty,
                self@.dom() == old_map.dom().union(key_set(records@.subrange(0, i as int))),
                forall|k: Seq<char>|
                    #[trigger] self@.contains_key(k) ==> if has_key(
                        records@.subrange(0, i as int),
                        k,
                    ) {
                        decorated(self@[k], k, lookup(records@, k)->0, now as int, cache)
                    } else {
                        self@[k] == old_map[k]
                    },
            decreases n - i,
        {
            let key = records[i].0.clone();
            let value = records[i].1.deep_clone();
            let decorated_value = self.decorate_upsert_record(&key, value, now);
            let ghost before = self@;
            proof {
                lemma_lookup_index(records@, i as int);
            }
            put(&mut self.data, key, decorated_value);
            proof {
                let pre = records@.subrange(0, i as int);
                let cur = records@.subrange(0, i + 1);
                assert(has_key(cur, key@)) by {
                    assert(cur[i as int].0@ == key@);
                }
                assert forall|k: Seq<char>| has_key(cur, k) <==> (has_key(pre, k) || k == key@) by {
                    if has_key(cur, k) {
                        let j = choose|j: int| 0 <= j < cur.len() && cur[j].0@ == k;
                        if j < i {
                            assert(pre[j].0@ == k);
                        }
                    }
                    if has_key(pre, k) {
                        let j = choose|j: int| 0 <= j < pre.len() && pre[j].0@ == k;
                        assert(cur[j].0@ == k);
                    }
                }
                assert(key_set(cur) =~= key_set(pre).insert(key@));
                assert(self@.dom() =~= old_map.dom().union(key_set(cur)));
            }
            i = i + 1;
        }
        assert(records@.subrange(0, n as int) =~= records@);
        if n > 0 {
            self.dirty = true;
        }
    }

    /// Removes the records with the given keys. The store becomes dirty
    /// when one was present.
    pub fn delete(&mut self, ids: &Vec<String>)
        requires
            old(self).wf(),
        ensures
            final(self).wf(),
            final(self)@ == old(self)@.remove_keys(str_set(ids@)),
            final(self).dirty_spec() == (old(self).dirty_spec() || exists|j: int|
                0 <= j < ids@.len() && old(self)@.contains_key(#[trigger] ids@[j]@)),
            final(self).namespace_spec() == old(self).namespace_spec(),
            final(self).dir_spec() == old(self).dir_spec(),
            final(self).file_name_spec() == old(self).file_name_spec(),
            final(self).final_namespace_spec() == old(self).final_namespace_spec(),
    {
        let ghost old_map = self@;
        let mut removed_any = false;
        let mut i: usize = 0;
        while i < ids.len()
            invariant
                i <= ids@.len(),
                keys_unique(self.data@),
                self.namespace_spec() == old(self).namespace_spec(),
                self.dir_spec() == old(self).dir_spec(),
                self.file_name_spec() == old(self).file_name_spec(),
                self.final_namespace_spec() == old(self).final_namespace_spec(),
                self.dirty == old(self).dirty,
                self@ == old_map.remove_keys(str_set(ids@.subrange(0, i as int))),
                removed_any == exists|j: int| 0 <= j < i && old_map.contains_key(#[trigger] ids@[j]@),
            decreases ids.len() - i,
        {
            let ghost before = self@;
            let was = remove_key(&mut self.data, &ids[i]);
            proof {
                let pre = ids@.subrange(0, i as int);
                let cur = ids@.subrange(0, i + 1);
                assert(str_set(cur) =~= str_set(pre).insert(ids@[i as int]@)) by {
                    assert forall|k: Seq<char>| str_set(cur).contains(k) implies str_set(
                        pre,
                    ).insert(ids@[i as int]@).contains(k) by {
                        let j = choose|j: int| 0 <= j < cur.len() && cur[j]@ == k;
                        if j < i {
                            assert(pre[j]@ == k);
                        }
                    }
                    assert forall|k: Seq<char>| str_set(pre).insert(ids@[i as int]@).contains(
                        k,
                    ) implies str_set(cur).contains(k) by {
                        if str_set(pre).contains(k) {
                            let j = choose|j: int| 0 <= j < pre.len() && pre[j]@ == k;
                            assert(cur[j]@ == k);
                        } else {
                            assert(cur[i as int]@ == k);
                        }
                    }
                }
                assert(self@ =~= old_map.remove_keys(str_set(cur)));
                let x = ids@[i as int]@;
                if old_map.contains_key(x) {
                    if str_set(pre).contains(x) {
                        let j = choose|j: int| 0 <= j < pre.len() && pre[j]@ == x;
                        assert(old_map.contains_key(ids@[j]@));
                    } else {
                        assert(before.contains_key(x));
                    }
                } else {
                    assert(!before.contains_key(x));
                }
                assert((removed_any || was) == exists|j: int|
                    0 <= j < i + 1 && old_map.contains_key(#[trigger] ids@[j]@)) by {
                    if exists|j: int| 0 <= j < i + 1 && old_map.contains_key(#[trigger] ids@[j]@) {
                        let j = choose|j: int| 0 <= j < i + 1 && old_map.contains_key(#[trigger] ids@[j]@);
                        if j < i {
                            assert(removed_any);
                        }
                    }
                }
            }
            if was {
                removed_any = true;
            }
            i = i + 1;
        }
        assert(ids@.subrange(0, i as int) =~= ids@);
        if removed_any {
            self.dirty = true;
        }
    }
}

impl JsonKvStorage {
    /// Removes every record. The store becomes dirty when it held one; the
    /// caller then persists the emptied state.
    pub fn drop_all(&mut self)
        requires
            old(self).wf(),
        ensures
            final(self).wf(),
            final(self)@ == Map::<Seq<char>, JsonValue>::empty(),
            final(self).dirty_spec() == (old(self).dirty_spec() || old(self)@.dom().len() > 0),
            final(self).namespace_spec() == old(self).namespace_spec(),
            final(self).dir_spec() == old(self).dir_spec(),
            final(self).file_name_spec() == old(self).file_name_spec(),
            final(self).final_namespace_spec() == old(self).final_namespace_spec(),
    {
        proof {
            self.lemma_empty_iff();
        }
        if self.data.len() == 0 {
            return;
        }
        self.data = Vec::new();
        self.dirty = true;
        assert(self@ =~= Map::<Seq<char>, JsonValue>::empty());
    }

    proof fn lemma_empty_iff(&self)
        requires
            self.wf(),
        ensures
            self@.dom().finite(),
            (self.data@.len() == 0) == (self@.dom().len() == 0),
    {
        lemma_dom_finite(self.data@);
        if self.data@.len() > 0 {
            lemma_lookup_index(self.data@, 0);
            assert(self@.dom().contains(self.data@[0].0@));
        } else {
            assert(self@.dom() =~= Set::<Seq<char>>::empty());
        }
    }

    /// The record of `id`, normalized, or `None`.
    pub fn get_by_id(&self, id: &String) -> (r: Option<JsonValue>)
        requires
            self.wf(),
        ensures
            r is Some == self@.contains_key(id@),
            r is Some ==> normalized(r->0, id@, self@[id@]),
    {
        match find_key(&self.data, id) {
            Some(i) => Some(normalize_record(id, &self.data[i].1)),
            None => None,
        }
    }

    /// The records of `ids`, in order.
    pub fn get_by_ids(&self, ids: &Vec<String>) -> (r: Vec<Option<JsonValue>>)
        requires
            self.wf(),
        ensures
            r@.len() == ids@.len(),
            forall|i: int|
                0 <= i < ids@.len() ==> {
                    &&& (#[trigger] r@[i]) is Some == self@.contains_key(ids@[i]@)
                    &&& r@[i] is Some ==> normalized(r@[i]->0, ids@[i]@, self@[ids@[i]@])
                },
    {
        let mut out: Vec<Option<JsonValue>> = Vec::new();
        let mut i: usize = 0;
        while i < ids.len()
            invariant
                self.wf(),
                i <= ids@.len(),
                out@.len() == i,
                forall|j: int|
                    0 <= j < i ==> {
                        &&& (#[trigger] out@[j]) is Some == self@.contains_key(ids@[j]@)
                        &&& out@[j] is Some ==> normalized(out@[j]->0, ids@[j]@, self@[ids@[j]@])
                    },
            decreases ids.len() - i,
        {
            let r = self.get_by_id(&ids[i]);
            out.push(r);
            i = i + 1;
        }
        out
    }

    /// Every record, normalized.
    pub fn get_all(&self) -> (r: Vec<(String, JsonValue)>)
        requires
            self.wf(),
        ensures
            keys_unique(r@),
            to_map(r@).dom() == self@.dom(),
            forall|k: Seq<char>|
                #[trigger] self@.contains_key(k) ==> normalized(to_map(r@)[k], k, self@[k]),
    {
        let mut out: Vec<(String, JsonValue)> = Vec::new();
        let mut i: usize = 0;
        while i < self.data.len()
            invariant
                self.wf(),
                i <= self.data@.len(),
                out@.len() == i,
                forall|j: int|
                    0 <= j < i ==> (#[trigger] out@[j]).0 == self.data@[j].0 && normalized(
                        out@[j].1,
                        self.data@[j].0@,
                        self.data@[j].1,
                    ),
            decreases self.data.len() - i,
        {
            let k = self.data[i].0.clone();
            let v = normalize_record(&self.data[i].0, &self.data[i].1);
            out.push((k, v));
            i = i + 1;
        }
        proof {
            assert(keys_unique(out@));
            assert forall|k: Seq<char>| has_key(out@, k) <==> has_key(self.data@, k) by {
                if has_key(out@, k) {
                    let j = choose|j: int| 0 <= j < out@.len() && out@[j].0@ == k;
                    assert(self.data@[j].0@ == k);
                }
                if has_key(self.data@, k) {
                    let j = choose|j: int| 0 <= j < self.data@.len() && self.data@[j].0@ == k;
                    assert(out@[j].0@ == k);
                }
            }
            assert forall|k: Seq<char>| #[trigger] self@.contains_key(k) implies normalized(
                to_map(out@)[k],
                k,
                self@[k],
            ) by {
                lemma_lookup_some(self.data@, k);
                let j = choose|j: int| 0 <= j < self.data@.len() && self.data@[j].0@ == k;
                lemma_lookup_index(self.data@, j);
                lemma_lookup_index(out@, j);
            }
            assert forall|k: Seq<char>| to_map(out@).dom().contains(k) == self@.dom().contains(k) by {
                lemma_lookup_some(self.data@, k);
                lemma_lookup_some(out@, k);
            }
            assert(to_map(out@).dom() =~= self@.dom());
        }
        out
    }

    /// The keys among `keys` that the store does not hold.
    pub fn filter_keys(&self, keys: &Vec<String>) -> (r: Vec<String>)
        requires
            self.wf(),
        ensures
            str_set(r@) == str_set(keys@).difference(self@.dom()),
    {
        let mut out: Vec<String> = Vec::new();
        let mut i: usize = 0;
        while i < keys.len()
            invariant
                self.wf(),
                i <= keys@.len(),
                str_set(out@) == str_set(keys@.subrange(0, i as int)).difference(self@.dom()),
            decreases keys.len() - i,
        {
            let ghost pre = keys@.subrange(0, i as int);
            let ghost cur = keys@.subrange(0, i + 1);
            let ghost before = out@;
            let present = find_key(&self.data, &keys[i]);
            if present.is_none() {
                out.push(keys[i].clone());
            }
            proof {
                let x = keys@[i as int]@;
                assert(self@.contains_key(x) == present is Some);
                assert forall|k: Seq<char>| str_set(cur).contains(k) == (str_set(pre).contains(k)
                    || k == x) by {
                    if str_set(cur).contains(k) {
                        let j = choose|j: int| 0 <= j < cur.len() && cur[j]@ == k;
                        if j < i {
                            assert(pre[j]@ == k);
                        }
                    }
                    if str_set(pre).contains(k) {
                        let j = choose|j: int| 0 <= j < pre.len() && pre[j]@ == k;
                        assert(cur[j]@ == k);
                    }
                    if k == x {
                        assert(cur[i as int]@ == k);
                    }
                }
                assert forall|k: Seq<char>| str_set(out@).contains(k) == (str_set(before).contains(
                    k,
                ) || (k == x && present is None)) by {
                    if str_set(out@).contains(k) {
                        let j = choose|j: int| 0 <= j < out@.len() && out@[j]@ == k;
                        if j < before.len() {
                            assert(before[j]@ == k);
                        }
                    }
                    if str_set(before).contains(k) {
                        let j = choose|j: int| 0 <= j < before.len() && before[j]@ == k;
                        assert(out@[j]@ == k);
                    }
                    if k == x && present is None {
                        assert(out@[out@.len() - 1]@ == k);
                    }
                }
                assert forall|k: Seq<char>| str_set(out@).contains(k) == str_set(cur).difference(
                    self@.dom(),
                ).contains(k) by {
                    assert(str_set(before).contains(k) == str_set(pre).difference(
                        self@.dom(),
                    ).contains(k));
                }
                assert(str_set(out@) =~= str_set(cur).difference(self@.dom()));
            }
            i = i + 1;
        }
        assert(keys@.subrange(0, i as int) =~= keys@);
        out
    }

    /// The raw contents, as the store's file holds them.
    pub fn snapshot(&self) -> (r: Vec<(String, JsonValue)>)
        requires
            self.wf(),
        ensures
            keys_unique(r@),
            to_map(r@) == self@,
    {
        copy_entries(&self.data)
    }

    /// The raw contents to write when the store is dirty; `None` when it is
    /// clean. The dirty flag stays set until `mark_synced`.
    pub fn snapshot_if_dirty(&self) -> (r: Option<Vec<(String, JsonValue)>>)
        requires
            self.wf(),
        ensures
            r is None == !self.dirty_spec(),
            r is Some ==> keys_unique(r->0@) && to_map(r->0@) == self@,
    {
        if !self.dirty {
            return None;
        }
        Some(copy_entries(&self.data))
    }

    /// Records that the last snapshot was written to the store's file; the
    /// store is clean. After a failed write the caller does not call this,
    /// so the next cycle writes again.
    pub fn mark_synced(&mut self)
        requires
            old(self).wf(),
        ensures
            final(self).wf(),
            final(self)@ == old(self)@,
            !final(self).dirty_spec(),
            final(self).namespace_spec() == old(self).namespace_spec(),
            final(self).dir_spec() == old(self).dir_spec(),
            final(self).file_name_spec() == old(self).file_name_spec(),
            final(self).final_namespace_spec() == old(self).final_namespace_spec(),
    {
        self.dirty = false;
    }
}

proof fn lemma_dom_finite<V>(s: Seq<(String, V)>)
    ensures
        to_map(s).dom().finite(),
    decreases s.len(),
{
    if s.len() == 0 {
        assert(to_map(s).dom() =~= Set::<Seq<char>>::empty());
    } else {
        lemma_dom_finite(s.drop_last());
        assert forall|k: Seq<char>| #[trigger] to_map(s).dom().contains(k) implies to_map(
            s.drop_last(),
        ).dom().insert(s.last().0@).contains(k) by {
            lemma_lookup_some(s, k);
            lemma_lookup_some(s.drop_last(), k);
            let j = choose|j: int| 0 <= j < s.len() && s[j].0@ == k;
            if j < s.len() - 1 {
                assert(s.drop_last()[j].0@ == k);
            }
        }
        assert(to_map(s).dom().subset_of(to_map(s.drop_last()).dom().insert(s.last().0@)));
        vstd::set_lib::lemma_set_subset_finite(to_map(s.drop_last()).dom().insert(s.last().0@), to_map(s).dom());
    }
}

impl JsonKvStorage {
    /// Number of stored entries with key `k`.
    pub closed spec fn entry_count(&self, k: Seq<char>) -> nat {
        crate::keyed::key_count(self.data@, k)
    }

    /// A well-formed store holds one entry for each of its keys and none for
    /// any other.
    pub proof fn lemma_entry_count(&self, k: Seq<char>)
        requires
            self.wf(),
        ensures
            self.entry_count(k) == if self@.contains_key(k) { 1nat } else { 0nat },
    {
        crate::keyed::lemma_key_count(self.data@, k);
        lemma_lookup_some(self.data@, k);
    }
}

/// Decoration keeps every member other than `_id`, the two times and the
/// cache list; in particular a record's string members stay.
pub proof fn lemma_decorated_fields(r: JsonValue, k: Seq<char>, v: JsonValue, now: int, cache_list: bool)
    requires
        decorated(r, k, v, now, cache_list),
        v is Object,
    ensures
        forall|q: Seq<char>| q != "_id"@ && q != "create_time"@ && q != "update_time"@ && q != "llm_cache_list"@ ==> #[trigger] r.str_field_spec(q) == v.str_field_spec(q),
{
    assert forall|q: Seq<char>| q != "_id"@ && q != "create_time"@ && q != "update_time"@ && q != "llm_cache_list"@ implies #[trigger] r.str_field_spec(q) == v.str_field_spec(q) by {
        assert(r.field_spec(q) == base_get(v, q));
    }
}

} // verus!
