//! Entity and relationship records derived from one chunk's extraction.
use crate::ids::{entity_id, entity_id_spec, relation_id, relation_id_spec};
use crate::json::{JsonArray, JsonObject, JsonValue};
use crate::keyed::{find_key, keys_unique, lemma_lookup_some, put, to_map};
use crate::schemas::{entity_type_name, EntitiesRelationships, ExtractedEntity, ExtractedRelationship};
use vstd::prelude::*;
use vstd::string::*;

verus! {

/// Ids of the entities extracted for document `doc`.
pub open spec fn entity_ids(doc: Seq<char>, es: Seq<ExtractedEntity>) -> Set<Seq<char>> {
    Set::new(|k: Seq<char>| exists|i: int| 0 <= i < es.len() && k == entity_id_spec(doc, (#[trigger] es[i]).entity_name@, entity_type_name(es[i].entity_type)))
}

/// Names of the extracted entities.
pub open spec fn entity_names(es: Seq<ExtractedEntity>) -> Set<Seq<char>> {
    Set::new(|n: Seq<char>| exists|i: int| 0 <= i < es.len() && n == (#[trigger] es[i]).entity_name@)
}

/// Relationship `r` names two extracted entities.
pub open spec fn resolvable(es: Seq<ExtractedEntity>, r: ExtractedRelationship) -> bool {
    entity_names(es).contains(r.source_entity@) && entity_names(es).contains(r.target_entity@)
}

/// Ids of the relationships kept for document `doc`: those whose ends both
/// resolve.
pub open spec fn relation_ids(doc: Seq<char>, es: Seq<ExtractedEntity>, rs: Seq<ExtractedRelationship>) -> Set<Seq<char>> {
    Set::new(|k: Seq<char>| exists|j: int| 0 <= j < rs.len() && resolvable(es, #[trigger] rs[j]) && k == relation_id_spec(doc, rs[j].source_entity@, rs[j].target_entity@))
}

/// The JSON array of the given strings.
pub fn strings_array(v: &Vec<String>, i: usize) -> (r: JsonArray)
    requires
        i <= v@.len(),
    ensures
        r == string_array(v@.subrange(i as int, v@.len() as int)),
    decreases v@.len() - i,
{
    if i == v.len() {
        assert(v@.subrange(i as int, v@.len() as int) =~= Seq::<String>::empty());
        JsonArray::Empty
    } else {
        let rest = strings_array(v, i + 1);
        assert(v@.subrange(i as int, v@.len() as int).drop_first() =~= v@.subrange(i + 1, v@.len() as int));
        JsonArray::Item(Box::new(JsonValue::Str(v[i].clone())), Box::new(rest))
    }
}

/// An entity's record: its name, type and description, with its document,
/// chunk and chunk position.
pub open spec fn entity_record_ok(v: JsonValue, doc: Seq<char>, chunk: Seq<char>, order: int, e: ExtractedEntity) -> bool {
    &&& v.str_field_spec("entity_name"@) == Some(e.entity_name@)
    &&& v.str_field_spec("entity_type"@) == Some(entity_type_name(e.entity_type))
    &&& v.str_field_spec("entity_description"@) == Some(e.entity_description@)
    &&& v.str_field_spec("doc_id"@) == Some(doc)
    &&& v.str_field_spec("chunk_id"@) == Some(chunk)
    &&& v.field_spec("chunk_order_index"@) == Some(JsonValue::Int(order as i64))
}

/// The JSON array of the given strings, in order.
pub open spec fn string_array(s: Seq<String>) -> JsonArray
    decreases s.len(),
{
    if s.len() == 0 {
        JsonArray::Empty
    } else {
        JsonArray::Item(Box::new(JsonValue::Str(s[0])), Box::new(string_array(s.drop_first())))
    }
}

/// A relationship's record carries its keywords and description.
pub open spec fn relation_fields_ok(v: JsonValue, r: ExtractedRelationship) -> bool {
    &&& v.field_spec("keywords"@) == Some(JsonValue::Array(string_array(r.relationship_keywords@)))
    &&& v.str_field_spec("description"@) == Some(r.relationship_description@)
}

/// A relationship's record carries its document and chunk and points at two
/// of the entity ids `ents`.
pub open spec fn relation_record_ok(v: JsonValue, doc: Seq<char>, chunk: Seq<char>, ents: Set<Seq<char>>) -> bool {
    &&& v.str_field_spec("doc_id"@) == Some(doc)
    &&& v.str_field_spec("chunk_id"@) == Some(chunk)
    &&& v.str_field_spec("source_entity_id"@) is Some
    &&& v.str_field_spec("target_entity_id"@) is Some
    &&& ents.contains(v.str_field_spec("source_entity_id"@)->0)
    &&& ents.contains(v.str_field_spec("target_entity_id"@)->0)
}

fn entity_record(e: &ExtractedEntity, doc_id: &String, chunk_id: &String, chunk_order_index: usize) -> (r: JsonValue)
    requires
        chunk_order_index <= i64::MAX,
    ensures
        entity_record_ok(r, doc_id@, chunk_id@, chunk_order_index as int, *e),
{
    let k_name = String::from_str("entity_name");
    let v_name = JsonValue::Str(e.entity_name.clone());
    let k_type = String::from_str("entity_type");
    let v_type = JsonValue::Str(String::from_str(e.entity_type.as_str()));
    let k_desc = String::from_str("entity_description");
    let v_desc = JsonValue::Str(e.entity_description.clone());
    let k_doc = String::from_str("doc_id");
    let v_doc = JsonValue::Str(doc_id.clone());
    let k_chunk = String::from_str("chunk_id");
    let v_chunk = JsonValue::Str(chunk_id.clone());
    let k_ord = String::from_str("chunk_order_index");
    let v_ord = JsonValue::Int(chunk_order_index as i64);
    let o0 = JsonObject::Empty.set(k_name, v_name);
    let o1 = o0.set(k_type, v_type);
    let o2 = o1.set(k_desc, v_desc);
    let o3 = o2.set(k_doc, v_doc);
    let o4 = o3.set(k_chunk, v_chunk);
    let o5 = o4.set(k_ord, v_ord);
    proof {
        reveal_strlit("entity_name");
        reveal_strlit("entity_type");
        reveal_strlit("entity_description");
        reveal_strlit("doc_id");
        reveal_strlit("chunk_id");
        reveal_strlit("chunk_order_index");
        JsonObject::Empty.lemma_set_get(k_name, v_name, "entity_name"@);
        o0.lemma_set_get(k_type, v_type, "entity_name"@);
        o1.lemma_set_get(k_desc, v_desc, "entity_name"@);
        o2.lemma_set_get(k_doc, v_doc, "entity_name"@);
        o3.lemma_set_get(k_chunk, v_chunk, "entity_name"@);
        o4.lemma_set_get(k_ord, v_ord, "entity_name"@);
        o0.lemma_set_get(k_type, v_type, "entity_type"@);
        o1.lemma_set_get(k_desc, v_desc, "entity_type"@);
        o2.lemma_set_get(k_doc, v_doc, "entity_type"@);
        o3.lemma_set_get(k_chunk, v_chunk, "entity_type"@);
        o4.lemma_set_get(k_ord, v_ord, "entity_type"@);
        o1.lemma_set_get(k_desc, v_desc, "entity_description"@);
        o2.lemma_set_get(k_doc, v_doc, "entity_description"@);
        o3.lemma_set_get(k_chunk, v_chunk, "entity_description"@);
        o4.lemma_set_get(k_ord, v_ord, "entity_description"@);
        o2.lemma_set_get(k_doc, v_doc, "doc_id"@);
        o3.lemma_set_get(k_chunk, v_chunk, "doc_id"@);
        o4.lemma_set_get(k_ord, v_ord, "doc_id"@);
        o3.lemma_set_get(k_chunk, v_chunk, "chunk_id"@);
        o4.lemma_set_get(k_ord, v_ord, "chunk_id"@);
        o4.lemma_set_get(k_ord, v_ord, "chunk_order_index"@);
        assert("entity_name"@[7] != "entity_type"@[7]);
        assert("entity_name"@.len() != "entity_description"@.len());
        assert("entity_name"@.len() != "doc_id"@.len());
        assert("entity_name"@.len() != "chunk_id"@.len());
        assert("entity_name"@.len() != "chunk_order_index"@.len());
        assert("entity_type"@.len() != "entity_description"@.len());
        assert("entity_type"@.len() != "doc_id"@.len());
        assert("entity_type"@.len() != "chunk_id"@.len());
        assert("entity_type"@.len() != "chunk_order_index"@.len());
        assert("entity_description"@.len() != "doc_id"@.len());
        assert("entity_description"@.len() != "chunk_id"@.len());
        assert("entity_description"@.len() != "chunk_order_index"@.len());
        assert("doc_id"@.len() != "chunk_id"@.len());
        assert("doc_id"@.len() != "chunk_order_index"@.len());
        assert("chunk_id"@.len() != "chunk_order_index"@.len());
    }
    JsonValue::Object(o5)
}

fn relation_record(rel: &ExtractedRelationship, source_id: &String, target_id: &String, doc_id: &String, chunk_id: &String) -> (r: JsonValue)
    ensures
        r.str_field_spec("doc_id"@) == Some(doc_id@),
        r.str_field_spec("chunk_id"@) == Some(chunk_id@),
        r.str_field_spec("source_entity_id"@) == Some(source_id@),
        r.str_field_spec("target_entity_id"@) == Some(target_id@),
        relation_fields_ok(r, *rel),
{
    let k_src = String::from_str("source_entity_id");
    let v_src = JsonValue::Str(source_id.clone());
    let k_tgt = String::from_str("target_entity_id");
    let v_tgt = JsonValue::Str(target_id.clone());
    let k_kw = String::from_str("keywords");
    let v_kw = JsonValue::Array(strings_array(&rel.relationship_keywords, 0));
    let k_desc = String::from_str("description");
    let v_desc = JsonValue::Str(rel.relationship_description.clone());
    let k_doc = String::from_str("doc_id");
    let v_doc = JsonValue::Str(doc_id.clone());
    let k_chunk = String::from_str("chunk_id");
    let v_chunk = JsonValue::Str(chunk_id.clone());
    let o0 = JsonObject::Empty.set(k_src, v_src);
    let o1 = o0.set(k_tgt, v_tgt);
    let o2 = o1.set(k_kw, v_kw);
    let o3 = o2.set(k_desc, v_desc);
    let o4 = o3.set(k_doc, v_doc);
    let o5 = o4.set(k_chunk, v_chunk);
    proof {
        assert(rel.relationship_keywords@.subrange(0, rel.relationship_keywords@.len() as int) =~= rel.relationship_keywords@);
        reveal_strlit("source_entity_id");
        reveal_strlit("target_entity_id");
        reveal_strlit("keywords");
        reveal_strlit("description");
        reveal_strlit("doc_id");
        reveal_strlit("chunk_id");
        JsonObject::Empty.lemma_set_get(k_src, v_src, "source_entity_id"@);
        o0.lemma_set_get(k_tgt, v_tgt, "source_entity_id"@);
        o1.lemma_set_get(k_kw, v_kw, "source_entity_id"@);
        o2.lemma_set_get(k_desc, v_desc, "source_entity_id"@);
        o3.lemma_set_get(k_doc, v_doc, "source_entity_id"@);
        o4.lemma_set_get(k_chunk, v_chunk, "source_entity_id"@);
        o0.lemma_set_get(k_tgt, v_tgt, "target_entity_id"@);
        o1.lemma_set_get(k_kw, v_kw, "target_entity_id"@);
        o2.lemma_set_get(k_desc, v_desc, "target_entity_id"@);
        o3.lemma_set_get(k_doc, v_doc, "target_entity_id"@);
        o4.lemma_set_get(k_chunk, v_chunk, "target_entity_id"@);
        o1.lemma_set_get(k_kw, v_kw, "keywords"@);
        o2.lemma_set_get(k_desc, v_desc, "keywords"@);
        o3.lemma_set_get(k_doc, v_doc, "keywords"@);
        o4.lemma_set_get(k_chunk, v_chunk, "keywords"@);
        o2.lemma_set_get(k_desc, v_desc, "description"@);
        o3.lemma_set_get(k_doc, v_doc, "description"@);
        o4.lemma_set_get(k_chunk, v_chunk, "description"@);
        o3.lemma_set_get(k_doc, v_doc, "doc_id"@);
        o4.lemma_set_get(k_chunk, v_chunk, "doc_id"@);
        o4.lemma_set_get(k_chunk, v_chunk, "chunk_id"@);
        assert("source_entity_id"@[0] != "target_entity_id"@[0]);
        assert("source_entity_id"@.len() != "keywords"@.len());
        assert("source_entity_id"@.len() != "description"@.len());
        assert("source_entity_id"@.len() != "doc_id"@.len());
        assert("source_entity_id"@.len() != "chunk_id"@.len());
        assert("target_entity_id"@.len() != "keywords"@.len());
        assert("target_entity_id"@.len() != "description"@.len());
        assert("target_entity_id"@.len() != "doc_id"@.len());
        assert("target_entity_id"@.len() != "chunk_id"@.len());
        assert("keywords"@.len() != "description"@.len());
        assert("keywords"@.len() != "doc_id"@.len());
        assert("keywords"@[0] != "chunk_id"@[0]);
        assert("description"@.len() != "doc_id"@.len());
        assert("description"@.len() != "chunk_id"@.len());
        assert("doc_id"@.len() != "chunk_id"@.len());
    }
    JsonValue::Object(o5)
}

/// The entity and relationship records of one chunk's extraction, each
/// keyed by its id. Entities with the same document, name and type collapse
/// onto one id; a relationship is kept only when both of its entity names
/// resolve to entities of this extraction, and then points at their ids.
pub fn build_graph_payloads(doc_id: &String, chunk_id: &String, chunk_order_index: usize, er: &EntitiesRelationships) -> (r: (Vec<(String, JsonValue)>, Vec<(String, JsonValue)>))
    requires
        chunk_order_index <= i64::MAX,
    ensures
        keys_unique(r.0@),
        keys_unique(r.1@),
        to_map(r.0@).dom() == entity_ids(doc_id@, er.entities@),
        to_map(r.1@).dom() == relation_ids(doc_id@, er.entities@, er.relationships@),
        forall|k: Seq<char>| #[trigger] to_map(r.0@).contains_key(k) ==> exists|i: int| 0 <= i < er.entities@.len() && k == entity_id_spec(doc_id@, (#[trigger] er.entities@[i]).entity_name@, entity_type_name(er.entities@[i].entity_type)) && entity_record_ok(to_map(r.0@)[k], doc_id@, chunk_id@, chunk_order_index as int, er.entities@[i]),
        forall|k: Seq<char>| #[trigger] to_map(r.1@).contains_key(k) ==> relation_record_ok(to_map(r.1@)[k], doc_id@, chunk_id@, to_map(r.0@).dom()),
        forall|k: Seq<char>| #[trigger] to_map(r.1@).contains_key(k) ==> exists|j: int| 0 <= j < er.relationships@.len() && resolvable(er.entities@, #[trigger] er.relationships@[j]) && k == relation_id_spec(doc_id@, er.relationships@[j].source_entity@, er.relationships@[j].target_entity@) && relation_fields_ok(to_map(r.1@)[k], er.relationships@[j]),
{
    let es = &er.entities;
    let mut ents: Vec<(String, JsonValue)> = Vec::new();
    let mut names: Vec<(String, String)> = Vec::new();
    let mut i: usize = 0;
    assert(to_map(ents@).dom() =~= entity_ids(doc_id@, es@.subrange(0, 0)));
    assert(to_map(names@).dom() =~= entity_names(es@.subrange(0, 0)));
    while i < es.len()
        invariant
            chunk_order_index <= i64::MAX,
            i <= es@.len(),
            keys_unique(ents@),
            keys_unique(names@),
            to_map(ents@).dom() == entity_ids(doc_id@, es@.subrange(0, i as int)),
            to_map(names@).dom() == entity_names(es@.subrange(0, i as int)),
            forall|k: Seq<char>| #[trigger] to_map(ents@).contains_key(k) ==> exists|t: int| 0 <= t < es@.len() && k == entity_id_spec(doc_id@, (#[trigger] es@[t]).entity_name@, entity_type_name(es@[t].entity_type)) && entity_record_ok(to_map(ents@)[k], doc_id@, chunk_id@, chunk_order_index as int, es@[t]),
            forall|n: Seq<char>| #[trigger] to_map(names@).contains_key(n) ==> to_map(ents@).contains_key(to_map(names@)[n]@),
        decreases es.len() - i,
    {
        let e = &es[i];
        let id = entity_id(doc_id.as_str(), e.entity_name.as_str(), e.entity_type.as_str());
        let rec = entity_record(e, doc_id, chunk_id, chunk_order_index);
        let ghost ents_before = to_map(ents@);
        let ghost names_before = to_map(names@);
        put(&mut ents, id.clone(), rec);
        put(&mut names, e.entity_name.clone(), id);
        proof {
            let pre = es@.subrange(0, i as int);
            let cur = es@.subrange(0, i + 1);
            assert forall|k: Seq<char>| entity_ids(doc_id@, cur).contains(k) == (entity_ids(doc_id@, pre).contains(k) || k == id@) by {
                if entity_ids(doc_id@, cur).contains(k) {
                    let t = choose|t: int| 0 <= t < cur.len() && k == entity_id_spec(doc_id@, (#[trigger] cur[t]).entity_name@, entity_type_name(cur[t].entity_type));
                    if t < i {
                        assert(pre[t] == cur[t]);
                    }
                }
                if entity_ids(doc_id@, pre).contains(k) {
                    let t = choose|t: int| 0 <= t < pre.len() && k == entity_id_spec(doc_id@, (#[trigger] pre[t]).entity_name@, entity_type_name(pre[t].entity_type));
                    assert(cur[t] == pre[t]);
                }
                if k == id@ {
                    assert(cur[i as int] == *e);
                }
            }
            assert(to_map(ents@).dom() =~= entity_ids(doc_id@, cur));
            assert forall|k: Seq<char>| #[trigger] to_map(ents@).contains_key(k) implies exists|t: int| 0 <= t < es@.len() && k == entity_id_spec(doc_id@, (#[trigger] es@[t]).entity_name@, entity_type_name(es@[t].entity_type)) && entity_record_ok(to_map(ents@)[k], doc_id@, chunk_id@, chunk_order_index as int, es@[t]) by {
                if k == id@ {
                    assert(es@[i as int] == *e);
                } else {
                    assert(ents_before.contains_key(k));
                }
            }
            assert forall|n: Seq<char>| entity_names(cur).contains(n) == (entity_names(pre).contains(n) || n == e.entity_name@) by {
                if entity_names(cur).contains(n) {
                    let t = choose|t: int| 0 <= t < cur.len() && n == (#[trigger] cur[t]).entity_name@;
                    if t < i {
                        assert(pre[t] == cur[t]);
                    }
                }
                if entity_names(pre).contains(n) {
                    let t = choose|t: int| 0 <= t < pre.len() && n == (#[trigger] pre[t]).entity_name@;
                    assert(cur[t] == pre[t]);
                }
                if n == e.entity_name@ {
                    assert(cur[i as int] == *e);
                }
            }
            assert(to_map(names@).dom() =~= entity_names(cur));
        }
        i = i + 1;
    }
    assert(es@.subrange(0, es@.len() as int) =~= es@);
    let rs = &er.relationships;
    let mut rels: Vec<(String, JsonValue)> = Vec::new();
    let mut j: usize = 0;
    assert(to_map(rels@).dom() =~= relation_ids(doc_id@, es@, rs@.subrange(0, 0)));
    while j < rs.len()
        invariant
            keys_unique(ents@),
            keys_unique(names@),
            keys_unique(rels@),
            j <= rs@.len(),
            to_map(names@).dom() == entity_names(es@),
            forall|n: Seq<char>| #[trigger] to_map(names@).contains_key(n) ==> to_map(ents@).contains_key(to_map(names@)[n]@),
            to_map(rels@).dom() == relation_ids(doc_id@, es@, rs@.subrange(0, j as int)),
            forall|k: Seq<char>| #[trigger] to_map(rels@).contains_key(k) ==> relation_record_ok(to_map(rels@)[k], doc_id@, chunk_id@, to_map(ents@).dom()),
            forall|k: Seq<char>| #[trigger] to_map(rels@).contains_key(k) ==> exists|t: int| 0 <= t < rs@.len() && resolvable(es@, #[trigger] rs@[t]) && k == relation_id_spec(doc_id@, rs@[t].source_entity@, rs@[t].target_entity@) && relation_fields_ok(to_map(rels@)[k], rs@[t]),
        decreases rs.len() - j,
    {
        let rel = &rs[j];
        let src = find_key(&names, &rel.source_entity);
        let tgt = find_key(&names, &rel.target_entity);
        let ghost pre = rs@.subrange(0, j as int);
        let ghost cur = rs@.subrange(0, j + 1);
        proof {
            lemma_lookup_some(names@, rel.source_entity@);
            lemma_lookup_some(names@, rel.target_entity@);
        }
        match (src, tgt) {
            (Some(a), Some(b)) => {
                let rid = relation_id(doc_id.as_str(), rel.source_entity.as_str(), rel.target_entity.as_str());
                let rec = relation_record(rel, &names[a].1, &names[b].1, doc_id, chunk_id);
                proof {
                    assert(to_map(names@).contains_key(rel.source_entity@));
                    assert(to_map(names@)[rel.source_entity@] == names@[a as int].1);
                    assert(to_map(names@)[rel.target_entity@] == names@[b as int].1);
                }
                let ghost rels_before = to_map(rels@);
                put(&mut rels, rid, rec);
                proof {
                    assert(resolvable(es@, *rel));
                    assert forall|k: Seq<char>| relation_ids(doc_id@, es@, cur).contains(k) == (relation_ids(doc_id@, es@, pre).contains(k) || k == rid@) by {
                        if relation_ids(doc_id@, es@, cur).contains(k) {
                            let t = choose|t: int| 0 <= t < cur.len() && resolvable(es@, #[trigger] cur[t]) && k == relation_id_spec(doc_id@, cur[t].source_entity@, cur[t].target_entity@);
                            if t < j {
                                assert(pre[t] == cur[t]);
                            }
                        }
                        if relation_ids(doc_id@, es@, pre).contains(k) {
                            let t = choose|t: int| 0 <= t < pre.len() && resolvable(es@, #[trigger] pre[t]) && k == relation_id_spec(doc_id@, pre[t].source_entity@, pre[t].target_entity@);
                            assert(cur[t] == pre[t]);
                        }
                        if k == rid@ {
                            assert(cur[j as int] == *rel);
                        }
                    }
                    assert(to_map(rels@).dom() =~= relation_ids(doc_id@, es@, cur));
                    assert forall|k: Seq<char>| #[trigger] to_map(rels@).contains_key(k) implies exists|t: int| 0 <= t < rs@.len() && resolvable(es@, #[trigger] rs@[t]) && k == relation_id_spec(doc_id@, rs@[t].source_entity@, rs@[t].target_entity@) && relation_fields_ok(to_map(rels@)[k], rs@[t]) by {
                        if k == rid@ {
                            assert(rs@[j as int] == *rel);
                        } else {
                            assert(rels_before.contains_key(k));
                        }
                    }
                }
            },
            _ => {
                proof {
                    assert(!resolvable(es@, *rel));
                    assert forall|k: Seq<char>| relation_ids(doc_id@, es@, cur).contains(k) == relation_ids(doc_id@, es@, pre).contains(k) by {
                        if relation_ids(doc_id@, es@, cur).contains(k) {
                            let t = choose|t: int| 0 <= t < cur.len() && resolvable(es@, #[trigger] cur[t]) && k == relation_id_spec(doc_id@, cur[t].source_entity@, cur[t].target_entity@);
                            if t < j {
                                assert(pre[t] == cur[t]);
                            } else {
                                assert(cur[t] == *rel);
                            }
                        }
                        if relation_ids(doc_id@, es@, pre).contains(k) {
                            let t = choose|t: int| 0 <= t < pre.len() && resolvable(es@, #[trigger] pre[t]) && k == relation_id_spec(doc_id@, pre[t].source_entity@, pre[t].target_entity@);
                            assert(cur[t] == pre[t]);
                        }
                    }
                    assert(to_map(rels@).dom() =~= relation_ids(doc_id@, es@, cur));
                }
            },
        }
        j = j + 1;
    }
    assert(rs@.subrange(0, rs@.len() as int) =~= rs@);
    (ents, rels)
}

/// Decorating a relationship record for storage keeps what it says of its
/// document, chunk and ends.
pub proof fn lemma_relation_record_kept(r: JsonValue, k: Seq<char>, x: JsonValue, now: int, cache_list: bool, doc: Seq<char>, chunk: Seq<char>, ents: Set<Seq<char>>)
    requires
        crate::kv_store::decorated(r, k, x, now, cache_list),
        relation_record_ok(x, doc, chunk, ents),
    ensures
        relation_record_ok(r, doc, chunk, ents),
{
    reveal_strlit("doc_id");
    reveal_strlit("chunk_id");
    reveal_strlit("source_entity_id");
    reveal_strlit("target_entity_id");
    reveal_strlit("_id");
    reveal_strlit("create_time");
    reveal_strlit("update_time");
    reveal_strlit("llm_cache_list");
    assert(x is Object);
    crate::kv_store::lemma_decorated_fields(r, k, x, now, cache_list);
    assert("doc_id"@.len() != "_id"@.len() && "doc_id"@.len() != "create_time"@.len() && "doc_id"@.len() != "update_time"@.len() && "doc_id"@.len() != "llm_cache_list"@.len());
    assert("chunk_id"@.len() != "_id"@.len() && "chunk_id"@.len() != "create_time"@.len() && "chunk_id"@.len() != "update_time"@.len() && "chunk_id"@.len() != "llm_cache_list"@.len());
    assert("source_entity_id"@.len() != "_id"@.len() && "source_entity_id"@.len() != "create_time"@.len() && "source_entity_id"@.len() != "update_time"@.len() && "source_entity_id"@.len() != "llm_cache_list"@.len());
    assert("target_entity_id"@.len() != "_id"@.len() && "target_entity_id"@.len() != "create_time"@.len() && "target_entity_id"@.len() != "update_time"@.len() && "target_entity_id"@.len() != "llm_cache_list"@.len());
    assert(r.str_field_spec("doc_id"@) == x.str_field_spec("doc_id"@));
    assert(r.str_field_spec("chunk_id"@) == x.str_field_spec("chunk_id"@));
    assert(r.str_field_spec("source_entity_id"@) == x.str_field_spec("source_entity_id"@));
    assert(r.str_field_spec("target_entity_id"@) == x.str_field_spec("target_entity_id"@));
}

/// A stored entity, read back as typed fields.
#[derive(Debug)]
pub struct EntityNode {
    pub chunk_id: String,
    pub chunk_order_index: u32,
    pub doc_id: String,
    pub entity_description: String,
    pub entity_name: String,
    pub entity_type: String,
}

/// A stored relationship, read back as typed fields.
#[derive(Debug)]
pub struct RelationEdge {
    pub chunk_id: String,
    pub doc_id: String,
    pub relationship_description: String,
    pub relationship_keywords: Vec<String>,
    pub source_entity_id: String,
    pub target_entity_id: String,
}

fn text_of(v: &JsonValue, k: &str) -> (r: Option<String>)
    ensures
        match r {
            Some(s) => v.str_field_spec(k@) == Some(s@),
            None => v.str_field_spec(k@) is None,
        },
{
    match v.str_field(&String::from_str(k)) {
        Some(s) => Some(s.clone()),
        None => None,
    }
}

fn strings_of(a: &JsonArray) -> (r: Option<Vec<String>>)
    decreases a,
{
    match a {
        JsonArray::Empty => Some(Vec::new()),
        JsonArray::Item(v, rest) => match (&**v, strings_of(&**rest)) {
            (JsonValue::Str(s), Some(mut tail)) => {
                tail.insert(0, s.clone());
                Some(tail)
            },
            _ => None,
        },
    }
}

impl EntityNode {
    /// The entity a stored record describes, when it has every field.
    pub fn from_record(v: &JsonValue) -> (r: Option<EntityNode>)
        ensures
            r is Some ==> {
                let e = r->0;
                &&& v.str_field_spec("chunk_id"@) == Some(e.chunk_id@)
                &&& v.str_field_spec("doc_id"@) == Some(e.doc_id@)
                &&& v.str_field_spec("entity_description"@) == Some(e.entity_description@)
                &&& v.str_field_spec("entity_name"@) == Some(e.entity_name@)
                &&& v.str_field_spec("entity_type"@) == Some(e.entity_type@)
                &&& v.field_spec("chunk_order_index"@) == Some(JsonValue::Int(e.chunk_order_index as i64))
            },
    {
        let chunk_id = text_of(v, "chunk_id")?;
        let doc_id = text_of(v, "doc_id")?;
        let entity_description = text_of(v, "entity_description")?;
        let entity_name = text_of(v, "entity_name")?;
        let entity_type = text_of(v, "entity_type")?;
        let order = match v.field(&String::from_str("chunk_order_index")) {
            Some(JsonValue::Int(i)) => {
                if 0 <= *i && *i <= 4294967295i64 {
                    *i as u32
                } else {
                    return None;
                }
            },
            _ => {
                return None;
            },
        };
        Some(EntityNode { chunk_id, chunk_order_index: order, doc_id, entity_description, entity_name, entity_type })
    }
}

impl RelationEdge {
    /// The relationship a stored record describes, when it has every field.
    pub fn from_record(v: &JsonValue) -> (r: Option<RelationEdge>)
        ensures
            r is Some ==> {
                let e = r->0;
                &&& v.str_field_spec("chunk_id"@) == Some(e.chunk_id@)
                &&& v.str_field_spec("doc_id"@) == Some(e.doc_id@)
                &&& v.str_field_spec("description"@) == Some(e.relationship_description@)
                &&& v.str_field_spec("source_entity_id"@) == Some(e.source_entity_id@)
                &&& v.str_field_spec("target_entity_id"@) == Some(e.target_entity_id@)
            },
    {
        let chunk_id = text_of(v, "chunk_id")?;
        let doc_id = text_of(v, "doc_id")?;
        let relationship_description = text_of(v, "description")?;
        let source_entity_id = text_of(v, "source_entity_id")?;
        let target_entity_id = text_of(v, "target_entity_id")?;
        let relationship_keywords = match v.field(&String::from_str("keywords")) {
            Some(JsonValue::Array(a)) => match strings_of(a) {
                Some(k) => k,
                None => {
                    return None;
                },
            },
            _ => {
                return None;
            },
        };
        Some(RelationEdge { chunk_id, doc_id, relationship_description, relationship_keywords, source_entity_id, target_entity_id })
    }
}

/// Decorating an entity record for storage keeps its fields.
pub proof fn lemma_entity_record_kept(r: JsonValue, k: Seq<char>, x: JsonValue, now: int, cache_list: bool, doc: Seq<char>, chunk: Seq<char>, order: int, e: ExtractedEntity)
    requires
        crate::kv_store::decorated(r, k, x, now, cache_list),
        entity_record_ok(x, doc, chunk, order, e),
    ensures
        entity_record_ok(r, doc, chunk, order, e),
{
    reveal_strlit("entity_name");
    reveal_strlit("entity_type");
    reveal_strlit("entity_description");
    reveal_strlit("doc_id");
    reveal_strlit("chunk_id");
    reveal_strlit("chunk_order_index");
    reveal_strlit("_id");
    reveal_strlit("create_time");
    reveal_strlit("update_time");
    reveal_strlit("llm_cache_list");
    assert(x is Object);
    crate::kv_store::lemma_decorated_fields(r, k, x, now, cache_list);
    assert("entity_name"@[0] != "_id"@[0] && "entity_name"@[0] != "create_time"@[0] && "entity_name"@[0] != "update_time"@[0] && "entity_name"@[0] != "llm_cache_list"@[0]);
    assert("entity_type"@[0] != "_id"@[0] && "entity_type"@[0] != "create_time"@[0] && "entity_type"@[0] != "update_time"@[0] && "entity_type"@[0] != "llm_cache_list"@[0]);
    assert("entity_description"@[0] != "_id"@[0] && "entity_description"@[0] != "create_time"@[0] && "entity_description"@[0] != "update_time"@[0] && "entity_description"@[0] != "llm_cache_list"@[0]);
    assert("doc_id"@.len() != "_id"@.len() && "doc_id"@.len() != "create_time"@.len() && "doc_id"@.len() != "update_time"@.len() && "doc_id"@.len() != "llm_cache_list"@.len());
    assert("chunk_id"@.len() != "_id"@.len() && "chunk_id"@.len() != "create_time"@.len() && "chunk_id"@.len() != "update_time"@.len() && "chunk_id"@.len() != "llm_cache_list"@.len());
    assert("chunk_order_index"@.len() != "_id"@.len() && "chunk_order_index"@.len() != "create_time"@.len() && "chunk_order_index"@.len() != "update_time"@.len() && "chunk_order_index"@.len() != "llm_cache_list"@.len());
    assert(r.str_field_spec("entity_name"@) == x.str_field_spec("entity_name"@));
    assert(r.str_field_spec("entity_type"@) == x.str_field_spec("entity_type"@));
    assert(r.str_field_spec("entity_description"@) == x.str_field_spec("entity_description"@));
    assert(r.str_field_spec("doc_id"@) == x.str_field_spec("doc_id"@));
    assert(r.str_field_spec("chunk_id"@) == x.str_field_spec("chunk_id"@));
    assert(r.field_spec("chunk_order_index"@) == crate::json::base_get(x, "chunk_order_index"@));
}

/// Decorating a relationship record for storage keeps its keywords and
/// description.
pub proof fn lemma_relation_fields_kept(r: JsonValue, k: Seq<char>, x: JsonValue, now: int, cache_list: bool, rel: ExtractedRelationship)
    requires
        crate::kv_store::decorated(r, k, x, now, cache_list),
        relation_fields_ok(x, rel),
    ensures
        relation_fields_ok(r, rel),
{
    reveal_strlit("keywords");
    reveal_strlit("description");
    reveal_strlit("_id");
    reveal_strlit("create_time");
    reveal_strlit("update_time");
    reveal_strlit("llm_cache_list");
    assert(x is Object);
    crate::kv_store::lemma_decorated_fields(r, k, x, now, cache_list);
    assert("keywords"@.len() != "_id"@.len() && "keywords"@.len() != "create_time"@.len() && "keywords"@.len() != "update_time"@.len() && "keywords"@.len() != "llm_cache_list"@.len());
    assert("description"@[0] != "_id"@[0] && "description"@[0] != "create_time"@[0] && "description"@[0] != "update_time"@[0] && "description"@[0] != "llm_cache_list"@[0]);
    assert(r.field_spec("keywords"@) == crate::json::base_get(x, "keywords"@));
    assert(r.str_field_spec("description"@) == x.str_field_spec("description"@));
}

} // verus!
