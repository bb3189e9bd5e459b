//! A JSON value held as plain data: arrays and objects are linked lists, so
//! that copies are provably equal to their source.
use vstd::prelude::*;
use vstd::string::*;

verus! {

/// A JSON value. Integers that fit `i64` are `Int`; any other number keeps
/// its textual form in `Number`.
#[derive(Debug)]
pub enum JsonValue {
    Null,
    Bool(bool),
    Int(i64),
    Number(String),
    Str(String),
    Array(JsonArray),
    Object(JsonObject),
}

/// The elements of a JSON array, in order.
#[derive(Debug)]
pub enum JsonArray {
    Empty,
    Item(Box<JsonValue>, Box<JsonArray>),
}

/// The members of a JSON object, in order. Reads use the first member with
/// a given name.
#[derive(Debug)]
pub enum JsonObject {
    Empty,
    Field(String, Box<JsonValue>, Box<JsonObject>),
}

impl JsonArray {
    pub open spec fn len(self) -> nat
        decreases self,
    {
        match self {
            JsonArray::Empty => 0,
            JsonArray::Item(_, rest) => 1 + rest.len(),
        }
    }

    pub fn deep_clone(&self) -> (r: JsonArray)
        ensures
            r == *self,
        decreases self,
    {
        match self {
            JsonArray::Empty => JsonArray::Empty,
            JsonArray::Item(v, rest) => JsonArray::Item(
                Box::new((**v).deep_clone()),
                Box::new((**rest).deep_clone()),
            ),
        }
    }
}

impl JsonObject {
    /// The value of the first member named `k`.
    pub open spec fn get_spec(self, k: Seq<char>) -> Option<JsonValue>
        decreases self,
    {
        match self {
            JsonObject::Empty => None,
            JsonObject::Field(name, v, rest) => if name@ == k {
                Some(*v)
            } else {
                rest.get_spec(k)
            },
        }
    }

    /// Sets member `k` to `v`: the first member of that name gets the new
    /// value, or a member is appended when there is none.
    pub open spec fn set_spec(self, k: String, v: JsonValue) -> JsonObject
        decreases self,
    {
        match self {
            JsonObject::Empty => JsonObject::Field(k, Box::new(v), Box::new(JsonObject::Empty)),
            JsonObject::Field(name, old_v, rest) => if name@ == k@ {
                JsonObject::Field(name, Box::new(v), rest)
            } else {
                JsonObject::Field(name, old_v, Box::new(rest.set_spec(k, v)))
            },
        }
    }

    pub proof fn lemma_set_get(self, k: String, v: JsonValue, q: Seq<char>)
        ensures
            self.set_spec(k, v).get_spec(q) == (if q == k@ {
                Some(v)
            } else {
                self.get_spec(q)
            }),
        decreases self,
    {
        match self {
            JsonObject::Empty => {},
            JsonObject::Field(name, _, rest) => {
                if name@ != k@ {
                    rest.lemma_set_get(k, v, q);
                }
            },
        }
    }

    pub fn deep_clone(&self) -> (r: JsonObject)
        ensures
            r == *self,
        decreases self,
    {
        match self {
            JsonObject::Empty => JsonObject::Empty,
            JsonObject::Field(name, v, rest) => JsonObject::Field(
                name.clone(),
                Box::new((**v).deep_clone()),
                Box::new((**rest).deep_clone()),
            ),
        }
    }

    pub fn get(&self, k: &String) -> (r: Option<&JsonValue>)
        ensures
            match r {
                Some(x) => self.get_spec(k@) == Some(*x),
                None => self.get_spec(k@) is None,
            },
        decreases self,
    {
        match self {
            JsonObject::Empty => None,
            JsonObject::Field(name, v, rest) => {
                if *name == *k {
                    Some(&**v)
                } else {
                    (**rest).get(k)
                }
            },
        }
    }

    pub fn contains(&self, k: &String) -> (r: bool)
        ensures
            r == self.get_spec(k@) is Some,
    {
        self.get(k).is_some()
    }

    pub fn set(self, k: String, v: JsonValue) -> (r: JsonObject)
        ensures
            r == self.set_spec(k, v),
        decreases self,
    {
        match self {
            JsonObject::Empty => JsonObject::Field(k, Box::new(v), Box::new(JsonObject::Empty)),
            JsonObject::Field(name, old_v, rest) => {
                if name == k {
                    JsonObject::Field(name, Box::new(v), rest)
                } else {
                    JsonObject::Field(name, old_v, Box::new((*rest).set(k, v)))
                }
            },
        }
    }
}

impl JsonValue {
    /// Member `k` when the value is an object.
    pub open spec fn field_spec(self, k: Seq<char>) -> Option<JsonValue> {
        match self {
            JsonValue::Object(o) => o.get_spec(k),
            _ => None,
        }
    }

    /// The text when the value is a string.
    pub open spec fn str_spec(self) -> Option<Seq<char>> {
        match self {
            JsonValue::Str(s) => Some(s@),
            _ => None,
        }
    }

    /// Text of member `k`, when the value is an object and that member is a string.
    pub open spec fn str_field_spec(self, k: Seq<char>) -> Option<Seq<char>> {
        match self.field_spec(k) {
            Some(v) => v.str_spec(),
            None => None,
        }
    }

    pub fn deep_clone(&self) -> (r: JsonValue)
        ensures
            r == *self,
        decreases self,
    {
        match self {
            JsonValue::Null => JsonValue::Null,
            JsonValue::Bool(b) => JsonValue::Bool(*b),
            JsonValue::Int(i) => JsonValue::Int(*i),
            JsonValue::Number(s) => JsonValue::Number(s.clone()),
            JsonValue::Str(s) => JsonValue::Str(s.clone()),
            JsonValue::Array(a) => JsonValue::Array(a.deep_clone()),
            JsonValue::Object(o) => JsonValue::Object(o.deep_clone()),
        }
    }

    pub fn field(&self, k: &String) -> (r: Option<&JsonValue>)
        ensures
            match r {
                Some(x) => self.field_spec(k@) == Some(*x),
                None => self.field_spec(k@) is None,
            },
    {
        match self {
            JsonValue::Object(o) => o.get(k),
            _ => None,
        }
    }

    pub fn as_str(&self) -> (r: Option<&String>)
        ensures
            match r {
                Some(s) => self.str_spec() == Some(s@),
                None => self.str_spec() is None,
            },
    {
        match self {
            JsonValue::Str(s) => Some(s),
            _ => None,
        }
    }

    pub fn str_field(&self, k: &String) -> (r: Option<&String>)
        ensures
            match r {
                Some(s) => self.str_field_spec(k@) == Some(s@),
                None => self.str_field_spec(k@) is None,
            },
    {
        match self.field(k) {
            Some(v) => v.as_str(),
            None => None,
        }
    }
}

impl JsonObject {
    /// The members, in order.
    pub open spec fn entries(self) -> Seq<(String, JsonValue)>
        decreases self,
    {
        match self {
            JsonObject::Empty => Seq::empty(),
            JsonObject::Field(name, v, rest) => seq![(name, *v)].add(rest.entries()),
        }
    }

    /// The members as a vector, in order.
    pub fn into_entries(self) -> (r: Vec<(String, JsonValue)>)
        ensures
            r@ == self.entries(),
        decreases self,
    {
        match self {
            JsonObject::Empty => Vec::new(),
            JsonObject::Field(name, v, rest) => {
                let mut tail = (*rest).into_entries();
                tail.insert(0, (name, *v));
                assert(tail@ =~= seq![(name, *v)].add(rest.entries()));
                tail
            },
        }
    }

    /// Sets member `k` to `v` only when there is no member of that name.
    pub open spec fn set_default_spec(self, k: String, v: JsonValue) -> JsonObject {
        if self.get_spec(k@) is Some {
            self
        } else {
            self.set_spec(k, v)
        }
    }

    pub fn set_default(self, k: String, v: JsonValue) -> (r: JsonObject)
        ensures
            r == self.set_default_spec(k, v),
    {
        if self.contains(&k) {
            self
        } else {
            self.set(k, v)
        }
    }
}

/// Member `q` of a record before decoration: the member of an object, or,
/// for any other value, the value itself under `"value"`.
pub open spec fn base_get(v: JsonValue, q: Seq<char>) -> Option<JsonValue> {
    match v {
        JsonValue::Object(o) => o.get_spec(q),
        _ => if q == "value"@ {
            Some(v)
        } else {
            None
        },
    }
}

/// The record as an object: an object unchanged, any other value wrapped
/// under `"value"`.
pub fn into_object(v: JsonValue) -> (r: JsonObject)
    ensures
        forall|q: Seq<char>| #[trigger] r.get_spec(q) == base_get(v, q),
{
    match v {
        JsonValue::Object(o) => o,
        other => {
            let k = String::from_str("value");
            let r = JsonObject::Empty.set(k, other);
            assert forall|q: Seq<char>| #[trigger] r.get_spec(q) == base_get(v, q) by {
                JsonObject::Empty.lemma_set_get(k, other, q);
            }
            r
        },
    }
}

/// The object with the given members, in order; keys must be unique.
pub fn object_of(fields: Vec<(String, JsonValue)>) -> (r: JsonValue)
    requires
        crate::keyed::keys_unique(fields@),
    ensures
        r is Object,
        forall|q: Seq<char>| #[trigger] r.field_spec(q) == crate::keyed::lookup(fields@, q),
{
    let ghost fs = fields@;
    let mut o = JsonObject::Empty;
    let mut rest = fields;
    let n = rest.len();
    let mut rev: Vec<(String, JsonValue)> = Vec::new();
    while rest.len() > 0
        invariant
            rest@.len() + rev@.len() == n,
            n == fs.len(),
            forall|t: int| 0 <= t < rest@.len() ==> #[trigger] rest@[t] == fs[t],
            forall|t: int| 0 <= t < rev@.len() ==> #[trigger] rev@[t] == fs[n - 1 - t],
        decreases rest.len(),
    {
        let e = rest.pop().unwrap();
        rev.push(e);
    }
    let mut i: usize = 0;
    assert(fs.subrange(0, 0) =~= Seq::<(String, JsonValue)>::empty());
    while rev.len() > 0
        invariant
            rev@.len() + i == n,
            n == fs.len(),
            crate::keyed::keys_unique(fs),
            forall|t: int| 0 <= t < rev@.len() ==> #[trigger] rev@[t] == fs[n - 1 - t],
            forall|q: Seq<char>| #[trigger] o.get_spec(q) == crate::keyed::lookup(fs.subrange(0, i as int), q),
        decreases rev.len(),
    {
        let (k, v) = rev.pop().unwrap();
        let ghost pre = fs.subrange(0, i as int);
        let ghost old_o = o;
        proof {
            assert(fs[i as int] == (k, v));
            assert(fs.subrange(0, i + 1) =~= pre.push((k, v)));
            assert(!crate::keyed::has_key(pre, k@)) by {
                if crate::keyed::has_key(pre, k@) {
                    let j = choose|j: int| 0 <= j < pre.len() && pre[j].0@ == k@;
                    assert(fs[j].0@ == fs[i as int].0@);
                }
            }
            crate::keyed::lemma_lookup_some(pre, k@);
        }
        o = o.set(k, v);
        proof {
            assert forall|q: Seq<char>| #[trigger] o.get_spec(q) == crate::keyed::lookup(fs.subrange(0, i + 1), q) by {
                old_o.lemma_set_get(k, v, q);
                crate::keyed::lemma_lookup_push(pre, (k, v), q);
            }
        }
        i = i + 1;
    }
    assert(fs.subrange(0, n as int) =~= fs);
    JsonValue::Object(o)
}

} // verus!
