//! A structured value model: the JSON-like parameters and results that tools
//! exchange, together with a mathematical view (`JsonSpec`) that contracts
//! speak about.

use vstd::prelude::*;

verus! {

/// The mathematical shape of a structured value. Contracts and invariants are
/// stated over this type; `JsonValue` is its executable counterpart.
#[verifier::ext_equal]
pub enum JsonSpec {
    Null,
    Bool(bool),
    Int(int),
    Text(Seq<char>),
    Array(Seq<JsonSpec>),
    Object(Seq<(Seq<char>, JsonSpec)>),
}

/// An executable JSON-like value. Object entries keep their insertion order;
/// duplicate keys are allowed, and lookups find the first match.
#[derive(Debug, PartialEq)]
pub enum JsonValue {
    Null,
    Bool(bool),
    Int(i64),
    Text(String),
    Array(Vec<JsonValue>),
    Object(Vec<(String, JsonValue)>),
}

pub open spec fn jview(v: JsonValue) -> JsonSpec
    decreases v, 1int,
{
    match v {
        JsonValue::Null => JsonSpec::Null,
        JsonValue::Bool(b) => JsonSpec::Bool(b),
        JsonValue::Int(i) => JsonSpec::Int(i as int),
        JsonValue::Text(s) => JsonSpec::Text(s@),
        JsonValue::Array(a) => JsonSpec::Array(jview_seq(a@)),
        JsonValue::Object(o) => JsonSpec::Object(jview_entries(o@)),
    }
}

pub open spec fn jview_seq(s: Seq<JsonValue>) -> Seq<JsonSpec>
    decreases s, 0int,
{
    if s.len() == 0 {
        Seq::empty()
    } else {
        seq![jview(s[0])] + jview_seq(s.skip(1))
    }
}

pub open spec fn jview_entries(s: Seq<(String, JsonValue)>) -> Seq<(Seq<char>, JsonSpec)>
    decreases s, 0int,
{
    if s.len() == 0 {
        Seq::empty()
    } else {
        seq![(s[0].0@, jview(s[0].1))] + jview_entries(s.skip(1))
    }
}

/// The view of a value sequence is the sequence of element views.
pub broadcast proof fn lemma_jview_seq(s: Seq<JsonValue>)
    ensures
        (#[trigger] jview_seq(s)).len() == s.len(),
        forall|i: int| 0 <= i < s.len() ==> jview_seq(s)[i] == jview(s[i]),
    decreases s.len(),
{
    if s.len() > 0 {
        lemma_jview_seq(s.skip(1));
    }
}

/// The view of an entry list pairs each key's view with each value's view.
pub broadcast proof fn lemma_jview_entries(s: Seq<(String, JsonValue)>)
    ensures
        (#[trigger] jview_entries(s)).len() == s.len(),
        forall|i: int|
            0 <= i < s.len() ==> jview_entries(s)[i] == (s[i].0@, jview(s[i].1)),
    decreases s.len(),
{
    if s.len() > 0 {
        lemma_jview_entries(s.skip(1));
    }
}

impl View for JsonValue {
    type V = JsonSpec;

    open spec fn view(&self) -> JsonSpec {
        jview(*self)
    }
}

/// Lookup of the first entry with the given key in an object's entry list.
pub open spec fn obj_lookup(entries: Seq<(Seq<char>, JsonSpec)>, key: Seq<char>) -> Option<
    JsonSpec,
>
    decreases entries.len(),
{
    if entries.len() == 0 {
        None
    } else if entries[0].0 == key {
        Some(entries[0].1)
    } else {
        obj_lookup(entries.skip(1), key)
    }
}

impl JsonValue {
    /// The text content, if this value is a string.
    pub fn as_text(&self) -> (r: Option<&String>)
        ensures
            match r {
                Some(s) => self@ == JsonSpec::Text(s@),
                None => !(self@ is Text),
            },
    {
        match self {
            JsonValue::Text(s) => Some(s),
            _ => None,
        }
    }

    /// The first entry with the given key, if this value is an object that has one.
    pub fn get_field(&self, key: &str) -> (r: Option<&JsonValue>)
        ensures
            match r {
                Some(v) => self@ is Object && obj_lookup(self@->Object_0, key@) == Some(v@),
                None => !(self@ is Object) || obj_lookup(self@->Object_0, key@) is None,
            },
    {
        match self {
            JsonValue::Object(entries) => {
                let key_string = key.to_owned();
                let mut idx: usize = 0;
                while idx < entries.len()
                    invariant
                        idx <= entries@.len(),
                        key_string@ == key@,
                        self@ is Object,
                        self@->Object_0 == jview_entries(entries@),
                        forall|j: int| 0 <= j < idx ==> entries@[j].0@ != key@,
                    decreases entries@.len() - idx,
                {
                    if entries[idx].0 == key_string {
                        proof {
                            lemma_jview_entries(entries@);
                            lemma_obj_lookup_found(self@->Object_0, key@, idx as int);
                        }
                        return Some(&entries[idx].1);
                    }
                    idx += 1;
                }
                proof {
                    lemma_jview_entries(entries@);
                    lemma_obj_lookup_none(self@->Object_0, key@);
                }
                None
            },
            _ => None,
        }
    }

    /// A string value built from the given text.
    pub fn text(s: &str) -> (r: JsonValue)
        ensures
            r@ == JsonSpec::Text(s@),
    {
        JsonValue::Text(s.to_owned())
    }

    /// An object with exactly one entry.
    pub fn object_with(key: &str, value: JsonValue) -> (r: JsonValue)
        ensures
            r@ == JsonSpec::Object(seq![(key@, value@)]),
    {
        let mut entries: Vec<(String, JsonValue)> = Vec::new();
        let key_string = key.to_owned();
        let ghost gvalue = value;
        entries.push((key_string, value));
        let r = JsonValue::Object(entries);
        proof {
            lemma_jview_entries(entries@);
            assert(entries@.len() == 1);
            assert(entries@[0].0@ == key@ && entries@[0].1 == gvalue);
            assert(jview_entries(entries@).len() == 1);
            assert(jview_entries(entries@)[0] == (key@, gvalue@));
            assert(r@->Object_0 =~= seq![(key@, gvalue@)]);
        }
        r
    }
}

proof fn lemma_obj_lookup_found(entries: Seq<(Seq<char>, JsonSpec)>, key: Seq<char>, i: int)
    requires
        0 <= i < entries.len(),
        entries[i].0 == key,
        forall|j: int| 0 <= j < i ==> entries[j].0 != key,
    ensures
        obj_lookup(entries, key) == Some(entries[i].1),
    decreases i,
{
    if i > 0 {
        assert(entries.skip(1)[i - 1] == entries[i]);
        assert(forall|j: int| 0 <= j < i - 1 ==> entries.skip(1)[j] == entries[j + 1]);
        lemma_obj_lookup_found(entries.skip(1), key, i - 1);
    }
}

proof fn lemma_obj_lookup_none(entries: Seq<(Seq<char>, JsonSpec)>, key: Seq<char>)
    requires
        forall|j: int| 0 <= j < entries.len() ==> entries[j].0 != key,
    ensures
        obj_lookup(entries, key) is None,
    decreases entries.len(),
{
    if entries.len() > 0 {
        assert(forall|j: int| 0 <= j < entries.len() - 1 ==> entries.skip(1)[j] == entries[j + 1]);
        lemma_obj_lookup_none(entries.skip(1), key);
    }
}

fn clone_json_vec(v: &Vec<JsonValue>) -> (res: Vec<JsonValue>)
    ensures
        res@.len() == v@.len(),
        forall|i: int| 0 <= i < v@.len() ==> res@[i]@ == v@[i]@,
    decreases v,
{
    let mut res: Vec<JsonValue> = Vec::new();
    let mut idx: usize = 0;
    while idx < v.len()
        invariant
            idx <= v@.len(),
            res@.len() == idx,
            forall|i: int| 0 <= i < idx ==> res@[i]@ == v@[i]@,
        decreases v@.len() - idx,
    {
        res.push(v[idx].clone());
        idx += 1;
    }
    res
}

fn clone_json_entries(v: &Vec<(String, JsonValue)>) -> (res: Vec<(String, JsonValue)>)
    ensures
        res@.len() == v@.len(),
        forall|i: int| 0 <= i < v@.len() ==> res@[i].0@ == v@[i].0@ && res@[i].1@ == v@[i].1@,
    decreases v,
{
    let mut res: Vec<(String, JsonValue)> = Vec::new();
    let mut idx: usize = 0;
    while idx < v.len()
        invariant
            idx <= v@.len(),
            res@.len() == idx,
            forall|i: int| 0 <= i < idx ==> res@[i].0@ == v@[i].0@ && res@[i].1@ == v@[i].1@,
        decreases v@.len() - idx,
    {
        let entry = &v[idx];
        res.push((entry.0.clone(), entry.1.clone()));
        idx += 1;
    }
    res
}

impl Clone for JsonValue {
    /// A deep copy whose mathematical view equals the original's.
    fn clone(&self) -> (res: Self)
        ensures
            res@ == self@,
        decreases *self,
    {
        match self {
            JsonValue::Null => JsonValue::Null,
            JsonValue::Bool(b) => JsonValue::Bool(*b),
            JsonValue::Int(i) => JsonValue::Int(*i),
            JsonValue::Text(s) => JsonValue::Text(s.clone()),
            JsonValue::Array(a) => {
                let copied = clone_json_vec(a);
                let res = JsonValue::Array(copied);
                proof {
                    lemma_jview_seq(copied@);
                    lemma_jview_seq(self->Array_0@);
                    assert(res@->Array_0 =~= self@->Array_0);
                }
                res
            },
            JsonValue::Object(o) => {
                let copied = clone_json_entries(o);
                let res = JsonValue::Object(copied);
                proof {
                    lemma_jview_entries(copied@);
                    lemma_jview_entries(self->Object_0@);
                    assert(res@->Object_0 =~= self@->Object_0);
                }
                res
            },
        }
    }
}

} // verus!
