//! A JSON document model for protocol payloads, with the accessors the
//! protocol logic reads (`get`, `as_str`, `as_u64`, ...) stated over a
//! mathematical view.
use vstd::prelude::*;
use crate::strings::{chars_of, str_eq};

verus! {

/// A JSON number: an unsigned or negative integer, or any other number kept
/// by its decimal text.
#[derive(Debug, PartialEq, Eq)]
pub enum JsonNumber {
    PosInt(u64),
    NegInt(i64),
    Float(String),
}

/// A JSON value. Object members keep their order; lookups take the first
/// member with the requested key.
#[derive(Debug, PartialEq, Eq)]
pub enum JsonValue {
    Null,
    Bool(bool),
    Number(JsonNumber),
    String(String),
    Array(Vec<JsonValue>),
    Object(Vec<(String, JsonValue)>),
}

/// Mathematical view of a JSON number.
pub enum NumberModel {
    PosInt(u64),
    NegInt(i64),
    Float(Seq<char>),
}

/// Mathematical view of a JSON value.
pub enum Json {
    Null,
    Bool(bool),
    Number(NumberModel),
    Str(Seq<char>),
    Array(Seq<Json>),
    Object(Seq<(Seq<char>, Json)>),
}

impl JsonNumber {
    pub open spec fn model(&self) -> NumberModel {
        match self {
            JsonNumber::PosInt(n) => NumberModel::PosInt(*n),
            JsonNumber::NegInt(n) => NumberModel::NegInt(*n),
            JsonNumber::Float(t) => NumberModel::Float(t@),
        }
    }
}

impl Clone for JsonNumber {
    fn clone(&self) -> (r: Self)
        ensures
            r == *self,
    {
        match self {
            JsonNumber::PosInt(n) => JsonNumber::PosInt(*n),
            JsonNumber::NegInt(n) => JsonNumber::NegInt(*n),
            JsonNumber::Float(t) => JsonNumber::Float(t.clone()),
        }
    }
}

pub open spec fn model_items(items: Seq<JsonValue>) -> Seq<Json>
    decreases items,
{
    if items.len() == 0 {
        Seq::empty()
    } else {
        model_items(items.subrange(0, items.len() - 1)).push(items[items.len() - 1].model())
    }
}

pub open spec fn model_members(members: Seq<(String, JsonValue)>) -> Seq<(Seq<char>, Json)>
    decreases members,
{
    if members.len() == 0 {
        Seq::empty()
    } else {
        model_members(members.subrange(0, members.len() - 1)).push(
            (members[members.len() - 1].0@, members[members.len() - 1].1.model()),
        )
    }
}

impl JsonValue {
    /// The mathematical view of this value.
    pub open spec fn model(&self) -> Json
        decreases self,
    {
        match self {
            JsonValue::Null => Json::Null,
            JsonValue::Bool(b) => Json::Bool(*b),
            JsonValue::Number(n) => Json::Number(n.model()),
            JsonValue::String(s) => Json::Str(s@),
            JsonValue::Array(items) => Json::Array(model_items(items@)),
            JsonValue::Object(members) => Json::Object(model_members(members@)),
        }
    }
}

pub proof fn lemma_model_items(items: Seq<JsonValue>)
    ensures
        model_items(items).len() == items.len(),
        forall|i: int| 0 <= i < items.len() ==> #[trigger] model_items(items)[i] == items[i].model(),
    decreases items.len(),
{
    if items.len() > 0 {
        let init = items.subrange(0, items.len() - 1);
        lemma_model_items(init);
        assert forall|i: int| 0 <= i < items.len() implies #[trigger] model_items(items)[i]
            == items[i].model() by {
            if i < items.len() - 1 {
                assert(init[i] == items[i]);
            }
        }
    }
}

pub proof fn lemma_model_members(members: Seq<(String, JsonValue)>)
    ensures
        model_members(members).len() == members.len(),
        forall|i: int|
            0 <= i < members.len() ==> #[trigger] model_members(members)[i] == (
                members[i].0@,
                members[i].1.model(),
            ),
    decreases members.len(),
{
    if members.len() > 0 {
        let init = members.subrange(0, members.len() - 1);
        lemma_model_members(init);
        assert forall|i: int| 0 <= i < members.len() implies #[trigger] model_members(members)[i]
            == (members[i].0@, members[i].1.model()) by {
            if i < members.len() - 1 {
                assert(init[i] == members[i]);
            }
        }
    }
}

/// Index of the first member with the given key.
pub open spec fn first_key_index(members: Seq<(Seq<char>, Json)>, key: Seq<char>) -> Option<int> {
    if exists|i: int| 0 <= i < members.len() && members[i].0 == key {
        Some(
            choose|i: int|
                0 <= i < members.len() && members[i].0 == key && forall|j: int|
                    0 <= j < i ==> members[j].0 != key,
        )
    } else {
        None
    }
}

pub proof fn lemma_first_key_index(members: Seq<(Seq<char>, Json)>, key: Seq<char>, i: int)
    requires
        0 <= i < members.len(),
        members[i].0 == key,
        forall|j: int| 0 <= j < i ==> members[j].0 != key,
    ensures
        first_key_index(members, key) == Some(i),
{
    let k = choose|k: int|
        0 <= k < members.len() && members[k].0 == key && forall|j: int|
            0 <= j < k ==> members[j].0 != key;
    assert(0 <= k < members.len() && members[k].0 == key && forall|j: int|
        0 <= j < k ==> members[j].0 != key);
    if k < i {
    } else if k > i {
    }
}

impl Json {
    /// Member `key` of an object (the first one with that key).
    pub open spec fn get(self, key: Seq<char>) -> Option<Json> {
        match self {
            Json::Object(members) => match first_key_index(members, key) {
                Some(i) => Some(members[i].1),
                None => None,
            },
            _ => None,
        }
    }

    pub open spec fn as_str(self) -> Option<Seq<char>> {
        match self {
            Json::Str(s) => Some(s),
            _ => None,
        }
    }

    pub open spec fn as_u64(self) -> Option<u64> {
        match self {
            Json::Number(NumberModel::PosInt(n)) => Some(n),
            _ => None,
        }
    }

    pub open spec fn as_bool(self) -> Option<bool> {
        match self {
            Json::Bool(b) => Some(b),
            _ => None,
        }
    }

    pub open spec fn as_array(self) -> Option<Seq<Json>> {
        match self {
            Json::Array(items) => Some(items),
            _ => None,
        }
    }

    /// Member `key` when `self` is an object, absent otherwise (`Option<&Value>` chain).
    pub open spec fn get_opt(j: Option<Json>, key: Seq<char>) -> Option<Json> {
        match j {
            Some(v) => v.get(key),
            None => None,
        }
    }

    pub open spec fn str_opt(j: Option<Json>) -> Option<Seq<char>> {
        match j {
            Some(v) => v.as_str(),
            None => None,
        }
    }

    pub open spec fn u64_opt(j: Option<Json>) -> Option<u64> {
        match j {
            Some(v) => v.as_u64(),
            None => None,
        }
    }

    pub open spec fn array_opt(j: Option<Json>) -> Option<Seq<Json>> {
        match j {
            Some(v) => v.as_array(),
            None => None,
        }
    }
}

/// The models of an optional value.
pub open spec fn model_opt(v: Option<&JsonValue>) -> Option<Json> {
    match v {
        Some(x) => Some(x.model()),
        None => None,
    }
}

impl JsonValue {
    /// Member `key` of an object value.
    pub fn get(&self, key: &str) -> (r: Option<&JsonValue>)
        ensures
            model_opt(r) == self.model().get(key@),
    {
        match self {
            JsonValue::Object(members) => {
                proof {
                    lemma_model_members(members@);
                }
                let ghost ms = model_members(members@);
                let mut i: usize = 0;
                while i < members.len()
                    invariant
                        ms == model_members(members@),
                        self.model() == Json::Object(ms),
                        ms.len() == members@.len(),
                        forall|k: int|
                            0 <= k < members@.len() ==> #[trigger] ms[k] == (
                                members@[k].0@,
                                members@[k].1.model(),
                            ),
                        i <= members@.len(),
                        forall|j: int| 0 <= j < i ==> ms[j].0 != key@,
                    decreases members@.len() - i,
                {
                    if str_eq(members[i].0.as_str(), key) {
                        proof {
                            lemma_first_key_index(ms, key@, i as int);
                            assert(ms[i as int] == (members@[i as int].0@, members@[i as int].1.model()));
                        }
                        return Some(&members[i].1);
                    }
                    i += 1;
                }
                proof {
                    assert(!exists|k: int| 0 <= k < ms.len() && ms[k].0 == key@);
                }
                None
            },
            _ => None,
        }
    }

    pub fn as_str(&self) -> (r: Option<&str>)
        ensures
            match r {
                Some(s) => self.model().as_str() == Some(s@),
                None => self.model().as_str() is None,
            },
    {
        match self {
            JsonValue::String(s) => Some(s.as_str()),
            _ => None,
        }
    }

    pub fn as_u64(&self) -> (r: Option<u64>)
        ensures
            r == self.model().as_u64(),
    {
        match self {
            JsonValue::Number(JsonNumber::PosInt(n)) => Some(*n),
            _ => None,
        }
    }

    pub fn as_bool(&self) -> (r: Option<bool>)
        ensures
            r == self.model().as_bool(),
    {
        match self {
            JsonValue::Bool(b) => Some(*b),
            _ => None,
        }
    }

    pub fn as_array(&self) -> (r: Option<&Vec<JsonValue>>)
        ensures
            match r {
                Some(items) => self.model().as_array() == Some(model_items(items@)),
                None => self.model().as_array() is None,
            },
    {
        match self {
            JsonValue::Array(items) => Some(items),
            _ => None,
        }
    }

    pub fn as_object(&self) -> (r: Option<&Vec<(String, JsonValue)>>)
        ensures
            match r {
                Some(members) => self.model() == Json::Object(model_members(members@)),
                None => !(self.model() is Object),
            },
    {
        match self {
            JsonValue::Object(members) => Some(members),
            _ => None,
        }
    }

    pub fn is_null(&self) -> (r: bool)
        ensures
            r == (self.model() is Null),
    {
        match self {
            JsonValue::Null => true,
            _ => false,
        }
    }

    /// A JSON string holding `s`.
    pub fn from_str_value(s: &str) -> (r: JsonValue)
        ensures
            r.model() == Json::Str(s@),
    {
        JsonValue::String(s.to_owned())
    }
}

/// Optional member lookup through an optional value.
pub fn get_opt<'a>(v: Option<&'a JsonValue>, key: &str) -> (r: Option<&'a JsonValue>)
    ensures
        model_opt(r) == Json::get_opt(model_opt(v), key@),
{
    match v {
        Some(x) => x.get(key),
        None => None,
    }
}

/// Optional string view through an optional value.
pub fn str_opt<'a>(v: Option<&'a JsonValue>) -> (r: Option<&'a str>)
    ensures
        match r {
            Some(s) => Json::str_opt(model_opt(v)) == Some(s@),
            None => Json::str_opt(model_opt(v)) is None,
        },
{
    match v {
        Some(x) => x.as_str(),
        None => None,
    }
}

/// Optional unsigned integer view through an optional value.
pub fn u64_opt(v: Option<&JsonValue>) -> (r: Option<u64>)
    ensures
        r == Json::u64_opt(model_opt(v)),
{
    match v {
        Some(x) => x.as_u64(),
        None => None,
    }
}

/// Index of the first member named `key`.
pub fn member_index(members: &Vec<(String, JsonValue)>, key: &str) -> (r: Option<usize>)
    ensures
        match r {
            Some(i) => first_key_index(model_members(members@), key@) == Some(i as int) && i
                < members@.len(),
            None => first_key_index(model_members(members@), key@) is None,
        },
{
    proof {
        lemma_model_members(members@);
    }
    let ghost ms = model_members(members@);
    let mut i: usize = 0;
    while i < members.len()
        invariant
            ms == model_members(members@),
            ms.len() == members@.len(),
            forall|k: int|
                0 <= k < members@.len() ==> #[trigger] ms[k] == (
                    members@[k].0@,
                    members@[k].1.model(),
                ),
            i <= members@.len(),
            forall|j: int| 0 <= j < i ==> ms[j].0 != key@,
        decreases members@.len() - i,
    {
        if str_eq(members[i].0.as_str(), key) {
            proof {
                assert(ms[i as int].0 == key@);
                lemma_first_key_index(ms, key@, i as int);
            }
            return Some(i);
        }
        i += 1;
    }
    None
}

/// Sets member `key` to `v`: in place when present, appended otherwise.
pub open spec fn member_put(ms: Seq<(Seq<char>, Json)>, key: Seq<char>, v: Json) -> Seq<(Seq<char>, Json)> {
    match first_key_index(ms, key) {
        Some(i) => ms.update(i, (key, v)),
        None => ms.push((key, v)),
    }
}

/// Removes the first member named `key`.
pub open spec fn member_remove(ms: Seq<(Seq<char>, Json)>, key: Seq<char>) -> Seq<(Seq<char>, Json)> {
    match first_key_index(ms, key) {
        Some(i) => ms.remove(i),
        None => ms,
    }
}

pub proof fn lemma_model_members_update(members: Seq<(String, JsonValue)>, i: int, m: (String, JsonValue))
    requires
        0 <= i < members.len(),
    ensures
        model_members(members.update(i, m)) == model_members(members).update(i, (m.0@, m.1.model())),
{
    lemma_model_members(members);
    lemma_model_members(members.update(i, m));
    assert(model_members(members.update(i, m)) =~= model_members(members).update(i, (m.0@, m.1.model())));
}

pub proof fn lemma_model_members_push(members: Seq<(String, JsonValue)>, m: (String, JsonValue))
    ensures
        model_members(members.push(m)) == model_members(members).push((m.0@, m.1.model())),
{
    lemma_model_members(members);
    lemma_model_members(members.push(m));
    assert(model_members(members.push(m)) =~= model_members(members).push((m.0@, m.1.model())));
}

pub proof fn lemma_model_members_remove(members: Seq<(String, JsonValue)>, i: int)
    requires
        0 <= i < members.len(),
    ensures
        model_members(members.remove(i)) == model_members(members).remove(i),
{
    lemma_model_members(members);
    lemma_model_members(members.remove(i));
    assert(model_members(members.remove(i)) =~= model_members(members).remove(i));
}

pub proof fn lemma_model_items_push(items: Seq<JsonValue>, v: JsonValue)
    ensures
        model_items(items.push(v)) == model_items(items).push(v.model()),
{
    lemma_model_items(items);
    lemma_model_items(items.push(v));
    assert(model_items(items.push(v)) =~= model_items(items).push(v.model()));
}

/// Sets member `key` of `members` to `v`.
pub fn put_member(members: &mut Vec<(String, JsonValue)>, key: &str, v: JsonValue)
    ensures
        model_members(final(members)@) == member_put(model_members(old(members)@), key@, v.model()),
{
    let ghost vm = v.model();
    match member_index(members, key) {
        Some(i) => {
            let k = key.to_owned();
            let ghost old_members = members@;
            members.set(i, (k, v));
            proof {
                lemma_model_members_update(old_members, i as int, members@[i as int]);
                assert(members@ == old_members.update(i as int, members@[i as int]));
            }
        },
        None => {
            let k = key.to_owned();
            let ghost old_members = members@;
            members.push((k, v));
            proof {
                lemma_model_members_push(old_members, members@.last());
                assert(members@ == old_members.push(members@.last()));
            }
        },
    }
}

/// Removes member `key` of `members` and returns its value.
pub fn remove_member(members: &mut Vec<(String, JsonValue)>, key: &str) -> (r: Option<JsonValue>)
    ensures
        model_members(final(members)@) == member_remove(model_members(old(members)@), key@),
        match r {
            Some(v) => Json::Object(model_members(old(members)@)).get(key@) == Some(v.model()),
            None => Json::Object(model_members(old(members)@)).get(key@) is None,
        },
{
    proof {
        lemma_model_members(members@);
    }
    match member_index(members, key) {
        Some(i) => {
            let ghost old_members = members@;
            let (_, v) = members.remove(i);
            proof {
                lemma_model_members_remove(old_members, i as int);
            }
            Some(v)
        },
        None => None,
    }
}

impl Clone for JsonValue {
    fn clone(&self) -> (r: Self)
        ensures
            r.model() == self.model(),
        decreases self,
    {
        match self {
            JsonValue::Null => JsonValue::Null,
            JsonValue::Bool(b) => JsonValue::Bool(*b),
            JsonValue::Number(n) => JsonValue::Number(n.clone()),
            JsonValue::String(s) => JsonValue::String(s.clone()),
            JsonValue::Array(items) => {
                let mut out: Vec<JsonValue> = Vec::new();
                let mut i: usize = 0;
                proof {
                    lemma_model_items(items@);
                }
                while i < items.len()
                    invariant
                        i <= items@.len(),
                        *self == JsonValue::Array(*items),
                        model_items(out@) == model_items(items@.take(i as int)),
                    decreases items@.len() - i,
                {
                    proof {
                        vstd::std_specs::vec::axiom_vec_index_decreases(*items, i as int);
                        assert(decreases_to!(*self => (*self)->Array_0));
                        assert(decreases_to!(*self => items@[i as int]));
                    }
                    let c = items[i].clone();
                    proof {
                        lemma_model_items_push(out@, c);
                        lemma_model_items_push(items@.take(i as int), items@[i as int]);
                        assert(items@.take(i + 1) =~= items@.take(i as int).push(items@[i as int]));
                    }
                    out.push(c);
                    i += 1;
                }
                proof {
                    assert(items@.take(items@.len() as int) =~= items@);
                }
                JsonValue::Array(out)
            },
            JsonValue::Object(members) => {
                let mut out: Vec<(String, JsonValue)> = Vec::new();
                let mut i: usize = 0;
                while i < members.len()
                    invariant
                        i <= members@.len(),
                        *self == JsonValue::Object(*members),
                        model_members(out@) == model_members(members@.take(i as int)),
                    decreases members@.len() - i,
                {
                    proof {
                        vstd::std_specs::vec::axiom_vec_index_decreases(*members, i as int);
                        assert(decreases_to!(*self => (*self)->Object_0));
                        assert(decreases_to!(members@[i as int] => members@[i as int].1));
                        assert(decreases_to!(*self => members@[i as int].1));
                    }
                    let k = members[i].0.clone();
                    let v = members[i].1.clone();
                    proof {
                        lemma_model_members_push(out@, (k, v));
                        lemma_model_members_push(members@.take(i as int), members@[i as int]);
                        assert(members@.take(i + 1) =~= members@.take(i as int).push(members@[i as int]));
                    }
                    out.push((k, v));
                    i += 1;
                }
                proof {
                    assert(members@.take(members@.len() as int) =~= members@);
                }
                JsonValue::Object(out)
            },
        }
    }
}

fn number_equal(a: &JsonNumber, b: &JsonNumber) -> (r: bool)
    ensures
        r == (a.model() == b.model()),
{
    match (a, b) {
        (JsonNumber::PosInt(x), JsonNumber::PosInt(y)) => *x == *y,
        (JsonNumber::NegInt(x), JsonNumber::NegInt(y)) => *x == *y,
        (JsonNumber::Float(x), JsonNumber::Float(y)) => str_eq(x.as_str(), y.as_str()),
        _ => false,
    }
}

/// Whether two values have the same model.
pub fn json_equal(a: &JsonValue, b: &JsonValue) -> (r: bool)
    ensures
        r == (a.model() == b.model()),
    decreases a,
{
    match (a, b) {
        (JsonValue::Null, JsonValue::Null) => true,
        (JsonValue::Bool(x), JsonValue::Bool(y)) => *x == *y,
        (JsonValue::Number(x), JsonValue::Number(y)) => number_equal(x, y),
        (JsonValue::String(x), JsonValue::String(y)) => str_eq(x.as_str(), y.as_str()),
        (JsonValue::Array(xs), JsonValue::Array(ys)) => {
            proof {
                lemma_model_items(xs@);
                lemma_model_items(ys@);
            }
            if xs.len() != ys.len() {
                return false;
            }
            let mut i: usize = 0;
            while i < xs.len()
                invariant
                    *a == JsonValue::Array(*xs),
                    *b == JsonValue::Array(*ys),
                    xs@.len() == ys@.len(),
                    i <= xs@.len(),
                    model_items(xs@).len() == xs@.len(),
                    model_items(ys@).len() == ys@.len(),
                    forall|k: int| 0 <= k < xs@.len() ==> #[trigger] model_items(xs@)[k] == xs@[k].model(),
                    forall|k: int| 0 <= k < ys@.len() ==> #[trigger] model_items(ys@)[k] == ys@[k].model(),
                    forall|k: int| 0 <= k < i ==> xs@[k].model() == ys@[k].model(),
                decreases xs@.len() - i,
            {
                proof {
                    vstd::std_specs::vec::axiom_vec_index_decreases(*xs, i as int);
                    assert(decreases_to!(*a => (*a)->Array_0));
                    assert(decreases_to!(*a => xs@[i as int]));
                }
                if !json_equal(&xs[i], &ys[i]) {
                    proof {
                        assert(model_items(xs@)[i as int] != model_items(ys@)[i as int]);
                        assert(a.model() == Json::Array(model_items(xs@)));
                        assert(b.model() == Json::Array(model_items(ys@)));
                    }
                    return false;
                }
                i += 1;
            }
            proof {
                assert(model_items(xs@) =~= model_items(ys@));
            }
            true
        },
        (JsonValue::Object(xs), JsonValue::Object(ys)) => {
            proof {
                lemma_model_members(xs@);
                lemma_model_members(ys@);
            }
            if xs.len() != ys.len() {
                return false;
            }
            let mut i: usize = 0;
            while i < xs.len()
                invariant
                    *a == JsonValue::Object(*xs),
                    *b == JsonValue::Object(*ys),
                    xs@.len() == ys@.len(),
                    i <= xs@.len(),
                    model_members(xs@).len() == xs@.len(),
                    model_members(ys@).len() == ys@.len(),
                    forall|k: int|
                        0 <= k < xs@.len() ==> #[trigger] model_members(xs@)[k] == (
                            xs@[k].0@,
                            xs@[k].1.model(),
                        ),
                    forall|k: int|
                        0 <= k < ys@.len() ==> #[trigger] model_members(ys@)[k] == (
                            ys@[k].0@,
                            ys@[k].1.model(),
                        ),
                    forall|k: int|
                        0 <= k < i ==> xs@[k].0@ == ys@[k].0@ && xs@[k].1.model() == ys@[k].1.model(),
                decreases xs@.len() - i,
            {
                proof {
                    vstd::std_specs::vec::axiom_vec_index_decreases(*xs, i as int);
                    assert(decreases_to!(*a => (*a)->Object_0));
                    assert(decreases_to!(xs@[i as int] => xs@[i as int].1));
                    assert(decreases_to!(*a => xs@[i as int].1));
                }
                if !str_eq(xs[i].0.as_str(), ys[i].0.as_str()) || !json_equal(&xs[i].1, &ys[i].1) {
                    proof {
                        assert(model_members(xs@)[i as int] != model_members(ys@)[i as int]);
                        assert(a.model() == Json::Object(model_members(xs@)));
                        assert(b.model() == Json::Object(model_members(ys@)));
                    }
                    return false;
                }
                i += 1;
            }
            proof {
                assert(model_members(xs@) =~= model_members(ys@));
            }
            true
        },
        _ => false,
    }
}

/// Deep merge: objects merge member by member (members of `o` replace or
/// extend those of `b`, merging recursively where both have the member);
/// any other pair yields `o`.
pub open spec fn merge_spec(b: Json, o: Json) -> Json
    decreases o,
{
    match b {
        Json::Object(bm) => match o {
            Json::Object(om) => Json::Object(merge_members(bm, om)),
            _ => o,
        },
        _ => o,
    }
}

pub open spec fn merge_members(bm: Seq<(Seq<char>, Json)>, om: Seq<(Seq<char>, Json)>) -> Seq<(Seq<char>, Json)>
    decreases om,
{
    if om.len() == 0 {
        bm
    } else {
        let acc = merge_members(bm, om.subrange(0, om.len() - 1));
        let k = om[om.len() - 1].0;
        let ov = om[om.len() - 1].1;
        let nv = match first_key_index(acc, k) {
            Some(i) => merge_spec(acc[i].1, ov),
            None => ov,
        };
        member_put(acc, k, nv)
    }
}

/// The value of member `k` (its first occurrence).
pub open spec fn member_get(ms: Seq<(Seq<char>, Json)>, k: Seq<char>) -> Option<Json> {
    match first_key_index(ms, k) {
        Some(i) => Some(ms[i].1),
        None => None,
    }
}

/// No key occurs twice.
pub open spec fn keys_unique(ms: Seq<(Seq<char>, Json)>) -> bool {
    forall|i: int, j: int| 0 <= i < j < ms.len() ==> #[trigger] ms[i].0 != #[trigger] ms[j].0
}

proof fn lemma_first_key_index_none(ms: Seq<(Seq<char>, Json)>, k: Seq<char>)
    requires
        forall|j: int| 0 <= j < ms.len() ==> #[trigger] ms[j].0 != k,
    ensures
        first_key_index(ms, k) is None,
{
}

proof fn lemma_first_key_witness(ms: Seq<(Seq<char>, Json)>, k: Seq<char>, i: int)
    requires
        0 <= i < ms.len(),
        ms[i].0 == k,
    ensures
        exists|m: int| 0 <= m < ms.len() && ms[m].0 == k && forall|j: int| 0 <= j < m ==> ms[j].0 != k,
    decreases i,
{
    if exists|j: int| 0 <= j < i && ms[j].0 == k {
        let j = choose|j: int| 0 <= j < i && ms[j].0 == k;
        lemma_first_key_witness(ms, k, j);
    } else {
        assert(forall|j: int| 0 <= j < i ==> ms[j].0 != k);
    }
}

proof fn lemma_first_key_index_some(ms: Seq<(Seq<char>, Json)>, k: Seq<char>)
    requires
        first_key_index(ms, k) is Some,
    ensures
        0 <= first_key_index(ms, k)->0 < ms.len(),
        ms[first_key_index(ms, k)->0].0 == k,
        forall|j: int| 0 <= j < first_key_index(ms, k)->0 ==> #[trigger] ms[j].0 != k,
{
    let i = choose|i: int| 0 <= i < ms.len() && ms[i].0 == k;
    lemma_first_key_witness(ms, k, i);
}

proof fn lemma_member_get_push(ms: Seq<(Seq<char>, Json)>, k: Seq<char>, v: Json, q: Seq<char>)
    ensures
        member_get(ms.push((k, v)), q) == if member_get(ms, q) is Some {
            member_get(ms, q)
        } else if q == k {
            Some(v)
        } else {
            None
        },
{
    let t = ms.push((k, v));
    match first_key_index(ms, q) {
        Some(i) => {
            lemma_first_key_index_some(ms, q);
            assert(t[i] == ms[i]);
            assert forall|j: int| 0 <= j < i implies #[trigger] t[j].0 != q by {
                assert(t[j] == ms[j]);
            }
            lemma_first_key_index(t, q, i);
        },
        None => {
            assert forall|j: int| 0 <= j < ms.len() implies #[trigger] ms[j].0 != q by {
                if ms[j].0 == q {
                    assert(exists|i: int| 0 <= i < ms.len() && ms[i].0 == q);
                }
            }
            if q == k {
                assert forall|j: int| 0 <= j < ms.len() implies #[trigger] t[j].0 != q by {
                    assert(t[j] == ms[j]);
                }
                lemma_first_key_index(t, q, ms.len() as int);
            } else {
                assert forall|j: int| 0 <= j < t.len() implies #[trigger] t[j].0 != q by {
                    if j < ms.len() {
                        assert(t[j] == ms[j]);
                    }
                }
                lemma_first_key_index_none(t, q);
            }
        },
    }
}

proof fn lemma_member_get_put(ms: Seq<(Seq<char>, Json)>, k: Seq<char>, v: Json, q: Seq<char>)
    ensures
        member_get(member_put(ms, k, v), q) == if q == k {
            Some(v)
        } else {
            member_get(ms, q)
        },
{
    match first_key_index(ms, k) {
        Some(i) => {
            lemma_first_key_index_some(ms, k);
            let t = ms.update(i, (k, v));
            match first_key_index(ms, q) {
                Some(j) => {
                    lemma_first_key_index_some(ms, q);
                    assert forall|m: int| 0 <= m < j implies #[trigger] t[m].0 != q by {
                        assert(t[m].0 == ms[m].0);
                    }
                    assert(t[j].0 == q);
                    lemma_first_key_index(t, q, j);
                    if q != k {
                        assert(j != i);
                    } else {
                        assert(j == i);
                    }
                },
                None => {
                    assert forall|m: int| 0 <= m < t.len() implies #[trigger] t[m].0 != q by {
                        assert(t[m].0 == ms[m].0);
                        if ms[m].0 == q {
                            assert(exists|x: int| 0 <= x < ms.len() && ms[x].0 == q);
                        }
                    }
                    lemma_first_key_index_none(t, q);
                    assert(q != k);
                },
            }
        },
        None => {
            lemma_member_get_push(ms, k, v, q);
            if q == k {
                assert(member_get(ms, q) is None);
            }
        },
    }
}

/// Merging objects: a member the override has (once) takes the override's
/// value, merged with the base's value where the base has one; a member
/// only the base has keeps its value; other keys stay absent.
pub proof fn law_merge_override_wins(bm: Seq<(Seq<char>, Json)>, om: Seq<(Seq<char>, Json)>, k: Seq<char>)
    requires
        keys_unique(om),
    ensures
        member_get(merge_members(bm, om), k) == match member_get(om, k) {
            None => member_get(bm, k),
            Some(ov) => Some(
                match member_get(bm, k) {
                    Some(bv) => merge_spec(bv, ov),
                    None => ov,
                },
            ),
        },
    decreases om.len(),
{
    if om.len() > 0 {
        let init = om.subrange(0, om.len() - 1);
        let kk = om[om.len() - 1].0;
        let ov = om[om.len() - 1].1;
        assert(keys_unique(init)) by {
            assert forall|i: int, j: int| 0 <= i < j < init.len() implies #[trigger] init[i].0 != #[trigger] init[j].0 by {
                assert(init[i] == om[i] && init[j] == om[j]);
            }
        }
        law_merge_override_wins(bm, init, k);
        law_merge_override_wins(bm, init, kk);
        let acc = merge_members(bm, init);
        let nv = match first_key_index(acc, kk) {
            Some(i) => merge_spec(acc[i].1, ov),
            None => ov,
        };
        lemma_member_get_put(acc, kk, nv, k);
        assert(om =~= init.push((kk, ov)));
        lemma_member_get_push(init, kk, ov, k);
        assert forall|j: int| 0 <= j < init.len() implies #[trigger] init[j].0 != kk by {
            assert(init[j] == om[j]);
        }
        lemma_first_key_index_none(init, kk);
    }
}

/// Deep merge of `override_value` onto `base`.
pub fn merge_json_values(base: &JsonValue, override_value: &JsonValue) -> (r: JsonValue)
    ensures
        r.model() == merge_spec(base.model(), override_value.model()),
    decreases override_value,
{
    match (base, override_value) {
        (JsonValue::Object(_), JsonValue::Object(om)) => {
            let copy = base.clone();
            let mut merged: Vec<(String, JsonValue)> = match copy {
                JsonValue::Object(m) => m,
                _ => Vec::new(),
            };
            let ghost bm = match base.model() {
                Json::Object(m) => m,
                _ => Seq::empty(),
            };
            proof {
                lemma_model_members(om@);
            }
            let ghost omm = model_members(om@);
            let mut i: usize = 0;
            while i < om.len()
                invariant
                    *override_value == JsonValue::Object(*om),
                    omm == model_members(om@),
                    omm.len() == om@.len(),
                    forall|k: int|
                        0 <= k < om@.len() ==> #[trigger] omm[k] == (om@[k].0@, om@[k].1.model()),
                    i <= om@.len(),
                    model_members(merged@) == merge_members(bm, omm.take(i as int)),
                decreases om@.len() - i,
            {
                proof {
                    assert(omm.take(i + 1).subrange(0, i as int) =~= omm.take(i as int));
                    assert(omm.take(i + 1)[i as int] == omm[i as int]);
                    vstd::std_specs::vec::axiom_vec_index_decreases(*om, i as int);
                    assert(decreases_to!(*override_value => (*override_value)->Object_0));
                    assert(decreases_to!(om@[i as int] => om@[i as int].1));
                    assert(decreases_to!(*override_value => om@[i as int].1));
                    lemma_model_members(merged@);
                }
                let key = om[i].0.as_str();
                let nv = match member_index(&merged, key) {
                    Some(j) => merge_json_values(&merged[j].1, &om[i].1),
                    None => om[i].1.clone(),
                };
                put_member(&mut merged, key, nv);
                i += 1;
            }
            proof {
                assert(omm.take(om@.len() as int) =~= omm);
            }
            JsonValue::Object(merged)
        },
        _ => override_value.clone(),
    }
}

/// An object with one member.
pub fn object1(k: &str, v: JsonValue) -> (r: JsonValue)
    ensures
        r.model() == Json::Object(seq![(k@, v.model())]),
{
    let mut members: Vec<(String, JsonValue)> = Vec::new();
    let ghost empty = members@;
    members.push((k.to_owned(), v));
    proof {
        lemma_model_members_push(empty, members@[0]);
        assert(empty.push(members@[0]) =~= members@);
        assert(model_members(members@) =~= seq![(k@, members@[0].1.model())]);
    }
    JsonValue::Object(members)
}

/// An object with two members, in the given order.
pub fn object2(k1: &str, v1: JsonValue, k2: &str, v2: JsonValue) -> (r: JsonValue)
    ensures
        r.model() == Json::Object(seq![(k1@, v1.model()), (k2@, v2.model())]),
{
    let ghost m1 = v1.model();
    let ghost m2 = v2.model();
    let mut members: Vec<(String, JsonValue)> = Vec::new();
    let ghost e0 = members@;
    members.push((k1.to_owned(), v1));
    let ghost e1 = members@;
    proof {
        lemma_model_members_push(e0, members@[0]);
        assert(e0.push(members@[0]) =~= members@);
    }
    members.push((k2.to_owned(), v2));
    proof {
        lemma_model_members_push(e1, members@[1]);
        assert(e1.push(members@[1]) =~= members@);
        assert(model_members(members@) =~= seq![(k1@, m1), (k2@, m2)]);
    }
    JsonValue::Object(members)
}

/// An object with three members, in the given order.
pub fn object3(k1: &str, v1: JsonValue, k2: &str, v2: JsonValue, k3: &str, v3: JsonValue) -> (r: JsonValue)
    ensures
        r.model() == Json::Object(seq![(k1@, v1.model()), (k2@, v2.model()), (k3@, v3.model())]),
{
    let ghost m1 = v1.model();
    let ghost m2 = v2.model();
    let ghost m3 = v3.model();
    let mut members: Vec<(String, JsonValue)> = Vec::new();
    let ghost e0 = members@;
    members.push((k1.to_owned(), v1));
    let ghost e1 = members@;
    proof {
        lemma_model_members_push(e0, members@[0]);
        assert(e0.push(members@[0]) =~= members@);
    }
    members.push((k2.to_owned(), v2));
    let ghost e2 = members@;
    proof {
        lemma_model_members_push(e1, members@[1]);
        assert(e1.push(members@[1]) =~= members@);
    }
    members.push((k3.to_owned(), v3));
    proof {
        lemma_model_members_push(e2, members@[2]);
        assert(e2.push(members@[2]) =~= members@);
        assert(model_members(members@) =~= seq![(k1@, m1), (k2@, m2), (k3@, m3)]);
    }
    JsonValue::Object(members)
}

/// Appends member `k: v` to an object's member list.
pub fn push_member(members: &mut Vec<(String, JsonValue)>, k: &str, v: JsonValue)
    ensures
        model_members(final(members)@) == model_members(old(members)@).push((k@, v.model())),
{
    let ghost before = members@;
    let entry = (k.to_owned(), v);
    let ghost e = entry;
    members.push(entry);
    proof {
        lemma_model_members_push(before, e);
    }
}

/// Appends a value to an array's items.
pub fn push_item(items: &mut Vec<JsonValue>, v: JsonValue)
    ensures
        model_items(final(items)@) == model_items(old(items)@).push(v.model()),
{
    let ghost before = items@;
    let ghost e = v;
    items.push(v);
    proof {
        lemma_model_items_push(before, e);
    }
}

/// An array of strings, in the given order.
pub fn string_array(strings: &[&str]) -> (r: JsonValue)
    ensures
        r.model() == Json::Array(strings@.map_values(|s: &str| Json::Str(s@))),
{
    let mut items: Vec<JsonValue> = Vec::new();
    let mut i: usize = 0;
    proof {
        assert(model_items(items@) =~= strings@.take(0).map_values(|s: &str| Json::Str(s@)));
    }
    while i < strings.len()
        invariant
            i <= strings@.len(),
            model_items(items@) == strings@.take(i as int).map_values(|s: &str| Json::Str(s@)),
        decreases strings@.len() - i,
    {
        push_item(&mut items, JsonValue::String(strings[i].to_owned()));
        proof {
            assert(strings@.take(i + 1).map_values(|s: &str| Json::Str(s@)) =~= strings@.take(i as int).map_values(
                |s: &str| Json::Str(s@),
            ).push(Json::Str(strings@[i as int]@)));
        }
        i += 1;
    }
    proof {
        assert(strings@.take(strings@.len() as int) =~= strings@);
    }
    JsonValue::Array(items)
}

/// A JSON string.
pub fn string_value(s: &str) -> (r: JsonValue)
    ensures
        r.model() == Json::Str(s@),
{
    JsonValue::String(s.to_owned())
}

/// A copy of a list of values, value by value.
pub fn clone_items(items: &Vec<JsonValue>) -> (r: Vec<JsonValue>)
    ensures
        model_items(r@) == model_items(items@),
{
    let mut out: Vec<JsonValue> = Vec::new();
    let mut i: usize = 0;
    while i < items.len()
        invariant
            i <= items@.len(),
            model_items(out@) == model_items(items@.take(i as int)),
        decreases items@.len() - i,
    {
        let c = items[i].clone();
        proof {
            lemma_model_items_push(out@, c);
            lemma_model_items_push(items@.take(i as int), items@[i as int]);
            assert(items@.take(i + 1) =~= items@.take(i as int).push(items@[i as int]));
        }
        out.push(c);
        i += 1;
    }
    proof {
        assert(items@.take(items@.len() as int) =~= items@);
    }
    out
}

} // verus!
