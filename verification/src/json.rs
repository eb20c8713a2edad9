//! JSON values, and the text form that `serde_json` reads and writes.

use crate::text;
use serde_json::Value;
use vstd::prelude::*;

verus! {

/// What a JSON value is: a tree of plain values.
pub enum JsonV {
    Null,
    Bool(bool),
    Int(int),
    Float(Seq<char>),
    Str(Seq<char>),
    Array(Seq<JsonV>),
    Object(Map<Seq<char>, JsonV>),
}

/// What reading a text as JSON comes to: a value, or the message of an error.
pub enum Reading {
    Value(JsonV),
    Fault(Seq<char>),
}

/// A JSON number that is not an integer, kept as the text that `serde_json` writes for it.
///
/// The only values of this type are those that reading JSON text yields.
#[derive(Debug)]
pub struct JsonFloat {
    text: String,
}

/// A JSON value.
#[derive(Debug)]
pub enum Json {
    Null,
    Bool(bool),
    /// An integer from zero on.
    Pos(u64),
    /// An integer below zero.
    Neg(i64),
    Float(JsonFloat),
    Str(String),
    Array(Vec<Json>),
    Object(JsonObject),
}

/// A JSON object.
#[derive(Debug)]
pub struct JsonObject {
    entries: Vec<(String, Json)>,
}

/// The first `n` entries read as a map; where a key comes twice the later entry holds.
pub closed spec fn entries_map(entries: Seq<(String, Json)>, n: int) -> Map<Seq<char>, JsonV>
    decreases entries, n,
{
    if n <= 0 || n > entries.len() {
        Map::empty()
    } else {
        entries_map(entries, n - 1).insert(entries[n - 1].0@, entries[n - 1].1.view())
    }
}

impl JsonFloat {
    pub closed spec fn view(&self) -> Seq<char> {
        self.text@
    }
}

impl JsonObject {
    pub closed spec fn view(&self) -> Map<Seq<char>, JsonV>
        decreases self, 0int,
    {
        entries_map(self.entries@, self.entries@.len() as int)
    }
}

impl Json {
    pub open spec fn view(&self) -> JsonV
        decreases self, 0int,
    {
        match self {
            Json::Null => JsonV::Null,
            Json::Bool(b) => JsonV::Bool(*b),
            Json::Pos(n) => JsonV::Int(*n as int),
            Json::Neg(n) => JsonV::Int(*n as int),
            Json::Float(f) => JsonV::Float(f.view()),
            Json::Str(s) => JsonV::Str(s@),
            Json::Array(items) => JsonV::Array(
                Seq::new(
                    items@.len(),
                    |i: int|
                        if 0 <= i < items@.len() {
                            items@[i].view()
                        } else {
                            JsonV::Null
                        },
                ),
            ),
            Json::Object(o) => JsonV::Object(o.view()),
        }
    }
}

/// The values of a list of JSON values.
pub open spec fn values(items: Seq<Json>) -> Seq<JsonV> {
    items.map_values(|j: Json| j.view())
}

/// The value under `key`, where `v` is an object that has it.
pub open spec fn field(v: JsonV, key: Seq<char>) -> Option<JsonV> {
    match v {
        JsonV::Object(m) => if m.contains_key(key) {
            Some(m[key])
        } else {
            None
        },
        _ => None,
    }
}

/// The text of `v`, where it is a string.
pub open spec fn string_of(v: JsonV) -> Option<Seq<char>> {
    match v {
        JsonV::Str(s) => Some(s),
        _ => None,
    }
}

/// The text under `key`, where `v` is an object that has a string there.
pub open spec fn string_field(v: JsonV, key: Seq<char>) -> Option<Seq<char>> {
    match field(v, key) {
        Some(x) => string_of(x),
        None => None,
    }
}

/// Whether a value can stand for a record of `n` fields: an object, or the list of the fields.
pub open spec fn is_record(v: JsonV, n: int) -> bool {
    match v {
        JsonV::Object(_) => true,
        JsonV::Array(items) => items.len() == n,
        _ => false,
    }
}

/// The field of a record that is called `key` and comes at position `i`.
pub open spec fn slot(v: JsonV, key: Seq<char>, i: int) -> Option<JsonV> {
    match v {
        JsonV::Array(items) => if 0 <= i < items.len() {
            Some(items[i])
        } else {
            None
        },
        _ => field(v, key),
    }
}

/// An object without entries.
pub open spec fn empty_object() -> JsonV {
    JsonV::Object(Map::empty())
}

pub proof fn lemma_array_view(items: Vec<Json>)
    ensures
        Json::Array(items).view() == JsonV::Array(values(items@)),
{
    assert(Json::Array(items).view()->Array_0 =~= values(items@));
}

pub proof fn lemma_values_push(items: Seq<Json>, x: Json)
    ensures
        values(items.push(x)) == values(items).push(x.view()),
{
    assert(values(items.push(x)) =~= values(items).push(x.view()));
}

/// What a key holds in a list of entries is what its last entry holds.
proof fn lemma_entries_lookup(entries: Seq<(String, Json)>, n: int, key: Seq<char>)
    requires
        0 <= n <= entries.len(),
    ensures
        entries_map(entries, n).contains_key(key) <==> exists|i: int|
            0 <= i < n && #[trigger] entries[i].0@ == key,
        forall|i: int|
            0 <= i < n && #[trigger] entries[i].0@ == key && (forall|j: int|
                i < j < n ==> #[trigger] entries[j].0@ != key) ==> entries_map(entries, n)[key]
                == entries[i].1.view(),
    decreases n,
{
    if n > 0 {
        lemma_entries_lookup(entries, n - 1, key);
        if entries[n - 1].0@ != key && exists|i: int|
            0 <= i < n && #[trigger] entries[i].0@ == key {
            let i = choose|i: int| 0 <= i < n && #[trigger] entries[i].0@ == key;
            assert(0 <= i < n - 1);
        }
    }
}

proof fn lemma_entries_prefix(a: Seq<(String, Json)>, b: Seq<(String, Json)>, n: int)
    requires
        0 <= n <= a.len(),
        n <= b.len(),
        forall|i: int| 0 <= i < n ==> a[i] == b[i],
    ensures
        entries_map(a, n) == entries_map(b, n),
    decreases n,
{
    if n > 0 {
        lemma_entries_prefix(a, b, n - 1);
    }
}

/// Dropping one entry for `key` changes nothing under the other keys.
proof fn lemma_entries_remove(entries: Seq<(String, Json)>, i: int, n: int)
    requires
        0 <= i < n <= entries.len(),
    ensures
        entries_map(entries.remove(i), n - 1).remove(entries[i].0@) == entries_map(
            entries,
            n,
        ).remove(entries[i].0@),
    decreases n,
{
    let rest = entries.remove(i);
    let key = entries[i].0@;
    if i == n - 1 {
        lemma_entries_prefix(entries, rest, n - 1);
        assert(entries_map(entries, n).remove(key) =~= entries_map(entries, n - 1).remove(key));
    } else {
        lemma_entries_remove(entries, i, n - 1);
        assert(rest[n - 2] == entries[n - 1]);
        assert(entries_map(rest, n - 1).remove(key) =~= entries_map(entries, n).remove(key)) by {
            let a = entries_map(rest, n - 2);
            let b = entries_map(entries, n - 1);
            let k = entries[n - 1].0@;
            let v = entries[n - 1].1.view();
            assert(a.remove(key) == b.remove(key));
            assert(a.insert(k, v).remove(key) =~= b.insert(k, v).remove(key)) by {
                if k != key {
                    assert(a.insert(k, v).remove(key) =~= a.remove(key).insert(k, v));
                    assert(b.insert(k, v).remove(key) =~= b.remove(key).insert(k, v));
                } else {
                    assert(a.insert(k, v).remove(key) =~= a.remove(key));
                    assert(b.insert(k, v).remove(key) =~= b.remove(key));
                }
            }
        }
    }
}

impl JsonFloat {
    fn copy(&self) -> (r: JsonFloat)
        ensures
            r.view() == self.view(),
    {
        JsonFloat { text: self.text.clone() }
    }
}

impl JsonObject {
    /// An object without entries.
    pub fn new() -> (r: JsonObject)
        ensures
            r.view() == Map::<Seq<char>, JsonV>::empty(),
    {
        JsonObject { entries: Vec::new() }
    }

    /// Position of the last entry for `key`.
    fn last_entry(&self, key: &str) -> (r: Option<usize>)
        ensures
            r matches Some(i) ==> i < self.entries.len() && self.entries[i as int].0@ == key@
                && forall|j: int| i < j < self.entries.len() ==> self.entries[j].0@ != key@,
            r is None ==> forall|j: int|
                0 <= j < self.entries.len() ==> self.entries[j].0@ != key@,
    {
        let mut n: usize = self.entries.len();
        while n > 0
            invariant
                n <= self.entries.len(),
                forall|j: int| n <= j < self.entries.len() ==> self.entries[j].0@ != key@,
            decreases n,
        {
            n -= 1;
            if text::same(self.entries[n].0.as_str(), key) {
                return Some(n);
            }
        }
        None
    }

    /// The value under `key`.
    pub fn get(&self, key: &str) -> (r: Option<&Json>)
        ensures
            r is Some <==> self.view().contains_key(key@),
            r matches Some(v) ==> v.view() == self.view()[key@],
    {
        proof {
            lemma_entries_lookup(self.entries@, self.entries@.len() as int, key@);
        }
        match self.last_entry(key) {
            Some(i) => Some(&self.entries[i].1),
            None => None,
        }
    }

    /// Whether `key` has a value.
    pub fn has(&self, key: &str) -> (r: bool)
        ensures
            r == self.view().contains_key(key@),
    {
        self.get(key).is_some()
    }

    /// Takes the value under `key` out.
    pub fn take(&mut self, key: &str) -> (r: Option<Json>)
        ensures
            final(self).view() == old(self).view().remove(key@),
            r is Some <==> old(self).view().contains_key(key@),
            r matches Some(v) ==> v.view() == old(self).view()[key@],
    {
        proof {
            lemma_entries_lookup(self.entries@, self.entries@.len() as int, key@);
        }
        let mut found: Option<Json> = None;
        loop
            invariant
                self.view().remove(key@) == old(self).view().remove(key@),
                found is None ==> self.view() == old(self).view(),
                found is Some ==> old(self).view().contains_key(key@),
                found matches Some(v) ==> v.view() == old(self).view()[key@],
            decreases self.entries.len(),
        {
            match self.last_entry(key) {
                Some(i) => {
                    proof {
                        lemma_entries_remove(self.entries@, i as int, self.entries@.len() as int);
                        lemma_entries_lookup(self.entries@, self.entries@.len() as int, key@);
                    }
                    let entry = self.entries.remove(i);
                    if found.is_none() {
                        found = Some(entry.1);
                    }
                },
                None => {
                    proof {
                        lemma_entries_lookup(self.entries@, self.entries@.len() as int, key@);
                        assert(self.view().remove(key@) =~= self.view());
                    }
                    return found;
                },
            }
        }
    }

    /// Puts `value` under `key`, in place of what stood there.
    pub fn insert(&mut self, key: &str, value: Json)
        ensures
            final(self).view() == old(self).view().insert(key@, value.view()),
    {
        let _ = self.take(key);
        let ghost before = self.entries@;
        self.entries.push((key.to_owned(), value));
        proof {
            let n = before.len() as int;
            lemma_entries_prefix(self.entries@, before, n);
            assert(self.entries@[n].0@ == key@);
            assert(self.view() == entries_map(self.entries@, n).insert(key@, value.view()));
            assert(old(self).view().remove(key@).insert(key@, value.view()) =~= old(
                self,
            ).view().insert(key@, value.view()));
        }
    }

    /// The object with `value` under `key`.
    pub fn with(self, key: &str, value: Json) -> (r: JsonObject)
        ensures
            r.view() == self.view().insert(key@, value.view()),
    {
        let mut o = self;
        o.insert(key, value);
        o
    }

    /// Whether the object has no entries.
    pub fn is_empty(&self) -> (r: bool)
        ensures
            r == (self.view() == Map::<Seq<char>, JsonV>::empty()),
    {
        proof {
            if self.entries@.len() > 0 {
                let n = self.entries@.len() as int;
                assert(self.view().contains_key(self.entries@[n - 1].0@));
            }
        }
        self.entries.len() == 0
    }

    /// An equal object.
    pub fn copy(&self) -> (r: JsonObject)
        ensures
            r.view() == self.view(),
        decreases self,
    {
        let mut out: Vec<(String, Json)> = Vec::new();
        let mut i: usize = 0;
        while i < self.entries.len()
            invariant
                i <= self.entries.len(),
                out.len() == i,
                entries_map(out@, i as int) == entries_map(self.entries@, i as int),
            decreases self.entries.len() - i,
        {
            let entry = (self.entries[i].0.clone(), self.entries[i].1.copy());
            let ghost before = out@;
            out.push(entry);
            proof {
                lemma_entries_prefix(out@, before, i as int);
            }
            i += 1;
        }
        JsonObject { entries: out }
    }
}

/// Equal values, in the same order.
pub fn copy_items(items: &Vec<Json>) -> (r: Vec<Json>)
    ensures
        values(r@) == values(items@),
    decreases items,
{
    let mut out: Vec<Json> = Vec::new();
    let mut i: usize = 0;
    assert(values(out@) =~= values(items@).take(0));
    while i < items.len()
        invariant
            i <= items.len(),
            values(out@) == values(items@).take(i as int),
        decreases items.len() - i,
    {
        let item = items[i].copy();
        proof {
            lemma_values_push(out@, item);
            assert(values(items@).take(i + 1) =~= values(items@).take(i as int).push(
                items@[i as int].view(),
            ));
        }
        out.push(item);
        i += 1;
    }
    assert(values(items@).take(items@.len() as int) =~= values(items@));
    out
}

impl Json {
    /// A string.
    pub fn text(s: &str) -> (r: Json)
        ensures
            r.view() == JsonV::Str(s@),
    {
        Json::Str(s.to_owned())
    }

    /// An integer.
    pub fn integer(n: i64) -> (r: Json)
        ensures
            r.view() == JsonV::Int(n as int),
    {
        if n < 0 {
            Json::Neg(n)
        } else {
            Json::Pos(n as u64)
        }
    }

    /// An array.
    pub fn array(items: Vec<Json>) -> (r: Json)
        ensures
            r.view() == JsonV::Array(values(items@)),
    {
        proof {
            lemma_array_view(items);
        }
        Json::Array(items)
    }

    /// The value under `key`, where this is an object that has it.
    pub fn get(&self, key: &str) -> (r: Option<&Json>)
        ensures
            r is Some <==> field(self.view(), key@) is Some,
            r matches Some(v) ==> field(self.view(), key@) == Some(v.view()),
    {
        match self {
            Json::Object(o) => o.get(key),
            _ => None,
        }
    }

    /// Whether this can stand for a record of `n` fields.
    pub fn is_record(&self, n: usize) -> (r: bool)
        ensures
            r == is_record(self.view(), n as int),
    {
        match self {
            Json::Object(_) => true,
            Json::Array(items) => items.len() == n,
            _ => false,
        }
    }

    /// The field of a record that is called `key` and comes at position `i`.
    pub fn slot(&self, key: &str, i: usize) -> (r: Option<&Json>)
        ensures
            r is Some <==> slot(self.view(), key@, i as int) is Some,
            r matches Some(v) ==> slot(self.view(), key@, i as int) == Some(v.view()),
    {
        match self {
            Json::Array(items) => if i < items.len() {
                Some(&items[i])
            } else {
                None
            },
            _ => self.get(key),
        }
    }

    /// The text, where this is a string.
    pub fn as_str(&self) -> (r: Option<&str>)
        ensures
            r is Some <==> string_of(self.view()) is Some,
            r matches Some(s) ==> string_of(self.view()) == Some(s@),
    {
        match self {
            Json::Str(s) => Some(s.as_str()),
            _ => None,
        }
    }

    /// The text under `key`, where this is an object that has a string there.
    pub fn get_str(&self, key: &str) -> (r: Option<&str>)
        ensures
            r is Some <==> string_field(self.view(), key@) is Some,
            r matches Some(s) ==> string_field(self.view(), key@) == Some(s@),
    {
        match self.get(key) {
            Some(v) => v.as_str(),
            None => None,
        }
    }

    /// An equal value.
    pub fn copy(&self) -> (r: Json)
        ensures
            r.view() == self.view(),
        decreases self,
    {
        match self {
            Json::Null => Json::Null,
            Json::Bool(b) => Json::Bool(*b),
            Json::Pos(n) => Json::Pos(*n),
            Json::Neg(n) => Json::Neg(*n),
            Json::Float(f) => Json::Float(f.copy()),
            Json::Str(s) => Json::Str(s.clone()),
            Json::Array(items) => {
                let out = copy_items(items);
                proof {
                    lemma_array_view(*items);
                    lemma_array_view(out);
                }
                Json::Array(out)
            },
            Json::Object(o) => Json::Object(o.copy()),
        }
    }
}

/// `serde_json::Value`, carried through as an opaque value.
#[verifier::external_type_specification]
#[verifier::external_body]
pub struct ExJsonValue(serde_json::Value);

/// What a `serde_json::Value` holds: its tree of scalars, arrays and objects.
pub uninterp spec fn value_view(v: serde_json::Value) -> JsonV;

/// What `serde_json::from_str` makes of a text: the value that it reads, or the message of its
/// error.
pub uninterp spec fn parsed(text: Seq<char>) -> Reading;

/// The text that `serde_json::to_string` writes for a value.
pub uninterp spec fn printed(v: JsonV) -> Seq<char>;

/// Values that come back unchanged when their text is read: no number that is not an integer,
/// integers in the range of `i64` and `u64`, at most `depth` levels of arrays and objects, and no
/// key that `serde_json` keeps for itself.
pub open spec fn rereadable(v: JsonV, depth: nat) -> bool
    decreases depth,
{
    match v {
        JsonV::Float(_) => false,
        JsonV::Int(n) => i64::MIN <= n <= u64::MAX,
        JsonV::Array(items) => depth > 0 && forall|i: int|
            0 <= i < items.len() ==> rereadable(#[trigger] items[i], (depth - 1) as nat),
        JsonV::Object(m) => depth > 0 && !m.contains_key("$serde_json::private::RawValue"@)
            && forall|k: Seq<char>|
            m.contains_key(k) ==> rereadable(#[trigger] m[k], (depth - 1) as nat),
        _ => true,
    }
}

/// Calls `serde_json::from_str` for a `serde_json::Value`.
///
/// The outcome is named: `parsed` of the text, with the error taken by its message.
#[verifier::external_body]
fn read_value(text: &str) -> (r: Result<Value, String>)
    ensures
        r matches Ok(v) ==> parsed(text@) == Reading::Value(value_view(v)),
        r matches Err(e) ==> parsed(text@) == Reading::Fault(e@),
{
    serde_json::from_str::<Value>(text).map_err(|e| e.to_string())
}

/// Takes a `serde_json::Value` apart, variant by variant, into a value of this library.
#[verifier::external_body]
fn from_value(v: Value) -> (r: Json)
    ensures
        r.view() == value_view(v),
{
    match v {
        Value::Null => Json::Null,
        Value::Bool(b) => Json::Bool(b),
        Value::Number(n) => match (n.as_u64(), n.as_i64()) {
            (Some(u), _) => Json::Pos(u),
            (None, Some(i)) => Json::Neg(i),
            (None, None) => Json::Float(JsonFloat { text: n.to_string() }),
        },
        Value::String(s) => Json::Str(s),
        Value::Array(a) => Json::Array(a.into_iter().map(from_value).collect()),
        Value::Object(m) => Json::Object(JsonObject {
            entries: m.into_iter().map(|(k, x)| (k, from_value(x))).collect(),
        }),
    }
}

/// Builds the `serde_json::Value` for a value of this library, variant by variant.
#[verifier::external_body]
fn to_value(v: &Json) -> (r: Value)
    ensures
        value_view(r) == v.view(),
{
    match v {
        Json::Null => Value::Null,
        Json::Bool(b) => Value::Bool(*b),
        Json::Pos(n) => Value::from(*n),
        Json::Neg(n) => Value::from(*n),
        Json::Float(f) => f.text.parse().ok().and_then(serde_json::Number::from_f64).into(),
        Json::Str(s) => Value::String(s.clone()),
        Json::Array(a) => Value::Array(a.iter().map(to_value).collect()),
        Json::Object(o) => Value::Object(
            o.entries.iter().map(|(k, x)| (k.clone(), to_value(x))).collect(),
        ),
    }
}

/// Calls `serde_json::to_string` on a `serde_json::Value`, which cannot fail.
///
/// The text is named: `printed` of what the value holds. Reading it gives the value back, except
/// where the value is not `rereadable`: its reader stops at 128 levels.
#[verifier::external_body]
fn print_value(v: &Value) -> (r: String)
    ensures
        r@ == printed(value_view(*v)),
        rereadable(value_view(*v), 127) ==> parsed(r@) == Reading::Value(value_view(*v)),
{
    serde_json::to_string(v).unwrap_or_default()
}

impl Json {
    /// Reads JSON text; on failure the message says what is wrong with it.
    pub fn parse(text: &str) -> (r: Result<Json, String>)
        ensures
            r matches Ok(v) ==> parsed(text@) == Reading::Value(v.view()),
            r matches Err(e) ==> parsed(text@) == Reading::Fault(e@),
    {
        match read_value(text) {
            Ok(v) => Ok(from_value(v)),
            Err(e) => Err(e),
        }
    }

    /// Writes the value as JSON text.
    pub fn to_text(&self) -> (r: String)
        ensures
            r@ == printed(self.view()),
            rereadable(self.view(), 127) ==> parsed(r@) == Reading::Value(self.view()),
    {
        print_value(&to_value(self))
    }
}

/// An object gives back what was put under a key last, and everything else as before.
pub proof fn law_object_gives_back_what_was_put(
    o: JsonObject,
    key: &str,
    value: Json,
    p: JsonObject,
    other: &str,
    now: Option<&Json>,
    before: Option<&Json>,
)
    requires
        call_ensures(JsonObject::with, (o, key, value), p),
        call_ensures(JsonObject::get, (&p, other), now),
        call_ensures(JsonObject::get, (&o, other), before),
    ensures
        other@ == key@ ==> (now matches Some(v) && v.view() == value.view()),
        other@ != key@ ==> (now is Some <==> before is Some),
        other@ != key@ && now is Some ==> now->0.view() == before->0.view(),
{
}

/// What is taken out of an object was in it and is no longer; everything else stays.
pub proof fn law_taken_value_is_gone(
    o: &mut JsonObject,
    key: &str,
    taken: Option<Json>,
    still: Option<&Json>,
)
    requires
        call_ensures(JsonObject::take, (o, key), taken),
        call_ensures(JsonObject::get, (&*final(o), key), still),
    ensures
        still is None,
        taken is Some <==> old(o).view().contains_key(key@),
        taken matches Some(v) ==> v.view() == old(o).view()[key@],
        forall|k: Seq<char>|
            k != key@ ==> #[trigger] final(o).view().contains_key(k) == old(o).view().contains_key(
                k,
            ) && final(o).view()[k] == old(o).view()[k],
{
}

/// A value has a text under a key if and only if it is an object that has a string there.
pub proof fn law_text_under_a_key(o: JsonObject, key: &str, found: Option<&str>, under: Option<&Json>)
    requires
        call_ensures(Json::get_str, (&Json::Object(o), key), found),
        call_ensures(JsonObject::get, (&o, key), under),
    ensures
        found is Some <==> (under matches Some(v) && v.view() is Str),
        found matches Some(s) ==> (under matches Some(v) && v.view() == JsonV::Str(s@)),
{
}

} // verus!
