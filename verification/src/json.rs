//! JSON values.
//!
//! [`Json`] holds a JSON document as plain values and [`JsonMap`] the fields of
//! an object. Their views, [`JsonView`] and a map, forget the order in which
//! fields were written: two objects with the same fields are the same value.
use crate::text::same;
use vstd::prelude::*;

verus! {

/// A JSON value. An integer that fits `u64` is held as `Unsigned`; a `Float`
/// is held by its shortest decimal text.
#[derive(Debug)]
pub enum Json {
    Null,
    Bool(bool),
    Unsigned(u64),
    Signed(i64),
    Float(String),
    Text(String),
    Array(Vec<Json>),
    Object(JsonMap),
}

/// The fields of a JSON object. A field written twice has its later value.
#[derive(Debug)]
pub struct JsonMap {
    pub entries: Vec<(String, Json)>,
}

/// What a [`Json`] value is.
#[verifier::ext_equal]
pub enum JsonView {
    Null,
    Bool(bool),
    Int(int),
    Float(Seq<char>),
    Text(Seq<char>),
    Array(Seq<JsonView>),
    Object(Map<Seq<char>, JsonView>),
}

pub open spec fn json_view(j: Json) -> JsonView
    decreases j,
{
    match j {
        Json::Null => JsonView::Null,
        Json::Bool(b) => JsonView::Bool(b),
        Json::Unsigned(n) => JsonView::Int(n as int),
        Json::Signed(n) => JsonView::Int(n as int),
        Json::Float(t) => JsonView::Float(t@),
        Json::Text(t) => JsonView::Text(t@),
        Json::Array(v) => JsonView::Array(items_view(v@)),
        Json::Object(m) => JsonView::Object(entries_view(m.entries@)),
    }
}

pub open spec fn items_view(s: Seq<Json>) -> Seq<JsonView>
    decreases s,
{
    if s.len() == 0 {
        Seq::empty()
    } else {
        items_view(s.drop_last()).push(json_view(s.last()))
    }
}

pub open spec fn entries_view(s: Seq<(String, Json)>) -> Map<Seq<char>, JsonView>
    decreases s,
{
    if s.len() == 0 {
        Map::empty()
    } else {
        entries_view(s.drop_last()).insert(s.last().0@, json_view(s.last().1))
    }
}

impl View for Json {
    type V = JsonView;

    open spec fn view(&self) -> JsonView {
        json_view(*self)
    }
}

impl View for JsonMap {
    type V = Map<Seq<char>, JsonView>;

    open spec fn view(&self) -> Map<Seq<char>, JsonView> {
        entries_view(self.entries@)
    }
}

pub proof fn lemma_items_view(s: Seq<Json>)
    ensures
        items_view(s).len() == s.len(),
        forall|i: int| 0 <= i < s.len() ==> #[trigger] items_view(s)[i] == s[i]@,
    decreases s.len(),
{
    if s.len() > 0 {
        lemma_items_view(s.drop_last());
        assert forall|i: int| 0 <= i < s.len() implies #[trigger] items_view(s)[i] == s[i]@ by {
            if i < s.len() - 1 {
                assert(s.drop_last()[i] == s[i]);
            }
        }
    }
}

/// Rewriting the last entry for a key sets that key.
proof fn lemma_entries_update(s: Seq<(String, Json)>, i: int, e: (String, Json))
    requires
        0 <= i < s.len(),
        s[i].0@ == e.0@,
        forall|j: int| i < j < s.len() ==> (#[trigger] s[j]).0@ != e.0@,
    ensures
        entries_view(s.update(i, e)) == entries_view(s).insert(e.0@, e.1@),
    decreases s.len(),
{
    let t = s.update(i, e);
    if i == s.len() - 1 {
        assert(t.drop_last() =~= s.drop_last());
        assert(entries_view(t) =~= entries_view(s).insert(e.0@, e.1@));
    } else {
        assert(t.drop_last() =~= s.drop_last().update(i, e));
        assert forall|j: int| i < j < s.drop_last().len() implies (
        #[trigger] s.drop_last()[j]).0@ != e.0@ by {
            assert(s.drop_last()[j] == s[j]);
        }
        lemma_entries_update(s.drop_last(), i, e);
        assert(t.last() == s.last());
        assert(s[s.len() - 1].0@ != e.0@);
        assert(entries_view(t) =~= entries_view(s).insert(e.0@, e.1@));
    }
}

impl JsonMap {
    pub fn new() -> (r: JsonMap)
        ensures
            r@ == Map::<Seq<char>, JsonView>::empty(),
    {
        JsonMap { entries: Vec::new() }
    }

    /// The place of the entry that holds the value of `key`.
    fn position(&self, key: &str) -> (r: Option<usize>)
        ensures
            match r {
                Some(i) => {
                    &&& i < self.entries@.len()
                    &&& self.entries@[i as int].0@ == key@
                    &&& forall|j: int|
                        i < j < self.entries@.len() ==> (#[trigger] self.entries@[j]).0@ != key@
                    &&& self@.contains_key(key@)
                    &&& self@[key@] == self.entries@[i as int].1@
                },
                None => !self@.contains_key(key@),
            },
    {
        let mut i: usize = self.entries.len();
        assert(self.entries@.take(i as int) =~= self.entries@);
        while i > 0
            invariant
                i <= self.entries@.len(),
                self@.contains_key(key@) <==> entries_view(
                    self.entries@.take(i as int),
                ).contains_key(key@),
                self@.contains_key(key@) ==> self@[key@] == entries_view(
                    self.entries@.take(i as int),
                )[key@],
                forall|j: int|
                    i <= j < self.entries@.len() ==> (#[trigger] self.entries@[j]).0@ != key@,
            decreases i,
        {
            proof {
                let s = self.entries@.take(i as int);
                assert(s.drop_last() =~= self.entries@.take(i - 1));
            }
            if same(self.entries[i - 1].0.as_str(), key) {
                return Some(i - 1);
            }
            i -= 1;
        }
        None
    }

    /// The value of field `key`, if there is one.
    pub fn get(&self, key: &str) -> (r: Option<&Json>)
        ensures
            match r {
                Some(v) => self@.contains_key(key@) && v@ == self@[key@],
                None => !self@.contains_key(key@),
            },
    {
        match self.position(key) {
            Some(i) => Some(&self.entries[i].1),
            None => None,
        }
    }

    /// Whether field `key` is present.
    pub fn contains_key(&self, key: &str) -> (r: bool)
        ensures
            r == self@.contains_key(key@),
    {
        self.get(key).is_some()
    }

    /// Sets field `key` to `value`.
    pub fn put(&mut self, key: &str, value: Json)
        ensures
            final(self)@ == old(self)@.insert(key@, value@),
    {
        let name = key.to_owned();
        match self.position(key) {
            Some(i) => {
                proof {
                    lemma_entries_update(self.entries@, i as int, (name, value));
                }
                self.entries.set(i, (name, value));
            },
            None => {
                self.entries.push((name, value));
                proof {
                    assert(self.entries@.drop_last() =~= old(self).entries@);
                }
            },
        }
    }

    /// This map with field `key` set to `value`.
    pub fn with(self, key: &str, value: Json) -> (r: JsonMap)
        ensures
            r@ == self@.insert(key@, value@),
    {
        let mut out = self;
        out.put(key, value);
        out
    }
}

impl JsonMap {
    /// Whether there is no field.
    pub fn is_empty(&self) -> (r: bool)
        ensures
            r == (self@ == Map::<Seq<char>, JsonView>::empty()),
    {
        let none = self.entries.len() == 0;
        proof {
            if none {
                assert(self@ =~= Map::<Seq<char>, JsonView>::empty());
            } else {
                let k = self.entries@[0].0@;
                lemma_entries_keys(self.entries@, k);
                assert(self@.contains_key(k));
            }
        }
        none
    }
}

/// A key has a value exactly where an entry has that key.
pub proof fn lemma_entries_keys(s: Seq<(String, Json)>, key: Seq<char>)
    ensures
        entries_view(s).contains_key(key) <==> exists|j: int|
            0 <= j < s.len() && (#[trigger] s[j]).0@ == key,
    decreases s.len(),
{
    if s.len() > 0 {
        lemma_entries_keys(s.drop_last(), key);
        if exists|j: int| 0 <= j < s.drop_last().len() && (#[trigger] s.drop_last()[j]).0@ == key {
            let j = choose|j: int|
                0 <= j < s.drop_last().len() && (#[trigger] s.drop_last()[j]).0@ == key;
            assert(s[j].0@ == key);
        }
        if exists|j: int| 0 <= j < s.len() && (#[trigger] s[j]).0@ == key {
            let j = choose|j: int| 0 <= j < s.len() && (#[trigger] s[j]).0@ == key;
            if j < s.len() - 1 {
                assert(s.drop_last()[j].0@ == key);
            }
        }
        if s.last().0@ == key {
            assert(s[s.len() - 1].0@ == key);
        }
    }
}

impl JsonMap {
    /// Adds the fields of `other` that this map does not have.
    pub fn fill_from(&mut self, other: &JsonMap)
        ensures
            final(self)@ == other@.union_prefer_right(old(self)@),
    {
        let ghost start = self@;
        let mut i: usize = 0;
        while i < other.entries.len()
            invariant
                i <= other.entries@.len(),
                forall|k: Seq<char>| #[trigger]
                    self@.contains_key(k) <==> start.contains_key(k) || exists|j: int|
                        0 <= j < i && (#[trigger] other.entries@[j]).0@ == k,
                forall|k: Seq<char>| #[trigger]
                    start.contains_key(k) ==> self@[k] == start[k],
                forall|k: Seq<char>|
                    #![trigger self@.contains_key(k)]
                    self@.contains_key(k) && !start.contains_key(k) ==> other@.contains_key(k)
                        && self@[k] == other@[k],
            decreases other.entries@.len() - i,
        {
            let key = other.entries[i].0.as_str();
            let ghost before = self@;
            proof {
                lemma_entries_keys(other.entries@, key@);
                assert(other.entries@[i as int].0@ == key@);
            }
            if !self.contains_key(key) {
                match other.get(key) {
                    Some(v) => {
                        let copy = v.clone();
                        self.put(key, copy);
                    },
                    None => {},
                }
            }
            i += 1;
            proof {
                assert forall|k: Seq<char>| #[trigger]
                    self@.contains_key(k) <==> start.contains_key(k) || exists|j: int|
                        0 <= j < i && (#[trigger] other.entries@[j]).0@ == k by {
                    if before.contains_key(k) {
                    }
                    if k == key@ {
                        assert(other.entries@[i - 1].0@ == k);
                    }
                }
            }
        }
        proof {
            assert forall|k: Seq<char>| self@.contains_key(k) == other@.union_prefer_right(
                start,
            ).contains_key(k) by {
                lemma_entries_keys(other.entries@, k);
            }
            assert(self@ =~= other@.union_prefer_right(start));
        }
    }
}

pub fn copy_json(j: &Json) -> (r: Json)
    ensures
        r@ == j@,
    decreases j,
{
    match j {
        Json::Null => Json::Null,
        Json::Bool(b) => Json::Bool(*b),
        Json::Unsigned(n) => Json::Unsigned(*n),
        Json::Signed(n) => Json::Signed(*n),
        Json::Float(t) => Json::Float(t.clone()),
        Json::Text(t) => Json::Text(t.clone()),
        Json::Array(v) => Json::Array(copy_items(v)),
        Json::Object(m) => Json::Object(copy_map(m)),
    }
}

pub fn copy_items(v: &Vec<Json>) -> (r: Vec<Json>)
    ensures
        items_view(r@) == items_view(v@),
    decreases v,
{
    let mut out: Vec<Json> = Vec::new();
    let mut i: usize = 0;
    while i < v.len()
        invariant
            i <= v@.len(),
            items_view(out@) == items_view(v@.take(i as int)),
        decreases v@.len() - i,
    {
        proof {
            assert(v@.take(i + 1).drop_last() =~= v@.take(i as int));
        }
        let item = copy_json(&v[i]);
        let ghost before = out@;
        out.push(item);
        assert(out@.drop_last() =~= before);
        i += 1;
    }
    assert(v@.take(i as int) =~= v@);
    out
}

pub fn copy_map(m: &JsonMap) -> (r: JsonMap)
    ensures
        r@ == m@,
    decreases m,
{
    let mut out: Vec<(String, Json)> = Vec::new();
    let mut i: usize = 0;
    while i < m.entries.len()
        invariant
            i <= m.entries@.len(),
            entries_view(out@) == entries_view(m.entries@.take(i as int)),
        decreases m.entries@.len() - i,
    {
        proof {
            assert(m.entries@.take(i + 1).drop_last() =~= m.entries@.take(i as int));
        }
        let name = m.entries[i].0.clone();
        let value = copy_json(&m.entries[i].1);
        let ghost before = out@;
        out.push((name, value));
        assert(out@.drop_last() =~= before);
        i += 1;
    }
    assert(m.entries@.take(i as int) =~= m.entries@);
    JsonMap { entries: out }
}

impl Clone for Json {
    fn clone(&self) -> (r: Json)
        ensures
            r@ == self@,
    {
        copy_json(self)
    }
}

impl Clone for JsonMap {
    fn clone(&self) -> (r: JsonMap)
        ensures
            r@ == self@,
    {
        copy_map(self)
    }
}

impl JsonView {
    /// The field `key` of an object.
    pub open spec fn get(self, key: Seq<char>) -> Option<JsonView> {
        match self {
            JsonView::Object(m) => if m.contains_key(key) {
                Some(m[key])
            } else {
                None
            },
            _ => None,
        }
    }

    /// The characters of a text value.
    pub open spec fn as_str(self) -> Option<Seq<char>> {
        match self {
            JsonView::Text(t) => Some(t),
            _ => None,
        }
    }

    /// The items of an array.
    pub open spec fn as_array(self) -> Option<Seq<JsonView>> {
        match self {
            JsonView::Array(a) => Some(a),
            _ => None,
        }
    }

    /// The value of an integer that fits 64 unsigned bits.
    pub open spec fn as_u64(self) -> Option<u64> {
        match self {
            JsonView::Int(n) => if 0 <= n <= u64::MAX {
                Some(n as u64)
            } else {
                None
            },
            _ => None,
        }
    }

    pub open spec fn as_bool(self) -> Option<bool> {
        match self {
            JsonView::Bool(b) => Some(b),
            _ => None,
        }
    }

    /// The characters of the text field `key`.
    pub open spec fn text_at(self, key: Seq<char>) -> Option<Seq<char>> {
        match self.get(key) {
            Some(v) => v.as_str(),
            None => None,
        }
    }

    /// The items of the array field `key`.
    pub open spec fn array_at(self, key: Seq<char>) -> Option<Seq<JsonView>> {
        match self.get(key) {
            Some(v) => v.as_array(),
            None => None,
        }
    }

    /// The unsigned integer field `key`.
    pub open spec fn u64_at(self, key: Seq<char>) -> Option<u64> {
        match self.get(key) {
            Some(v) => v.as_u64(),
            None => None,
        }
    }
}

/// The view of an optional value.
pub open spec fn opt_json(o: Option<Json>) -> Option<JsonView> {
    match o {
        Some(j) => Some(j@),
        None => None,
    }
}

/// What reading a document gave.
pub open spec fn read_view(r: Result<Json, String>) -> Result<JsonView, Seq<char>> {
    match r {
        Ok(j) => Ok(j@),
        Err(e) => Err(e@),
    }
}

/// The view of an optional string.
pub open spec fn opt_text(o: Option<String>) -> Option<Seq<char>> {
    match o {
        Some(t) => Some(t@),
        None => None,
    }
}

/// The view of an optional string slice.
pub open spec fn opt_str(o: Option<&str>) -> Option<Seq<char>> {
    match o {
        Some(t) => Some(t@),
        None => None,
    }
}

impl Json {
    /// A text value.
    pub fn text(t: &str) -> (r: Json)
        ensures
            r@ == JsonView::Text(t@),
    {
        Json::Text(t.to_owned())
    }

    /// The field `key`, when this is an object that has one.
    pub fn get(&self, key: &str) -> (r: Option<&Json>)
        ensures
            match r {
                Some(v) => self@.get(key@) == Some(v@),
                None => self@.get(key@) is None,
            },
    {
        match self {
            Json::Object(m) => m.get(key),
            _ => None,
        }
    }

    /// The item at `index`, when this is an array that has one.
    pub fn at(&self, index: usize) -> (r: Option<&Json>)
        ensures
            match r {
                Some(v) => self@ matches JsonView::Array(a) && index < a.len() && v@ == a[index as int],
                None => !(self@ matches JsonView::Array(a) && index < a.len()),
            },
    {
        match self {
            Json::Array(v) => {
                proof {
                    lemma_items_view(v@);
                }
                if index < v.len() {
                    assert(items_view(v@)[index as int] == v@[index as int]@);
                    Some(&v[index])
                } else {
                    None
                }
            },
            _ => None,
        }
    }

    pub fn as_str(&self) -> (r: Option<&str>)
        ensures
            opt_str(r) == self@.as_str(),
    {
        match self {
            Json::Text(t) => Some(t.as_str()),
            _ => None,
        }
    }

    pub fn as_array(&self) -> (r: Option<&Vec<Json>>)
        ensures
            match r {
                Some(v) => self@.as_array() == Some(items_view(v@)),
                None => self@.as_array() is None,
            },
    {
        match self {
            Json::Array(v) => Some(v),
            _ => None,
        }
    }

    pub fn as_object(&self) -> (r: Option<&JsonMap>)
        ensures
            match r {
                Some(m) => self@ == JsonView::Object(m@),
                None => !(self@ is Object),
            },
    {
        match self {
            Json::Object(m) => Some(m),
            _ => None,
        }
    }

    pub fn as_u64(&self) -> (r: Option<u64>)
        ensures
            r == self@.as_u64(),
    {
        match self {
            Json::Unsigned(n) => Some(*n),
            Json::Signed(n) => if *n >= 0 {
                Some(*n as u64)
            } else {
                None
            },
            _ => None,
        }
    }

    pub fn as_bool(&self) -> (r: Option<bool>)
        ensures
            r == self@.as_bool(),
    {
        match self {
            Json::Bool(b) => Some(*b),
            _ => None,
        }
    }

    /// The text field `key`.
    pub fn text_at(&self, key: &str) -> (r: Option<&str>)
        ensures
            opt_str(r) == self@.text_at(key@),
    {
        match self.get(key) {
            Some(v) => v.as_str(),
            None => None,
        }
    }

    /// The array field `key`.
    pub fn array_at(&self, key: &str) -> (r: Option<&Vec<Json>>)
        ensures
            match r {
                Some(v) => self@.array_at(key@) == Some(items_view(v@)),
                None => self@.array_at(key@) is None,
            },
    {
        match self.get(key) {
            Some(v) => v.as_array(),
            None => None,
        }
    }

    /// The unsigned integer field `key`.
    pub fn u64_at(&self, key: &str) -> (r: Option<u64>)
        ensures
            r == self@.u64_at(key@),
    {
        match self.get(key) {
            Some(v) => v.as_u64(),
            None => None,
        }
    }
}

/// `serde_json::Value`, carried as an opaque value.
#[verifier::external_type_specification]
#[verifier::external_body]
pub struct ExValue(serde_json::Value);

/// The document that a `serde_json::Value` holds.
pub uninterp spec fn value_view(v: serde_json::Value) -> JsonView;

/// What `serde_json::from_str` reads from a text: the document, or the text of
/// the error.
pub uninterp spec fn parsed_json(text: Seq<char>) -> Result<JsonView, Seq<char>>;

/// The document that a `serde_json::Value` built from `j` holds: `j` with every
/// float replaced by what the outside number type keeps of it.
pub uninterp spec fn kept_json(j: JsonView) -> JsonView;

/// The compact text that `Display` of `serde_json::Value` writes.
pub uninterp spec fn value_text(j: JsonView) -> Seq<char>;

/// Whether no float occurs in `j`, down to depth `n`.
pub open spec fn float_free(j: JsonView, n: nat) -> bool
    decreases n,
{
    if n == 0 {
        false
    } else {
        match j {
            JsonView::Float(_) => false,
            JsonView::Array(a) => forall|i: int|
                0 <= i < a.len() ==> float_free(#[trigger] a[i], (n - 1) as nat),
            JsonView::Object(m) => forall|k: Seq<char>|
                #[trigger] m.contains_key(k) ==> float_free(m[k], (n - 1) as nat),
            _ => true,
        }
    }
}

/// `serde_json::from_str::<serde_json::Value>`: the document that `text` is, or
/// the message of the error that it raises.
#[verifier::external_body]
fn read_value(text: &str) -> (r: Result<serde_json::Value, String>)
    ensures
        match r {
            Ok(v) => parsed_json(text@) == Ok::<JsonView, Seq<char>>(value_view(v)),
            Err(e) => parsed_json(text@) == Err::<JsonView, Seq<char>>(e@),
        },
{
    serde_json::from_str::<serde_json::Value>(text).map_err(|e| e.to_string())
}

/// Moves the contents of a `serde_json::Value` into a [`Json`], variant by
/// variant. Fields keep their values; a number that is no integer is held by
/// the text that `Display` of `serde_json::Number` writes.
#[verifier::external_body]
fn json_of(v: serde_json::Value) -> (r: Json)
    ensures
        r@ == value_view(v),
{
    match v {
        serde_json::Value::Null => Json::Null,
        serde_json::Value::Bool(b) => Json::Bool(b),
        serde_json::Value::Number(n) => match (n.as_u64(), n.as_i64()) {
            (Some(u), _) => Json::Unsigned(u),
            (_, Some(i)) => Json::Signed(i),
            _ => Json::Float(n.to_string()),
        },
        serde_json::Value::String(t) => Json::Text(t),
        serde_json::Value::Array(a) => Json::Array(a.into_iter().map(json_of).collect()),
        serde_json::Value::Object(m) => Json::Object(
            JsonMap { entries: m.into_iter().map(|(k, w)| (k, json_of(w))).collect() },
        ),
    }
}

/// Builds a `serde_json::Value` from a [`Json`], variant by variant. A float is
/// read back from its decimal text and handed to `serde_json::Number::from_f64`;
/// everything else is kept as it is, so a document without floats is unchanged.
#[verifier::external_body]
fn value_of(j: &Json) -> (r: serde_json::Value)
    ensures
        value_view(r) == kept_json(j@),
        forall|n: nat| float_free(j@, n) ==> value_view(r) == j@,
{
    match j {
        Json::Null => serde_json::Value::Null,
        Json::Bool(b) => serde_json::Value::from(*b),
        Json::Unsigned(n) => serde_json::Value::from(*n),
        Json::Signed(n) => serde_json::Value::from(*n),
        Json::Float(t) => t.parse().ok().and_then(serde_json::Number::from_f64).into(),
        Json::Text(t) => serde_json::Value::from(t.as_str()),
        Json::Array(a) => a.iter().map(value_of).collect(),
        Json::Object(m) => m.entries.iter().map(|(k, w)| (k.clone(), value_of(w))).collect(),
    }
}

/// Whether a text stands in a JSON document as it is: it has no quotes, backslashes
/// or control characters.
pub open spec fn unescaped(s: Seq<char>) -> bool {
    forall|i: int|
        0 <= i < s.len() ==> (#[trigger] s[i]) as int >= 32 && s[i] != '"' && s[i] != '\\'
}

/// `ToString::to_string` of `serde_json::Value`: the compact JSON text. A string
/// without characters to escape is written as it is, in quotes.
#[verifier::external_body]
fn text_of_value(v: &serde_json::Value) -> (r: String)
    ensures
        r@ == value_text(value_view(*v)),
        match value_view(*v) {
            JsonView::Text(s) => unescaped(s) ==> r@ == seq!['"'] + s + seq!['"'],
            _ => true,
        },
{
    v.to_string()
}

/// The compact JSON text of `j`.
pub open spec fn json_text(j: JsonView) -> Seq<char> {
    value_text(kept_json(j))
}

impl Json {
    /// Reads a JSON document; an error carries the reader's message.
    pub fn parse(text: &str) -> (r: Result<Json, String>)
        ensures
            read_view(r) == parsed_json(text@),
    {
        match read_value(text) {
            Ok(v) => Ok(json_of(v)),
            Err(e) => Err(e),
        }
    }

    /// The compact JSON text of this value.
    pub fn print(&self) -> (r: String)
        ensures
            r@ == json_text(self@),
            match self@ {
                JsonView::Text(s) => unescaped(s) ==> r@ == seq!['"'] + s + seq!['"'],
                _ => true,
            },
    {
        let v = value_of(self);
        proof {
            if self@ is Text {
                assert(float_free(self@, 1));
            }
        }
        text_of_value(&v)
    }
}

} // verus!
