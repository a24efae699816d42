//! Reading and writing the fields that wire formats share.
use crate::text;
use crate::seqs;
use crate::json;
use crate::json::{Json, JsonMap, JsonView};
use crate::text::same;
use vstd::prelude::*;

verus! {

/// Pushing a value appends its view.
pub proof fn lemma_items_push(s: Seq<Json>, j: Json)
    ensures
        json::items_view(s.push(j)) == json::items_view(s).push(j@),
{
    assert(s.push(j).drop_last() =~= s);
}

/// A text, or nothing for none.
pub open spec fn or_empty(t: Option<Seq<char>>) -> Seq<char> {
    match t {
        Some(s) => s,
        None => Seq::empty(),
    }
}

/// A text spoken by `name`.
pub open spec fn named(name: Option<Seq<char>>, text: Seq<char>) -> Seq<char> {
    match name {
        Some(n) => "["@ + n + "] "@ + text,
        None => text,
    }
}

/// The view of a concatenation.
pub proof fn lemma_items_concat(a: Seq<Json>, b: Seq<Json>)
    ensures
        json::items_view(a + b) == json::items_view(a) + json::items_view(b),
{
    json::lemma_items_view(a);
    json::lemma_items_view(b);
    json::lemma_items_view(a + b);
    assert(json::items_view(a + b) =~= json::items_view(a) + json::items_view(b));
}

pub fn opt_or_empty(t: &Option<String>) -> (r: String)
    ensures
        r@ == or_empty(json::opt_text(*t)),
{
    match t {
        Some(s) => s.clone(),
        None => String::new(),
    }
}

pub fn named_text(name: &Option<String>, text: &str) -> (r: String)
    ensures
        r@ == named(json::opt_text(*name), text@),
{
    match name {
        Some(n) => {
            let mut out = "[".to_owned();
            out.push_str(n.as_str());
            out.push_str("] ");
            out.push_str(text);
            out
        },
        None => text.to_owned(),
    }
}

pub fn one_block(block: Json) -> (r: Vec<Json>)
    ensures
        json::items_view(r@) == seq![block@],
{
    let mut v: Vec<Json> = Vec::new();
    proof {
        lemma_items_push(v@, block);
    }
    v.push(block);
    assert(json::items_view(v@) =~= seq![block@]);
    v
}

pub open spec fn is_type(b: JsonView, kind: Seq<char>) -> bool {
    b.text_at("type"@) == Some(kind)
}

pub fn has_type(b: &Json, kind: &str) -> (r: bool)
    ensures
        r == is_type(b@, kind@),
{
    match b.text_at("type") {
        Some(t) => same(t, kind),
        None => false,
    }
}

pub fn text_or_empty(b: &Json, key: &str) -> (r: String)
    ensures
        r@ == or_empty(b@.text_at(key@)),
{
    match b.text_at(key) {
        Some(t) => t.to_owned(),
        None => String::new(),
    }
}

/// A count that the provider reports, cut to 32 bits.
pub open spec fn count_at(usage: Option<JsonView>, key: Seq<char>) -> Option<u32> {
    match usage {
        Some(u) => match u.u64_at(key) {
            Some(n) => Some(n as u32),
            None => None,
        },
        None => None,
    }
}

pub fn read_count(usage: Option<&Json>, key: &str) -> (r: Option<u32>)
    ensures
        r == count_at(opt_ref(usage), key@),
{
    match usage {
        Some(u) => match u.u64_at(key) {
            Some(n) => Some(#[verifier::truncate] (n as u32)),
            None => None,
        },
        None => None,
    }
}

/// The view of an optional reference.
pub open spec fn opt_ref(o: Option<&Json>) -> Option<JsonView> {
    match o {
        Some(j) => Some(j@),
        None => None,
    }
}

/// The value that `o` holds, or an object without fields.
pub open spec fn or_object(o: Option<JsonView>) -> JsonView {
    match o {
        Some(j) => j,
        None => JsonView::Object(Map::empty()),
    }
}

pub fn copy_or_object(o: Option<&Json>) -> (r: Json)
    ensures
        r@ == or_object(opt_ref(o)),
{
    match o {
        Some(j) => j.clone(),
        None => Json::Object(JsonMap::new()),
    }
}

/// The texts of a list as an array.
pub open spec fn text_array(texts: Seq<Seq<char>>) -> JsonView {
    JsonView::Array(texts.map_values(|t: Seq<char>| JsonView::Text(t)))
}

pub fn text_array_json(list: &Vec<String>) -> (r: Json)
    ensures
        r@ == text_array(text::views(list@)),
{
    let mut out: Vec<Json> = Vec::new();
    let ghost all = text::views(list@).map_values(|t: Seq<char>| JsonView::Text(t));
    let mut i: usize = 0;
    while i < list.len()
        invariant
            i <= list@.len(),
            all == text::views(list@).map_values(|t: Seq<char>| JsonView::Text(t)),
            json::items_view(out@) == all.take(i as int),
        decreases list@.len() - i,
    {
        let item = Json::text(list[i].as_str());
        proof {
            lemma_items_push(out@, item);
            seqs::lemma_take_push(all, i as int);
        }
        out.push(item);
        i += 1;
    }
    assert(all.take(i as int) =~= all);
    Json::Array(out)
}

/// Rewriting an item rewrites its view.
pub proof fn lemma_items_update(s: Seq<Json>, i: int, j: Json)
    requires
        0 <= i < s.len(),
    ensures
        json::items_view(s.update(i, j)) == json::items_view(s).update(i, j@),
{
    json::lemma_items_view(s);
    json::lemma_items_view(s.update(i, j));
    assert(json::items_view(s.update(i, j)) =~= json::items_view(s).update(i, j@));
}

/// `m` with `key` set where `v` holds a value.
pub open spec fn with_some(
    m: Map<Seq<char>, JsonView>,
    key: Seq<char>,
    v: Option<JsonView>,
) -> Map<Seq<char>, JsonView> {
    match v {
        Some(j) => m.insert(key, j),
        None => m,
    }
}

/// The view of an optional 32-bit count.
pub open spec fn opt_count(n: Option<u32>) -> Option<JsonView> {
    match n {
        Some(k) => Some(JsonView::Int(k as int)),
        None => None,
    }
}

/// `block` with `text` appended to its text field `key`; a field that holds no
/// text is replaced. What is no object stays as it is.
pub open spec fn appended(block: JsonView, key: Seq<char>, text: Seq<char>) -> JsonView {
    match block {
        JsonView::Object(m) => JsonView::Object(
            m.insert(key, JsonView::Text(or_empty(block.text_at(key)) + text)),
        ),
        _ => block,
    }
}

/// Append `text` to the string field `key` of a JSON object block.
pub fn append_str(block: &mut Json, key: &str, text: &str)
    ensures
        final(block)@ == appended(old(block)@, key@, text@),
{
    let mut t = text_or_empty(block, key);
    t.push_str(text);
    if let Json::Object(m) = block {
        m.put(key, Json::Text(t));
    }
}

} // verus!
