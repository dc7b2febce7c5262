//! JSON values one level deep, as the providers read requests and write
//! payloads: parsing and printing go through `serde_json`; the nested
//! members of arrays and objects are kept as their JSON text.

use vstd::prelude::*;
use vstd::string::*;
use crate::logfmt::{json_quote, json_string_literal};
use serde_json::Value as J;

verus! {

/// A parsed JSON value whose members are the JSON texts of the nested values.
#[derive(Debug, Clone)]
pub enum JsonNode {
    Null,
    Bool(bool),
    /// A number, by the text `serde_json` prints for it.
    Number(String),
    Str(String),
    /// The JSON texts of the elements, in order.
    Array(Vec<String>),
    /// The keys and the JSON texts of the values, in the order `serde_json`
    /// keeps its maps (by key).
    Object(Vec<(String, String)>),
}

/// What `serde_json::from_str::<serde_json::Value>` gives for a text, taken
/// one level deep, or the text of its error when the text is not JSON.
pub uninterp spec fn json_parse(text: Seq<char>) -> Result<JsonNode, Seq<char>>;

/// The value a JSON text holds, one level deep (`None`: not JSON).
pub open spec fn json_value(text: Seq<char>) -> Option<JsonNode> {
    match json_parse(text) {
        Ok(n) => Some(n),
        Err(_) => None,
    }
}

/// Parses a JSON text (`serde_json::from_str` into a `serde_json::Value`,
/// then one level of it as a `JsonNode`, nested values printed back as text;
/// the error by its `Display` text). The contract names the result; nothing
/// is claimed of what it is.
#[verifier::external_body]
pub(crate) fn parse_json(text: &str) -> (r: Result<JsonNode, String>)
    ensures
        match json_parse(text@) {
            Ok(n) => r == Ok::<JsonNode, String>(n),
            Err(m) => r matches Err(e) && e@ == m,
        },
{
    let t = |x: &J| x.to_string();
    Ok(match serde_json::from_str::<J>(text).map_err(|e| e.to_string())? {
        J::Null => JsonNode::Null,
        J::Bool(b) => JsonNode::Bool(b),
        J::Number(n) => JsonNode::Number(n.to_string()),
        J::String(s) => JsonNode::Str(s),
        J::Array(a) => JsonNode::Array(a.iter().map(t).collect()),
        J::Object(m) => JsonNode::Object(m.iter().map(|(k, x)| (k.clone(), t(x))).collect()),
    })
}

/// The parts joined with commas.
pub open spec fn join_commas(parts: Seq<Seq<char>>) -> Seq<char>
    decreases parts.len(),
{
    if parts.len() == 0 {
        seq![]
    } else if parts.len() == 1 {
        parts[0]
    } else {
        join_commas(parts.drop_last()) + ","@ + parts.last()
    }
}

/// What `serde_json` prints (compactly) for a value: nested values are
/// already their printed text, object keys come in the map's order.
pub open spec fn node_text(n: JsonNode) -> Seq<char> {
    match n {
        JsonNode::Null => "null"@,
        JsonNode::Bool(b) => if b { "true"@ } else { "false"@ },
        JsonNode::Number(t) => t@,
        JsonNode::Str(s) => json_string_literal(s@),
        JsonNode::Array(items) => "["@ + join_commas(items@.map_values(|e: String| e@)) + "]"@,
        JsonNode::Object(entries) => "{"@ + join_commas(entries@.map_values(|e: (String, String)| json_string_literal(e.0@) + ":"@ + e.1@)) + "}"@,
    }
}

/// What `serde_json` prints for the value a JSON text holds (`None`: the
/// text is not JSON).
pub open spec fn json_normal_text(text: Seq<char>) -> Option<Seq<char>> {
    match json_value(text) {
        Some(n) => Some(node_text(n)),
        None => None,
    }
}

/// Appends `parts` joined with commas.
pub(crate) fn push_joined(out: &mut Vec<char>, parts: &Vec<String>)
    ensures final(out)@ == old(out)@ + join_commas(parts@.map_values(|e: String| e@)),
{
    let ghost o = out@;
    let ghost all = parts@.map_values(|e: String| e@);
    let mut i: usize = 0;
    assert(all.take(0) =~= Seq::<Seq<char>>::empty());
    while i < parts.len()
        invariant
            i <= parts@.len(),
            all == parts@.map_values(|e: String| e@),
            out@ == o + join_commas(all.take(i as int)),
        decreases parts.len() - i,
    {
        let ghost before = out@;
        if i > 0 {
            crate::logfmt::push_str(out, ",");
        }
        let c = crate::text::chars_of(parts[i].as_str());
        crate::text::extend_all(out, c.as_slice());
        proof {
            let t = all.take(i + 1);
            assert(t.drop_last() =~= all.take(i as int));
            assert(t.last() == parts@[i as int]@);
            if i == 0 {
                assert(all.take(i as int) =~= Seq::<Seq<char>>::empty());
                assert(t.len() == 1);
                assert(join_commas(t) == t[0]);
                assert(out@ =~= o + join_commas(t));
            } else {
                assert(join_commas(t) == join_commas(t.drop_last()) + ","@ + t.last());
                assert(out@ =~= o + join_commas(t));
            }
        }
        i = i + 1;
    }
    assert(all.take(parts@.len() as int) =~= all);
}

/// The printed texts of an object's entries.
fn entry_texts(entries: &Vec<(String, String)>) -> (r: Vec<String>)
    ensures
        r@.map_values(|e: String| e@) == entries@.map_values(|e: (String, String)| json_string_literal(e.0@) + ":"@ + e.1@),
{
    let mut r: Vec<String> = Vec::new();
    let mut i: usize = 0;
    while i < entries.len()
        invariant
            i <= entries@.len(),
            r@.map_values(|e: String| e@) =~= entries@.take(i as int).map_values(|e: (String, String)| json_string_literal(e.0@) + ":"@ + e.1@),
        decreases entries.len() - i,
    {
        let q = quote(entries[i].0.as_str());
        let mut v = crate::text::chars_of(q.as_str());
        crate::logfmt::push_str(&mut v, ":");
        let c = crate::text::chars_of(entries[i].1.as_str());
        crate::text::extend_all(&mut v, c.as_slice());
        let t = crate::text::string_from_chars(v.as_slice());
        let ghost before = r@;
        r.push(t);
        proof {
            let e = entries@[i as int];
            assert(t@ == json_string_literal(e.0@) + ":"@ + e.1@);
            assert(entries@.take(i + 1)[i as int] == e);
            assert(r@.map_values(|e: String| e@) =~= before.map_values(|e: String| e@).push(t@));
            assert(entries@.take(i + 1).map_values(|e: (String, String)| json_string_literal(e.0@) + ":"@ + e.1@)
                =~= entries@.take(i as int).map_values(|e: (String, String)| json_string_literal(e.0@) + ":"@ + e.1@).push(t@));
        }
        i = i + 1;
    }
    assert(entries@.take(entries@.len() as int) =~= entries@);
    r
}

/// Re-prints a JSON text as `serde_json` prints the value it holds.
pub fn normalize_json(text: &str) -> (r: Option<String>)
    ensures
        match json_normal_text(text@) {
            Some(t) => r matches Some(s) && s@ == t,
            None => r is None,
        },
{
    match parse_json_opt(text) {
        None => None,
        Some(n) => {
            let mut out: Vec<char> = Vec::new();
            match &n {
                JsonNode::Null => crate::logfmt::push_str(&mut out, "null"),
                JsonNode::Bool(b) => if *b { crate::logfmt::push_str(&mut out, "true") } else { crate::logfmt::push_str(&mut out, "false") },
                JsonNode::Number(t) => crate::logfmt::push_str(&mut out, t.as_str()),
                JsonNode::Str(s) => {
                    let q = quote(s.as_str());
                    crate::logfmt::push_str(&mut out, q.as_str());
                },
                JsonNode::Array(items) => {
                    crate::logfmt::push_str(&mut out, "[");
                    push_joined(&mut out, items);
                    crate::logfmt::push_str(&mut out, "]");
                },
                JsonNode::Object(entries) => {
                    crate::logfmt::push_str(&mut out, "{");
                    let texts = entry_texts(entries);
                    push_joined(&mut out, &texts);
                    crate::logfmt::push_str(&mut out, "}");
                },
            }
            assert(out@ =~= node_text(n));
            Some(crate::text::string_from_chars(out.as_slice()))
        },
    }
}

/// The value a JSON text holds, one level deep (`None`: not JSON).
pub fn parse_json_opt(text: &str) -> (r: Option<JsonNode>)
    ensures r == json_value(text@),
{
    match parse_json(text) {
        Ok(n) => Some(n),
        Err(_) => None,
    }
}

/// `value.get(key)` as JSON text: the member's text when `value` is an
/// object that has the key.
pub open spec fn get_member(v: Option<JsonNode>, key: Seq<char>) -> Option<Seq<char>> {
    match v {
        Some(JsonNode::Object(entries)) => member_text(entries@, key),
        _ => None,
    }
}

/// `value.as_str()` of a JSON text: the string when it holds one.
pub open spec fn text_as_str(t: Option<Seq<char>>) -> Option<Seq<char>> {
    match t {
        Some(x) => match json_value(x) {
            Some(JsonNode::Str(s)) => Some(s@),
            _ => None,
        },
        None => None,
    }
}

/// `value.as_array()` of a JSON text: the elements' texts when it holds an array.
pub open spec fn text_as_array(t: Option<Seq<char>>) -> Option<Seq<Seq<char>>> {
    match t {
        Some(x) => match json_value(x) {
            Some(JsonNode::Array(items)) => Some(items@.map_values(|e: String| e@)),
            _ => None,
        },
        None => None,
    }
}

/// The JSON text of an object member's value, the first entry with that key.
pub open spec fn member_text(entries: Seq<(String, String)>, key: Seq<char>) -> Option<Seq<char>>
    decreases entries.len(),
{
    if entries.len() == 0 {
        None
    } else if entries[0].0@ == key {
        Some(entries[0].1@)
    } else {
        member_text(entries.drop_first(), key)
    }
}

/// The JSON text of member `key` of an object's entries.
pub fn find_member(entries: &Vec<(String, String)>, key: &str) -> (r: Option<String>)
    ensures
        match r {
            Some(s) => member_text(entries@, key@) == Some(s@),
            None => member_text(entries@, key@) is None,
        },
{
    let k = String::from_str(key);
    let mut i: usize = 0;
    assert(entries@.subrange(0, entries@.len() as int) =~= entries@);
    while i < entries.len()
        invariant
            k@ == key@,
            i <= entries@.len(),
            member_text(entries@.subrange(i as int, entries@.len() as int), key@) == member_text(entries@, key@),
        decreases entries.len() - i,
    {
        let ghost rest = entries@.subrange(i as int, entries@.len() as int);
        assert(rest[0] == entries@[i as int]);
        if entries[i].0 == k {
            return Some(entries[i].1.clone());
        }
        assert(rest.drop_first() =~= entries@.subrange(i + 1, entries@.len() as int));
        i = i + 1;
    }
    None
}

/// `value.get(key)` of a parsed value, as JSON text.
pub fn member_of(v: &Option<JsonNode>, key: &str) -> (r: Option<String>)
    ensures
        match r {
            Some(s) => get_member(*v, key@) == Some(s@),
            None => get_member(*v, key@) is None,
        },
{
    match v {
        Some(JsonNode::Object(entries)) => find_member(entries, key),
        _ => None,
    }
}

/// `value.as_str()` of a JSON text.
pub fn as_str_of(t: &Option<String>) -> (r: Option<String>)
    ensures
        match r {
            Some(s) => text_as_str(opt_chars(*t)) == Some(s@),
            None => text_as_str(opt_chars(*t)) is None,
        },
{
    match t {
        Some(x) => match parse_json_opt(x.as_str()) {
            Some(JsonNode::Str(s)) => Some(s),
            _ => None,
        },
        None => None,
    }
}

pub open spec fn opt_chars(t: Option<String>) -> Option<Seq<char>> {
    match t {
        Some(s) => Some(s@),
        None => None,
    }
}

/// `value.as_array()` of a JSON text.
pub fn as_array_of(t: &Option<String>) -> (r: Option<Vec<String>>)
    ensures
        match r {
            Some(items) => text_as_array(opt_chars(*t)) == Some(items@.map_values(|e: String| e@)),
            None => text_as_array(opt_chars(*t)) is None,
        },
{
    match t {
        Some(x) => match parse_json_opt(x.as_str()) {
            Some(JsonNode::Array(items)) => Some(items),
            _ => None,
        },
        None => None,
    }
}

/// The JSON text of a string (`serde_json::to_string` of a `&str`).
pub fn quote(s: &str) -> (r: String)
    ensures
        r@ == crate::logfmt::json_string_literal(s@),
{
    match json_quote(s) {
        Some(q) => q,
        None => String::new(),
    }
}

/// `a` comes before `b` in the order of strings (by characters, which is
/// the order of their UTF-8 bytes).
pub open spec fn str_lt(a: Seq<char>, b: Seq<char>) -> bool
    decreases a.len(),
{
    if a.len() == 0 {
        b.len() > 0
    } else if b.len() == 0 {
        false
    } else if a[0] != b[0] {
        (a[0] as u32) < (b[0] as u32)
    } else {
        str_lt(a.drop_first(), b.drop_first())
    }
}

/// An object's entries by their texts.
pub open spec fn entries_view(es: Seq<(String, String)>) -> Seq<(Seq<char>, Seq<char>)> {
    es.map_values(|e: (String, String)| (e.0@, e.1@))
}

/// Sets member `k` of an object's entries (kept in key order) to the JSON
/// text `v`: the entry with that key is replaced, else a new one goes
/// before the first greater key.
pub open spec fn set_member(es: Seq<(Seq<char>, Seq<char>)>, k: Seq<char>, v: Seq<char>) -> Seq<(Seq<char>, Seq<char>)>
    decreases es.len(),
{
    if es.len() == 0 {
        seq![(k, v)]
    } else if es[0].0 == k {
        seq![(k, v)] + es.drop_first()
    } else if str_lt(k, es[0].0) {
        seq![(k, v)] + es
    } else {
        seq![es[0]] + set_member(es.drop_first(), k, v)
    }
}

pub fn str_less(a: &[char], b: &[char]) -> (r: bool)
    ensures r == str_lt(a@, b@),
{
    let mut i: usize = 0;
    assert(a@.skip(0) =~= a@);
    assert(b@.skip(0) =~= b@);
    while i < a.len() && i < b.len() && a[i] == b[i]
        invariant
            i <= a@.len(),
            i <= b@.len(),
            str_lt(a@.skip(i as int), b@.skip(i as int)) == str_lt(a@, b@),
        decreases a.len() - i,
    {
        assert(a@.skip(i as int).drop_first() =~= a@.skip(i + 1));
        assert(b@.skip(i as int).drop_first() =~= b@.skip(i + 1));
        i = i + 1;
    }
    if i == a.len() {
        i < b.len()
    } else if i == b.len() {
        false
    } else {
        assert(a@.skip(i as int)[0] == a@[i as int]);
        assert(b@.skip(i as int)[0] == b@[i as int]);
        (a[i] as u32) < (b[i] as u32)
    }
}

/// Where `set_member` changes the entries: the first entry whose key is
/// not before `k`.
pub proof fn lemma_set_member_at(es: Seq<(Seq<char>, Seq<char>)>, k: Seq<char>, v: Seq<char>, j: int)
    requires
        0 <= j <= es.len(),
        forall|i: int| 0 <= i < j ==> es[i].0 != k && !str_lt(k, #[trigger] es[i].0),
        j == es.len() || es[j].0 == k || str_lt(k, es[j].0),
    ensures
        set_member(es, k, v) == es.take(j) + seq![(k, v)]
            + (if j < es.len() && es[j].0 == k { es.skip(j + 1) } else { es.skip(j) }),
    decreases j,
{
    if j == 0 {
        assert(es.take(0) =~= Seq::<(Seq<char>, Seq<char>)>::empty());
        if es.len() > 0 && es[0].0 == k {
            assert(es.skip(1) =~= es.drop_first());
        }
        assert(es.skip(0) =~= es);
    } else {
        let t = es.drop_first();
        assert forall|i: int| 0 <= i < j - 1 implies t[i].0 != k && !str_lt(k, #[trigger] t[i].0) by {
            assert(t[i] == es[i + 1]);
        }
        if j - 1 < t.len() {
            assert(t[j - 1] == es[j]);
        }
        lemma_set_member_at(t, k, v, j - 1);
        assert(es[0].0 != k && !str_lt(k, es[0].0));
        assert(es.take(j) =~= seq![es[0]] + t.take(j - 1));
        assert(es.skip(j) =~= t.skip(j - 1));
        if j < es.len() {
            assert(es.skip(j + 1) =~= t.skip(j));
        }
    }
}

/// Sets member `k` of an object's entries to the JSON text `v` (see `set_member`).
pub fn set_entry(es: &mut Vec<(String, String)>, k: String, v: String)
    ensures entries_view(final(es)@) == set_member(entries_view(old(es)@), k@, v@),
{
    let ghost ev = entries_view(es@);
    let kc = crate::text::chars_of(k.as_str());
    let mut j: usize = 0;
    while j < es.len()
        invariant
            j <= es@.len(),
            ev == entries_view(es@),
            kc@ == k@,
            forall|i: int| 0 <= i < j ==> ev[i].0 != k@ && !str_lt(k@, #[trigger] ev[i].0),
        ensures
            j <= es@.len(),
            ev == entries_view(es@),
            forall|i: int| 0 <= i < j ==> ev[i].0 != k@ && !str_lt(k@, #[trigger] ev[i].0),
            j == es@.len() || ev[j as int].0 == k@ || str_lt(k@, ev[j as int].0),
        decreases es.len() - j,
    {
        let ec = crate::text::chars_of(es[j].0.as_str());
        assert(ev[j as int].0 == ec@);
        if es[j].0 == k {
            break;
        }
        if str_less(kc.as_slice(), ec.as_slice()) {
            break;
        }
        j = j + 1;
    }
    proof { lemma_set_member_at(ev, k@, v@, j as int); }
    let replace = j < es.len() && es[j].0 == k;
    if replace {
        es.remove(j);
    }
    let ghost kv = (k@, v@);
    es.insert(j, (k, v));
    proof {
        let rest = if replace { ev.skip(j + 1) } else { ev.skip(j as int) };
        assert(entries_view(es@) =~= ev.take(j as int) + seq![kv] + rest);
    }
}

} // verus!
