//! Plugin manifests: the `plugin.toml` model, the legacy YAML manifest
//! mapping (deny-by-default), which directory entries are manifests, the
//! first-wins handling of duplicate ids, and the descriptors the tool host
//! publishes for a plugin.

use vstd::prelude::*;
use vstd::string::*;
use crate::error::Error;
use crate::json::{json_value, parse_json_opt, JsonNode};
use crate::logfmt::push_str;
use crate::text::{chars_of, contains_char, extend_all, string_from_chars, trim, trim_chars};
use serde_yaml::Value as Y;
use serde_yaml::{from_str as yaml_from_str, to_string as yaml_to_string};

verus! {

/// Policy hints of a plugin.
#[derive(Debug, Clone)]
pub struct PluginPolicyToml {
    pub default_tool_mode: Option<String>,
    pub capabilities_hint: Vec<String>,
    pub notes: Option<String>,
}

impl PluginPolicyToml {
    /// No hints.
    pub fn empty() -> (r: PluginPolicyToml)
        ensures
            r.default_tool_mode is None,
            r.capabilities_hint@.len() == 0,
            r.notes is None,
    {
        PluginPolicyToml { default_tool_mode: None, capabilities_hint: Vec::new(), notes: None }
    }
}

/// A plugin manifest.
#[derive(Debug, Clone)]
pub struct PluginToml {
    pub id: String,
    pub namespace: String,
    pub display_name: Option<String>,
    pub command: String,
    pub args: Vec<String>,
    pub cwd: Option<String>,
    /// Environment variables passed on to the plugin process.
    pub env_allowlist: Vec<String>,
    /// Plugins are off unless enabled.
    pub enabled: bool,
    pub timeout_ms: Option<u64>,
    pub policy: PluginPolicyToml,
}

/// A manifest and the file it was read from.
#[derive(Debug, Clone)]
pub struct DiscoveredPlugin {
    pub config: PluginToml,
    pub source: String,
}

/// A parsed YAML value one level deep; nested values are kept as their
/// YAML text.
#[derive(Debug, Clone)]
pub enum YamlNode {
    Null,
    Bool(bool),
    /// A number, by what `as_u64` gives for it.
    Number(Option<u64>),
    Str(String),
    Sequence(Vec<String>),
    /// Entries: the key when it reads as a string, and the value's YAML text.
    Mapping(Vec<(Option<String>, String)>),
    /// A tagged value, by the YAML text of the value under the tag.
    Tagged(String),
}

/// A parse result, the error by its text.
pub open spec fn yaml_result(r: Result<YamlNode, String>) -> Result<YamlNode, Seq<char>> {
    match r {
        Ok(n) => Ok(n),
        Err(e) => Err(e@),
    }
}

/// What `serde_yaml::from_str::<serde_yaml::Value>` gives for a text, one
/// level deep, or the parse error's text.
pub uninterp spec fn yaml_parse(text: Seq<char>) -> Result<YamlNode, Seq<char>>;

/// Parses YAML text (`serde_yaml::from_str` into a `serde_yaml::Value`, then
/// one level of it as a `YamlNode`, nested values printed back as YAML).
#[verifier::external_body]
pub(crate) fn parse_yaml(text: &str) -> (r: Result<YamlNode, String>)
    ensures
        yaml_result(r) == yaml_parse(text@),
{
    let t = |x: &Y| yaml_to_string(x).unwrap_or_default();
    Ok(match yaml_from_str::<Y>(text).map_err(|e| e.to_string())? {
        Y::Tagged(g) => YamlNode::Tagged(t(&g.value)),
        Y::Null => YamlNode::Null,
        Y::Bool(b) => YamlNode::Bool(b),
        Y::Number(n) => YamlNode::Number(n.as_u64()),
        Y::String(s) => YamlNode::Str(s),
        Y::Sequence(s) => YamlNode::Sequence(s.iter().map(t).collect()),
        Y::Mapping(m) => YamlNode::Mapping(m.iter().map(|p| (p.0.as_str().map(String::from), t(p.1))).collect()),
    })
}

/// A parsed YAML text with its tag removed (a YAML node has at most one
/// tag), as serde_yaml's accessors see it.
pub open spec fn y_parse(t: Seq<char>) -> Result<YamlNode, Seq<char>> {
    match yaml_parse(t) {
        Ok(YamlNode::Tagged(inner)) => yaml_parse(inner@),
        r => r,
    }
}

/// Parses YAML text and removes its tag.
pub fn parse_untagged(text: &str) -> (r: Result<YamlNode, String>)
    ensures
        match r {
            Ok(n) => y_parse(text@) == Ok::<YamlNode, Seq<char>>(n),
            Err(e) => y_parse(text@) == Err::<YamlNode, Seq<char>>(e@),
        },
{
    match parse_yaml(text) {
        Ok(YamlNode::Tagged(inner)) => parse_yaml(inner.as_str()),
        r => r,
    }
}

/// The YAML text of mapping entry `key` (a string key), the first one.
pub open spec fn entry_text(entries: Seq<(Option<String>, String)>, key: Seq<char>) -> Option<Seq<char>>
    decreases entries.len(),
{
    if entries.len() == 0 {
        None
    } else if entries[0].0 matches Some(k) && k@ == key {
        Some(entries[0].1@)
    } else {
        entry_text(entries.drop_first(), key)
    }
}

/// `value.get(key)`: the member's YAML text when the value is a mapping with that key.
pub open spec fn y_get(v: Option<Seq<char>>, key: Seq<char>) -> Option<Seq<char>> {
    match v {
        Some(t) => match y_parse(t) {
            Ok(YamlNode::Mapping(entries)) => entry_text(entries@, key),
            _ => None,
        },
        None => None,
    }
}

pub open spec fn y_str(v: Option<Seq<char>>) -> Option<Seq<char>> {
    match v {
        Some(t) => match y_parse(t) { Ok(YamlNode::Str(s)) => Some(s@), _ => None },
        None => None,
    }
}

pub open spec fn y_bool(v: Option<Seq<char>>) -> Option<bool> {
    match v {
        Some(t) => match y_parse(t) { Ok(YamlNode::Bool(b)) => Some(b), _ => None },
        None => None,
    }
}

pub open spec fn y_u64(v: Option<Seq<char>>) -> Option<u64> {
    match v {
        Some(t) => match y_parse(t) { Ok(YamlNode::Number(n)) => n, _ => None },
        None => None,
    }
}

pub open spec fn y_is_mapping(v: Option<Seq<char>>) -> bool {
    match v {
        Some(t) => y_parse(t) matches Ok(YamlNode::Mapping(_)),
        None => false,
    }
}

/// The string elements of a sequence (others skipped); `None` when not a sequence.
pub open spec fn y_strings(v: Option<Seq<char>>) -> Option<Seq<Seq<char>>> {
    match v {
        Some(t) => match y_parse(t) {
            Ok(YamlNode::Sequence(items)) => Some(strings_of(items@.map_values(|e: String| e@))),
            _ => None,
        },
        None => None,
    }
}

/// The elements that are YAML strings, as their strings, in order.
pub open spec fn strings_of(items: Seq<Seq<char>>) -> Seq<Seq<char>>
    decreases items.len(),
{
    if items.len() == 0 {
        seq![]
    } else {
        strings_of(items.drop_last()) + match y_str(Some(items.last())) {
            Some(s) => seq![s],
            None => seq![],
        }
    }
}

/// A manifest by its parts.
pub struct PluginView {
    pub id: Seq<char>,
    pub namespace: Seq<char>,
    pub display_name: Option<Seq<char>>,
    pub command: Seq<char>,
    pub args: Seq<Seq<char>>,
    pub cwd: Option<Seq<char>>,
    pub env_allowlist: Seq<Seq<char>>,
    pub enabled: bool,
    pub timeout_ms: Option<u64>,
    pub default_tool_mode: Option<Seq<char>>,
    pub capabilities_hint: Seq<Seq<char>>,
    pub notes: Option<Seq<char>>,
}

pub open spec fn opt_chars(v: Option<String>) -> Option<Seq<char>> {
    match v { Some(s) => Some(s@), None => None }
}

pub open spec fn strs(v: Vec<String>) -> Seq<Seq<char>> {
    v@.map_values(|s: String| s@)
}

pub open spec fn plugin_view(p: PluginToml) -> PluginView {
    PluginView {
        id: p.id@,
        namespace: p.namespace@,
        display_name: opt_chars(p.display_name),
        command: p.command@,
        args: strs(p.args),
        cwd: opt_chars(p.cwd),
        env_allowlist: strs(p.env_allowlist),
        enabled: p.enabled,
        timeout_ms: p.timeout_ms,
        default_tool_mode: opt_chars(p.policy.default_tool_mode),
        capabilities_hint: strs(p.policy.capabilities_hint),
        notes: opt_chars(p.policy.notes),
    }
}

/// A legacy YAML manifest read as a plugin manifest, or the message of the
/// invalid-argument error it gives: `id` and `transport.command` are
/// required, the transport must be `stdio` (the default), the id doubles as
/// namespace and display name, `enabled` defaults to false, the call timeout
/// is `timeouts.call_ms`, and the `policy` section is optional.
pub open spec fn spec_legacy_manifest(text: Seq<char>, path: Seq<char>) -> Result<PluginView, Seq<char>> {
    match y_parse(text) {
        Err(e) => Err("invalid yaml "@ + path + ": "@ + e),
        Ok(root) => if !(root is Mapping) {
            Err("manifest must be a YAML object"@)
        } else {
            let top = Some(text);
            match y_str(y_get(top, "id"@)) {
                None => Err("missing id"@),
                Some(id) => {
                    let transport = y_get(top, "transport"@);
                    if !y_is_mapping(transport) {
                        Err("missing transport"@)
                    } else {
                        let ty = match y_str(y_get(transport, "type"@)) { Some(t) => t, None => "stdio"@ };
                        if ty != "stdio"@ {
                            Err("unsupported transport type: "@ + ty)
                        } else {
                            match y_str(y_get(transport, "command"@)) {
                                None => Err("transport.command required"@),
                                Some(command) => {
                                    let policy = y_get(top, "policy"@);
                                    let has_policy = y_is_mapping(policy);
                                    Ok(PluginView {
                                        id,
                                        namespace: id,
                                        display_name: Some(id),
                                        command,
                                        args: match y_strings(y_get(transport, "args"@)) { Some(a) => a, None => seq![] },
                                        cwd: None,
                                        env_allowlist: seq![],
                                        enabled: match y_bool(y_get(top, "enabled"@)) { Some(b) => b, None => false },
                                        timeout_ms: y_u64(y_get(y_get(top, "timeouts"@), "call_ms"@)),
                                        default_tool_mode: if has_policy { y_str(y_get(policy, "default_tool_mode"@)) } else { None },
                                        capabilities_hint: if has_policy {
                                            match y_strings(y_get(policy, "capabilities_hint"@)) { Some(c) => c, None => seq![] }
                                        } else {
                                            seq![]
                                        },
                                        notes: if has_policy { y_str(y_get(policy, "notes"@)) } else { None },
                                    })
                                },
                            }
                        }
                    }
                },
            }
        },
    }
}

fn find_entry(entries: &Vec<(Option<String>, String)>, key: &str) -> (r: Option<String>)
    ensures opt_chars(r) == entry_text(entries@, key@),
{
    let k = String::from_str(key);
    let mut i: usize = 0;
    assert(entries@.subrange(0, entries@.len() as int) =~= entries@);
    while i < entries.len()
        invariant
            k@ == key@,
            i <= entries@.len(),
            entry_text(entries@.subrange(i as int, entries@.len() as int), key@) == entry_text(entries@, key@),
        decreases entries.len() - i,
    {
        let ghost rest = entries@.subrange(i as int, entries@.len() as int);
        assert(rest[0] == entries@[i as int]);
        match &entries[i].0 {
            Some(ek) => {
                if *ek == k {
                    return Some(entries[i].1.clone());
                }
            },
            None => {},
        }
        assert(rest.drop_first() =~= entries@.subrange(i + 1, entries@.len() as int));
        i = i + 1;
    }
    None
}

/// `value.get(key)` of a YAML text.
pub fn yaml_get(v: &Option<String>, key: &str) -> (r: Option<String>)
    ensures opt_chars(r) == y_get(opt_chars(*v), key@),
{
    match v {
        Some(t) => match parse_untagged(t.as_str()) {
            Ok(YamlNode::Mapping(entries)) => find_entry(&entries, key),
            _ => None,
        },
        None => None,
    }
}

pub fn yaml_str(v: &Option<String>) -> (r: Option<String>)
    ensures opt_chars(r) == y_str(opt_chars(*v)),
{
    match v {
        Some(t) => match parse_untagged(t.as_str()) {
            Ok(YamlNode::Str(s)) => Some(s),
            _ => None,
        },
        None => None,
    }
}

pub fn yaml_bool(v: &Option<String>) -> (r: Option<bool>)
    ensures r == y_bool(opt_chars(*v)),
{
    match v {
        Some(t) => match parse_untagged(t.as_str()) {
            Ok(YamlNode::Bool(b)) => Some(b),
            _ => None,
        },
        None => None,
    }
}

pub fn yaml_u64(v: &Option<String>) -> (r: Option<u64>)
    ensures r == y_u64(opt_chars(*v)),
{
    match v {
        Some(t) => match parse_untagged(t.as_str()) {
            Ok(YamlNode::Number(n)) => n,
            _ => None,
        },
        None => None,
    }
}

pub fn yaml_is_mapping(v: &Option<String>) -> (r: bool)
    ensures r == y_is_mapping(opt_chars(*v)),
{
    match v {
        Some(t) => match parse_untagged(t.as_str()) {
            Ok(YamlNode::Mapping(_)) => true,
            _ => false,
        },
        None => false,
    }
}

/// The string elements of a YAML sequence text.
pub fn yaml_strings(v: &Option<String>) -> (r: Option<Vec<String>>)
    ensures
        match y_strings(opt_chars(*v)) {
            Some(x) => r matches Some(l) && strs(l) == x,
            None => r is None,
        },
{
    match v {
        Some(t) => match parse_untagged(t.as_str()) {
            Ok(YamlNode::Sequence(items)) => {
                let ghost iv = items@.map_values(|e: String| e@);
                let mut out: Vec<String> = Vec::new();
                let mut i: usize = 0;
                assert(iv.take(0) =~= Seq::<Seq<char>>::empty());
                assert(strs(out) =~= Seq::<Seq<char>>::empty());
                while i < items.len()
                    invariant
                        i <= items@.len(),
                        iv == items@.map_values(|e: String| e@),
                        strs(out) == strings_of(iv.take(i as int)),
                    decreases items.len() - i,
                {
                    proof {
                        assert(iv.take(i + 1).drop_last() =~= iv.take(i as int));
                        assert(iv.take(i + 1).last() == items@[i as int]@);
                    }
                    let e = Some(items[i].clone());
                    match yaml_str(&e) {
                        Some(x) => {
                            out.push(x);
                            proof { assert(strs(out) =~= strings_of(iv.take(i as int)) + seq![x@]); }
                        },
                        None => {
                            assert(strs(out) =~= strings_of(iv.take(i as int)) + Seq::<Seq<char>>::empty());
                        },
                    }
                    i = i + 1;
                }
                assert(iv.take(iv.len() as int) =~= iv);
                Some(out)
            },
            _ => None,
        },
        None => None,
    }
}

fn invalid(v: Vec<char>) -> (e: Error)
    ensures e matches Error::InvalidArgument(m) && m@ == v@,
{
    Error::InvalidArgument(string_from_chars(v.as_slice()))
}

/// Reads a legacy YAML manifest (see `spec_legacy_manifest`); `path` is the
/// file's path, for messages.
pub fn read_legacy_yaml_manifest(text: &str, path: &str) -> (r: Result<PluginToml, Error>)
    ensures
        match spec_legacy_manifest(text@, path@) {
            Ok(pv) => r matches Ok(p) && plugin_view(p) == pv,
            Err(m) => r matches Err(Error::InvalidArgument(x)) && x@ == m,
        },
{
    let root = match parse_untagged(text) {
        Err(e) => {
            let mut v = chars_of("invalid yaml ");
            push_str(&mut v, path);
            push_str(&mut v, ": ");
            push_str(&mut v, e.as_str());
            return Err(invalid(v));
        },
        Ok(n) => n,
    };
    match root {
        YamlNode::Mapping(_) => {},
        _ => return Err(invalid(chars_of("manifest must be a YAML object"))),
    }
    let top = Some(String::from_str(text));
    let id = match yaml_str(&yaml_get(&top, "id")) {
        Some(id) => id,
        None => return Err(invalid(chars_of("missing id"))),
    };
    let transport = yaml_get(&top, "transport");
    if !yaml_is_mapping(&transport) {
        return Err(invalid(chars_of("missing transport")));
    }
    let ty = match yaml_str(&yaml_get(&transport, "type")) {
        Some(t) => t,
        None => String::from_str("stdio"),
    };
    if ty != String::from_str("stdio") {
        let mut v = chars_of("unsupported transport type: ");
        push_str(&mut v, ty.as_str());
        return Err(invalid(v));
    }
    let command = match yaml_str(&yaml_get(&transport, "command")) {
        Some(c) => c,
        None => return Err(invalid(chars_of("transport.command required"))),
    };
    let args = match yaml_strings(&yaml_get(&transport, "args")) {
        Some(a) => a,
        None => Vec::new(),
    };
    let enabled = match yaml_bool(&yaml_get(&top, "enabled")) {
        Some(b) => b,
        None => false,
    };
    let timeout_ms = yaml_u64(&yaml_get(&yaml_get(&top, "timeouts"), "call_ms"));
    let policy_text = yaml_get(&top, "policy");
    let has_policy = yaml_is_mapping(&policy_text);
    let policy = if has_policy {
        PluginPolicyToml {
            default_tool_mode: yaml_str(&yaml_get(&policy_text, "default_tool_mode")),
            capabilities_hint: match yaml_strings(&yaml_get(&policy_text, "capabilities_hint")) {
                Some(c) => c,
                None => Vec::new(),
            },
            notes: yaml_str(&yaml_get(&policy_text, "notes")),
        }
    } else {
        PluginPolicyToml::empty()
    };
    let r = PluginToml {
        id: id.clone(),
        namespace: id.clone(),
        display_name: Some(id),
        command,
        args,
        cwd: None,
        env_allowlist: Vec::new(),
        enabled,
        timeout_ms,
        policy,
    };
    assert(strs(r.env_allowlist) =~= Seq::<Seq<char>>::empty());
    assert(!has_policy ==> strs(r.policy.capabilities_hint) =~= Seq::<Seq<char>>::empty());
    assert(strs(r.args) =~= (match y_strings(y_get(opt_chars(transport), "args"@)) { Some(a) => a, None => seq![] }));
    Ok(r)
}

/// Index of the last occurrence of `c` (or -1).
pub open spec fn last_index_of(s: Seq<char>, c: char) -> int
    decreases s.len(),
{
    if s.len() == 0 { -1 } else if s.last() == c { s.len() - 1 } else { last_index_of(s.drop_last(), c) }
}

/// `Path::file_name` of an entry path: the text after the last `/`.
pub open spec fn file_name(p: Seq<char>) -> Seq<char> {
    p.skip(last_index_of(p, '/') + 1)
}

/// `Path::extension`: the text after the file name's last `.`, unless that
/// dot starts the name or there is none.
pub open spec fn extension(p: Seq<char>) -> Option<Seq<char>> {
    let f = file_name(p);
    let i = last_index_of(f, '.');
    if i <= 0 { None } else { Some(f.skip(i + 1)) }
}

proof fn lemma_last_index_of(s: Seq<char>, c: char)
    ensures
        -1 <= last_index_of(s, c) < s.len(),
        last_index_of(s, c) >= 0 ==> s[last_index_of(s, c)] == c,
        forall|j: int| last_index_of(s, c) < j < s.len() ==> s[j] != c,
    decreases s.len(),
{
    if s.len() > 0 && s.last() != c {
        lemma_last_index_of(s.drop_last(), c);
        assert forall|j: int| last_index_of(s, c) < j < s.len() implies s[j] != c by {
            if j < s.len() - 1 {
                assert(s.drop_last()[j] == s[j]);
            }
        }
    }
}

fn last_index(s: &Vec<char>, c: char) -> (r: Option<usize>)
    ensures
        match r {
            Some(i) => i as int == last_index_of(s@, c),
            None => last_index_of(s@, c) == -1,
        },
{
    let mut i = s.len();
    assert(s@.take(s@.len() as int) =~= s@);
    while i > 0 && s[i - 1] != c
        invariant
            i <= s@.len(),
            last_index_of(s@.take(i as int), c) == last_index_of(s@, c),
        decreases i,
    {
        assert(s@.take(i as int).drop_last() =~= s@.take(i - 1));
        i = i - 1;
    }
    if i == 0 {
        assert(s@.take(0) =~= Seq::<char>::empty());
        None
    } else {
        assert(s@.take(i as int).last() == c);
        Some(i - 1)
    }
}

fn file_name_of(p: &Vec<char>) -> (r: Vec<char>)
    ensures r@ == file_name(p@),
{
    proof { lemma_last_index_of(p@, '/'); }
    let start = match last_index(p, '/') {
        Some(i) => {
            assert(i < p.len());
            i + 1
        },
        None => 0,
    };
    let r = crate::text::slice_to_vec(p.as_slice(), start, p.len());
    assert(r@ =~= file_name(p@));
    r
}

fn extension_of(p: &Vec<char>) -> (r: Option<Vec<char>>)
    ensures
        match extension(p@) {
            Some(e) => r matches Some(x) && x@ == e,
            None => r is None,
        },
{
    let f = file_name_of(p);
    proof { lemma_last_index_of(f@, '.'); }
    match last_index(&f, '.') {
        Some(i) => {
            if i == 0 {
                None
            } else {
                let e = crate::text::slice_to_vec(f.as_slice(), i + 1, f.len());
                assert(e@ =~= f@.skip(i + 1));
                Some(e)
            }
        },
        None => None,
    }
}

fn chars_equal(a: &Vec<char>, lit: &str) -> (r: bool)
    ensures r == (a@ == lit@),
{
    let b = chars_of(lit);
    if a.len() != b.len() {
        return false;
    }
    let r = crate::text::starts_with(a.as_slice(), b.as_slice());
    assert(a@.take(b@.len() as int) =~= a@);
    r
}

/// A file is a manifest: `plugin.toml`, or a `.toml`, `.yaml` or `.yml` file.
pub open spec fn is_manifest_file(p: Seq<char>) -> bool {
    ||| file_name(p) == "plugin.toml"@
    ||| extension(p) == Some("toml"@)
    ||| extension(p) == Some("yaml"@)
    ||| extension(p) == Some("yml"@)
}

/// A manifest is read as TOML: `plugin.toml` or a `.toml` file (else YAML).
pub open spec fn is_toml_manifest(p: Seq<char>) -> bool {
    extension(p) == Some("toml"@) || file_name(p) == "plugin.toml"@
}

/// Whether a file found in a plugin directory is a manifest.
pub fn is_manifest_path(path: &str) -> (r: bool)
    ensures r == is_manifest_file(path@),
{
    let p = chars_of(path);
    let f = file_name_of(&p);
    if chars_equal(&f, "plugin.toml") {
        return true;
    }
    match extension_of(&p) {
        Some(e) => chars_equal(&e, "toml") || chars_equal(&e, "yaml") || chars_equal(&e, "yml"),
        None => false,
    }
}

/// One entry of a plugin directory, as listing the directory tells it.
#[derive(Debug)]
pub struct DirEntryInfo {
    /// The entry's name in the directory.
    pub name: String,
    pub is_dir: bool,
    pub is_file: bool,
    /// For a directory: whether `plugin.toml` in it is a file.
    pub has_manifest: bool,
}

/// The manifest an entry of `dir` gives: `plugin.toml` of a subdirectory
/// that has one, or the entry itself when it is a manifest file.
pub open spec fn entry_manifest(dir: Seq<char>, e: DirEntryInfo) -> Option<Seq<char>> {
    let p = crate::path::spec_join(dir, e.name@);
    if e.is_dir {
        if e.has_manifest { Some(crate::path::spec_join(p, "plugin.toml"@)) } else { None }
    } else if e.is_file && is_manifest_file(p) {
        Some(p)
    } else {
        None
    }
}

/// The manifests of the entries, in the entries' order.
pub open spec fn entry_manifests(dir: Seq<char>, es: Seq<DirEntryInfo>) -> Seq<Seq<char>>
    decreases es.len(),
{
    if es.len() == 0 {
        seq![]
    } else {
        let before = entry_manifests(dir, es.drop_last());
        match entry_manifest(dir, es.last()) {
            Some(m) => before.push(m),
            None => before,
        }
    }
}

/// Names in code point order (the byte order of their UTF-8), a prefix first.
pub open spec fn name_le(a: Seq<char>, b: Seq<char>) -> bool
    decreases a.len(),
{
    if a.len() == 0 {
        true
    } else if b.len() == 0 {
        false
    } else if a[0] != b[0] {
        a[0] < b[0]
    } else {
        name_le(a.drop_first(), b.drop_first())
    }
}

pub proof fn lemma_name_le_total(a: Seq<char>, b: Seq<char>)
    ensures name_le(a, b) || name_le(b, a),
    decreases a.len(),
{
    if a.len() > 0 && b.len() > 0 {
        if a[0] == b[0] {
            lemma_name_le_total(a.drop_first(), b.drop_first());
        } else {
        }
    }
}

pub proof fn lemma_name_le_transitive(a: Seq<char>, b: Seq<char>, c: Seq<char>)
    requires name_le(a, b), name_le(b, c),
    ensures name_le(a, c),
    decreases a.len(),
{
    if a.len() > 0 && b.len() > 0 && c.len() > 0 && a[0] == b[0] && b[0] == c[0] {
        lemma_name_le_transitive(a.drop_first(), b.drop_first(), c.drop_first());
    }
}

proof fn lemma_name_le_skip(a: Seq<char>, b: Seq<char>, i: int)
    requires
        0 <= i <= a.len(),
        i <= b.len(),
        forall|j: int| 0 <= j < i ==> a[j] == b[j],
    ensures name_le(a, b) == name_le(a.skip(i), b.skip(i)),
    decreases i,
{
    if i > 0 {
        lemma_name_le_skip(a.drop_first(), b.drop_first(), i - 1);
        assert(a.drop_first().skip(i - 1) =~= a.skip(i));
        assert(b.drop_first().skip(i - 1) =~= b.skip(i));
    } else {
        assert(a.skip(0) =~= a);
        assert(b.skip(0) =~= b);
    }
}

fn names_in_order(a: &str, b: &str) -> (r: bool)
    ensures r == name_le(a@, b@),
{
    let x = chars_of(a);
    let y = chars_of(b);
    let mut i: usize = 0;
    while i < x.len() && i < y.len() && x[i] == y[i]
        invariant
            i <= x@.len(),
            i <= y@.len(),
            forall|j: int| 0 <= j < i ==> x@[j] == y@[j],
        decreases x@.len() - i,
    {
        i = i + 1;
    }
    proof {
        lemma_name_le_skip(a@, b@, i as int);
    }
    if i == x.len() {
        true
    } else if i == y.len() {
        false
    } else {
        x[i] < y[i]
    }
}

/// The entries by name, in order.
pub open spec fn sorted_by_name(es: Seq<DirEntryInfo>) -> bool {
    forall|i: int, j: int| 0 <= i < j < es.len() ==> name_le(#[trigger] es[i].name@, #[trigger] es[j].name@)
}

/// The entries in name order (an insertion sort that moves them).
fn sort_by_name(entries: Vec<DirEntryInfo>) -> (r: Vec<DirEntryInfo>)
    ensures
        r@.to_multiset() == entries@.to_multiset(),
        sorted_by_name(r@),
{
    broadcast use vstd::seq_lib::group_to_multiset_ensures, vstd::seq_lib::to_multiset_insert, vstd::multiset::group_multiset_axioms;
    let mut rest = entries;
    let mut out: Vec<DirEntryInfo> = Vec::new();
    proof {
        vstd::multiset::lemma_multiset_empty_len::<DirEntryInfo>(out@.to_multiset());
        assert(rest@.to_multiset().add(out@.to_multiset()) =~= entries@.to_multiset());
    }
    while rest.len() > 0
        invariant
            rest@.to_multiset().add(out@.to_multiset()) == entries@.to_multiset(),
            sorted_by_name(out@),
        decreases rest@.len(),
    {
        let ghost r0 = rest@;
        let e = rest.pop().unwrap();
        let ghost eg = e;
        assert(r0 =~= rest@.push(e));
        let mut pos: usize = 0;
        while pos < out.len() && names_in_order(out[pos].name.as_str(), e.name.as_str())
            invariant
                pos <= out@.len(),
                forall|k: int| 0 <= k < pos ==> name_le(#[trigger] out@[k].name@, e.name@),
            decreases out@.len() - pos,
        {
            pos = pos + 1;
        }
        let ghost o0 = out@;
        proof {
            if pos < o0.len() {
                lemma_name_le_total(o0[pos as int].name@, e.name@);
                assert forall|q: int| pos <= q < o0.len() implies name_le(e.name@, #[trigger] o0[q].name@) by {
                    if q > pos {
                        lemma_name_le_transitive(e.name@, o0[pos as int].name@, o0[q].name@);
                    }
                }
            }
        }
        out.insert(pos, e);
        proof {
            assert(out@ =~= o0.insert(pos as int, e));
            assert forall|i: int, j: int| 0 <= i < j < out@.len() implies name_le(#[trigger] out@[i].name@, #[trigger] out@[j].name@) by {
                if j < pos {
                    assert(out@[i] == o0[i] && out@[j] == o0[j]);
                } else if j == pos {
                    assert(out@[i] == o0[i]);
                } else if i == pos {
                    assert(out@[j] == o0[j - 1]);
                } else if i < pos {
                    assert(out@[i] == o0[i] && out@[j] == o0[j - 1]);
                    lemma_name_le_transitive(o0[i].name@, e.name@, o0[j - 1].name@);
                } else {
                    assert(out@[i] == o0[i - 1] && out@[j] == o0[j - 1]);
                }
            }
            vstd::seq_lib::to_multiset_build(rest@, eg);
            vstd::seq_lib::to_multiset_insert(o0, pos as int, eg);
            assert(rest@.to_multiset().add(out@.to_multiset()) =~= r0.to_multiset().add(o0.to_multiset()));
        }
    }
    proof {
        vstd::multiset::lemma_multiset_empty_len::<DirEntryInfo>(rest@.to_multiset());
        assert(rest@.to_multiset().add(out@.to_multiset()) =~= out@.to_multiset());
    }
    out
}

/// The manifests of a plugin directory's entries: `plugin.toml` of each
/// subdirectory that has one, and each manifest file, in name order.
pub fn manifest_paths(dir: &str, entries: Vec<DirEntryInfo>) -> (r: Vec<String>)
    ensures
        exists|s: Seq<DirEntryInfo>|
            s.to_multiset() == entries@.to_multiset() && sorted_by_name(s)
            && #[trigger] entry_manifests(dir@, s) == r@.map_values(|p: String| p@),
{
    let sorted = sort_by_name(entries);
    let mut out: Vec<String> = Vec::new();
    let mut i: usize = 0;
    while i < sorted.len()
        invariant
            i <= sorted@.len(),
            entry_manifests(dir@, sorted@.take(i as int)) == out@.map_values(|p: String| p@),
        decreases sorted@.len() - i,
    {
        let e = &sorted[i];
        let p = crate::path::join(dir, e.name.as_str());
        let ghost before = out@;
        proof {
            assert(sorted@.take(i + 1).drop_last() =~= sorted@.take(i as int));
            assert(sorted@.take(i + 1).last() == *e);
        }
        if e.is_dir {
            if e.has_manifest {
                let m = crate::path::join(p.as_str(), "plugin.toml");
                out.push(m);
                assert(out@.map_values(|p: String| p@) =~= before.map_values(|p: String| p@).push(m@));
            }
        } else if e.is_file && is_manifest_path(p.as_str()) {
            out.push(p);
            assert(out@.map_values(|p: String| p@) =~= before.map_values(|p: String| p@).push(p@));
        }
        i = i + 1;
    }
    assert(sorted@.take(sorted@.len() as int) =~= sorted@);
    out
}

/// Whether a manifest file is read as TOML.
pub fn is_toml_path(path: &str) -> (r: bool)
    ensures r == is_toml_manifest(path@),
{
    let p = chars_of(path);
    let e = extension_of(&p);
    let toml_ext = match e {
        Some(x) => chars_equal(&x, "toml"),
        None => false,
    };
    if toml_ext {
        return true;
    }
    let f = file_name_of(&p);
    chars_equal(&f, "plugin.toml")
}

/// The id of a discovered plugin.
pub open spec fn pid(p: DiscoveredPlugin) -> Seq<char> {
    p.config.id@
}

/// Some element before index `k` has this id.
pub open spec fn id_before(ps: Seq<DiscoveredPlugin>, k: int, id: Seq<char>) -> bool {
    exists|j: int| 0 <= j < k && #[trigger] pid(ps[j]) == id
}

/// The plugins whose id did not occur before them: the first of each id wins.
pub open spec fn first_of_each_id(ps: Seq<DiscoveredPlugin>) -> Seq<DiscoveredPlugin>
    decreases ps.len(),
{
    if ps.len() == 0 {
        seq![]
    } else {
        first_of_each_id(ps.drop_last()) + if id_before(ps, ps.len() - 1, pid(ps.last())) { seq![] } else { seq![ps.last()] }
    }
}

/// The manifests read in order: the first read error ends discovery; else
/// the plugins, the first of each id kept.
pub open spec fn spec_discover(ms: Seq<(String, Result<PluginToml, Error>)>) -> Result<Seq<DiscoveredPlugin>, Error>
    decreases ms.len(),
{
    if ms.len() == 0 {
        Ok(seq![])
    } else {
        match spec_discover(ms.drop_last()) {
            Err(e) => Err(e),
            Ok(prev) => match ms.last().1 {
                Err(e) => Err(e),
                Ok(cfg) => Ok(prev.push(DiscoveredPlugin { config: cfg, source: ms.last().0 })),
            },
        }
    }
}

/// Plugin discovery over the manifests found in the plugin directories, in
/// search order, each with its source path and what reading it gave: the
/// first read error is returned; otherwise the plugins, where a later
/// manifest with an id already seen is skipped.
pub fn discover_plugins_with_catalog(manifests: Vec<(String, Result<PluginToml, Error>)>) -> (r: Result<Vec<DiscoveredPlugin>, Error>)
    ensures
        match spec_discover(manifests@) {
            Err(e) => r == Err::<Vec<DiscoveredPlugin>, Error>(e),
            Ok(all) => r matches Ok(out) && out@ == first_of_each_id(all),
        },
{
    let mut all: Vec<DiscoveredPlugin> = Vec::new();
    let ghost orig = manifests@;
    let mut rest = manifests;
    assert(rest@ == orig);
    assert(orig.subrange(0, orig.len() as int) =~= orig);
    assert(orig.take(0) =~= Seq::<(String, Result<PluginToml, Error>)>::empty());
    while rest.len() > 0
        invariant
            orig == manifests@,
            rest@.len() <= orig.len(),
            rest@ == orig.subrange(orig.len() - rest@.len(), orig.len() as int),
            spec_discover(orig.take(orig.len() - rest@.len())) == Ok::<Seq<DiscoveredPlugin>, Error>(all@),
        decreases rest@.len(),
    {
        let ghost k = orig.len() - rest@.len();
        let item = rest.remove(0);
        assert(item == orig[k]);
        let (source, res) = item;
        proof {
            assert(orig.take(k + 1).drop_last() =~= orig.take(k));
            assert(orig.take(k + 1).last() == orig[k]);
        }
        match res {
            Err(e) => {
                proof {
                    assert(res == orig[k].1);
                    assert(spec_discover(orig.take(k + 1)) == Err::<Seq<DiscoveredPlugin>, Error>(e));
                    lemma_discover_err_stays(orig, k + 1);
                }
                return Err(e);
            },
            Ok(cfg) => {
                all.push(DiscoveredPlugin { config: cfg, source });
            },
        }
    }
    assert(orig.take(orig.len() as int) =~= orig);
    Ok(keep_first_ids(all))
}

proof fn lemma_discover_err_stays(ms: Seq<(String, Result<PluginToml, Error>)>, k: int)
    requires
        0 <= k <= ms.len(),
        spec_discover(ms.take(k)) is Err,
    ensures
        spec_discover(ms) == spec_discover(ms.take(k)),
    decreases ms.len() - k,
{
    if k < ms.len() {
        assert(ms.take(k + 1).drop_last() =~= ms.take(k));
        lemma_discover_err_stays(ms, k + 1);
    } else {
        assert(ms.take(k) =~= ms);
    }
}

pub open spec fn ids_of(v: Seq<String>) -> Seq<Seq<char>> {
    v.map_values(|s: String| s@)
}

/// Whether an id occurs in `ids`.
fn has_id(ids: &Vec<String>, id: &String) -> (r: bool)
    ensures r == ids_of(ids@).contains(id@),
{
    let mut i: usize = 0;
    while i < ids.len()
        invariant
            i <= ids@.len(),
            forall|j: int| 0 <= j < i ==> ids@[j]@ != id@,
        decreases ids.len() - i,
    {
        if ids[i] == *id {
            assert(ids_of(ids@)[i as int] == id@);
            return true;
        }
        i = i + 1;
    }
    proof {
        if ids_of(ids@).contains(id@) {
            let j = choose|j: int| 0 <= j < ids@.len() && #[trigger] ids_of(ids@)[j] == id@;
            assert(ids@[j]@ == id@);
        }
    }
    false
}

/// The plugins in order, skipping any whose id came before.
fn keep_first_ids(ps: Vec<DiscoveredPlugin>) -> (r: Vec<DiscoveredPlugin>)
    ensures r@ == first_of_each_id(ps@),
{
    let mut out: Vec<DiscoveredPlugin> = Vec::new();
    let mut seen: Vec<String> = Vec::new();
    let mut rest = ps;
    let ghost orig = rest@;
    assert(orig.subrange(0, orig.len() as int) =~= orig);
    assert(orig.take(0) =~= Seq::<DiscoveredPlugin>::empty());
    while rest.len() > 0
        invariant
            rest@.len() <= orig.len(),
            rest@ == orig.subrange(orig.len() - rest@.len(), orig.len() as int),
            seen@.len() == orig.len() - rest@.len(),
            forall|j: int| 0 <= j < seen@.len() ==> #[trigger] seen@[j]@ == pid(orig[j]),
            out@ == first_of_each_id(orig.take(orig.len() - rest@.len())),
        decreases rest@.len(),
    {
        let ghost k = orig.len() - rest@.len();
        let p = rest.remove(0);
        assert(p == orig[k]);
        let dup = has_id(&seen, &p.config.id);
        proof {
            let t = orig.take(k + 1);
            assert(t.drop_last() =~= orig.take(k));
            assert(t.last() == orig[k]);
            if dup {
                let j = choose|j: int| 0 <= j < seen@.len() && #[trigger] ids_of(seen@)[j] == pid(p);
                assert(seen@[j]@ == pid(p));
                assert(t[j] == orig[j]);
                assert(id_before(t, k, pid(p)));
            } else {
                assert forall|j: int| 0 <= j < k implies #[trigger] pid(t[j]) != pid(p) by {
                    assert(t[j] == orig[j]);
                    assert(ids_of(seen@)[j] == seen@[j]@);
                }
            }
        }
        seen.push(p.config.id.clone());
        if !dup {
            out.push(p);
        }
    }
    assert(orig.take(orig.len() as int) =~= orig);
    out
}

/// In the plugins that discovery keeps, no id occurs twice.
pub proof fn lemma_first_of_each_id_distinct(ps: Seq<DiscoveredPlugin>)
    ensures
        forall|i: int, j: int| 0 <= i < j < first_of_each_id(ps).len()
            ==> pid(#[trigger] first_of_each_id(ps)[i]) != pid(#[trigger] first_of_each_id(ps)[j]),
    decreases ps.len(),
{
    if ps.len() > 0 {
        let prev = first_of_each_id(ps.drop_last());
        lemma_first_of_each_id_distinct(ps.drop_last());
        lemma_first_of_each_id_from(ps.drop_last());
        let r = first_of_each_id(ps);
        assert forall|i: int, j: int| 0 <= i < j < r.len() implies pid(#[trigger] r[i]) != pid(#[trigger] r[j]) by {
            if j == prev.len() {
                assert(r[j] == ps.last());
                assert(r[i] == prev[i]);
                let w = choose|w: int| 0 <= w < ps.drop_last().len() && ps.drop_last()[w] == prev[i];
                assert(ps[w] == prev[i]);
                if pid(prev[i]) == pid(ps.last()) {
                    assert(id_before(ps, ps.len() - 1, pid(ps.last())));
                }
            } else {
                assert(r[i] == prev[i] && r[j] == prev[j]);
            }
        }
    }
}

/// Every plugin discovery keeps is one of its inputs.
pub proof fn lemma_first_of_each_id_from(ps: Seq<DiscoveredPlugin>)
    ensures
        forall|i: int| 0 <= i < first_of_each_id(ps).len()
            ==> exists|w: int| 0 <= w < ps.len() && ps[w] == #[trigger] first_of_each_id(ps)[i],
    decreases ps.len(),
{
    if ps.len() > 0 {
        lemma_first_of_each_id_from(ps.drop_last());
        let prev = first_of_each_id(ps.drop_last());
        let r = first_of_each_id(ps);
        assert forall|i: int| 0 <= i < r.len() implies exists|w: int| 0 <= w < ps.len() && ps[w] == #[trigger] r[i] by {
            if i < prev.len() {
                assert(r[i] == prev[i]);
                let w = choose|w: int| 0 <= w < ps.drop_last().len() && ps.drop_last()[w] == prev[i];
                assert(ps[w] == r[i]);
            } else {
                assert(r[i] == ps[ps.len() - 1]);
            }
        }
    }
}

/// Every id among the inputs is kept: the first plugin with it.
pub proof fn lemma_first_of_each_id_keeps_ids(ps: Seq<DiscoveredPlugin>, w: int)
    requires
        0 <= w < ps.len(),
    ensures
        exists|i: int| 0 <= i < first_of_each_id(ps).len() && pid(#[trigger] first_of_each_id(ps)[i]) == pid(ps[w]),
    decreases ps.len(),
{
    let prev = first_of_each_id(ps.drop_last());
    let r = first_of_each_id(ps);
    if w < ps.len() - 1 {
        lemma_first_of_each_id_keeps_ids(ps.drop_last(), w);
        let i = choose|i: int| 0 <= i < prev.len() && pid(#[trigger] prev[i]) == pid(ps.drop_last()[w]);
        assert(r[i] == prev[i]);
    } else if id_before(ps, ps.len() - 1, pid(ps.last())) {
        let j = choose|j: int| 0 <= j < ps.len() - 1 && #[trigger] pid(ps[j]) == pid(ps.last());
        assert(ps.drop_last()[j] == ps[j]);
        lemma_first_of_each_id_keeps_ids(ps.drop_last(), j);
        let i = choose|i: int| 0 <= i < prev.len() && pid(#[trigger] prev[i]) == pid(ps.drop_last()[j]);
        assert(r[i] == prev[i]);
    } else {
        assert(r[prev.len() as int] == ps.last());
    }
}

/// Identifier of a tool server (a plugin id).
#[derive(Debug, Clone)]
pub struct McpServerId(pub String);

/// Identifier of a tool: `namespace.name`.
#[derive(Debug, Clone)]
pub struct McpToolId(pub String);

impl McpServerId {
    pub fn new(s: String) -> (r: McpServerId)
        ensures r.0 == s,
    {
        McpServerId(s)
    }
}

impl McpToolId {
    pub fn new(s: String) -> (r: McpToolId)
        ensures r.0 == s,
    {
        McpToolId(s)
    }
}

/// What the tool host publishes about a plugin's server.
#[derive(Debug, Clone)]
pub struct McpServerDescriptor {
    pub id: McpServerId,
    pub namespace: String,
    pub display_name: String,
    pub enabled: bool,
    pub source: Option<String>,
    pub default_tool_mode_hint: Option<String>,
    pub notes: Option<String>,
}

/// What the tool host publishes about a tool; `schema` is JSON text.
#[derive(Debug, Clone)]
pub struct ToolDescriptor {
    pub id: McpToolId,
    pub display_name: String,
    pub schema: String,
    pub capabilities_hint: Vec<String>,
}

/// A tool as a plugin lists it; `input_schema` is JSON text.
#[derive(Debug, Clone)]
pub struct ListToolsItem {
    pub name: String,
    pub description: String,
    pub input_schema: String,
}

/// A tool's id: its name when it already has a `.`, else `namespace.name`.
pub open spec fn spec_tool_id(namespace: Seq<char>, name: Seq<char>) -> Seq<char> {
    if name.contains('.') { name } else { namespace + "."@ + name }
}

pub fn canonical_tool_id(namespace: &str, tool_name: &str) -> (r: McpToolId)
    ensures r.0@ == spec_tool_id(namespace@, tool_name@),
{
    let n = chars_of(tool_name);
    if contains_char(n.as_slice(), '.') {
        McpToolId::new(String::from_str(tool_name))
    } else {
        let mut v = chars_of(namespace);
        push_str(&mut v, ".");
        extend_all(&mut v, n.as_slice());
        McpToolId::new(string_from_chars(v.as_slice()))
    }
}

/// The server descriptor of a plugin: its id, namespace, display name (the
/// id when none is given), enabled flag, source file and policy hints.
pub fn server_descriptor_from_plugin(p: &DiscoveredPlugin) -> (r: McpServerDescriptor)
    ensures
        r.id.0 == p.config.id,
        r.namespace == p.config.namespace,
        r.display_name == (match p.config.display_name { Some(d) => d, None => p.config.id }),
        r.enabled == p.config.enabled,
        r.source == Some(p.source),
        r.default_tool_mode_hint == p.config.policy.default_tool_mode,
        r.notes == p.config.policy.notes,
{
    let cfg = &p.config;
    let display_name = match &cfg.display_name {
        Some(d) => d.clone(),
        None => cfg.id.clone(),
    };
    let default_tool_mode_hint = match &cfg.policy.default_tool_mode {
        Some(m) => Some(m.clone()),
        None => None,
    };
    let notes = match &cfg.policy.notes {
        Some(n) => Some(n.clone()),
        None => None,
    };
    McpServerDescriptor {
        id: McpServerId::new(cfg.id.clone()),
        namespace: cfg.namespace.clone(),
        display_name,
        enabled: cfg.enabled,
        source: Some(p.source.clone()),
        default_tool_mode_hint,
        notes,
    }
}

/// The schema a tool gets when it lists none that is an object.
pub open spec fn empty_object_schema() -> Seq<char> {
    "{\"properties\":{},\"type\":\"object\"}"@
}

/// The descriptor of a listed tool: its canonical id, its description as
/// display name (the name when the description is blank), its schema when
/// that is a JSON object (else an empty object schema), and the plugin's
/// capability hints.
pub fn tool_descriptor_from_item(cfg: &PluginToml, item: ListToolsItem) -> (r: ToolDescriptor)
    ensures
        r.id.0@ == spec_tool_id(cfg.namespace@, item.name@),
        r.display_name@ == (if trim(item.description@).len() == 0 { item.name@ } else { item.description@ }),
        r.schema@ == (if json_value(item.input_schema@) matches Some(JsonNode::Object(_)) { item.input_schema@ } else { empty_object_schema() }),
        strs(r.capabilities_hint) == strs(cfg.policy.capabilities_hint),
{
    let id = canonical_tool_id(cfg.namespace.as_str(), item.name.as_str());
    let is_object = match parse_json_opt(item.input_schema.as_str()) {
        Some(JsonNode::Object(_)) => true,
        _ => false,
    };
    let schema = if is_object {
        item.input_schema
    } else {
        String::from_str("{\"properties\":{},\"type\":\"object\"}")
    };
    let dc = chars_of(item.description.as_str());
    let t = trim_chars(dc.as_slice());
    let display_name = if t.len() == 0 { item.name } else { item.description };
    let mut hints: Vec<String> = Vec::new();
    let mut i: usize = 0;
    while i < cfg.policy.capabilities_hint.len()
        invariant
            i <= cfg.policy.capabilities_hint@.len(),
            strs(hints) == strs(cfg.policy.capabilities_hint).take(i as int),
        decreases cfg.policy.capabilities_hint.len() - i,
    {
        let ghost before = hints@;
        hints.push(cfg.policy.capabilities_hint[i].clone());
        proof {
            assert(hints@ == before.push(cfg.policy.capabilities_hint@[i as int]));
            assert(strs(hints) =~= before.map_values(|s: String| s@).push(cfg.policy.capabilities_hint@[i as int]@));
            assert(strs(cfg.policy.capabilities_hint).take(i + 1) =~= strs(cfg.policy.capabilities_hint).take(i as int).push(cfg.policy.capabilities_hint@[i as int]@));
            assert(strs(hints) =~= strs(cfg.policy.capabilities_hint).take(i + 1));
        }
        i = i + 1;
    }
    assert(strs(cfg.policy.capabilities_hint).take(strs(cfg.policy.capabilities_hint).len() as int) =~= strs(cfg.policy.capabilities_hint));
    ToolDescriptor { id, display_name, schema, capabilities_hint: hints }
}

} // verus!
