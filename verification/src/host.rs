//! The decisions of the tool host that serves plugin tools: which plugin a
//! server id or a tool id leads to, which plugins may be used, and which
//! server and tool name each listed tool is called through. Starting the
//! plugin processes and talking to them is left to the caller.

use vstd::prelude::*;
use crate::error::Error;
use crate::logfmt::push_str;
use crate::plugins::{DiscoveredPlugin, McpServerId, McpToolId, ToolDescriptor};
use crate::text::{chars_of, string_from_chars};

verus! {

/// Where a listed tool is served: its server, and its name there.
#[derive(Debug, Clone)]
pub struct ToolBinding {
    pub server_id: McpServerId,
    pub tool_name: String,
}

/// The host's state: the plugins last discovered, and the tools listed so
/// far by id (each id at most once).
pub struct BridgeHost {
    pub plugins: Vec<DiscoveredPlugin>,
    pub bindings: Vec<(McpToolId, ToolBinding)>,
}

/// The index of the first plugin with the id.
pub open spec fn first_with_id(ps: Seq<DiscoveredPlugin>, id: Seq<char>, from: int) -> Option<int>
    decreases ps.len() - from,
{
    if from < 0 || from >= ps.len() {
        None
    } else if ps[from].config.id@ == id {
        Some(from)
    } else {
        first_with_id(ps, id, from + 1)
    }
}

/// The index of the first enabled plugin with the namespace.
pub open spec fn first_enabled_in(ps: Seq<DiscoveredPlugin>, ns: Seq<char>, from: int) -> Option<int>
    decreases ps.len() - from,
{
    if from < 0 || from >= ps.len() {
        None
    } else if ps[from].config.namespace@ == ns && ps[from].config.enabled {
        Some(from)
    } else {
        first_enabled_in(ps, ns, from + 1)
    }
}

/// The tool bindings by tool id: server id and tool name.
pub open spec fn bindings_map(b: Seq<(McpToolId, ToolBinding)>) -> Map<Seq<char>, (Seq<char>, Seq<char>)>
    decreases b.len(),
{
    if b.len() == 0 {
        Map::empty()
    } else {
        bindings_map(b.drop_last()).insert(b.last().0.0@, (b.last().1.server_id.0@, b.last().1.tool_name@))
    }
}

pub open spec fn keys_unique(b: Seq<(McpToolId, ToolBinding)>) -> bool {
    forall|i: int, j: int| 0 <= i < j < b.len() ==> b[i].0.0@ != b[j].0.0@
}

/// `m` with each listed tool bound to `server`, in order (a later tool with
/// the same id wins).
pub open spec fn bind_all(m: Map<Seq<char>, (Seq<char>, Seq<char>)>, server: Seq<char>, tools: Seq<(Seq<char>, Seq<char>)>) -> Map<Seq<char>, (Seq<char>, Seq<char>)>
    decreases tools.len(),
{
    if tools.len() == 0 {
        m
    } else {
        bind_all(m, server, tools.drop_last()).insert(tools.last().0, (server, tools.last().1))
    }
}

/// The listed tools by id and name at the server.
pub open spec fn listed(tools: Seq<(ToolDescriptor, String)>) -> Seq<(Seq<char>, Seq<char>)> {
    tools.map_values(|t: (ToolDescriptor, String)| (t.0.id.0@, t.1@))
}

/// The part of a tool id before its first `.` (all of it when it has none).
pub open spec fn namespace_of(id: Seq<char>) -> Seq<char>
    decreases id.len(),
{
    if id.len() == 0 {
        seq![]
    } else if id.last() == '.' && !id.drop_last().contains('.') {
        id.drop_last()
    } else if id.contains('.') {
        namespace_of(id.drop_last())
    } else {
        id
    }
}

pub open spec fn not_found_text(id: Seq<char>) -> Seq<char> {
    "plugin not found: "@ + id
}

pub open spec fn disabled_text(id: Seq<char>) -> Seq<char> {
    "plugin disabled: "@ + id + " (deny-by-default)"@
}

pub open spec fn not_registered_text(id: Seq<char>) -> Seq<char> {
    "tool not registered: "@ + id
}

/// Which plugin serves `server_id`, when it may be used (see
/// `BridgeHost::usable_plugin`).
pub open spec fn spec_usable(ps: Seq<DiscoveredPlugin>, server_id: Seq<char>) -> Result<int, Seq<char>> {
    match first_with_id(ps, server_id, 0) {
        None => Err(not_found_text(server_id)),
        Some(i) => if !ps[i].config.enabled { Err(disabled_text(server_id)) } else { Ok(i) },
    }
}

/// Where a call of `tool_id` goes: the server its binding names, else the
/// first enabled plugin of the id's namespace; the plugin must be usable;
/// the tool is called by its bound name, else by its id.
pub open spec fn call_server(ps: Seq<DiscoveredPlugin>, m: Map<Seq<char>, (Seq<char>, Seq<char>)>, tool_id: Seq<char>) -> Option<Seq<char>> {
    if m.contains_key(tool_id) {
        Some(m[tool_id].0)
    } else {
        match first_enabled_in(ps, namespace_of(tool_id), 0) {
            Some(i) => Some(ps[i].config.id@),
            None => None,
        }
    }
}

pub open spec fn spec_resolve_call(ps: Seq<DiscoveredPlugin>, m: Map<Seq<char>, (Seq<char>, Seq<char>)>, tool_id: Seq<char>) -> Result<(int, Seq<char>), Seq<char>> {
    match call_server(ps, m, tool_id) {
        None => Err(not_registered_text(tool_id)),
        Some(s) => match spec_usable(ps, s) {
            Err(e) => Err(e),
            Ok(i) => Ok((i, if m.contains_key(tool_id) { m[tool_id].1 } else { tool_id })),
        },
    }
}

proof fn lemma_first_with_id(ps: Seq<DiscoveredPlugin>, id: Seq<char>, from: int)
    ensures
        first_with_id(ps, id, from) matches Some(i) ==> from <= i < ps.len() && ps[i].config.id@ == id,
    decreases ps.len() - from,
{
    if 0 <= from < ps.len() && ps[from].config.id@ != id {
        lemma_first_with_id(ps, id, from + 1);
    }
}

proof fn lemma_first_enabled_in(ps: Seq<DiscoveredPlugin>, ns: Seq<char>, from: int)
    ensures
        first_enabled_in(ps, ns, from) matches Some(i) ==> from <= i < ps.len(),
    decreases ps.len() - from,
{
    if 0 <= from < ps.len() && !(ps[from].config.namespace@ == ns && ps[from].config.enabled) {
        lemma_first_enabled_in(ps, ns, from + 1);
    }
}

fn invalid_with(prefix: &str, id: &str) -> (e: Error)
    ensures e matches Error::InvalidArgument(m) && m@ == prefix@ + id@,
{
    let mut v = chars_of(prefix);
    push_str(&mut v, id);
    Error::InvalidArgument(string_from_chars(v.as_slice()))
}

fn invalid_text(prefix: &str, id: &str, suffix: &str) -> (e: Error)
    ensures e matches Error::InvalidArgument(m) && m@ == prefix@ + id@ + suffix@,
{
    let mut v = chars_of(prefix);
    push_str(&mut v, id);
    push_str(&mut v, suffix);
    Error::InvalidArgument(string_from_chars(v.as_slice()))
}

proof fn lemma_bindings_map_unique(b: Seq<(McpToolId, ToolBinding)>, k: int)
    requires
        keys_unique(b),
        0 <= k < b.len(),
    ensures
        bindings_map(b).contains_key(b[k].0.0@),
        bindings_map(b)[b[k].0.0@] == (b[k].1.server_id.0@, b[k].1.tool_name@),
    decreases b.len(),
{
    if k < b.len() - 1 {
        lemma_bindings_map_unique(b.drop_last(), k);
        assert(b.drop_last()[k] == b[k]);
        assert(b.last().0.0@ != b[k].0.0@);
    }
}

proof fn lemma_bindings_map_absent(b: Seq<(McpToolId, ToolBinding)>, key: Seq<char>)
    requires
        forall|i: int| 0 <= i < b.len() ==> b[i].0.0@ != key,
    ensures
        !bindings_map(b).contains_key(key),
    decreases b.len(),
{
    if b.len() > 0 {
        lemma_bindings_map_absent(b.drop_last(), key);
    }
}

proof fn lemma_bindings_map_update(b: Seq<(McpToolId, ToolBinding)>, k: int, e: (McpToolId, ToolBinding))
    requires
        keys_unique(b),
        0 <= k < b.len(),
        e.0.0@ == b[k].0.0@,
    ensures
        keys_unique(b.update(k, e)),
        bindings_map(b.update(k, e)) =~= bindings_map(b).insert(e.0.0@, (e.1.server_id.0@, e.1.tool_name@)),
    decreases b.len(),
{
    let u = b.update(k, e);
    if k == b.len() - 1 {
        assert(u.drop_last() =~= b.drop_last());
        assert forall|i: int| 0 <= i < b.len() - 1 implies b[i].0.0@ != b.last().0.0@ by {}
        lemma_bindings_map_absent(b.drop_last(), b.last().0.0@);
    } else {
        lemma_bindings_map_update(b.drop_last(), k, e);
        assert(u.drop_last() =~= b.drop_last().update(k, e));
        assert(b.last().0.0@ != e.0.0@);
    }
}

impl BridgeHost {
    pub fn new() -> (r: BridgeHost)
        ensures
            r.plugins@.len() == 0,
            r.bindings@.len() == 0,
    {
        BridgeHost { plugins: Vec::new(), bindings: Vec::new() }
    }

    pub open spec fn wf(&self) -> bool {
        keys_unique(self.bindings@)
    }

    /// Whether the plugins must be discovered (none are known yet).
    pub fn needs_refresh(&self) -> (r: bool)
        ensures r == (self.plugins@.len() == 0),
    {
        self.plugins.len() == 0
    }

    /// Replaces the known plugins with a new discovery.
    pub fn refresh(&mut self, plugins: Vec<DiscoveredPlugin>)
        ensures
            final(self).plugins@ == plugins@,
            final(self).bindings@ == old(self).bindings@,
    {
        self.plugins = plugins;
    }

    /// The index of the first known plugin with the id.
    pub fn plugin_by_id(&self, id: &str) -> (r: Option<usize>)
        ensures
            match r {
                Some(j) => first_with_id(self.plugins@, id@, 0) == Some(j as int),
                None => first_with_id(self.plugins@, id@, 0) is None,
            },
            r matches Some(i) ==> i < self.plugins@.len(),
    {
        proof { lemma_first_with_id(self.plugins@, id@, 0); }
        let target = String::from_str(id);
        let mut i: usize = 0;
        while i < self.plugins.len()
            invariant
                i <= self.plugins@.len(),
                target@ == id@,
                first_with_id(self.plugins@, id@, i as int) == first_with_id(self.plugins@, id@, 0),
            decreases self.plugins.len() - i,
        {
            if self.plugins[i].config.id == target {
                return Some(i);
            }
            i = i + 1;
        }
        None
    }

    /// The plugin serving `server_id` (its index), or why it cannot be used:
    /// none has the id, or it is not enabled.
    pub fn usable_plugin(&self, server_id: &str) -> (r: Result<usize, Error>)
        ensures
            match spec_usable(self.plugins@, server_id@) {
                Ok(i) => r matches Ok(j) && j == i,
                Err(m) => r matches Err(Error::InvalidArgument(x)) && x@ == m,
            },
    {
        proof { lemma_first_with_id(self.plugins@, server_id@, 0); }
        match self.plugin_by_id(server_id) {
            None => Err(invalid_with("plugin not found: ", server_id)),
            Some(i) => {
                if !self.plugins[i].config.enabled {
                    Err(invalid_text("plugin disabled: ", server_id, " (deny-by-default)"))
                } else {
                    Ok(i)
                }
            },
        }
    }

    fn binding_index(&self, tool_id: &str) -> (r: Option<usize>)
        requires self.wf(),
        ensures
            match r {
                Some(k) => k < self.bindings@.len() && self.bindings@[k as int].0.0@ == tool_id@,
                None => forall|i: int| 0 <= i < self.bindings@.len() ==> self.bindings@[i].0.0@ != tool_id@,
            },
    {
        let target = String::from_str(tool_id);
        let mut i: usize = 0;
        while i < self.bindings.len()
            invariant
                i <= self.bindings@.len(),
                target@ == tool_id@,
                forall|j: int| 0 <= j < i ==> self.bindings@[j].0.0@ != tool_id@,
            decreases self.bindings.len() - i,
        {
            if self.bindings[i].0.0 == target {
                return Some(i);
            }
            i = i + 1;
        }
        None
    }

    /// Where a listed tool is served, if it was listed.
    pub fn binding_for_tool_id(&self, tool_id: &str) -> (r: Option<(String, String)>)
        requires self.wf(),
        ensures
            bindings_map(self.bindings@).contains_key(tool_id@) ==> (r matches Some((s, n))
                && (s@, n@) == bindings_map(self.bindings@)[tool_id@]),
            !bindings_map(self.bindings@).contains_key(tool_id@) ==> r is None,
    {
        match self.binding_index(tool_id) {
            Some(k) => {
                proof { lemma_bindings_map_unique(self.bindings@, k as int); }
                let b = &self.bindings[k].1;
                Some((b.server_id.0.clone(), b.tool_name.clone()))
            },
            None => {
                proof { lemma_bindings_map_absent(self.bindings@, tool_id@); }
                None
            },
        }
    }

    /// Records the tools a server listed (each by the name the server gave
    /// it) and gives back their descriptors.
    pub fn record_tools(&mut self, server_id: &str, tools: Vec<(ToolDescriptor, String)>) -> (r: Vec<ToolDescriptor>)
        requires old(self).wf(),
        ensures
            final(self).wf(),
            final(self).plugins@ == old(self).plugins@,
            bindings_map(final(self).bindings@) == bind_all(bindings_map(old(self).bindings@), server_id@, listed(tools@)),
            r@ == tools@.map_values(|t: (ToolDescriptor, String)| t.0),
    {
        let ghost m0 = bindings_map(self.bindings@);
        let ghost all = tools@;
        let n = tools.len();
        let mut out: Vec<ToolDescriptor> = Vec::new();
        let mut rest = tools;
        let mut i: usize = 0;
        while rest.len() > 0
            invariant
                self.wf(),
                self.plugins@ == old(self).plugins@,
                i + rest@.len() == all.len(),
                all.len() == n,
                rest@ == all.subrange(i as int, all.len() as int),
                bindings_map(self.bindings@) == bind_all(m0, server_id@, listed(all.take(i as int))),
                out@ == all.take(i as int).map_values(|t: (ToolDescriptor, String)| t.0),
            decreases rest@.len(),
        {
            let (t, name) = rest.remove(0);
            let key = t.id.0.clone();
            let binding = ToolBinding { server_id: McpServerId::new(String::from_str(server_id)), tool_name: name };
            let entry = (McpToolId::new(key.clone()), binding);
            let ghost before = self.bindings@;
            match self.binding_index(key.as_str()) {
                Some(k) => {
                    self.bindings.set(k, entry);
                    proof { lemma_bindings_map_update(before, k as int, entry); }
                },
                None => {
                    self.bindings.push(entry);
                    proof {
                        assert(self.bindings@.drop_last() =~= before);
                        assert forall|a: int, b: int| 0 <= a < b < self.bindings@.len() implies
                            self.bindings@[a].0.0@ != self.bindings@[b].0.0@ by {
                            if b < before.len() {
                                assert(self.bindings@[a] == before[a] && self.bindings@[b] == before[b]);
                            }
                        }
                    }
                },
            }
            let ghost before_out = out@;
            out.push(t);
            proof {
                assert(all[i as int] == (t, name));
                assert(listed(all.take(i + 1)).drop_last() =~= listed(all.take(i as int)));
                assert(listed(all.take(i + 1)).last() == (t.id.0@, name@));
                assert(out@ =~= all.take(i + 1).map_values(|t: (ToolDescriptor, String)| t.0));
            }
            i = i + 1;
        }
        assert(all.take(i as int) =~= all);
        out
    }

    fn first_enabled_in_exec(&self, ns: &[char]) -> (r: Option<usize>)
        ensures
            match r {
                Some(j) => first_enabled_in(self.plugins@, ns@, 0) == Some(j as int),
                None => first_enabled_in(self.plugins@, ns@, 0) is None,
            },
            r matches Some(i) ==> i < self.plugins@.len(),
    {
        proof { lemma_first_enabled_in(self.plugins@, ns@, 0); }
        let target = string_from_chars(ns);
        let mut i: usize = 0;
        while i < self.plugins.len()
            invariant
                i <= self.plugins@.len(),
                target@ == ns@,
                first_enabled_in(self.plugins@, ns@, i as int) == first_enabled_in(self.plugins@, ns@, 0),
            decreases self.plugins.len() - i,
        {
            if self.plugins[i].config.namespace == target && self.plugins[i].config.enabled {
                return Some(i);
            }
            i = i + 1;
        }
        None
    }

    /// Where a call of `tool_id` goes (see `spec_resolve_call`): the plugin
    /// (its index) and the name to call the tool by.
    pub fn resolve_call(&self, tool_id: &str) -> (r: Result<(usize, String), Error>)
        requires self.wf(),
        ensures
            match spec_resolve_call(self.plugins@, bindings_map(self.bindings@), tool_id@) {
                Ok((i, name)) => r matches Ok((j, n)) && j == i && n@ == name,
                Err(m) => r matches Err(Error::InvalidArgument(x)) && x@ == m,
            },
    {
        let binding = self.binding_for_tool_id(tool_id);
        let ghost m = bindings_map(self.bindings@);
        let mut server: Option<String> = None;
        if let Some((s, _)) = &binding {
            server = Some(s.clone());
            assert(m.contains_key(tool_id@));
        } else {
            assert(!m.contains_key(tool_id@));
            let c = chars_of(tool_id);
            let ns = namespace_chars(c.as_slice());
            proof { lemma_first_enabled_in(self.plugins@, namespace_of(tool_id@), 0); }
            match self.first_enabled_in_exec(ns.as_slice()) {
                Some(i) => {
                    server = Some(self.plugins[i].config.id.clone());
                },
                None => {},
            }
        }
        assert(match server { Some(x) => Some(x@), None => None::<Seq<char>> }
            == call_server(self.plugins@, m, tool_id@));
        let server = match server {
            Some(s) => s,
            None => return Err(invalid_with("tool not registered: ", tool_id)),
        };
        let i = match self.usable_plugin(server.as_str()) {
            Ok(i) => i,
            Err(e) => return Err(e),
        };
        let name = match binding {
            Some((_, n)) => n,
            None => String::from_str(tool_id),
        };
        Ok((i, name))
    }
}

/// The characters of `id` before its first `.` (all of them when it has none).
fn namespace_chars(id: &[char]) -> (r: Vec<char>)
    ensures r@ == namespace_of(id@),
{
    let mut k: usize = 0;
    while k < id.len() && id[k] != '.'
        invariant
            k <= id@.len(),
            forall|j: int| 0 <= j < k ==> id@[j] != '.',
        decreases id.len() - k,
    {
        k = k + 1;
    }
    proof { lemma_namespace_of(id@, k as int); }
    crate::text::slice_to_vec(id, 0, k)
}

/// `namespace_of` is the prefix before the first `.`.
proof fn lemma_namespace_of(s: Seq<char>, k: int)
    requires
        0 <= k <= s.len(),
        forall|j: int| 0 <= j < k ==> s[j] != '.',
        k < s.len() ==> s[k] == '.',
    ensures
        namespace_of(s) == s.take(k),
    decreases s.len(),
{
    if s.len() == 0 {
        assert(s.take(k) =~= seq![]);
    } else if k == s.len() {
        assert(!s.contains('.'));
        assert(s.take(k) =~= s);
    } else if k == s.len() - 1 {
        assert(s.last() == '.');
        assert(!s.drop_last().contains('.'));
        assert(s.take(k) =~= s.drop_last());
    } else {
        assert(s[k] == '.');
        assert(s.contains('.'));
        assert(s.last() != '.' || s.drop_last().contains('.')) by {
            assert(s.drop_last()[k] == '.');
        }
        lemma_namespace_of(s.drop_last(), k);
        assert(s.drop_last().take(k) =~= s.take(k));
    }
}

} // verus!
