use vstd::prelude::*;

use crate::naming::{
    contains_sep, lemma_first_sep_after_server, lemma_qualified_splits, plain_server_name,
    plain_tool_name, qualified, qualify, sep_at, splits_at,
};
use crate::types::{has_key, keys_unique, ProxyServerConfig};

verus! {

/// A tool as a downstream server describes it. The schemas are JSON text and
/// are passed on untouched.
#[derive(Debug, PartialEq, Eq)]
pub struct Tool {
    pub name: String,
    pub description: Option<String>,
    pub input_schema: String,
    pub output_schema: Option<String>,
}

/// A resource as a downstream server describes it; passed on untouched.
#[derive(Debug, PartialEq, Eq)]
pub struct Resource {
    pub uri: String,
    pub name: String,
    pub description: Option<String>,
    pub mime_type: Option<String>,
}

fn copy_text(o: &Option<String>) -> (r: Option<String>)
    ensures
        r == *o,
{
    match o {
        Some(s) => Some(s.clone()),
        None => None,
    }
}

impl Tool {
    /// Everything but the name.
    pub open spec fn same_but_name(&self, other: Tool) -> bool {
        &&& self.description == other.description
        &&& self.input_schema == other.input_schema
        &&& self.output_schema == other.output_schema
    }

    /// A copy of this tool under another name.
    pub fn renamed(&self, name: String) -> (r: Tool)
        ensures
            r.name == name,
            r.same_but_name(*self),
    {
        Tool {
            name,
            description: copy_text(&self.description),
            input_schema: self.input_schema.clone(),
            output_schema: copy_text(&self.output_schema),
        }
    }

    /// A copy of this tool.
    pub fn duplicate(&self) -> (r: Tool)
        ensures
            r == *self,
    {
        self.renamed(self.name.clone())
    }
}

impl Resource {
    /// A copy of this resource.
    pub fn duplicate(&self) -> (r: Resource)
        ensures
            r == *self,
    {
        Resource {
            uri: self.uri.clone(),
            name: self.name.clone(),
            description: copy_text(&self.description),
            mime_type: copy_text(&self.mime_type),
        }
    }
}

/// The lists of all servers, one after the other, in the order of the servers.
pub open spec fn flatten<X>(entries: Seq<(String, Vec<X>)>) -> Seq<X>
    decreases entries.len(),
{
    if entries.len() == 0 {
        seq![]
    } else {
        flatten(entries.drop_last()) + entries.last().1@
    }
}

/// Each listed tool with the name of the server it came from, in listing order.
pub open spec fn tool_origins(entries: Seq<(String, Vec<Tool>)>) -> Seq<(Seq<char>, Tool)>
    decreases entries.len(),
{
    if entries.len() == 0 {
        seq![]
    } else {
        tool_origins(entries.drop_last()) + entries.last().1@.map_values(
            |t: Tool| (entries.last().0@, t),
        )
    }
}

/// `listed` is the aggregated tool list of `entries`: every tool of every
/// server, in order, renamed to `<server>---<tool>` and otherwise unchanged.
pub open spec fn lists_tools(entries: Seq<(String, Vec<Tool>)>, listed: Seq<Tool>) -> bool {
    &&& listed.len() == tool_origins(entries).len()
    &&& forall|i: int| 0 <= i < listed.len() ==> #[trigger] listed[i].name@ == qualified(
        tool_origins(entries)[i].0,
        tool_origins(entries)[i].1.name@,
    ) && listed[i].same_but_name(tool_origins(entries)[i].1)
}

/// Some tool in `tools` is named `name`.
pub open spec fn offers_tool(tools: Seq<Tool>, name: Seq<char>) -> bool {
    exists|j: int| 0 <= j < tools.len() && #[trigger] tools[j].name@ == name
}

/// The catalogue gathered from the downstream servers: for each server, in
/// order, the tools and the resources it listed.
#[derive(Debug, PartialEq, Eq)]
pub struct McpCache {
    pub tools: Vec<(String, Vec<Tool>)>,
    pub resources: Vec<(String, Vec<Resource>)>,
}

impl McpCache {
    /// Server names are keys in both tables.
    pub open spec fn wf(&self) -> bool {
        keys_unique(self.tools@) && keys_unique(self.resources@)
    }

    /// Both tables have one entry per configured server, in the
    /// configuration's order.
    pub open spec fn covers(&self, config: ProxyServerConfig) -> bool {
        &&& self.tools@.len() == config.servers@.len()
        &&& self.resources@.len() == config.servers@.len()
        &&& forall|i: int|
            0 <= i < config.servers@.len() ==> #[trigger] self.tools@[i].0@
                == config.servers@[i].0@ && self.resources@[i].0@ == config.servers@[i].0@
    }

    /// A catalogue with no server in it.
    pub fn empty() -> (r: McpCache)
        ensures
            r.tools@.len() == 0,
            r.resources@.len() == 0,
    {
        McpCache { tools: Vec::new(), resources: Vec::new() }
    }

    /// The catalogue after the start-up probe. `tools[i]` and `resources[i]`
    /// are what server `i` of the configuration answered, `None` where it
    /// could not be reached or its answer could not be read; such a server
    /// gets an empty entry and the others are kept as they came.
    pub fn from_probe(
        config: &ProxyServerConfig,
        tools: Vec<Option<Vec<Tool>>>,
        resources: Vec<Option<Vec<Resource>>>,
    ) -> (r: McpCache)
        requires
            config.wf(),
            tools@.len() == config.servers@.len(),
            resources@.len() == config.servers@.len(),
        ensures
            r.wf(),
            r.covers(*config),
            forall|i: int|
                0 <= i < config.servers@.len() ==> #[trigger] r.tools@[i].1@ == match tools@[i] {
                    Some(v) => v@,
                    None => Seq::<Tool>::empty(),
                } && r.resources@[i].1@ == match resources@[i] {
                    Some(v) => v@,
                    None => Seq::<Resource>::empty(),
                },
    {
        let mut tools = tools;
        let mut resources = resources;
        let ghost tools0 = tools@;
        let ghost resources0 = resources@;
        let mut tool_table: Vec<(String, Vec<Tool>)> = Vec::new();
        let mut resource_table: Vec<(String, Vec<Resource>)> = Vec::new();
        let n = config.servers.len();
        let mut i: usize = 0;
        while i < n
            invariant
                n == config.servers@.len(),
                i <= n,
                tools@.len() == n - i,
                resources@.len() == n - i,
                forall|k: int| 0 <= k < n - i ==> #[trigger] tools@[k] == tools0[k + i as int],
                forall|k: int|
                    0 <= k < n - i ==> #[trigger] resources@[k] == resources0[k + i as int],
                tool_table@.len() == i,
                resource_table@.len() == i,
                forall|k: int|
                    0 <= k < i ==> #[trigger] tool_table@[k].0@ == config.servers@[k].0@
                        && resource_table@[k].0@ == config.servers@[k].0@
                        && tool_table@[k].1@ == match tools0[k] {
                        Some(v) => v@,
                        None => Seq::<Tool>::empty(),
                    } && resource_table@[k].1@ == match resources0[k] {
                        Some(v) => v@,
                        None => Seq::<Resource>::empty(),
                    },
            decreases n - i,
        {
            let name = config.servers[i].0.clone();
            let t = match tools.remove(0) {
                Some(v) => v,
                None => Vec::new(),
            };
            let r = match resources.remove(0) {
                Some(v) => v,
                None => Vec::new(),
            };
            tool_table.push((name.clone(), t));
            resource_table.push((name, r));
            i = i + 1;
        }
        let r = McpCache { tools: tool_table, resources: resource_table };
        proof {
            assert forall|a: int, b: int|
                0 <= a < r.tools@.len() && 0 <= b < r.tools@.len() && a != b implies #[trigger] r.tools@[a].0@
                != #[trigger] r.tools@[b].0@ by {
                assert(config.servers@[a].0@ != config.servers@[b].0@);
            }
            assert forall|a: int, b: int|
                0 <= a < r.resources@.len() && 0 <= b < r.resources@.len() && a != b implies #[trigger] r.resources@[a].0@
                != #[trigger] r.resources@[b].0@ by {
                assert(config.servers@[a].0@ != config.servers@[b].0@);
                assert(tool_table@[a].0@ == config.servers@[a].0@);
                assert(tool_table@[b].0@ == config.servers@[b].0@);
            }
            assert forall|k: int| 0 <= k < n implies #[trigger] r.tools@[k].1@ == match tools0[k] {
                Some(v) => v@,
                None => Seq::<Tool>::empty(),
            } && r.resources@[k].1@ == match resources0[k] {
                Some(v) => v@,
                None => Seq::<Resource>::empty(),
            } by {
                assert(tool_table@[k].0@ == config.servers@[k].0@);
            }
        }
        r
    }
}


impl McpCache {
    /// The tool list presented upstream: every tool of every server, servers
    /// in order and tools in the order the server gave, each renamed to
    /// `<server>---<tool>`.
    pub fn aggregate_tools(&self) -> (r: Vec<Tool>)
        ensures
            lists_tools(self.tools@, r@),
    {
        let mut out: Vec<Tool> = Vec::new();
        let mut i: usize = 0;
        while i < self.tools.len()
            invariant
                i <= self.tools@.len(),
                lists_tools(self.tools@.subrange(0, i as int), out@),
            decreases self.tools@.len() - i,
        {
            let ghost before = out@;
            let ghost prefix = self.tools@.subrange(0, i as int);
            let server = &self.tools[i].0;
            let list = &self.tools[i].1;
            let mut j: usize = 0;
            while j < list.len()
                invariant
                    j <= list@.len(),
                    out@.len() == before.len() + j,
                    forall|k: int| 0 <= k < before.len() ==> #[trigger] out@[k] == before[k],
                    forall|m: int|
                        before.len() <= m < out@.len() ==> #[trigger] out@[m].name@ == qualified(
                            server@,
                            list@[m - before.len()].name@,
                        ) && out@[m].same_but_name(list@[m - before.len()]),
                decreases list@.len() - j,
            {
                let t = list[j].renamed(qualify(server, &list[j].name));
                out.push(t);
                j = j + 1;
            }
            proof {
                let next = self.tools@.subrange(0, i + 1);
                assert(next.drop_last() =~= prefix);
                assert(next.last() == self.tools@[i as int]);
                assert(tool_origins(next) == tool_origins(prefix) + list@.map_values(
                    |t: Tool| (server@, t),
                ));
                assert forall|k: int| 0 <= k < out@.len() implies #[trigger] out@[k].name@
                    == qualified(tool_origins(next)[k].0, tool_origins(next)[k].1.name@)
                    && out@[k].same_but_name(tool_origins(next)[k].1) by {
                    if k < before.len() {
                        assert(tool_origins(next)[k] == tool_origins(prefix)[k]);
                        assert(out@[k] == before[k]);
                    } else {
                        let m = k - before.len();
                        assert(tool_origins(next)[k] == (server@, list@[m]));
                        assert(out@[k].name@ == qualified(server@, list@[m].name@));
                    }
                }
            }
            i = i + 1;
        }
        assert(self.tools@.subrange(0, self.tools@.len() as int) =~= self.tools@);
        out
    }

    /// The resource list presented upstream: every resource of every server,
    /// servers in order, unchanged.
    pub fn aggregate_resources(&self) -> (r: Vec<Resource>)
        ensures
            r@ == flatten(self.resources@),
    {
        let mut out: Vec<Resource> = Vec::new();
        let mut i: usize = 0;
        while i < self.resources.len()
            invariant
                i <= self.resources@.len(),
                out@ == flatten(self.resources@.subrange(0, i as int)),
            decreases self.resources@.len() - i,
        {
            let ghost before = out@;
            let list = &self.resources[i].1;
            let mut j: usize = 0;
            while j < list.len()
                invariant
                    j <= list@.len(),
                    out@ == before + list@.subrange(0, j as int),
                decreases list@.len() - j,
            {
                out.push(list[j].duplicate());
                j = j + 1;
                assert(out@ =~= before + list@.subrange(0, j as int));
            }
            proof {
                let next = self.resources@.subrange(0, i + 1);
                assert(next.drop_last() =~= self.resources@.subrange(0, i as int));
                assert(list@.subrange(0, j as int) =~= list@);
            }
            i = i + 1;
        }
        assert(self.resources@.subrange(0, self.resources@.len() as int) =~= self.resources@);
        out
    }

    /// The first server, in catalogue order, that offers a tool named `name`.
    pub fn find_tool_owner(&self, name: &String) -> (r: Option<usize>)
        ensures
            match r {
                Some(i) => i < self.tools@.len() && offers_tool(self.tools@[i as int].1@, name@)
                    && forall|j: int|
                    0 <= j < i ==> !offers_tool(#[trigger] self.tools@[j].1@, name@),
                None => forall|j: int|
                    0 <= j < self.tools@.len() ==> !offers_tool(#[trigger] self.tools@[j].1@, name@),
            },
    {
        let mut i: usize = 0;
        while i < self.tools.len()
            invariant
                i <= self.tools@.len(),
                forall|j: int| 0 <= j < i ==> !offers_tool(#[trigger] self.tools@[j].1@, name@),
            decreases self.tools@.len() - i,
        {
            let list = &self.tools[i].1;
            let mut k: usize = 0;
            while k < list.len()
                invariant
                    i < self.tools@.len(),
                    list@ == self.tools@[i as int].1@,
                    k <= list@.len(),
                    forall|j: int| 0 <= j < i ==> !offers_tool(#[trigger] self.tools@[j].1@, name@),
                    forall|m: int| 0 <= m < k ==> #[trigger] list@[m].name@ != name@,
                decreases list@.len() - k,
            {
                if list[k].name == *name {
                    assert(self.tools@[i as int].1@[k as int].name@ == name@);
                    return Some(i);
                }
                k = k + 1;
            }
            i = i + 1;
        }
        None
    }
}

/// Every listed tool comes from an entry of the catalogue.
proof fn lemma_origin_in_entries(entries: Seq<(String, Vec<Tool>)>, i: int)
    requires
        0 <= i < tool_origins(entries).len(),
    ensures
        exists|m: int| 0 <= m < entries.len() && #[trigger] entries[m].0@ == tool_origins(entries)[i].0,
    decreases entries.len(),
{
    let prev = entries.drop_last();
    if i < tool_origins(prev).len() {
        lemma_origin_in_entries(prev, i);
        let m = choose|m: int| 0 <= m < prev.len() && #[trigger] prev[m].0@ == tool_origins(prev)[i].0;
        assert(entries[m] == prev[m]);
    } else {
        assert(entries[entries.len() - 1].0@ == tool_origins(entries)[i].0);
    }
}

/// Listing the tools of the same catalogue twice gives the same names in the
/// same order, hence the same multiset of names.
pub proof fn lemma_listing_is_stable(cache: McpCache, first: Seq<Tool>, second: Seq<Tool>)
    requires
        lists_tools(cache.tools@, first),
        lists_tools(cache.tools@, second),
    ensures
        first.map_values(|t: Tool| t.name@) == second.map_values(|t: Tool| t.name@),
        first.map_values(|t: Tool| t.name@).to_multiset() == second.map_values(
            |t: Tool| t.name@,
        ).to_multiset(),
{
    assert(first.map_values(|t: Tool| t.name@) =~= second.map_values(|t: Tool| t.name@));
}

/// A catalogue without servers lists no tool.
pub proof fn lemma_no_servers_no_tools(cache: McpCache, listed: Seq<Tool>)
    requires
        cache.tools@.len() == 0,
        lists_tools(cache.tools@, listed),
    ensures
        listed.len() == 0,
{
}

/// The text of `name` before its first separator is a configured server.
pub open spec fn names_configured_server(config: ProxyServerConfig, name: Seq<char>) -> bool {
    exists|k: int|
        #[trigger] sep_at(name, k) && (forall|j: int| 0 <= j < k ==> !sep_at(name, j))
            && config.has_server(name.subrange(0, k))
}

/// Every listed name holds the separator, and the text before its first
/// separator is a configured server, provided no configured server name holds
/// the separator or ends in `-`.
pub proof fn lemma_listed_names_carry_server(
    config: ProxyServerConfig,
    cache: McpCache,
    listed: Seq<Tool>,
)
    requires
        cache.covers(config),
        lists_tools(cache.tools@, listed),
        forall|i: int|
            0 <= i < config.servers@.len() ==> !contains_sep(#[trigger] config.servers@[i].0@) && (
            config.servers@[i].0@.len() == 0 || config.servers@[i].0@.last() != '-'),
    ensures
        forall|i: int|
            0 <= i < listed.len() ==> names_configured_server(config, #[trigger] listed[i].name@),
{
    assert forall|i: int| 0 <= i < listed.len() implies names_configured_server(
        config,
        #[trigger] listed[i].name@,
    ) by {
        let server = tool_origins(cache.tools@)[i].0;
        let tool = tool_origins(cache.tools@)[i].1.name@;
        lemma_origin_in_entries(cache.tools@, i);
        let m = choose|m: int|
            0 <= m < cache.tools@.len() && #[trigger] cache.tools@[m].0@ == server;
        assert(cache.tools@[m].0@ == config.servers@[m].0@);
        assert(!contains_sep(config.servers@[m].0@));
        lemma_first_sep_after_server(server, tool);
        assert(listed[i].name@ == qualified(server, tool));
        let k = server.len() as int;
        assert(sep_at(listed[i].name@, k));
        assert(config.servers@[m].0@ == listed[i].name@.subrange(0, k));
    }
}

/// Splitting each listed name on the separator gives back the server it came
/// from and the tool's own name, so every tool of every server comes back
/// exactly once and in listing order, provided server names and tool names
/// are plain.
pub proof fn lemma_listing_splits_back(cache: McpCache, listed: Seq<Tool>)
    requires
        lists_tools(cache.tools@, listed),
        forall|i: int|
            0 <= i < tool_origins(cache.tools@).len() ==> plain_server_name(
                #[trigger] tool_origins(cache.tools@)[i].0,
            ) && plain_tool_name(tool_origins(cache.tools@)[i].1.name@),
    ensures
        forall|i: int|
            0 <= i < listed.len() ==> {
                let name = #[trigger] listed[i].name@;
                let server = tool_origins(cache.tools@)[i].0;
                &&& splits_at(name, server.len() as int)
                &&& name.subrange(0, server.len() as int) == server
                &&& name.subrange(server.len() as int + 3, name.len() as int) == tool_origins(
                    cache.tools@,
                )[i].1.name@
            },
{
    assert forall|i: int| 0 <= i < listed.len() implies {
        let name = #[trigger] listed[i].name@;
        let server = tool_origins(cache.tools@)[i].0;
        &&& splits_at(name, server.len() as int)
        &&& name.subrange(0, server.len() as int) == server
        &&& name.subrange(server.len() as int + 3, name.len() as int) == tool_origins(
            cache.tools@,
        )[i].1.name@
    } by {
        let server = tool_origins(cache.tools@)[i].0;
        let tool = tool_origins(cache.tools@)[i].1.name@;
        lemma_qualified_splits(server, tool);
    }
}

/// A catalogue that covers the configuration has a tool entry and a resource
/// entry, possibly empty, for every configured server.
pub proof fn lemma_every_server_cached(config: ProxyServerConfig, cache: McpCache, name: Seq<char>)
    requires
        cache.covers(config),
        config.has_server(name),
    ensures
        has_key(cache.tools@, name),
        has_key(cache.resources@, name),
{
    let i = choose|i: int| 0 <= i < config.servers@.len() && #[trigger] config.servers@[i].0@ == name;
    assert(cache.tools@[i].0@ == config.servers@[i].0@);
}

} // verus!
