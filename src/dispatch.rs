use vstd::prelude::*;

use crate::catalog::{offers_tool, McpCache};
use crate::naming::{is_prefixed, sep_at, split_qualified, splits_at};
use crate::types::{find_key, has_key, ProxyServerConfig};

verus! {

/// What the dispatcher reads of a request's `_meta` JSON: strings, objects
/// (fields in order) and everything else.
#[derive(Debug)]
pub enum MetaValue {
    Text(String),
    Object(Vec<(String, MetaValue)>),
    Other,
}

/// The key under which a request carries its environment overlay.
pub open spec fn env_vars_key() -> Seq<char> {
    seq!['e', 'n', 'v', '_', 'v', 'a', 'r', 's']
}

/// The first field of `fields` named `key`; the first index is the chosen one.
pub open spec fn first_key_at<X>(fields: Seq<(String, X)>, key: Seq<char>, i: int) -> bool {
    0 <= i < fields.len() && fields[i].0@ == key && forall|j: int|
        0 <= j < i ==> #[trigger] fields[j].0@ != key
}

/// The value of the first field named `key`, if any.
pub open spec fn field_value(fields: Seq<(String, MetaValue)>, key: Seq<char>) -> Option<
    MetaValue,
> {
    if has_key(fields, key) {
        Some(fields[choose|i: int| first_key_at(fields, key, i)].1)
    } else {
        None
    }
}

/// The fields whose value is a string, in order, as (name, value) pairs.
pub open spec fn text_entries(fields: Seq<(String, MetaValue)>) -> Seq<(String, String)>
    decreases fields.len(),
{
    if fields.len() == 0 {
        seq![]
    } else {
        text_entries(fields.drop_last()) + match fields.last().1 {
            MetaValue::Text(s) => seq![(fields.last().0, s)],
            _ => seq![],
        }
    }
}

/// The environment overlay a request asks for: present when `_meta` is an
/// object whose `env_vars` field is an object; it holds that object's string
/// fields and ignores the others.
pub open spec fn env_overlay(meta: Option<MetaValue>) -> Option<Seq<(String, String)>> {
    match meta {
        Some(MetaValue::Object(fields)) => match field_value(fields@, env_vars_key()) {
            Some(MetaValue::Object(vars)) => Some(text_entries(vars@)),
            _ => None,
        },
        _ => None,
    }
}

proof fn lemma_first_key_unique<X>(fields: Seq<(String, X)>, key: Seq<char>, i: int, j: int)
    requires
        first_key_at(fields, key, i),
        first_key_at(fields, key, j),
    ensures
        i == j,
{
    if i < j {
        assert(fields[i].0@ != key);
    } else if j < i {
        assert(fields[j].0@ != key);
    }
}

/// The environment overlay carried by a request's `_meta`.
pub fn get_env_vars(meta: &Option<MetaValue>) -> (r: Option<Vec<(String, String)>>)
    ensures
        match r {
            Some(v) => env_overlay(*meta) == Some(v@),
            None => env_overlay(*meta).is_none(),
        },
{
    let fields = match meta {
        Some(MetaValue::Object(fields)) => fields,
        _ => {
            return None;
        },
    };
    let key = String::from_str("env_vars");
    proof {
        reveal_strlit("env_vars");
        assert(key@ =~= env_vars_key());
    }
    let i = match find_key(fields, &key) {
        Some(i) => i,
        None => {
            return None;
        },
    };
    proof {
        assert(first_key_at(fields@, key@, i as int));
        let c = choose|c: int| first_key_at(fields@, env_vars_key(), c);
        lemma_first_key_unique(fields@, key@, i as int, c);
    }
    let vars = match &fields[i].1 {
        MetaValue::Object(vars) => vars,
        _ => {
            return None;
        },
    };
    let mut out: Vec<(String, String)> = Vec::new();
    let mut k: usize = 0;
    while k < vars.len()
        invariant
            k <= vars@.len(),
            out@ == text_entries(vars@.subrange(0, k as int)),
        decreases vars@.len() - k,
    {
        let ghost prefix = vars@.subrange(0, k as int);
        match &vars[k].1 {
            MetaValue::Text(s) => {
                out.push((vars[k].0.clone(), s.clone()));
            },
            _ => {},
        }
        proof {
            let next = vars@.subrange(0, k + 1);
            assert(next.drop_last() =~= prefix);
            assert(next.last() == vars@[k as int]);
            assert(out@ =~= text_entries(next));
        }
        k = k + 1;
    }
    assert(vars@.subrange(0, vars@.len() as int) =~= vars@);
    Some(out)
}

/// Where a `tools/call` goes: the server to ask and the tool name to send it.
#[derive(Clone, Debug, PartialEq, Eq)]
pub struct Route {
    pub server: String,
    pub tool: String,
}

/// Why a `tools/call` could not be routed.
#[derive(Clone, Debug, PartialEq, Eq)]
pub enum DispatchError {
    /// The name was `<server>---<tool>` and no such server is configured.
    UnknownServer(String),
    /// The bare name is offered by no server.
    ToolNotFound(String),
}

/// The position of the separator that splits a prefixed name.
pub open spec fn split_index(s: Seq<char>) -> int {
    choose|i: int| splits_at(s, i)
}

/// The server part of a prefixed name.
pub open spec fn server_part(s: Seq<char>) -> Seq<char> {
    s.subrange(0, split_index(s))
}

/// The tool part of a prefixed name.
pub open spec fn tool_part(s: Seq<char>) -> Seq<char> {
    s.subrange(split_index(s) + 3, s.len() as int)
}

/// `i` is the first server of the catalogue that offers a tool named `name`.
pub open spec fn first_owner(cache: McpCache, name: Seq<char>, i: int) -> bool {
    &&& 0 <= i < cache.tools@.len()
    &&& offers_tool(cache.tools@[i].1@, name)
    &&& forall|j: int| 0 <= j < i ==> !offers_tool(#[trigger] cache.tools@[j].1@, name)
}

/// Some server of the catalogue offers a tool named `name`.
pub open spec fn has_owner(cache: McpCache, name: Seq<char>) -> bool {
    exists|i: int| 0 <= i < cache.tools@.len() && offers_tool(#[trigger] cache.tools@[i].1@, name)
}

proof fn lemma_split_index_unique(s: Seq<char>, i: int, j: int)
    requires
        splits_at(s, i),
        splits_at(s, j),
    ensures
        i == j,
{
    if i < j {
        assert(!sep_at(s, i));
    } else if j < i {
        assert(!sep_at(s, j));
    }
}

/// Decides where a `tools/call` for `name` goes. A name that splits into
/// exactly two non-empty parts on the separator names its server and tool;
/// any other name is looked up bare, and the first server in the catalogue
/// that offers it wins.
pub fn route_tool(config: &ProxyServerConfig, cache: &McpCache, name: &String) -> (r: Result<
    Route,
    DispatchError,
>)
    requires
        config.wf(),
    ensures
        is_prefixed(name@) ==> match r {
            Ok(route) => config.has_server(server_part(name@)) && route.server@ == server_part(
                name@,
            ) && route.tool@ == tool_part(name@),
            Err(DispatchError::UnknownServer(s)) => !config.has_server(server_part(name@)) && s@
                == server_part(name@),
            Err(DispatchError::ToolNotFound(_)) => false,
        },
        !is_prefixed(name@) ==> match r {
            Ok(route) => exists|i: int|
                first_owner(*cache, name@, i) && #[trigger] cache.tools@[i].0@ == route.server@
                    && route.tool@ == name@,
            Err(DispatchError::ToolNotFound(n)) => !has_owner(*cache, name@) && n@ == name@,
            Err(DispatchError::UnknownServer(_)) => false,
        },
{
    match split_qualified(name.as_str()) {
        Some((server, tool)) => {
            proof {
                let i = choose|i: int|
                    splits_at(name@, i) && server@ == name@.subrange(0, i) && tool@
                        == name@.subrange(i + 3, name@.len() as int);
                lemma_split_index_unique(name@, i, split_index(name@));
            }
            match find_key(&config.servers, &server) {
                Some(_) => Ok(Route { server, tool }),
                None => Err(DispatchError::UnknownServer(server)),
            }
        },
        None => match cache.find_tool_owner(name) {
            Some(i) => {
                let route = Route { server: cache.tools[i].0.clone(), tool: name.clone() };
                assert(first_owner(*cache, name@, i as int));
                assert(cache.tools@[i as int].0@ == route.server@);
                Ok(route)
            },
            None => Err(DispatchError::ToolNotFound(name.clone())),
        },
    }
}

impl DispatchError {
    /// The text returned to the client in the error response.
    pub fn message(&self) -> (r: String)
        ensures
            r@ == match self {
                DispatchError::UnknownServer(s) => "Specified server "@ + s@ + " not found"@,
                DispatchError::ToolNotFound(n) => "Tool "@ + n@ + " not found in any server"@,
            },
    {
        match self {
            DispatchError::UnknownServer(s) => {
                let mut r = String::from_str("Specified server ");
                r.append(s.as_str());
                r.append(" not found");
                r
            },
            DispatchError::ToolNotFound(n) => {
                let mut r = String::from_str("Tool ");
                r.append(n.as_str());
                r.append(" not found in any server");
                r
            },
        }
    }
}

} // verus!
