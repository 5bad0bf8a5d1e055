use vstd::prelude::*;

verus! {

/// Seconds allowed for a catalogue request (`tools/list`, `resources/list`)
/// when the configuration names none.
pub const DEFAULT_LIST_TIMEOUT: u64 = 120;

/// Seconds allowed for a `tools/call` request when the configuration names none.
pub const DEFAULT_CALL_TIMEOUT: u64 = 60;

/// Per-request deadlines, in whole seconds.
#[derive(Clone, Copy, Debug, PartialEq, Eq, Structural)]
pub struct TimeoutConfig {
    pub list: u64,
    pub call: u64,
}

pub fn default_list_timeout() -> (r: u64)
    ensures
        r == DEFAULT_LIST_TIMEOUT,
{
    DEFAULT_LIST_TIMEOUT
}

pub fn default_call_timeout() -> (r: u64)
    ensures
        r == DEFAULT_CALL_TIMEOUT,
{
    DEFAULT_CALL_TIMEOUT
}

impl Default for TimeoutConfig {
    fn default() -> (r: TimeoutConfig)
        ensures
            r.list == DEFAULT_LIST_TIMEOUT,
            r.call == DEFAULT_CALL_TIMEOUT,
    {
        TimeoutConfig { list: default_list_timeout(), call: default_call_timeout() }
    }
}

/// A list of string pairs whose first components are pairwise distinct.
pub open spec fn keys_unique<X>(entries: Seq<(String, X)>) -> bool {
    forall|i: int, j: int|
        0 <= i < entries.len() && 0 <= j < entries.len() && i != j
            ==> #[trigger] entries[i].0@ != #[trigger] entries[j].0@
}

/// Whether some entry carries the key `key`.
pub open spec fn has_key<X>(entries: Seq<(String, X)>, key: Seq<char>) -> bool {
    exists|i: int| 0 <= i < entries.len() && #[trigger] entries[i].0@ == key
}

/// Index of the first entry whose key is `key`; `None` when no entry has it.
pub fn find_key<X>(entries: &Vec<(String, X)>, key: &String) -> (r: Option<usize>)
    ensures
        match r {
            Some(i) => i < entries@.len() && entries@[i as int].0@ == key@ && forall|j: int|
                0 <= j < i ==> #[trigger] entries@[j].0@ != key@,
            None => !has_key(entries@, key@),
        },
{
    let mut i: usize = 0;
    while i < entries.len()
        invariant
            i <= entries@.len(),
            forall|j: int| 0 <= j < i ==> #[trigger] entries@[j].0@ != key@,
        decreases entries@.len() - i,
    {
        if entries[i].0 == *key {
            return Some(i);
        }
        i = i + 1;
    }
    None
}

/// How a downstream server is reached, with what that transport needs.
/// Environment variables and headers are kept as (name, value) pairs.
#[derive(Clone, Debug, PartialEq, Eq)]
pub enum ProxyMcpServerType {
    Stdio { command: String, args: Vec<String>, env_vars: Option<Vec<(String, String)>> },
    SSE { url: String, headers: Option<Vec<(String, String)>> },
    WS { url: String, headers: Option<Vec<(String, String)>> },
}

impl ProxyMcpServerType {
    /// The transport to open for a new session: a child process gets the
    /// caller's environment in place of the configured one when one is given
    /// (the two are not merged); the other kinds are left as they are.
    pub fn with_env_overlay(self, overlay: Option<Vec<(String, String)>>) -> (r: ProxyMcpServerType)
        ensures
            r == (match self {
                ProxyMcpServerType::Stdio { command, args, env_vars } => ProxyMcpServerType::Stdio {
                    command,
                    args,
                    env_vars: match overlay {
                        Some(o) => Some(o),
                        None => env_vars,
                    },
                },
                other => other,
            }),
    {
        match self {
            ProxyMcpServerType::Stdio { command, args, env_vars } => {
                let env_vars = match overlay {
                    Some(o) => Some(o),
                    None => env_vars,
                };
                ProxyMcpServerType::Stdio { command, args, env_vars }
            },
            other => other,
        }
    }
}

/// One configured downstream server. `default_args` is JSON text kept for
/// later use; nothing reads it.
#[derive(Clone, Debug, PartialEq, Eq)]
pub struct ProxyMcpServer {
    pub default_args: Option<String>,
    pub server_type: ProxyMcpServerType,
}

/// The proxy's configuration: servers by name, in the order they were given.
#[derive(Clone, Debug, PartialEq, Eq)]
pub struct ProxyServerConfig {
    pub servers: Vec<(String, ProxyMcpServer)>,
    pub port: u16,
    pub timeout: TimeoutConfig,
}

impl ProxyServerConfig {
    /// Server names are keys: no two entries share one.
    pub open spec fn wf(&self) -> bool {
        keys_unique(self.servers@)
    }

    /// The configured server names, in order.
    pub open spec fn names(&self) -> Seq<Seq<char>> {
        self.servers@.map_values(|e: (String, ProxyMcpServer)| e.0@)
    }

    /// Whether `name` is a configured server (names compare exactly).
    pub open spec fn has_server(&self, name: Seq<char>) -> bool {
        has_key(self.servers@, name)
    }

    /// The configuration of server `name`, if there is one.
    pub fn get_server(&self, name: &String) -> (r: Option<&ProxyMcpServer>)
        requires
            self.wf(),
        ensures
            match r {
                Some(s) => exists|i: int|
                    0 <= i < self.servers@.len() && #[trigger] self.servers@[i].0@ == name@
                        && self.servers@[i].1 == *s,
                None => !self.has_server(name@),
            },
    {
        match find_key(&self.servers, name) {
            Some(i) => Some(&self.servers[i].1),
            None => None,
        }
    }

    /// The configured server names, in order.
    pub fn server_names(&self) -> (r: Vec<String>)
        ensures
            r@.map_values(|s: String| s@) == self.names(),
    {
        let mut r: Vec<String> = Vec::new();
        let mut i: usize = 0;
        while i < self.servers.len()
            invariant
                i <= self.servers@.len(),
                r@.len() == i,
                forall|j: int| 0 <= j < i ==> #[trigger] r@[j]@ == self.servers@[j].0@,
            decreases self.servers@.len() - i,
        {
            r.push(self.servers[i].0.clone());
            i = i + 1;
        }
        assert(r@.map_values(|s: String| s@) =~= self.names());
        r
    }
}

/// Credentials a transport may present.
#[derive(Clone, Debug, PartialEq, Eq)]
pub enum ProxyTransportAuth {
    Bearer(String),
    JwtSecret(String),
}

} // verus!
