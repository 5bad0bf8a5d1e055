use mcp_proxy::catalog::{McpCache, Resource, Tool};
use mcp_proxy::dispatch::{get_env_vars, route_tool, DispatchError, MetaValue, Route};
use mcp_proxy::naming::{qualify, split_qualified};
use mcp_proxy::sessions::Sessions;
use mcp_proxy::types::{
    default_call_timeout, default_list_timeout, ProxyMcpServer, ProxyMcpServerType,
    ProxyServerConfig, TimeoutConfig,
};

fn s(text: &str) -> String {
    text.to_string()
}

fn tool(name: &str) -> Tool {
    Tool {
        name: s(name),
        description: Some(format!("does {}", name)),
        input_schema: s("{\"type\":\"object\"}"),
        output_schema: None,
    }
}

fn resource(name: &str) -> Resource {
    Resource {
        uri: format!("file:///{}", name),
        name: s(name),
        description: None,
        mime_type: Some(s("text/plain")),
    }
}

fn stdio(command: &str) -> ProxyMcpServer {
    ProxyMcpServer {
        default_args: None,
        server_type: ProxyMcpServerType::Stdio {
            command: s(command),
            args: vec![],
            env_vars: None,
        },
    }
}

fn config(names: &[&str]) -> ProxyServerConfig {
    ProxyServerConfig {
        servers: names.iter().map(|n| (s(n), stdio(n))).collect(),
        port: 3000,
        timeout: TimeoutConfig::default(),
    }
}

fn cache_with(config: &ProxyServerConfig, tools: Vec<Option<Vec<&str>>>) -> McpCache {
    let n = tools.len();
    let tools = tools
        .into_iter()
        .map(|o| o.map(|v| v.into_iter().map(tool).collect()))
        .collect();
    let resources = (0..n).map(|_| Some(vec![])).collect();
    McpCache::from_probe(config, tools, resources)
}

fn names(tools: &[Tool]) -> Vec<String> {
    tools.iter().map(|t| t.name.clone()).collect()
}

#[test]
fn timeouts_default_to_two_minutes_and_one_minute() {
    let t = TimeoutConfig::default();
    assert_eq!(t, TimeoutConfig { list: 120, call: 60 });
    assert_eq!(default_list_timeout(), 120);
    assert_eq!(default_call_timeout(), 60);
}

#[test]
fn qualify_joins_with_separator() {
    assert_eq!(qualify(&s("math"), &s("add")), "math---add");
    assert_eq!(qualify(&s(""), &s("x")), "---x");
}

#[test]
fn split_two_parts() {
    assert_eq!(split_qualified("math---add"), Some((s("math"), s("add"))));
    assert_eq!(split_qualified("a----b"), Some((s("a"), s("-b"))));
}

#[test]
fn split_rejects_other_shapes() {
    assert_eq!(split_qualified("---"), None);
    assert_eq!(split_qualified("a---b---c"), None);
    assert_eq!(split_qualified("a---"), None);
    assert_eq!(split_qualified("---b"), None);
    assert_eq!(split_qualified("add"), None);
    assert_eq!(split_qualified(""), None);
}

#[test]
fn listing_prefixes_names_in_order() {
    let cfg = config(&["math"]);
    let cache = cache_with(&cfg, vec![Some(vec!["add", "mul"])]);
    let listed = cache.aggregate_tools();
    assert_eq!(names(&listed), vec![s("math---add"), s("math---mul")]);
    assert_eq!(listed[0].description, Some(s("does add")));
    assert_eq!(listed[0].input_schema, s("{\"type\":\"object\"}"));
}

#[test]
fn listing_spans_servers_in_order() {
    let cfg = config(&["A", "B"]);
    let cache = cache_with(&cfg, vec![Some(vec!["x"]), Some(vec!["y", "z"])]);
    assert_eq!(
        names(&cache.aggregate_tools()),
        vec![s("A---x"), s("B---y"), s("B---z")]
    );
}

#[test]
fn listing_twice_gives_same_names() {
    let cfg = config(&["A", "B"]);
    let cache = cache_with(&cfg, vec![Some(vec!["x"]), Some(vec!["y"])]);
    assert_eq!(names(&cache.aggregate_tools()), names(&cache.aggregate_tools()));
}

#[test]
fn listing_splits_back_to_original_names() {
    let cfg = config(&["math", "text"]);
    let cache = cache_with(&cfg, vec![Some(vec!["add", "mul"]), Some(vec!["upper"])]);
    let back: Vec<(String, String)> = cache
        .aggregate_tools()
        .iter()
        .map(|t| split_qualified(&t.name).unwrap())
        .collect();
    assert_eq!(
        back,
        vec![
            (s("math"), s("add")),
            (s("math"), s("mul")),
            (s("text"), s("upper"))
        ]
    );
}

#[test]
fn no_servers_lists_nothing() {
    let cfg = config(&[]);
    let cache = McpCache::from_probe(&cfg, vec![], vec![]);
    assert!(cache.aggregate_tools().is_empty());
    assert!(cache.aggregate_resources().is_empty());
    assert!(McpCache::empty().aggregate_tools().is_empty());
}

#[test]
fn resources_are_listed_unchanged() {
    let cfg = config(&["A", "B"]);
    let cache = McpCache::from_probe(
        &cfg,
        vec![None, None],
        vec![Some(vec![resource("r1")]), Some(vec![resource("r2"), resource("r3")])],
    );
    let listed = cache.aggregate_resources();
    assert_eq!(listed, vec![resource("r1"), resource("r2"), resource("r3")]);
}

#[test]
fn probe_failure_leaves_empty_entry() {
    let cfg = config(&["dead", "live"]);
    let cache = McpCache::from_probe(
        &cfg,
        vec![None, Some(vec![tool("ping")])],
        vec![None, Some(vec![resource("doc")])],
    );
    assert_eq!(cache.tools.len(), 2);
    assert_eq!(cache.tools[0].0, "dead");
    assert!(cache.tools[0].1.is_empty());
    assert_eq!(cache.resources[0].0, "dead");
    assert!(cache.resources[0].1.is_empty());
    assert_eq!(cache.tools[1].0, "live");
    assert_eq!(cache.resources[1].1, vec![resource("doc")]);
    assert_eq!(names(&cache.aggregate_tools()), vec![s("live---ping")]);
}

#[test]
fn dispatch_by_prefix() {
    let cfg = config(&["math"]);
    let cache = cache_with(&cfg, vec![Some(vec!["add", "mul"])]);
    assert_eq!(
        route_tool(&cfg, &cache, &s("math---add")),
        Ok(Route { server: s("math"), tool: s("add") })
    );
}

#[test]
fn unknown_server_prefix() {
    let cfg = config(&["math"]);
    let cache = cache_with(&cfg, vec![Some(vec!["add"])]);
    let r = route_tool(&cfg, &cache, &s("bogus---x"));
    assert_eq!(r, Err(DispatchError::UnknownServer(s("bogus"))));
    assert_eq!(r.unwrap_err().message(), "Specified server bogus not found");
}

#[test]
fn server_names_compare_exactly() {
    let cfg = config(&["Math"]);
    let cache = cache_with(&cfg, vec![Some(vec!["add"])]);
    assert_eq!(
        route_tool(&cfg, &cache, &s("math---add")),
        Err(DispatchError::UnknownServer(s("math")))
    );
}

#[test]
fn bare_name_routing() {
    let cfg = config(&["A", "B"]);
    let cache = cache_with(&cfg, vec![Some(vec!["x"]), Some(vec!["y"])]);
    assert_eq!(
        route_tool(&cfg, &cache, &s("y")),
        Ok(Route { server: s("B"), tool: s("y") })
    );
    let r = route_tool(&cfg, &cache, &s("z"));
    assert_eq!(r, Err(DispatchError::ToolNotFound(s("z"))));
    assert_eq!(r.unwrap_err().message(), "Tool z not found in any server");
}

#[test]
fn bare_name_first_server_wins() {
    let cfg = config(&["A", "B"]);
    let cache = cache_with(&cfg, vec![Some(vec!["x"]), Some(vec!["x"])]);
    assert_eq!(
        route_tool(&cfg, &cache, &s("x")),
        Ok(Route { server: s("A"), tool: s("x") })
    );
}

#[test]
fn separator_alone_is_a_bare_name() {
    let cfg = config(&["A"]);
    let cache = cache_with(&cfg, vec![Some(vec!["x"])]);
    let r = route_tool(&cfg, &cache, &s("---"));
    assert_eq!(r, Err(DispatchError::ToolNotFound(s("---"))));
    assert_eq!(r.unwrap_err().message(), "Tool --- not found in any server");
    let cache = cache_with(&cfg, vec![Some(vec!["---"])]);
    assert_eq!(
        route_tool(&cfg, &cache, &s("---")),
        Ok(Route { server: s("A"), tool: s("---") })
    );
}

#[test]
fn three_parts_is_a_bare_name() {
    let cfg = config(&["a", "B"]);
    let cache = cache_with(&cfg, vec![Some(vec![]), Some(vec!["a---b---c"])]);
    assert_eq!(
        route_tool(&cfg, &cache, &s("a---b---c")),
        Ok(Route { server: s("B"), tool: s("a---b---c") })
    );
}

#[test]
fn env_overlay_keeps_string_values() {
    let meta = Some(MetaValue::Object(vec![
        (s("trace"), MetaValue::Other),
        (
            s("env_vars"),
            MetaValue::Object(vec![
                (s("API_KEY"), MetaValue::Text(s("k1"))),
                (s("COUNT"), MetaValue::Other),
                (s("MODE"), MetaValue::Text(s("fast"))),
            ]),
        ),
    ]));
    assert_eq!(
        get_env_vars(&meta),
        Some(vec![(s("API_KEY"), s("k1")), (s("MODE"), s("fast"))])
    );
}

#[test]
fn env_overlay_absent_cases() {
    assert_eq!(get_env_vars(&None), None);
    assert_eq!(get_env_vars(&Some(MetaValue::Text(s("x")))), None);
    let no_key = Some(MetaValue::Object(vec![(s("other"), MetaValue::Object(vec![]))]));
    assert_eq!(get_env_vars(&no_key), None);
    let not_object = Some(MetaValue::Object(vec![(s("env_vars"), MetaValue::Text(s("A=1")))]));
    assert_eq!(get_env_vars(&not_object), None);
    let empty = Some(MetaValue::Object(vec![(s("env_vars"), MetaValue::Object(vec![]))]));
    assert_eq!(get_env_vars(&empty), Some(vec![]));
}

#[test]
fn overlay_replaces_stdio_environment() {
    let spec = ProxyMcpServerType::Stdio {
        command: s("srv"),
        args: vec![s("--fast")],
        env_vars: Some(vec![(s("A"), s("1")), (s("B"), s("2"))]),
    };
    let replaced = spec.clone().with_env_overlay(Some(vec![(s("C"), s("3"))]));
    assert_eq!(
        replaced,
        ProxyMcpServerType::Stdio {
            command: s("srv"),
            args: vec![s("--fast")],
            env_vars: Some(vec![(s("C"), s("3"))]),
        }
    );
    assert_eq!(spec.clone().with_env_overlay(None), spec);
    let sse = ProxyMcpServerType::SSE { url: s("http://h/sse"), headers: None };
    assert_eq!(sse.clone().with_env_overlay(Some(vec![(s("C"), s("3"))])), sse);
}

#[test]
fn config_lookup_by_name() {
    let cfg = config(&["A", "B"]);
    assert_eq!(cfg.get_server(&s("B")), Some(&stdio("B")));
    assert_eq!(cfg.get_server(&s("b")), None);
    assert_eq!(cfg.server_names(), vec![s("A"), s("B")]);
}

#[test]
fn one_client_per_server() {
    let mut sessions: Sessions<u32> = Sessions::new();
    assert_eq!(sessions.get(&s("A")), None);
    sessions.insert(s("A"), 7);
    sessions.insert(s("B"), 9);
    assert_eq!(sessions.get(&s("A")), Some(&7));
    assert_eq!(sessions.get(&s("B")), Some(&9));
    assert_eq!(sessions.get(&s("C")), None);
}
