use call_graph_generator::analyzer::{Builder, CallGraph, CallTarget, SourceRange, SymbolRef};
use call_graph_generator::config::{AnalysisConfig, CliArgs, Config, ConfigFile, LspConfig, OutputConfig};
use call_graph_generator::glob::glob_matches;

fn range(line: u32) -> SourceRange {
    SourceRange { start_line: line, start_character: 0, end_line: line, end_character: 10 }
}

fn sym(name: &str, line: u32) -> SymbolRef {
    SymbolRef {
        uri: "file:///src/main.rs".to_string(),
        name: name.to_string(),
        kind: 12,
        range: range(line),
    }
}

fn target(name: &str, site_line: u32) -> CallTarget {
    // the symbol's defining range depends on the name alone, so one name is
    // one identity; only the call-site range varies
    CallTarget { symbol: sym(name, 1), call_sites: vec![range(site_line + 100)] }
}

/// Run a builder to completion against a fixed call table mapping caller
/// names to callee names.
fn run_builder(mut builder: Builder, table: &[(&str, &[&str])]) -> CallGraph {
    loop {
        match builder.next_request() {
            None => break,
            Some(symbol) => {
                let callees: Vec<CallTarget> = table
                    .iter()
                    .find(|(name, _)| *name == symbol.name)
                    .map(|(_, callees)| {
                        callees.iter().enumerate().map(|(k, c)| target(c, 10 + k as u32)).collect()
                    })
                    .unwrap_or_default();
                builder.on_response(&callees);
            }
        }
    }
    builder.into_graph()
}

fn node_names(graph: &CallGraph) -> Vec<String> {
    graph.nodes.iter().map(|n| n.symbol.name.clone()).collect()
}

fn edge_names(graph: &CallGraph) -> Vec<(String, String)> {
    graph
        .edges
        .iter()
        .map(|e| {
            (
                graph.nodes[e.caller].symbol.name.clone(),
                graph.nodes[e.callee].symbol.name.clone(),
            )
        })
        .collect()
}

fn test_config() -> Config {
    let args = CliArgs {
        file: None,
        project: None,
        output: Some("test.dot".to_string()),
        root: None,
        depth: None,
        exclude: vec![],
        lsp_server: None,
        verbose: false,
    };
    let config_file = ConfigFile {
        analysis: AnalysisConfig::default(),
        output: OutputConfig::default(),
        lsp: LspConfig::default(),
    };
    Config::parse(args, config_file)
}

#[test]
fn test_call_graph_creation() {
    let call_graph = CallGraph::new();
    assert_eq!(call_graph.node_count(), 0);
    assert_eq!(call_graph.edge_count(), 0);
}

#[test]
fn test_call_graph_analyze_placeholder() {
    let config = test_config();
    assert_eq!(config.output_path, "test.dot");
    let builder = Builder::new(
        config.max_depth,
        config.exclude_patterns,
        config.analysis.include_external,
        config.project_path,
    );
    let graph = run_builder(builder, &[]);
    assert_eq!(graph.node_count(), 0);
}

#[test]
fn test_depth_limited_traversal() {
    // root "main", depth 2, main -> foo -> bar -> baz: baz stays out
    let mut builder = Builder::new(Some(2), vec![], false, None);
    builder.add_root(&sym("main", 1));
    let graph = run_builder(
        builder,
        &[("main", &["foo"]), ("foo", &["bar"]), ("bar", &["baz"])],
    );
    let names = node_names(&graph);
    assert_eq!(names, vec!["main", "foo", "bar"]);
    assert_eq!(
        edge_names(&graph),
        vec![
            ("main".to_string(), "foo".to_string()),
            ("foo".to_string(), "bar".to_string())
        ]
    );
    assert!(!names.contains(&"baz".to_string()));
    for node in &graph.nodes {
        assert!(node.depth <= 2);
    }
}

#[test]
fn test_excluded_node_stays_as_leaf() {
    // exclusion "test_*": test_helper is recorded but never expanded
    let mut builder = Builder::new(None, vec!["test_*".to_string()], false, None);
    builder.add_root(&sym("main", 1));
    let graph = run_builder(
        builder,
        &[("main", &["test_helper"]), ("test_helper", &["assert_eq"])],
    );
    assert_eq!(node_names(&graph), vec!["main", "test_helper"]);
    assert_eq!(
        edge_names(&graph),
        vec![("main".to_string(), "test_helper".to_string())]
    );
}

#[test]
fn test_cycle_terminates_with_two_nodes_and_edges() {
    // a calls b, b calls a: exactly two nodes and two edges
    let mut builder = Builder::new(None, vec![], false, None);
    builder.add_root(&sym("a", 1));
    let graph = run_builder(builder, &[("a", &["b"]), ("b", &["a"])]);
    assert_eq!(graph.node_count(), 2);
    assert_eq!(graph.edge_count(), 2);
    assert_eq!(
        edge_names(&graph),
        vec![
            ("a".to_string(), "b".to_string()),
            ("b".to_string(), "a".to_string())
        ]
    );
}

#[test]
fn test_failed_node_marked_incomplete_siblings_continue() {
    // foo's query times out; bar is still expanded
    let mut builder = Builder::new(None, vec![], false, None);
    builder.add_root(&sym("main", 1));
    let mut failed = Vec::new();
    loop {
        match builder.next_request() {
            None => break,
            Some(symbol) => {
                if symbol.name == "main" {
                    builder.on_response(&vec![target("foo", 10), target("bar", 11)]);
                } else if symbol.name == "foo" {
                    failed.push(symbol.name.clone());
                    builder.on_failure();
                } else if symbol.name == "bar" {
                    builder.on_response(&vec![target("qux", 12)]);
                } else {
                    builder.on_response(&vec![]);
                }
            }
        }
    }
    assert_eq!(failed, vec!["foo"]);
    let graph = builder.into_graph();
    let names = node_names(&graph);
    assert!(names.contains(&"qux".to_string()));
    for node in &graph.nodes {
        if node.symbol.name == "foo" {
            assert!(node.incomplete);
        } else {
            assert!(!node.incomplete);
        }
    }
}

#[test]
fn test_identical_responses_give_identical_graph() {
    let table: &[(&str, &[&str])] = &[
        ("main", &["foo", "bar"]),
        ("foo", &["bar", "baz"]),
        ("bar", &["main"]),
        ("baz", &[]),
    ];
    let mut b1 = Builder::new(Some(5), vec!["test_*".to_string()], false, None);
    b1.add_root(&sym("main", 1));
    let g1 = run_builder(b1, table);
    let mut b2 = Builder::new(Some(5), vec!["test_*".to_string()], false, None);
    b2.add_root(&sym("main", 1));
    let g2 = run_builder(b2, table);
    assert_eq!(node_names(&g1), node_names(&g2));
    assert_eq!(edge_names(&g1), edge_names(&g2));
    for (e1, e2) in g1.edges.iter().zip(g2.edges.iter()) {
        assert_eq!(e1.call_sites, e2.call_sites);
    }
}

#[test]
fn test_rediscovery_lowers_depth_marker() {
    // c is first found at depth 2 through b, then at depth 1 from main
    let mut builder = Builder::new(None, vec![], false, None);
    builder.add_root(&sym("main", 1));
    let graph = run_builder(builder, &[("main", &["b", "c"]), ("b", &["c"])]);
    for node in &graph.nodes {
        match node.symbol.name.as_str() {
            "main" => assert_eq!(node.depth, 0),
            "b" => assert_eq!(node.depth, 1),
            "c" => assert_eq!(node.depth, 1),
            other => panic!("unexpected node {other}"),
        }
    }
}

#[test]
fn test_repeated_call_sites_collapse_to_one_edge() {
    let mut builder = Builder::new(None, vec![], false, None);
    builder.add_root(&sym("main", 1));
    let graph = run_builder(builder, &[("main", &["f", "f"])]);
    assert_eq!(graph.node_count(), 2);
    assert_eq!(graph.edge_count(), 1);
    assert_eq!(graph.edges[0].call_sites.len(), 2);
}

#[test]
fn test_external_symbols_not_expanded() {
    let root = Some("file:///work/project/".to_string());
    let mut builder = Builder::new(None, vec![], false, root);
    builder.add_root(&SymbolRef {
        uri: "file:///work/project/src/main.rs".to_string(),
        name: "main".to_string(),
        kind: 12,
        range: range(1),
    });
    let mut expanded = Vec::new();
    loop {
        match builder.next_request() {
            None => break,
            Some(symbol) => {
                expanded.push(symbol.name.clone());
                if symbol.name == "main" {
                    builder.on_response(&vec![CallTarget {
                        symbol: SymbolRef {
                            uri: "file:///usr/lib/std.rs".to_string(),
                            name: "println".to_string(),
                            kind: 12,
                            range: range(7),
                        },
                        call_sites: vec![range(2)],
                    }]);
                } else {
                    builder.on_response(&vec![]);
                }
            }
        }
    }
    assert_eq!(expanded, vec!["main"]);
    let graph = builder.into_graph();
    assert_eq!(graph.node_count(), 2);
    for node in &graph.nodes {
        if node.symbol.name == "println" {
            assert!(node.external);
        } else {
            assert!(!node.external);
        }
    }
}

#[test]
fn test_glob_matching() {
    assert!(glob_matches("test_*", "test_helper"));
    assert!(!glob_matches("test_*", "main"));
    assert!(glob_matches("*_test", "unit_test"));
    assert!(!glob_matches("*_test", "test_unit"));
    assert!(glob_matches("*", ""));
    assert!(glob_matches("a*b*c", "axxbyyc"));
    assert!(!glob_matches("a*b*c", "axxbyy"));
    assert!(glob_matches("main", "main"));
    assert!(!glob_matches("main", "domain"));
}
