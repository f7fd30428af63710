use call_graph_generator::analyzer::{Builder, CallGraph, SourceRange, SymbolRef};
use call_graph_generator::config::{
    AnalysisConfig, CliArgs, Config, ConfigFile, LspConfig, OutputConfig,
};
use call_graph_generator::output::DotGenerator;

#[test]
fn test_dot_generator_creation() {
    let args = CliArgs {
        file: None,
        project: None,
        output: Some("test.dot".to_string()),
        root: None,
        depth: None,
        exclude: vec![],
        lsp_server: None,
        verbose: false,
    };
    let config_file = ConfigFile {
        analysis: AnalysisConfig::default(),
        output: OutputConfig::default(),
        lsp: LspConfig::default(),
    };
    let config = Config::parse(args, config_file);
    let generator = DotGenerator::new(&config);
    let dot = generator.generate(&CallGraph::new());
    assert!(dot.contains("digraph CallGraph"));
}

#[test]
fn test_dot_generation() {
    let mut builder = Builder::new(None, vec![], false, None);
    builder.add_root(&SymbolRef {
        uri: "file:///src/main.rs".to_string(),
        name: "main".to_string(),
        kind: 12,
        range: SourceRange { start_line: 1, start_character: 0, end_line: 1, end_character: 4 },
    });
    loop {
        match builder.next_request() {
            None => break,
            Some(_) => builder.on_response(&vec![]),
        }
    }
    let graph = builder.into_graph();
    let args = CliArgs {
        file: None,
        project: None,
        output: None,
        root: None,
        depth: None,
        exclude: vec![],
        lsp_server: None,
        verbose: false,
    };
    let config = Config::parse(
        args,
        ConfigFile {
            analysis: AnalysisConfig::default(),
            output: OutputConfig::default(),
            lsp: LspConfig::default(),
        },
    );
    let generator = DotGenerator::new(&config);
    let content = generator.generate(&graph);
    assert!(content.contains("digraph CallGraph"));
    assert!(content.contains("rankdir=TB"));
    assert!(content.contains("\"n0\" [label=\"main\"]"));
    assert!(content.ends_with("}\n"));
}
