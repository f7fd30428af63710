use std::io::Write;

use call_graph_generator::config::{
    AnalysisConfig, CliArgs, Config, ConfigFile, LspConfig, OutputConfig,
};
use call_graph_generator::CallGraphError;

fn args_with(file: Option<String>, project: Option<String>) -> CliArgs {
    CliArgs {
        file,
        project,
        output: None,
        root: None,
        depth: None,
        exclude: vec![],
        lsp_server: None,
        verbose: false,
    }
}

fn temp_source_file(dir: &tempfile::TempDir) -> (tempfile::NamedTempFile, String) {
    let mut f = tempfile::Builder::new()
        .suffix(".rs")
        .tempfile_in(dir.path())
        .unwrap();
    f.write_all(b"fn main() {}").unwrap();
    let path = f.path().to_str().unwrap().to_string();
    (f, path)
}

#[test]
fn test_config_file_roundtrip() {
    let config = ConfigFile::default();
    let text = config.save().unwrap();
    let loaded_config = ConfigFile::load(&text).unwrap();
    assert_eq!(
        config.analysis.include_external,
        loaded_config.analysis.include_external
    );
    assert_eq!(config.output.format, loaded_config.output.format);
    assert_eq!(config.lsp.timeout_seconds, loaded_config.lsp.timeout_seconds);
}

#[test]
fn test_config_file_roundtrip_all_fields() {
    let config = ConfigFile {
        analysis: AnalysisConfig {
            max_depth: Some(7),
            exclude_patterns: vec!["bench_*".to_string(), "*_impl".to_string()],
            include_external: true,
        },
        output: OutputConfig {
            format: "dot".to_string(),
            show_types: false,
            show_parameters: true,
            cluster_by_module: false,
        },
        lsp: LspConfig {
            server_command: Some("rust-analyzer".to_string()),
            timeout_seconds: u64::MAX,
        },
    };
    let loaded = ConfigFile::load(&config.save().unwrap()).unwrap();
    assert_eq!(loaded.analysis.max_depth, Some(7));
    assert_eq!(
        loaded.analysis.exclude_patterns,
        vec!["bench_*".to_string(), "*_impl".to_string()]
    );
    assert!(loaded.analysis.include_external);
    assert_eq!(loaded.output.format, "dot");
    assert!(!loaded.output.show_types);
    assert!(loaded.output.show_parameters);
    assert!(!loaded.output.cluster_by_module);
    assert_eq!(loaded.lsp.server_command, Some("rust-analyzer".to_string()));
    assert_eq!(loaded.lsp.timeout_seconds, u64::MAX);
}

#[test]
fn test_config_file_save_is_valid_toml() {
    let text = ConfigFile::default().save().unwrap();
    let value: toml::Value = toml::from_str(&text).unwrap();
    assert_eq!(
        value["output"]["format"].as_str(),
        Some("dot")
    );
    assert_eq!(value["lsp"]["timeout_seconds"].as_integer(), Some(30));
}

#[test]
fn test_config_file_load_rejects_bad_line() {
    let err = ConfigFile::load("[lsp]\ntimeout_seconds thirty\n").unwrap_err();
    match err {
        CallGraphError::ConfigError(m) => assert!(m.contains("invalid configuration line")),
        other => panic!("unexpected error {other:?}"),
    }
    let err = ConfigFile::load("[lsp]\ntimeout_seconds = thirty\n").unwrap_err();
    match err {
        CallGraphError::ConfigError(m) => assert!(m.contains("invalid number")),
        other => panic!("unexpected error {other:?}"),
    }
}

#[test]
fn test_config_file_load_ignores_comments_and_unknown_keys() {
    let text = "# settings\n\n[analysis]\nfuture_knob = true\nmax_depth = 3\n[unknown]\nx = 1\n";
    let loaded = ConfigFile::load(text).unwrap();
    assert_eq!(loaded.analysis.max_depth, Some(3));
    // unknown section and key are ignored; defaults stay
    assert_eq!(loaded.lsp.timeout_seconds, 30);
}

#[test]
fn test_config_file_load_single_quotes_and_comments() {
    let text = "[analysis] # traversal\nexclude_patterns = ['test_*', \"a#b\"] # globs\n[lsp]\ntimeout_seconds = 30 # half a minute\n";
    let loaded = ConfigFile::load(text).unwrap();
    assert_eq!(
        loaded.analysis.exclude_patterns,
        vec!["test_*".to_string(), "a#b".to_string()]
    );
    assert_eq!(loaded.lsp.timeout_seconds, 30);
}

#[test]
fn test_config_file_load_rejects_unquoted_list_item() {
    // an unquoted word between list brackets must not be dropped silently
    let err = ConfigFile::load("[analysis]\nexclude_patterns = [test_*]\n").unwrap_err();
    match err {
        CallGraphError::ConfigError(m) => assert!(m.contains("invalid list value")),
        other => panic!("unexpected error {other:?}"),
    }
}

#[test]
fn test_config_file_load_large_numbers() {
    let loaded = ConfigFile::load("[lsp]\ntimeout_seconds = 1000000000\n").unwrap();
    assert_eq!(loaded.lsp.timeout_seconds, 1_000_000_000);
    let loaded = ConfigFile::load("[lsp]\ntimeout_seconds = 18446744073709551615\n").unwrap();
    assert_eq!(loaded.lsp.timeout_seconds, u64::MAX);
    let err = ConfigFile::load("[lsp]\ntimeout_seconds = 18446744073709551616\n").unwrap_err();
    match err {
        CallGraphError::ConfigError(m) => assert!(m.contains("invalid number")),
        other => panic!("unexpected error {other:?}"),
    }
}

#[test]
fn test_config_file_save_refuses_unwritable_values() {
    let mut config = ConfigFile::default();
    config.analysis.exclude_patterns = vec!["has\"quote".to_string()];
    match config.save().unwrap_err() {
        CallGraphError::ConfigError(m) => assert!(m.contains("cannot be written")),
        other => panic!("unexpected error {other:?}"),
    }
    let mut config = ConfigFile::default();
    config.output.format = "two\nlines".to_string();
    assert!(config.save().is_err());
    // a single quote is representable inside double quotes
    let mut config = ConfigFile::default();
    config.lsp.server_command = Some("it's".to_string());
    let loaded = ConfigFile::load(&config.save().unwrap()).unwrap();
    assert_eq!(loaded.lsp.server_command, Some("it's".to_string()));
}

#[test]
fn test_cli_args_validation_no_input() {
    let args = args_with(None, None);
    assert!(args.validate().is_err());
    assert!(args
        .validate()
        .unwrap_err()
        .message()
        .contains("Either --file or --project must be specified"));
}

#[test]
fn test_cli_args_validation_both_inputs() {
    let temp_dir = tempfile::tempdir().unwrap();
    let (_file_guard, temp_file) = temp_source_file(&temp_dir);
    let args = args_with(
        Some(temp_file),
        Some(temp_dir.path().to_str().unwrap().to_string()),
    );
    assert!(args.validate().is_err());
    assert!(args
        .validate()
        .unwrap_err()
        .message()
        .contains("Cannot specify both --file and --project"));
}

#[test]
fn test_cli_args_validation_nonexistent_file() {
    let args = args_with(Some("nonexistent.rs".to_string()), None);
    assert!(args.validate().is_err());
    assert!(args
        .validate()
        .unwrap_err()
        .message()
        .contains("Specified file does not exist"));
}

#[test]
fn test_cli_args_validation_zero_depth() {
    let temp_dir = tempfile::tempdir().unwrap();
    let (_file_guard, temp_file) = temp_source_file(&temp_dir);
    let mut args = args_with(Some(temp_file), None);
    args.depth = Some(0);
    assert!(args.validate().is_err());
    assert!(args
        .validate()
        .unwrap_err()
        .message()
        .contains("Depth must be greater than 0"));
}

#[test]
fn test_cli_args_validation_valid() {
    let temp_dir = tempfile::tempdir().unwrap();
    let (_file_guard, temp_file) = temp_source_file(&temp_dir);
    let args = CliArgs {
        file: Some(temp_file),
        project: None,
        output: Some("output.dot".to_string()),
        root: Some("main".to_string()),
        depth: Some(5),
        exclude: vec!["test_*".to_string()],
        lsp_server: Some("rust-analyzer".to_string()),
        verbose: true,
    };
    assert!(args.validate().is_ok());
}

#[test]
fn test_config_from_cli_args() {
    let temp_dir = tempfile::tempdir().unwrap();
    let (_file_guard, temp_file) = temp_source_file(&temp_dir);
    let args = CliArgs {
        file: Some(temp_file.clone()),
        project: None,
        output: Some("custom.dot".to_string()),
        root: Some("main".to_string()),
        depth: Some(10),
        exclude: vec!["test_*".to_string(), "bench_*".to_string()],
        lsp_server: Some("rust-analyzer".to_string()),
        verbose: true,
    };
    let config = Config::parse(args, ConfigFile::default());
    assert_eq!(config.file_path, Some(temp_file));
    assert_eq!(config.project_path, None);
    assert_eq!(config.output_path, "custom.dot");
    assert_eq!(config.root_function, Some("main".to_string()));
    assert_eq!(config.max_depth, Some(10));
    assert_eq!(
        config.exclude_patterns,
        vec!["test_*".to_string(), "bench_*".to_string()]
    );
    assert_eq!(config.lsp_server_command, Some("rust-analyzer".to_string()));
    assert_eq!(config.verbose, true);
}

#[test]
fn test_config_default_values() {
    let temp_dir = tempfile::tempdir().unwrap();
    let (_file_guard, temp_file) = temp_source_file(&temp_dir);
    let args = args_with(Some(temp_file), None);
    let config = Config::parse(args, ConfigFile::default());
    assert_eq!(config.output_path, "callgraph.dot");
    assert_eq!(config.root_function, None);
    assert_eq!(config.max_depth, None);
    assert_eq!(
        config.exclude_patterns,
        vec!["test_*".to_string(), "*_test".to_string()]
    );
    assert_eq!(config.lsp_server_command, None);
    assert_eq!(config.verbose, false);
}

#[test]
fn test_analysis_config_defaults() {
    let config = AnalysisConfig::default();
    assert_eq!(config.max_depth, None);
    assert_eq!(
        config.exclude_patterns,
        vec!["test_*".to_string(), "*_test".to_string()]
    );
    assert_eq!(config.include_external, false);
}

#[test]
fn test_output_config_defaults() {
    let config = OutputConfig::default();
    assert_eq!(config.format, "dot");
    assert_eq!(config.show_types, true);
    assert_eq!(config.show_parameters, false);
    assert_eq!(config.cluster_by_module, true);
}

#[test]
fn test_lsp_config_defaults() {
    let config = LspConfig::default();
    assert_eq!(config.server_command, None);
    assert_eq!(config.timeout_seconds, 30);
}
