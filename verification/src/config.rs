//! Configuration: command-line arguments and their validation, the optional
//! project-local settings file, and the merge of the two (command-line values
//! take precedence per field, then the settings file, then built-in defaults).
//!
//! The settings file is a small line-based format: `[analysis]`, `[output]`
//! and `[lsp]` section headers followed by `key = value` lines, where a value
//! is a decimal number, `true` or `false`, a single- or double-quoted string
//! (taken verbatim, without escape sequences), or a bracketed list of quoted
//! strings. Blank lines, `#` comments (also trailing ones, outside quotes),
//! unknown keys and unknown sections are ignored.

use vstd::prelude::*;
use vstd::string::StringSliceAdditionalSpecFns;

use crate::CallGraphError;
use crate::glob::bytes_of;
use crate::text::{
    all_digits, byte_is_space, dec_str, dec_val, find_byte, is_space, parse_dec, push_u64_dec,
    push_usize_dec, range_eq_str, trim_range,
};

verus! {

/// Command line arguments for the call graph generator.
#[derive(Debug)]
pub struct CliArgs {
    /// Path to a single file to analyze.
    pub file: Option<String>,
    /// Root directory of the project to analyze.
    pub project: Option<String>,
    /// Path of the DOT file to write.
    pub output: Option<String>,
    /// Starting function name for the analysis.
    pub root: Option<String>,
    /// Maximum call depth to analyze.
    pub depth: Option<usize>,
    /// Patterns whose matching symbols are not expanded.
    pub exclude: Vec<String>,
    /// The language-server command to run.
    pub lsp_server: Option<String>,
    /// Verbose logging.
    pub verbose: bool,
}

/// Relies on `std::path::Path::exists`: whether the path exists on disk at
/// the moment of the call. Nothing can be promised of the result.
#[verifier::external_body]
fn path_exists(p: &str) -> bool {
    std::path::Path::new(p).exists()
}

/// Relies on `std::path::Path::is_dir`: whether the path names a directory
/// on disk at the moment of the call. Nothing can be promised of the result.
#[verifier::external_body]
fn path_is_dir(p: &str) -> bool {
    std::path::Path::new(p).is_dir()
}

impl CliArgs {
    /// The validation decision, taken on what the file system reported:
    /// `file_exists` for the `file` selector and `project_ok` for the
    /// `project` selector (it exists and is a directory). Exactly one
    /// selector must be given, its path must be present, and a given depth
    /// must be positive; the checks are made in that order.
    pub fn validate_with(&self, file_exists: bool, project_ok: bool) -> (r: Result<
        (),
        CallGraphError,
    >)
        ensures
            ({
                if self.file is None && self.project is None {
                    r matches Err(CallGraphError::ConfigError(m)) && m@
                        == "Either --file or --project must be specified"@
                } else if self.file is Some && self.project is Some {
                    r matches Err(CallGraphError::ConfigError(m)) && m@
                        == "Cannot specify both --file and --project"@
                } else if self.file is Some && !file_exists {
                    r matches Err(CallGraphError::ConfigError(m)) && m@
                        == "Specified file does not exist: "@ + self.file.unwrap()@
                } else if self.project is Some && !project_ok {
                    r matches Err(CallGraphError::ConfigError(m)) && m@
                        == "Specified project directory does not exist: "@
                        + self.project.unwrap()@
                } else if self.depth == Some(0usize) {
                    r matches Err(CallGraphError::ConfigError(m)) && m@
                        == "Depth must be greater than 0"@
                } else {
                    r is Ok
                }
            }),
    {
        if self.file.is_none() && self.project.is_none() {
            return Err(
                CallGraphError::ConfigError(
                    "Either --file or --project must be specified".to_owned(),
                ),
            );
        }
        if self.file.is_some() && self.project.is_some() {
            return Err(
                CallGraphError::ConfigError("Cannot specify both --file and --project".to_owned()),
            );
        }
        match &self.file {
            Some(f) => {
                if !file_exists {
                    let mut m = "Specified file does not exist: ".to_owned();
                    m.append(f.as_str());
                    return Err(CallGraphError::ConfigError(m));
                }
            },
            None => {},
        }
        match &self.project {
            Some(p) => {
                if !project_ok {
                    let mut m = "Specified project directory does not exist: ".to_owned();
                    m.append(p.as_str());
                    return Err(CallGraphError::ConfigError(m));
                }
            },
            None => {},
        }
        match self.depth {
            Some(d) => {
                if d == 0 {
                    return Err(
                        CallGraphError::ConfigError("Depth must be greater than 0".to_owned()),
                    );
                }
            },
            None => {},
        }
        Ok(())
    }

    /// Validate the command line arguments against the file system.
    ///
    /// The path probes depend on the disk, so the contract pins only what
    /// holds whatever they report; `validate_with` states the full decision.
    pub fn validate(&self) -> (r: Result<(), CallGraphError>)
        ensures
            (self.file is None && self.project is None) ==> (r matches Err(
                CallGraphError::ConfigError(m),
            ) && m@ == "Either --file or --project must be specified"@),
            (self.file is Some && self.project is Some) ==> (r matches Err(
                CallGraphError::ConfigError(m),
            ) && m@ == "Cannot specify both --file and --project"@),
            r is Ok ==> ((self.file is Some) != (self.project is Some)) && self.depth != Some(
                0usize,
            ),
            r matches Err(e) ==> e is ConfigError,
    {
        let fe = match &self.file {
            Some(f) => path_exists(f.as_str()),
            None => false,
        };
        let po = match &self.project {
            Some(p) => path_exists(p.as_str()) && path_is_dir(p.as_str()),
            None => false,
        };
        self.validate_with(fe, po)
    }
}

} // verus!

verus! {

/// Traversal settings from the settings file.
#[derive(Debug)]
pub struct AnalysisConfig {
    pub max_depth: Option<usize>,
    pub exclude_patterns: Vec<String>,
    pub include_external: bool,
}

/// Rendering settings from the settings file; they are the renderer's
/// concern and are passed through untouched.
#[derive(Debug)]
pub struct OutputConfig {
    pub format: String,
    pub show_types: bool,
    pub show_parameters: bool,
    pub cluster_by_module: bool,
}

/// Language-server settings from the settings file.
#[derive(Debug)]
pub struct LspConfig {
    pub server_command: Option<String>,
    pub timeout_seconds: u64,
}

/// The settings file: defaults for analysis, output and server settings.
#[derive(Debug)]
pub struct ConfigFile {
    pub analysis: AnalysisConfig,
    pub output: OutputConfig,
    pub lsp: LspConfig,
}

/// The full configuration: command-line arguments merged with the settings
/// file, command line winning per field.
#[derive(Debug)]
pub struct Config {
    pub file_path: Option<String>,
    pub project_path: Option<String>,
    pub output_path: String,
    pub root_function: Option<String>,
    pub max_depth: Option<usize>,
    pub exclude_patterns: Vec<String>,
    pub lsp_server_command: Option<String>,
    pub verbose: bool,
    pub analysis: AnalysisConfig,
    pub output: OutputConfig,
    pub lsp: LspConfig,
}

impl Default for AnalysisConfig {
    /// No depth limit, test glob exclusions, no external expansion.
    fn default() -> (r: Self)
        ensures
            r.max_depth is None,
            r.exclude_patterns@.len() == 2,
            r.exclude_patterns@[0]@ == "test_*"@,
            r.exclude_patterns@[1]@ == "*_test"@,
            r.include_external == false,
    {
        let mut patterns: Vec<String> = Vec::new();
        patterns.push("test_*".to_owned());
        patterns.push("*_test".to_owned());
        AnalysisConfig { max_depth: None, exclude_patterns: patterns, include_external: false }
    }
}

impl Default for OutputConfig {
    /// DOT format, types shown, parameters hidden, module clustering on.
    fn default() -> (r: Self)
        ensures
            r.format@ == "dot"@,
            r.show_types == true,
            r.show_parameters == false,
            r.cluster_by_module == true,
    {
        OutputConfig {
            format: "dot".to_owned(),
            show_types: true,
            show_parameters: false,
            cluster_by_module: true,
        }
    }
}

impl Default for LspConfig {
    /// No explicit server command, a thirty-second request timeout.
    fn default() -> (r: Self)
        ensures
            r.server_command is None,
            r.timeout_seconds == 30,
    {
        LspConfig { server_command: None, timeout_seconds: 30 }
    }
}

impl Default for ConfigFile {
    /// The defaults of every section.
    fn default() -> (r: Self)
        ensures
            r.analysis.max_depth is None,
            r.analysis.exclude_patterns@.len() == 2,
            r.analysis.exclude_patterns@[0]@ == "test_*"@,
            r.analysis.exclude_patterns@[1]@ == "*_test"@,
            r.analysis.include_external == false,
            r.output.format@ == "dot"@,
            r.output.show_types == true,
            r.output.show_parameters == false,
            r.output.cluster_by_module == true,
            r.lsp.server_command is None,
            r.lsp.timeout_seconds == 30,
    {
        ConfigFile {
            analysis: AnalysisConfig::default(),
            output: OutputConfig::default(),
            lsp: LspConfig::default(),
        }
    }
}

/// An equal copy of a string list.
fn clone_strings(v: &Vec<String>) -> (r: Vec<String>)
    ensures
        r@ == v@,
{
    let mut r: Vec<String> = Vec::new();
    let mut i: usize = 0;
    while i < v.len()
        invariant
            i <= v@.len(),
            r@ == v@.take(i as int),
        decreases v@.len() - i,
    {
        r.push(v[i].clone());
        proof {
            assert(r@ =~= v@.take(i as int + 1));
        }
        i += 1;
    }
    proof {
        assert(v@.take(v@.len() as int) =~= v@);
    }
    r
}

/// An equal copy of an optional string.
fn clone_opt_string(v: &Option<String>) -> (r: Option<String>)
    ensures
        r == *v,
{
    match v {
        Some(s) => Some(s.clone()),
        None => None,
    }
}

impl Config {
    /// Merge parsed command-line arguments with the settings file: per field,
    /// a given command-line value wins over the settings file, which wins
    /// over the built-in defaults (already folded into `config_file`).
    pub fn parse(args: CliArgs, config_file: ConfigFile) -> (r: Config)
        ensures
            r.file_path == args.file,
            r.project_path == args.project,
            args.output matches Some(o) ==> r.output_path == o,
            args.output is None ==> r.output_path@ == "callgraph.dot"@,
            r.root_function == args.root,
            r.max_depth == (if args.depth is Some {
                args.depth
            } else {
                config_file.analysis.max_depth
            }),
            r.exclude_patterns@ == (if args.exclude@.len() == 0 {
                config_file.analysis.exclude_patterns@
            } else {
                args.exclude@
            }),
            r.lsp_server_command == (if args.lsp_server is Some {
                args.lsp_server
            } else {
                config_file.lsp.server_command
            }),
            r.verbose == args.verbose,
            r.analysis == config_file.analysis,
            r.output == config_file.output,
            r.lsp == config_file.lsp,
    {
        let exclude_patterns = if args.exclude.len() == 0 {
            clone_strings(&config_file.analysis.exclude_patterns)
        } else {
            args.exclude
        };
        let lsp_server_command = match args.lsp_server {
            Some(s) => Some(s),
            None => clone_opt_string(&config_file.lsp.server_command),
        };
        let max_depth = match args.depth {
            Some(d) => Some(d),
            None => config_file.analysis.max_depth,
        };
        let output_path = match args.output {
            Some(o) => o,
            None => "callgraph.dot".to_owned(),
        };
        Config {
            file_path: args.file,
            project_path: args.project,
            output_path,
            root_function: args.root,
            max_depth,
            exclude_patterns,
            lsp_server_command,
            verbose: args.verbose,
            analysis: config_file.analysis,
            output: config_file.output,
            lsp: config_file.lsp,
        }
    }
}

} // verus!

verus! {

/// The text of a quoted string value.
pub open spec fn quoted(s: Seq<char>) -> Seq<char> {
    "\""@ + s + "\""@
}

/// The text of `true` or `false`.
pub open spec fn bool_text(b: bool) -> Seq<char> {
    if b {
        "true"@
    } else {
        "false"@
    }
}

/// The text of the first `k` strings of `v`, quoted and comma-separated.
pub open spec fn string_list_text(v: Seq<String>, k: int) -> Seq<char>
    decreases k,
{
    if k <= 0 {
        Seq::empty()
    } else {
        string_list_text(v, k - 1) + (if k - 1 > 0 {
            ", "@
        } else {
            Seq::<char>::empty()
        }) + quoted(v[k - 1]@)
    }
}

/// The `[analysis]` section text.
pub open spec fn analysis_text(a: &AnalysisConfig) -> Seq<char> {
    "[analysis]\n"@ + (match a.max_depth {
        Some(d) => "max_depth = "@ + dec_str(d as nat) + "\n"@,
        None => Seq::<char>::empty(),
    }) + "exclude_patterns = ["@ + string_list_text(
        a.exclude_patterns@,
        a.exclude_patterns@.len() as int,
    ) + "]\n"@ + "include_external = "@ + bool_text(a.include_external) + "\n"@
}

/// The `[output]` section text.
pub open spec fn output_text(o: &OutputConfig) -> Seq<char> {
    "[output]\n"@ + "format = "@ + quoted(o.format@) + "\n"@ + "show_types = "@ + bool_text(
        o.show_types,
    ) + "\n"@ + "show_parameters = "@ + bool_text(o.show_parameters) + "\n"@
        + "cluster_by_module = "@ + bool_text(o.cluster_by_module) + "\n"@
}

/// The `[lsp]` section text.
pub open spec fn lsp_text(l: &LspConfig) -> Seq<char> {
    "[lsp]\n"@ + (match l.server_command {
        Some(c) => "server_command = "@ + quoted(c@) + "\n"@,
        None => Seq::<char>::empty(),
    }) + "timeout_seconds = "@ + dec_str(l.timeout_seconds as nat) + "\n"@
}

/// The whole settings file text.
pub open spec fn config_file_text(c: &ConfigFile) -> Seq<char> {
    analysis_text(&c.analysis) + "\n"@ + output_text(&c.output) + "\n"@ + lsp_text(&c.lsp)
}

/// Every byte the verbatim grammar can carry in a double-quoted value:
/// anything but the quote itself and the line break.
pub open spec fn clean_text(s: Seq<u8>) -> bool {
    forall|i: int| 0 <= i < s.len() ==> #[trigger] s[i] != 34 && s[i] != 10
}

/// The settings hold only string values the file grammar can spell.
pub open spec fn savable(cb: ConfigFileBytes) -> bool {
    &&& clean_text(cb.format)
    &&& (cb.server_command matches Some(c) ==> clean_text(c))
    &&& (forall|p: int|
        0 <= p < cb.exclude_patterns.len() ==> clean_text(#[trigger] cb.exclude_patterns[p]))
}

fn str_is_clean(v: &str) -> (r: bool)
    ensures
        r == clean_text(bytes_of(v@)),
{
    let b = v.as_bytes();
    let mut i: usize = 0;
    while i < b.len()
        invariant
            i <= b@.len(),
            b@ == bytes_of(v@),
            forall|j: int| 0 <= j < i ==> #[trigger] b@[j] != 34 && b@[j] != 10,
        decreases b@.len() - i,
    {
        if b[i] == 34 || b[i] == 10 {
            return false;
        }
        i += 1;
    }
    true
}

fn strings_are_clean(v: &Vec<String>) -> (r: bool)
    ensures
        r == (forall|p: int|
            0 <= p < v@.len() ==> clean_text(#[trigger] strs_bytes(v@)[p])),
{
    let mut i: usize = 0;
    while i < v.len()
        invariant
            i <= v@.len(),
            forall|p: int| 0 <= p < i ==> clean_text(#[trigger] strs_bytes(v@)[p]),
        decreases v@.len() - i,
    {
        if !str_is_clean(v[i].as_str()) {
            assert(!clean_text(strs_bytes(v@)[i as int]));
            return false;
        }
        i += 1;
    }
    true
}

fn push_quoted(s: &mut String, v: &str)
    ensures
        final(s)@ == old(s)@ + quoted(v@),
{
    s.append("\"");
    s.append(v);
    s.append("\"");
    proof {
        assert(final(s)@ =~= old(s)@ + quoted(v@));
    }
}

fn push_bool(s: &mut String, b: bool)
    ensures
        final(s)@ == old(s)@ + bool_text(b),
{
    if b {
        s.append("true");
    } else {
        s.append("false");
    }
}

fn push_string_list(s: &mut String, v: &Vec<String>)
    ensures
        final(s)@ == old(s)@ + string_list_text(v@, v@.len() as int),
{
    let mut i: usize = 0;
    while i < v.len()
        invariant
            i <= v@.len(),
            s@ == old(s)@ + string_list_text(v@, i as int),
        decreases v@.len() - i,
    {
        if i > 0 {
            s.append(", ");
        }
        push_quoted(s, v[i].as_str());
        proof {
            assert(s@ =~= old(s)@ + string_list_text(v@, i as int + 1));
        }
        i += 1;
    }
}

#[verifier::rlimit(60)]
#[verifier::spinoff_prover]
fn push_analysis(s: &mut String, a: &AnalysisConfig)
    ensures
        final(s)@ == old(s)@ + analysis_text(a),
{
    s.append("[analysis]\n");
    match a.max_depth {
        Some(d) => {
            s.append("max_depth = ");
            push_usize_dec(s, d);
            s.append("\n");
        },
        None => {},
    }
    s.append("exclude_patterns = [");
    push_string_list(s, &a.exclude_patterns);
    s.append("]\n");
    s.append("include_external = ");
    push_bool(s, a.include_external);
    s.append("\n");
    proof {
        assert(final(s)@ =~= old(s)@ + analysis_text(a));
    }
}

#[verifier::rlimit(60)]
#[verifier::spinoff_prover]
fn push_output(s: &mut String, o: &OutputConfig)
    ensures
        final(s)@ == old(s)@ + output_text(o),
{
    s.append("[output]\n");
    s.append("format = ");
    push_quoted(s, o.format.as_str());
    s.append("\n");
    s.append("show_types = ");
    push_bool(s, o.show_types);
    s.append("\n");
    s.append("show_parameters = ");
    push_bool(s, o.show_parameters);
    s.append("\n");
    s.append("cluster_by_module = ");
    push_bool(s, o.cluster_by_module);
    s.append("\n");
    proof {
        assert(final(s)@ =~= old(s)@ + output_text(o));
    }
}

#[verifier::rlimit(60)]
#[verifier::spinoff_prover]
fn push_lsp(s: &mut String, l: &LspConfig)
    ensures
        final(s)@ == old(s)@ + lsp_text(l),
{
    s.append("[lsp]\n");
    match &l.server_command {
        Some(c) => {
            s.append("server_command = ");
            push_quoted(s, c.as_str());
            s.append("\n");
        },
        None => {},
    }
    s.append("timeout_seconds = ");
    push_u64_dec(s, l.timeout_seconds);
    s.append("\n");
    proof {
        assert(final(s)@ =~= old(s)@ + lsp_text(l));
    }
}

impl ConfigFile {
    /// Render the settings as the file text `load` reads back.
    ///
    /// String values are written verbatim between double quotes, without
    /// escape sequences, so a value holding a double quote or a line break
    /// cannot be spelled; such settings are refused instead of written
    /// unreadably.
    pub fn save(&self) -> (r: Result<String, CallGraphError>)
        ensures
            match r {
                Ok(text) => savable(config_bytes(self)) && text@ == config_file_text(self),
                Err(e) => !savable(config_bytes(self)) && e is ConfigError,
            },
    {
        if !str_is_clean(self.output.format.as_str()) {
            proof {
                assert(!clean_text(config_bytes(self).format));
            }
            return Err(
                config_error("a configuration value holds a quote or line break and cannot be written"),
            );
        }
        match &self.lsp.server_command {
            Some(c) => {
                if !str_is_clean(c.as_str()) {
                    proof {
                        assert(config_bytes(self).server_command == Some(bytes_of(c@)));
                        assert(!savable(config_bytes(self)));
                    }
                    return Err(
                        config_error(
                            "a configuration value holds a quote or line break and cannot be written",
                        ),
                    );
                }
            },
            None => {},
        }
        if !strings_are_clean(&self.analysis.exclude_patterns) {
            proof {
                assert(config_bytes(self).exclude_patterns == strs_bytes(
                    self.analysis.exclude_patterns@,
                ));
                assert(!savable(config_bytes(self)));
            }
            return Err(
                config_error("a configuration value holds a quote or line break and cannot be written"),
            );
        }
        proof {
            assert(config_bytes(self).exclude_patterns == strs_bytes(
                self.analysis.exclude_patterns@,
            ));
            assert(savable(config_bytes(self)));
        }
        let mut s = String::new();
        push_analysis(&mut s, &self.analysis);
        s.append("\n");
        push_output(&mut s, &self.output);
        s.append("\n");
        push_lsp(&mut s, &self.lsp);
        proof {
            assert(s@ =~= config_file_text(self));
        }
        Ok(s)
    }
}

} // verus!


verus! {

/// The byte-level value of a `ConfigFile`: every string as its UTF-8 bytes.
/// The settings parser's specification is stated over this view.
#[verifier::ext_equal]
pub struct ConfigFileBytes {
    pub max_depth: Option<nat>,
    pub exclude_patterns: Seq<Seq<u8>>,
    pub include_external: bool,
    pub format: Seq<u8>,
    pub show_types: bool,
    pub show_parameters: bool,
    pub cluster_by_module: bool,
    pub server_command: Option<Seq<u8>>,
    pub timeout_seconds: nat,
}

/// The UTF-8 bytes of each string in a list.
pub open spec fn strs_bytes(v: Seq<String>) -> Seq<Seq<u8>> {
    v.map_values(|s: String| bytes_of(s@))
}

/// The byte-level value of a settings value.
pub open spec fn config_bytes(c: &ConfigFile) -> ConfigFileBytes {
    ConfigFileBytes {
        max_depth: match c.analysis.max_depth {
            Some(d) => Some(d as nat),
            None => None,
        },
        exclude_patterns: strs_bytes(c.analysis.exclude_patterns@),
        include_external: c.analysis.include_external,
        format: bytes_of(c.output.format@),
        show_types: c.output.show_types,
        show_parameters: c.output.show_parameters,
        cluster_by_module: c.output.cluster_by_module,
        server_command: match c.lsp.server_command {
            Some(s) => Some(bytes_of(s@)),
            None => None,
        },
        timeout_seconds: c.lsp.timeout_seconds as nat,
    }
}

/// The byte-level value of the default settings.
pub open spec fn default_config_bytes() -> ConfigFileBytes {
    ConfigFileBytes {
        max_depth: None,
        exclude_patterns: seq![bytes_of("test_*"@), bytes_of("*_test"@)],
        include_external: false,
        format: bytes_of("dot"@),
        show_types: true,
        show_parameters: false,
        cluster_by_module: true,
        server_command: None,
        timeout_seconds: 30,
    }
}

/// The first position at or after `lo` (below `hi`) holding byte `c`; `hi`
/// when there is none.
pub open spec fn find_from(b: Seq<u8>, lo: int, hi: int, c: u8) -> int
    decreases hi - lo,
{
    if lo >= hi {
        hi
    } else if b[lo] == c {
        lo
    } else {
        find_from(b, lo + 1, hi, c)
    }
}

proof fn lemma_find_from(b: Seq<u8>, lo: int, hi: int, c: u8, p: int)
    requires
        lo <= p <= hi,
        forall|i: int| lo <= i < p ==> #[trigger] b[i] != c,
        p < hi ==> b[p] == c,
    ensures
        find_from(b, lo, hi, c) == p,
    decreases p - lo,
{
    if lo < p {
        lemma_find_from(b, lo + 1, hi, c, p);
    }
}

/// The first position at or after `lo` (below `hi`) holding a non-blank
/// byte; `hi` when all are blank.
pub open spec fn skip_spaces(b: Seq<u8>, lo: int, hi: int) -> int
    decreases hi - lo,
{
    if lo >= hi {
        hi
    } else if is_space(b[lo]) {
        skip_spaces(b, lo + 1, hi)
    } else {
        lo
    }
}

proof fn lemma_skip_spaces(b: Seq<u8>, lo: int, hi: int, s: int)
    requires
        lo <= s <= hi,
        forall|i: int| lo <= i < s ==> is_space(#[trigger] b[i]),
        s < hi ==> !is_space(b[s]),
    ensures
        skip_spaces(b, lo, hi) == s,
    decreases s - lo,
{
    if lo < s {
        lemma_skip_spaces(b, lo + 1, hi, s);
    }
}

/// The position after the last non-blank byte in `[lo, hi)`; `lo` when all
/// are blank.
pub open spec fn rskip_spaces(b: Seq<u8>, lo: int, hi: int) -> int
    decreases hi - lo,
{
    if hi <= lo {
        lo
    } else if is_space(b[hi - 1]) {
        rskip_spaces(b, lo, hi - 1)
    } else {
        hi
    }
}

proof fn lemma_rskip_spaces(b: Seq<u8>, lo: int, hi: int, e: int)
    requires
        lo <= e <= hi,
        forall|i: int| e <= i < hi ==> is_space(#[trigger] b[i]),
        e > lo ==> !is_space(b[e - 1]),
    ensures
        rskip_spaces(b, lo, hi) == e,
    decreases hi - e,
{
    if e < hi {
        lemma_rskip_spaces(b, lo, hi - 1, e);
    }
}

/// A decimal value that fits a `u64`.
pub open spec fn parse_dec_spec(b: Seq<u8>, lo: int, hi: int) -> Option<nat> {
    let digits = b.subrange(lo, hi);
    if hi - lo >= 1 && all_digits(digits) && dec_val(digits) <= u64::MAX {
        Some(dec_val(digits))
    } else {
        None
    }
}

/// A boolean value: exactly `true` or `false`.
pub open spec fn parse_bool_spec(b: Seq<u8>, lo: int, hi: int) -> Option<bool> {
    if b.subrange(lo, hi) == "true".spec_bytes() {
        Some(true)
    } else if b.subrange(lo, hi) == "false".spec_bytes() {
        Some(false)
    } else {
        None
    }
}

/// A quoted string value: the bytes between the outer quotes (single or
/// double), verbatim, with no quote of the same kind inside and decodable as
/// UTF-8.
pub open spec fn parse_quoted_spec(b: Seq<u8>, lo: int, hi: int) -> Option<Seq<u8>> {
    if hi - lo >= 2 && (b[lo] == 34 || b[lo] == 39) && b[hi - 1] == b[lo] && find_from(
        b,
        lo + 1,
        hi - 1,
        b[lo],
    ) == hi - 1 && vstd::utf8::valid_utf8(b.subrange(lo + 1, hi - 1)) {
        Some(b.subrange(lo + 1, hi - 1))
    } else {
        None
    }
}

/// Is `c` a blank byte or a list comma?
pub open spec fn is_separator(c: u8) -> bool {
    is_space(c) || c == 44
}

/// The first position at or after `lo` (below `hi`) holding neither a blank
/// nor a comma; `hi` when all are separators.
pub open spec fn skip_separators(b: Seq<u8>, lo: int, hi: int) -> int
    decreases hi - lo,
{
    if lo >= hi {
        hi
    } else if is_separator(b[lo]) {
        skip_separators(b, lo + 1, hi)
    } else {
        lo
    }
}

proof fn lemma_skip_separators(b: Seq<u8>, lo: int, hi: int, s: int)
    requires
        lo <= s <= hi,
        forall|i: int| lo <= i < s ==> is_separator(#[trigger] b[i]),
        s < hi ==> !is_separator(b[s]),
    ensures
        skip_separators(b, lo, hi) == s,
    decreases s - lo,
{
    if lo < s {
        lemma_skip_separators(b, lo + 1, hi, s);
    }
}

/// The quoted items (single or double quotes) between list brackets,
/// separated by blanks and commas; anything else between items, an unclosed
/// quote, or an item that is not UTF-8 fails the list.
pub open spec fn parse_items_spec(b: Seq<u8>, lo: int, hi: int) -> Option<Seq<Seq<u8>>>
    decreases hi - lo,
{
    let s = skip_separators(b, lo, hi);
    if s >= hi {
        Some(Seq::empty())
    } else if b[s] == 34 || b[s] == 39 {
        let close = find_from(b, s + 1, hi, b[s]);
        if close >= hi {
            None
        } else if !vstd::utf8::valid_utf8(b.subrange(s + 1, close)) {
            None
        } else {
            // the scans never point before their start; the bound below only
            // serves the termination measure
            let next = if close + 1 <= lo {
                lo + 1
            } else {
                close + 1
            };
            match parse_items_spec(b, next, hi) {
                Some(rest) => Some(seq![b.subrange(s + 1, close)] + rest),
                None => None,
            }
        }
    } else {
        None
    }
}

/// The position where a `#` comment starts, scanning past quoted stretches;
/// `hi` when the line has none.
pub open spec fn cut_comment(b: Seq<u8>, lo: int, hi: int) -> int
    decreases hi - lo,
{
    if lo >= hi {
        hi
    } else if b[lo] == 35 {
        lo
    } else if b[lo] == 34 || b[lo] == 39 {
        let close = find_from(b, lo + 1, hi, b[lo]);
        if close >= hi {
            hi
        } else {
            let next = if close + 1 <= lo {
                lo + 1
            } else {
                close + 1
            };
            cut_comment(b, next, hi)
        }
    } else {
        cut_comment(b, lo + 1, hi)
    }
}

/// A bracketed list of quoted strings.
pub open spec fn parse_list_spec(b: Seq<u8>, lo: int, hi: int) -> Option<Seq<Seq<u8>>> {
    if hi - lo >= 2 && b[lo] == 91 && b[hi - 1] == 93 {
        parse_items_spec(b, lo + 1, hi - 1)
    } else {
        None
    }
}

/// One `key = value` assignment applied to the settings: a known key of the
/// current section takes the parsed value (`None` when the value is
/// malformed), any other key changes nothing.
pub open spec fn apply_key_spec(
    cb: ConfigFileBytes,
    section: u8,
    b: Seq<u8>,
    ks: int,
    ke: int,
    vs: int,
    ve: int,
) -> Option<ConfigFileBytes> {
    let key = b.subrange(ks, ke);
    if section == 1 {
        if key == "max_depth".spec_bytes() {
            match parse_dec_spec(b, vs, ve) {
                Some(n) => if n <= usize::MAX {
                    Some(ConfigFileBytes { max_depth: Some(n), ..cb })
                } else {
                    None
                },
                None => None,
            }
        } else if key == "exclude_patterns".spec_bytes() {
            match parse_list_spec(b, vs, ve) {
                Some(items) => Some(ConfigFileBytes { exclude_patterns: items, ..cb }),
                None => None,
            }
        } else if key == "include_external".spec_bytes() {
            match parse_bool_spec(b, vs, ve) {
                Some(v) => Some(ConfigFileBytes { include_external: v, ..cb }),
                None => None,
            }
        } else {
            Some(cb)
        }
    } else if section == 2 {
        if key == "format".spec_bytes() {
            match parse_quoted_spec(b, vs, ve) {
                Some(v) => Some(ConfigFileBytes { format: v, ..cb }),
                None => None,
            }
        } else if key == "show_types".spec_bytes() {
            match parse_bool_spec(b, vs, ve) {
                Some(v) => Some(ConfigFileBytes { show_types: v, ..cb }),
                None => None,
            }
        } else if key == "show_parameters".spec_bytes() {
            match parse_bool_spec(b, vs, ve) {
                Some(v) => Some(ConfigFileBytes { show_parameters: v, ..cb }),
                None => None,
            }
        } else if key == "cluster_by_module".spec_bytes() {
            match parse_bool_spec(b, vs, ve) {
                Some(v) => Some(ConfigFileBytes { cluster_by_module: v, ..cb }),
                None => None,
            }
        } else {
            Some(cb)
        }
    } else if section == 3 {
        if key == "server_command".spec_bytes() {
            match parse_quoted_spec(b, vs, ve) {
                Some(v) => Some(ConfigFileBytes { server_command: Some(v), ..cb }),
                None => None,
            }
        } else if key == "timeout_seconds".spec_bytes() {
            match parse_dec_spec(b, vs, ve) {
                Some(n) => Some(ConfigFileBytes { timeout_seconds: n, ..cb }),
                None => None,
            }
        } else {
            Some(cb)
        }
    } else {
        Some(cb)
    }
}

/// One line of the settings file applied to the settings and section state:
/// blank lines and `#` comments change nothing, a bracketed header selects
/// the section, anything else must be a `key = value` assignment.
pub open spec fn process_line_spec(
    cb: ConfigFileBytes,
    section: u8,
    b: Seq<u8>,
    lo: int,
    hi: int,
) -> Option<(ConfigFileBytes, u8)> {
    let hc = cut_comment(b, lo, hi);
    let s = skip_spaces(b, lo, hc);
    let e = rskip_spaces(b, s, hc);
    if s == e {
        Some((cb, section))
    } else if b[s] == 91 {
        if b.subrange(s, e) == "[analysis]".spec_bytes() {
            Some((cb, 1u8))
        } else if b.subrange(s, e) == "[output]".spec_bytes() {
            Some((cb, 2u8))
        } else if b.subrange(s, e) == "[lsp]".spec_bytes() {
            Some((cb, 3u8))
        } else {
            Some((cb, 0u8))
        }
    } else {
        let eq = find_from(b, s, e, 61);
        if eq >= e {
            None
        } else {
            let ks = skip_spaces(b, s, eq);
            let ke = rskip_spaces(b, ks, eq);
            let vs = skip_spaces(b, eq + 1, e);
            let ve = rskip_spaces(b, vs, e);
            match apply_key_spec(cb, section, b, ks, ke, vs, ve) {
                Some(cb2) => Some((cb2, section)),
                None => None,
            }
        }
    }
}

/// The settings after reading the text from position `lo` on, line by line.
pub open spec fn load_from(b: Seq<u8>, lo: int, section: u8, cb: ConfigFileBytes) -> Option<
    ConfigFileBytes,
>
    decreases b.len() - lo,
{
    if lo >= b.len() {
        Some(cb)
    } else {
        let end = find_from(b, lo, b.len() as int, 10);
        match process_line_spec(cb, section, b, lo, end) {
            None => None,
            Some(p) => {
                if end >= b.len() {
                    Some(p.0)
                } else {
                    // find_from never points before its start; the bound below
                    // only serves the termination measure
                    let next = if end + 1 <= lo {
                        lo + 1
                    } else {
                        end + 1
                    };
                    load_from(b, next, p.1, p.0)
                }
            },
        }
    }
}

/// What loading a settings text yields, starting from the defaults; `None`
/// is a malformed line or value.
pub open spec fn load_spec(b: Seq<u8>) -> Option<ConfigFileBytes> {
    load_from(b, 0, 0u8, default_config_bytes())
}

} // verus!

verus! {

/// Relies on `core::str::from_utf8`, which succeeds exactly on valid UTF-8
/// and yields the text of those very bytes; the copy into an owned string
/// keeps the text. Used to turn parsed value bytes back into strings.
#[verifier::external_body]
fn bytes_to_string(b: &[u8]) -> (r: Option<String>)
    ensures
        r is Some <==> vstd::utf8::valid_utf8(b@),
        r matches Some(s) ==> bytes_of(s@) == b@,
{
    match core::str::from_utf8(b) {
        Ok(s) => Some(s.to_owned()),
        Err(_) => None,
    }
}

fn config_error(msg: &str) -> (r: CallGraphError)
    ensures
        r matches CallGraphError::ConfigError(m) && m@ == msg@,
{
    CallGraphError::ConfigError(msg.to_owned())
}

/// `trim_range`, tied to the specification-level trims.
fn trim_exact(b: &[u8], lo: usize, hi: usize) -> (r: (usize, usize))
    requires
        lo <= hi <= b@.len(),
    ensures
        lo <= r.0 <= r.1 <= hi,
        r.0 as int == skip_spaces(b@, lo as int, hi as int),
        r.1 as int == rskip_spaces(b@, r.0 as int, hi as int),
{
    let (s, e) = trim_range(b, lo, hi);
    proof {
        if s == e {
            lemma_skip_spaces(b@, lo as int, hi as int, hi as int);
            lemma_rskip_spaces(b@, hi as int, hi as int, hi as int);
        } else {
            lemma_skip_spaces(b@, lo as int, hi as int, s as int);
            lemma_rskip_spaces(b@, s as int, hi as int, e as int);
        }
    }
    (s, e)
}

/// `find_byte`, tied to the specification-level scan.
fn find_exact(b: &[u8], lo: usize, hi: usize, c: u8) -> (p: usize)
    requires
        lo <= hi <= b@.len(),
    ensures
        lo <= p <= hi,
        p as int == find_from(b@, lo as int, hi as int, c),
        p < hi ==> b@[p as int] == c,
{
    match find_byte(b, lo, hi, c) {
        Some(p) => {
            proof {
                lemma_find_from(b@, lo as int, hi as int, c, p as int);
            }
            p
        },
        None => {
            proof {
                lemma_find_from(b@, lo as int, hi as int, c, hi as int);
            }
            hi
        },
    }
}

/// Parse `true` or `false`.
fn parse_bool_range(b: &[u8], lo: usize, hi: usize) -> (r: Result<bool, CallGraphError>)
    requires
        lo <= hi <= b@.len(),
    ensures
        match r {
            Ok(v) => parse_bool_spec(b@, lo as int, hi as int) == Some(v),
            Err(e) => parse_bool_spec(b@, lo as int, hi as int) is None && e is ConfigError,
        },
{
    if range_eq_str(b, lo, hi, "true") {
        Ok(true)
    } else if range_eq_str(b, lo, hi, "false") {
        Ok(false)
    } else {
        Err(config_error("invalid boolean value in configuration file"))
    }
}

/// Parse a decimal number that fits a `u64`.
fn parse_num_range(b: &[u8], lo: usize, hi: usize) -> (r: Result<u64, CallGraphError>)
    requires
        lo <= hi <= b@.len(),
    ensures
        match r {
            Ok(n) => parse_dec_spec(b@, lo as int, hi as int) == Some(n as nat),
            Err(e) => parse_dec_spec(b@, lo as int, hi as int) is None && e is ConfigError,
        },
{
    match parse_dec(b, lo, hi) {
        Some(n) => Ok(n),
        None => Err(config_error("invalid number in configuration file")),
    }
}

/// Parse a quoted string value (single or double quotes): the bytes between
/// the outer quotes are taken verbatim (no escape sequences), and must hold
/// no quote of the same kind themselves.
fn parse_quoted_range(b: &[u8], lo: usize, hi: usize) -> (r: Result<String, CallGraphError>)
    requires
        lo <= hi <= b@.len(),
    ensures
        match r {
            Ok(s) => parse_quoted_spec(b@, lo as int, hi as int) == Some(bytes_of(s@)),
            Err(e) => parse_quoted_spec(b@, lo as int, hi as int) is None && e is ConfigError,
        },
{
    if hi - lo < 2 {
        return Err(config_error("invalid string value in configuration file"));
    }
    let quote = b[lo];
    if (quote != 34 && quote != 39) || b[hi - 1] != quote {
        return Err(config_error("invalid string value in configuration file"));
    }
    let q = find_exact(b, lo + 1, hi - 1, quote);
    if q < hi - 1 {
        return Err(config_error("invalid string value in configuration file"));
    }
    match bytes_to_string(&b[lo + 1..hi - 1]) {
        Some(s) => Ok(s),
        None => Err(config_error("invalid string value in configuration file")),
    }
}

proof fn lemma_strs_bytes_push(v: Seq<String>, s: String)
    ensures
        strs_bytes(v.push(s)) == strs_bytes(v).push(bytes_of(s@)),
{
    assert(strs_bytes(v.push(s)) =~= strs_bytes(v).push(bytes_of(s@)));
}

fn skip_separators_exec(b: &[u8], lo: usize, hi: usize) -> (s: usize)
    requires
        lo <= hi <= b@.len(),
    ensures
        lo <= s <= hi,
        s as int == skip_separators(b@, lo as int, hi as int),
        s < hi ==> !is_separator(b@[s as int]),
{
    let mut s: usize = lo;
    while s < hi && (byte_is_space(b[s]) || b[s] == 44)
        invariant
            lo <= s <= hi <= b@.len(),
            forall|i: int| lo <= i < s ==> is_separator(#[trigger] b@[i]),
        decreases hi - s,
    {
        s += 1;
    }
    proof {
        lemma_skip_separators(b@, lo as int, hi as int, s as int);
    }
    s
}

/// The comment cut, tied to its specification.
fn comment_cut(b: &[u8], lo: usize, hi: usize) -> (c: usize)
    requires
        lo <= hi <= b@.len(),
    ensures
        lo <= c <= hi,
        c as int == cut_comment(b@, lo as int, hi as int),
    decreases b@.len() - lo,
{
    if lo >= hi {
        return hi;
    }
    if b[lo] == 35 {
        return lo;
    }
    if b[lo] == 34 || b[lo] == 39 {
        let close = find_exact(b, lo + 1, hi, b[lo]);
        if close >= hi {
            return hi;
        }
        return comment_cut(b, close + 1, hi);
    }
    comment_cut(b, lo + 1, hi)
}

/// Collect the quoted items between list brackets into `out`.
fn parse_items(b: &[u8], lo: usize, hi: usize, out: &mut Vec<String>) -> (r: Result<
    (),
    CallGraphError,
>)
    requires
        lo <= hi <= b@.len(),
    ensures
        match r {
            Ok(()) => ({
                let sp = parse_items_spec(b@, lo as int, hi as int);
                sp matches Some(items) && strs_bytes(final(out)@) == strs_bytes(old(out)@) + items
            }),
            Err(e) => parse_items_spec(b@, lo as int, hi as int) is None && e is ConfigError,
        },
    decreases b@.len() - lo,
{
    let start = skip_separators_exec(b, lo, hi);
    if start >= hi {
        proof {
            assert(strs_bytes(out@) =~= strs_bytes(out@) + Seq::<Seq<u8>>::empty());
        }
        return Ok(());
    }
    let quote = b[start];
    if quote != 34 && quote != 39 {
        return Err(config_error("invalid list value in configuration file"));
    }
    let close = find_exact(b, start + 1, hi, quote);
    if close >= hi {
        return Err(config_error("invalid list value in configuration file"));
    }
    match bytes_to_string(&b[start + 1..close]) {
        None => Err(config_error("invalid list value in configuration file")),
        Some(s) => {
            let ghost item = b@.subrange(start as int + 1, close as int);
            let ghost before = out@;
            out.push(s);
            proof {
                lemma_strs_bytes_push(before, s);
            }
            match parse_items(b, close + 1, hi, out) {
                Ok(()) => {
                    proof {
                        let rest = parse_items_spec(b@, close as int + 1, hi as int).unwrap();
                        assert(strs_bytes(before) + (seq![item] + rest) =~= strs_bytes(
                            before,
                        ).push(item) + rest);
                    }
                    Ok(())
                },
                Err(e) => Err(e),
            }
        },
    }
}

/// Parse a bracketed list of quoted strings separated by blanks and commas.
fn parse_string_array(b: &[u8], lo: usize, hi: usize) -> (r: Result<Vec<String>, CallGraphError>)
    requires
        lo <= hi <= b@.len(),
    ensures
        match r {
            Ok(v) => parse_list_spec(b@, lo as int, hi as int) == Some(strs_bytes(v@)),
            Err(e) => parse_list_spec(b@, lo as int, hi as int) is None && e is ConfigError,
        },
{
    if hi - lo < 2 || b[lo] != 91 || b[hi - 1] != 93 {
        return Err(config_error("invalid list value in configuration file"));
    }
    let mut items: Vec<String> = Vec::new();
    match parse_items(b, lo + 1, hi - 1, &mut items) {
        Ok(()) => {
            proof {
                assert(strs_bytes(items@) =~= parse_items_spec(
                    b@,
                    lo as int + 1,
                    hi as int - 1,
                ).unwrap());
            }
            Ok(items)
        },
        Err(e) => Err(e),
    }
}

/// Apply one `key = value` line to the settings being built.
fn apply_key(
    cfg: &mut ConfigFile,
    section: u8,
    b: &[u8],
    ks: usize,
    ke: usize,
    vs: usize,
    ve: usize,
) -> (r: Result<(), CallGraphError>)
    requires
        ks <= ke <= b@.len(),
        vs <= ve <= b@.len(),
    ensures
        match r {
            Ok(()) => apply_key_spec(
                config_bytes(old(cfg)),
                section,
                b@,
                ks as int,
                ke as int,
                vs as int,
                ve as int,
            ) == Some(config_bytes(final(cfg))),
            Err(e) => apply_key_spec(
                config_bytes(old(cfg)),
                section,
                b@,
                ks as int,
                ke as int,
                vs as int,
                ve as int,
            ) is None && e is ConfigError,
        },
{
    let ghost cb0 = config_bytes(cfg);
    if section == 1 {
        if range_eq_str(b, ks, ke, "max_depth") {
            let n = match parse_num_range(b, vs, ve) {
                Ok(n) => n,
                Err(e) => {
                    return Err(e);
                },
            };
            if n > usize::MAX as u64 {
                return Err(config_error("invalid number in configuration file"));
            }
            cfg.analysis.max_depth = Some(n as usize);
            proof {
                assert(config_bytes(cfg) =~= ConfigFileBytes {
                    max_depth: Some(n as nat),
                    ..cb0
                });
            }
        } else if range_eq_str(b, ks, ke, "exclude_patterns") {
            let v = match parse_string_array(b, vs, ve) {
                Ok(v) => v,
                Err(e) => {
                    return Err(e);
                },
            };
            let ghost items = strs_bytes(v@);
            cfg.analysis.exclude_patterns = v;
            proof {
                assert(config_bytes(cfg) =~= ConfigFileBytes { exclude_patterns: items, ..cb0 });
            }
        } else if range_eq_str(b, ks, ke, "include_external") {
            let v = match parse_bool_range(b, vs, ve) {
                Ok(v) => v,
                Err(e) => {
                    return Err(e);
                },
            };
            cfg.analysis.include_external = v;
            proof {
                assert(config_bytes(cfg) =~= ConfigFileBytes { include_external: v, ..cb0 });
            }
        }
    } else if section == 2 {
        if range_eq_str(b, ks, ke, "format") {
            let v = match parse_quoted_range(b, vs, ve) {
                Ok(v) => v,
                Err(e) => {
                    return Err(e);
                },
            };
            let ghost fmt = bytes_of(v@);
            cfg.output.format = v;
            proof {
                assert(config_bytes(cfg) =~= ConfigFileBytes { format: fmt, ..cb0 });
            }
        } else if range_eq_str(b, ks, ke, "show_types") {
            let v = match parse_bool_range(b, vs, ve) {
                Ok(v) => v,
                Err(e) => {
                    return Err(e);
                },
            };
            cfg.output.show_types = v;
            proof {
                assert(config_bytes(cfg) =~= ConfigFileBytes { show_types: v, ..cb0 });
            }
        } else if range_eq_str(b, ks, ke, "show_parameters") {
            let v = match parse_bool_range(b, vs, ve) {
                Ok(v) => v,
                Err(e) => {
                    return Err(e);
                },
            };
            cfg.output.show_parameters = v;
            proof {
                assert(config_bytes(cfg) =~= ConfigFileBytes { show_parameters: v, ..cb0 });
            }
        } else if range_eq_str(b, ks, ke, "cluster_by_module") {
            let v = match parse_bool_range(b, vs, ve) {
                Ok(v) => v,
                Err(e) => {
                    return Err(e);
                },
            };
            cfg.output.cluster_by_module = v;
            proof {
                assert(config_bytes(cfg) =~= ConfigFileBytes { cluster_by_module: v, ..cb0 });
            }
        }
    } else if section == 3 {
        if range_eq_str(b, ks, ke, "server_command") {
            let v = match parse_quoted_range(b, vs, ve) {
                Ok(v) => v,
                Err(e) => {
                    return Err(e);
                },
            };
            let ghost cmd = bytes_of(v@);
            cfg.lsp.server_command = Some(v);
            proof {
                assert(config_bytes(cfg) =~= ConfigFileBytes {
                    server_command: Some(cmd),
                    ..cb0
                });
            }
        } else if range_eq_str(b, ks, ke, "timeout_seconds") {
            let v = match parse_num_range(b, vs, ve) {
                Ok(v) => v,
                Err(e) => {
                    return Err(e);
                },
            };
            cfg.lsp.timeout_seconds = v;
            proof {
                assert(config_bytes(cfg) =~= ConfigFileBytes {
                    timeout_seconds: v as nat,
                    ..cb0
                });
            }
        }
    }
    Ok(())
}

/// Classify and apply one line of the settings file.
fn process_line(cfg: &mut ConfigFile, section: &mut u8, b: &[u8], lo: usize, hi: usize) -> (r:
    Result<(), CallGraphError>)
    requires
        lo <= hi <= b@.len(),
    ensures
        match r {
            Ok(()) => ({
                let sp = process_line_spec(
                    config_bytes(old(cfg)),
                    *old(section),
                    b@,
                    lo as int,
                    hi as int,
                );
                sp matches Some(p) && config_bytes(final(cfg)) == p.0 && *final(section) == p.1
            }),
            Err(e) => process_line_spec(
                config_bytes(old(cfg)),
                *old(section),
                b@,
                lo as int,
                hi as int,
            ) is None && e is ConfigError,
        },
{
    let hc = comment_cut(b, lo, hi);
    let (s, e) = trim_exact(b, lo, hc);
    if s == e {
        return Ok(());
    }
    if b[s] == 91 {
        if range_eq_str(b, s, e, "[analysis]") {
            *section = 1;
        } else if range_eq_str(b, s, e, "[output]") {
            *section = 2;
        } else if range_eq_str(b, s, e, "[lsp]") {
            *section = 3;
        } else {
            *section = 0;
        }
        return Ok(());
    }
    let eq = find_exact(b, s, e, 61);
    if eq >= e {
        return Err(config_error("invalid configuration line"));
    }
    let (ks, ke) = trim_exact(b, s, eq);
    let (vs, ve) = trim_exact(b, eq + 1, e);
    apply_key(cfg, *section, b, ks, ke, vs, ve)
}

impl ConfigFile {
    /// Read settings from the text of a settings file, starting from the
    /// defaults; the grammar is the one `save` writes, plus blank lines,
    /// `#` comments (trailing ones too, outside quotes), blanks around keys
    /// and values, and single-quoted strings. `load_spec` is the whole
    /// grammar: a malformed line or value is a `ConfigError`, and a loaded
    /// value is exactly what the text spells.
    pub fn load(text: &str) -> (r: Result<ConfigFile, CallGraphError>)
        ensures
            match r {
                Ok(cfg) => load_spec(bytes_of(text@)) == Some(config_bytes(&cfg)),
                Err(e) => load_spec(bytes_of(text@)) is None && e is ConfigError,
            },
    {
        let b = text.as_bytes();
        let mut cfg = ConfigFile::default();
        let mut section: u8 = 0;
        let mut lo: usize = 0;
        proof {
            assert(strs_bytes(cfg.analysis.exclude_patterns@) =~= seq![
                bytes_of("test_*"@),
                bytes_of("*_test"@),
            ]);
            assert(config_bytes(&cfg) =~= default_config_bytes());
        }
        loop
            invariant
                lo <= b@.len(),
                b@ == bytes_of(text@),
                load_spec(b@) == load_from(b@, lo as int, section, config_bytes(&cfg)),
            decreases b@.len() - lo,
        {
            if lo >= b.len() {
                return Ok(cfg);
            }
            let end = find_exact(b, lo, b.len(), 10);
            match process_line(&mut cfg, &mut section, b, lo, end) {
                Ok(()) => {},
                Err(e) => {
                    return Err(e);
                },
            }
            if end == b.len() {
                return Ok(cfg);
            }
            lo = end + 1;
        }
    }
}

} // verus!
