//! What the plugin system decides without running a plugin: the names of
//! the builtin plugins, how a plugin file is recognised, the errors of
//! loading and running plugins, and how a plugin's finding becomes a
//! [`LintError`].
use vstd::prelude::*;
use crate::lint::{LintError, LintErrorV, Severity};
use crate::text::{lowercase, str_eq, to_lowercase};

verus! {

/// Version of the plugin interface, for information: nothing compares it
pub const API_VERSION: &'static str = "1.2";

/// The names of the builtin plugins, in the order they are loaded
pub open spec fn builtin_plugin_names() -> Seq<Seq<char>> {
    seq![
        "server-tokens-enabled"@,
        "autoindex-enabled"@,
        "gzip-not-enabled"@,
        "duplicate-directive"@,
        "space-before-semicolon"@,
        "trailing-whitespace"@,
        "block-lines"@,
        "proxy-pass-domain"@,
        "upstream-server-no-resolve"@,
        "directive-inheritance"@,
        "root-in-location"@,
        "alias-location-slash-mismatch"@,
        "proxy-pass-with-uri"@,
        "proxy-keepalive"@,
        "try-files-with-proxy"@,
        "if-is-evil-in-location"@,
        "unreachable-location"@,
        "missing-error-log"@,
        "deprecated-ssl-protocol"@,
        "weak-ssl-ciphers"@,
        "invalid-directive-context"@,
        "map-missing-default"@,
        "ssl-on-deprecated"@,
        "listen-http2-deprecated"@,
        "proxy-missing-host-header"@,
        "client-max-body-size-not-set"@,
        "nginx-rift"@,
        "map-unnamed-capture"@,
    ]
}

/// The names of the builtin plugins, in the order they are loaded
pub fn builtin_plugin_name_list() -> (r: Vec<&'static str>)
    ensures
        r@.len() == builtin_plugin_names().len(),
        forall|i: int| 0 <= i < r@.len() ==> #[trigger] r@[i]@ == builtin_plugin_names()[i],
{
    vec![
        "server-tokens-enabled",
        "autoindex-enabled",
        "gzip-not-enabled",
        "duplicate-directive",
        "space-before-semicolon",
        "trailing-whitespace",
        "block-lines",
        "proxy-pass-domain",
        "upstream-server-no-resolve",
        "directive-inheritance",
        "root-in-location",
        "alias-location-slash-mismatch",
        "proxy-pass-with-uri",
        "proxy-keepalive",
        "try-files-with-proxy",
        "if-is-evil-in-location",
        "unreachable-location",
        "missing-error-log",
        "deprecated-ssl-protocol",
        "weak-ssl-ciphers",
        "invalid-directive-context",
        "map-missing-default",
        "ssl-on-deprecated",
        "listen-http2-deprecated",
        "proxy-missing-host-header",
        "client-max-body-size-not-set",
        "nginx-rift",
        "map-unnamed-capture",
    ]
}

/// `name` is the name of a builtin plugin
pub fn is_builtin_plugin(name: &str) -> (r: bool)
    ensures
        r == builtin_plugin_names().contains(name@),
{
    let names = builtin_plugin_name_list();
    let n = names.len();
    let mut k: usize = 0;
    while k < n
        invariant
            n == names@.len() == builtin_plugin_names().len(),
            forall|i: int| 0 <= i < n ==> #[trigger] names@[i]@ == builtin_plugin_names()[i],
            k <= n,
            forall|i: int| 0 <= i < k ==> builtin_plugin_names()[i] != name@,
        decreases n - k,
    {
        if str_eq(names[k], name) {
            assert(builtin_plugin_names()[k as int] == name@);
            return true;
        }
        k += 1;
    }
    false
}

/// What the first eight bytes of a WebAssembly file say it is: `Some(true)`
/// for a component (`\0asm`, version `0d 00 01 00`), `Some(false)` for a
/// core module (version `01 00 00 00`), `None` for anything else
pub open spec fn wasm_kind(bytes: Seq<u8>) -> Option<bool> {
    if bytes.len() < 8 {
        None
    } else if bytes.take(4) != seq![0u8, 0x61u8, 0x73u8, 0x6du8] {
        None
    } else if bytes.subrange(4, 8) == seq![0x0du8, 0u8, 1u8, 0u8] {
        Some(true)
    } else if bytes.subrange(4, 8) == seq![1u8, 0u8, 0u8, 0u8] {
        Some(false)
    } else {
        None
    }
}

/// Whether `bytes` hold a WebAssembly component (`Some(true)`), a core
/// module (`Some(false)`), or neither (`None`)
pub fn is_component_model(bytes: &[u8]) -> (r: Option<bool>)
    ensures
        r == wasm_kind(bytes@),
{
    if bytes.len() < 8 {
        return None;
    }
    let ghost b = bytes@;
    if !(bytes[0] == 0 && bytes[1] == 0x61 && bytes[2] == 0x73 && bytes[3] == 0x6d) {
        proof {
            if b.take(4) == seq![0u8, 0x61u8, 0x73u8, 0x6du8] {
                assert(b.take(4)[0] == b[0]);
                assert(b.take(4)[1] == b[1]);
                assert(b.take(4)[2] == b[2]);
                assert(b.take(4)[3] == b[3]);
            }
        }
        return None;
    }
    assert(b.take(4) =~= seq![0u8, 0x61u8, 0x73u8, 0x6du8]);
    if bytes[4] == 0x0d && bytes[5] == 0 && bytes[6] == 1 && bytes[7] == 0 {
        assert(b.subrange(4, 8) =~= seq![0x0du8, 0u8, 1u8, 0u8]);
        Some(true)
    } else if bytes[4] == 1 && bytes[5] == 0 && bytes[6] == 0 && bytes[7] == 0 {
        assert(b.subrange(4, 8) =~= seq![1u8, 0u8, 0u8, 0u8]);
        proof {
            if b.subrange(4, 8) == seq![0x0du8, 0u8, 1u8, 0u8] {
                assert(b.subrange(4, 8)[0] == b[4]);
            }
        }
        Some(false)
    } else {
        proof {
            if b.subrange(4, 8) == seq![0x0du8, 0u8, 1u8, 0u8] || b.subrange(4, 8) == seq![
                1u8,
                0u8,
                0u8,
                0u8,
            ] {
                assert(b.subrange(4, 8)[0] == b[4]);
                assert(b.subrange(4, 8)[1] == b[5]);
                assert(b.subrange(4, 8)[2] == b[6]);
                assert(b.subrange(4, 8)[3] == b[7]);
            }
        }
        None
    }
}

/// Where compiled plugins are cached
#[derive(Debug, Clone)]
pub enum CompilationCache {
    /// The default per-user cache root
    Default,
    /// No cache: plugins are compiled on every run
    Disabled,
    /// The given directory as the cache root, created if missing
    Directory(String),
}

impl Default for CompilationCache {
    fn default() -> (c: Self)
        ensures
            c is Default,
    {
        CompilationCache::Default
    }
}

/// What a plugin says of itself
#[derive(Debug, Clone)]
pub struct PluginInfo {
    pub name: String,
    pub category: String,
    pub description: String,
}

/// Errors of loading and running plugins
#[derive(Debug, Clone)]
pub enum PluginError {
    IoError { path: String, source: String },
    CompileError { path: String, message: String },
    InstantiateError { path: String, message: String },
    MissingExport { path: String, export: String },
    InvalidPluginInfo { path: String, message: String },
    ExecutionError { path: String, message: String },
    Timeout { path: String },
    MemoryLimitExceeded { path: String },
    ResultParseError { path: String, message: String },
    DirectoryNotFound { path: String },
    InvalidWasmFile { path: String },
}

/// The text that reports error `e`
pub open spec fn plugin_error_text(e: PluginError) -> Seq<char> {
    match e {
        PluginError::IoError { path, source } => "Failed to read plugin file '"@ + path@ + "': "@
            + source@,
        PluginError::CompileError { path, message } => "Failed to compile WASM module '"@ + path@
            + "': "@ + message@,
        PluginError::InstantiateError { path, message } => "Failed to instantiate WASM module '"@
            + path@ + "': "@ + message@,
        PluginError::MissingExport { path, export } => "Missing required export '"@ + export@
            + "' in plugin '"@ + path@ + "'"@,
        PluginError::InvalidPluginInfo { path, message } => "Invalid plugin info from '"@ + path@
            + "': "@ + message@,
        PluginError::ExecutionError { path, message } => "Plugin execution error in '"@ + path@
            + "': "@ + message@,
        PluginError::Timeout { path } => "Plugin execution timed out in '"@ + path@ + "'"@,
        PluginError::MemoryLimitExceeded { path } => "Plugin exceeded memory limit in '"@ + path@
            + "'"@,
        PluginError::ResultParseError { path, message } => "Failed to parse plugin result from '"@
            + path@ + "': "@ + message@,
        PluginError::DirectoryNotFound { path } => "Plugin directory not found: "@ + path@,
        PluginError::InvalidWasmFile { path } => "Invalid WASM file '"@ + path@
            + "': not a valid WebAssembly module"@,
    }
}

/// `a + b + c`
fn concat3(a: &str, b: &str, c: &str) -> (s: String)
    ensures
        s@ == a@ + b@ + c@,
{
    let mut s = a.to_owned();
    s.append(b);
    s.append(c);
    s
}

/// `a + b + c + d`
fn concat4(a: &str, b: &str, c: &str, d: &str) -> (s: String)
    ensures
        s@ == a@ + b@ + c@ + d@,
{
    let mut s = concat3(a, b, c);
    s.append(d);
    s
}

impl PluginError {
    /// The error of reading plugin file `path`, which failed with `source`
    pub fn io_error(path: &str, source: &str) -> (e: Self)
        ensures
            e is IoError,
            e->IoError_path@ == path@,
            e->IoError_source@ == source@,
    {
        PluginError::IoError { path: path.to_owned(), source: source.to_owned() }
    }

    /// The error of compiling the module at `path`
    pub fn compilation_error(path: &str, message: &str) -> (e: Self)
        ensures
            e is CompileError,
            e->CompileError_path@ == path@,
            e->CompileError_message@ == message@,
    {
        PluginError::CompileError { path: path.to_owned(), message: message.to_owned() }
    }

    /// The error of instantiating the module at `path`
    pub fn instantiate_error(path: &str, message: &str) -> (e: Self)
        ensures
            e is InstantiateError,
            e->InstantiateError_path@ == path@,
            e->InstantiateError_message@ == message@,
    {
        PluginError::InstantiateError { path: path.to_owned(), message: message.to_owned() }
    }

    /// The error of a plugin at `path` that lacks the export `export`
    pub fn missing_export(path: &str, export: &str) -> (e: Self)
        ensures
            e is MissingExport,
            e->MissingExport_path@ == path@,
            e->export@ == export@,
    {
        PluginError::MissingExport { path: path.to_owned(), export: export.to_owned() }
    }

    /// The error of a plugin at `path` whose description is malformed
    pub fn invalid_plugin_info(path: &str, message: &str) -> (e: Self)
        ensures
            e is InvalidPluginInfo,
            e->InvalidPluginInfo_path@ == path@,
            e->InvalidPluginInfo_message@ == message@,
    {
        PluginError::InvalidPluginInfo { path: path.to_owned(), message: message.to_owned() }
    }

    /// The error of a plugin at `path` that failed while running
    pub fn execution_error(path: &str, message: &str) -> (e: Self)
        ensures
            e is ExecutionError,
            e->ExecutionError_path@ == path@,
            e->ExecutionError_message@ == message@,
    {
        PluginError::ExecutionError { path: path.to_owned(), message: message.to_owned() }
    }

    /// The error of a plugin at `path` that ran out of time
    pub fn timeout(path: &str) -> (e: Self)
        ensures
            e is Timeout,
            e->Timeout_path@ == path@,
    {
        PluginError::Timeout { path: path.to_owned() }
    }

    /// The error of a plugin at `path` that ran out of memory
    pub fn memory_limit_exceeded(path: &str) -> (e: Self)
        ensures
            e is MemoryLimitExceeded,
            e->MemoryLimitExceeded_path@ == path@,
    {
        PluginError::MemoryLimitExceeded { path: path.to_owned() }
    }

    /// The error of a plugin at `path` whose result is malformed
    pub fn result_parse_error(path: &str, message: &str) -> (e: Self)
        ensures
            e is ResultParseError,
            e->ResultParseError_path@ == path@,
            e->ResultParseError_message@ == message@,
    {
        PluginError::ResultParseError { path: path.to_owned(), message: message.to_owned() }
    }

    /// The error of a plugin directory `path` that does not exist
    pub fn directory_not_found(path: &str) -> (e: Self)
        ensures
            e is DirectoryNotFound,
            e->DirectoryNotFound_path@ == path@,
    {
        PluginError::DirectoryNotFound { path: path.to_owned() }
    }

    /// The error of a file at `path` that is no WebAssembly module
    pub fn invalid_wasm_file(path: &str) -> (e: Self)
        ensures
            e is InvalidWasmFile,
            e->InvalidWasmFile_path@ == path@,
    {
        PluginError::InvalidWasmFile { path: path.to_owned() }
    }

    /// The text that reports this error
    pub fn message(&self) -> (s: String)
        ensures
            s@ == plugin_error_text(*self),
    {
        match self {
            PluginError::IoError { path, source } => concat4(
                "Failed to read plugin file '",
                path.as_str(),
                "': ",
                source.as_str(),
            ),
            PluginError::CompileError { path, message } => concat4(
                "Failed to compile WASM module '",
                path.as_str(),
                "': ",
                message.as_str(),
            ),
            PluginError::InstantiateError { path, message } => concat4(
                "Failed to instantiate WASM module '",
                path.as_str(),
                "': ",
                message.as_str(),
            ),
            PluginError::MissingExport { path, export } => {
                let mut s = concat4(
                    "Missing required export '",
                    export.as_str(),
                    "' in plugin '",
                    path.as_str(),
                );
                s.append("'");
                s
            },
            PluginError::InvalidPluginInfo { path, message } => concat4(
                "Invalid plugin info from '",
                path.as_str(),
                "': ",
                message.as_str(),
            ),
            PluginError::ExecutionError { path, message } => concat4(
                "Plugin execution error in '",
                path.as_str(),
                "': ",
                message.as_str(),
            ),
            PluginError::Timeout { path } => concat3(
                "Plugin execution timed out in '",
                path.as_str(),
                "'",
            ),
            PluginError::MemoryLimitExceeded { path } => concat3(
                "Plugin exceeded memory limit in '",
                path.as_str(),
                "'",
            ),
            PluginError::ResultParseError { path, message } => concat4(
                "Failed to parse plugin result from '",
                path.as_str(),
                "': ",
                message.as_str(),
            ),
            PluginError::DirectoryNotFound { path } => {
                let mut s = "Plugin directory not found: ".to_owned();
                s.append(path.as_str());
                s
            },
            PluginError::InvalidWasmFile { path } => concat3(
                "Invalid WASM file '",
                path.as_str(),
                "': not a valid WebAssembly module",
            ),
        }
    }
}

/// A finding as a plugin reports it
#[derive(Debug, Clone)]
pub struct PluginLintError {
    pub rule: String,
    pub category: String,
    pub message: String,
    /// `error`, `warning`, or anything else for information, in any case
    pub severity: String,
    pub line: Option<usize>,
    pub column: Option<usize>,
}

/// The severity that the text `s` names: `error` and `warning` in any
/// case, anything else is information
pub open spec fn severity_named(s: Seq<char>) -> Severity {
    if lowercase(s) == "error"@ {
        Severity::Error
    } else if lowercase(s) == "warning"@ {
        Severity::Warning
    } else {
        Severity::Info
    }
}

impl PluginLintError {
    /// The finding as the linter reports it: a line without a column is at
    /// column 1, a column without a line is dropped
    pub fn into_lint_error(self) -> (e: LintError)
        ensures
            e@ == (LintErrorV {
                rule: self.rule@,
                category: self.category@,
                message: self.message@,
                severity: severity_named(self.severity@),
                line: match self.line {
                    Some(l) => Some(l as nat),
                    None => None,
                },
                column: match (self.line, self.column) {
                    (Some(_), Some(c)) => Some(c as nat),
                    (Some(_), None) => Some(1),
                    _ => None,
                },
                fix: None,
            }),
    {
        let lower = to_lowercase(self.severity.as_str());
        let severity = if str_eq(lower.as_str(), "error") {
            Severity::Error
        } else if str_eq(lower.as_str(), "warning") {
            Severity::Warning
        } else {
            Severity::Info
        };
        let error = LintError::new(
            self.rule.as_str(),
            self.category.as_str(),
            self.message.as_str(),
            severity,
        );
        match (self.line, self.column) {
            (Some(line), Some(column)) => error.with_location(line, column),
            (Some(line), None) => error.with_location(line, 1),
            _ => error,
        }
    }
}

} // verus!
