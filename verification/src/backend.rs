//! Language backends: what identifies them, which files they take, and how a
//! call is resolved once the language server has answered (or not).
use vstd::prelude::*;
use crate::index::BuildIndexOptions;
use crate::model::{CallSite, Language, ResolutionConfidence, Symbol};
use crate::noop::{name_only_result, resolve_name_only};
use crate::paths::{extension_of, path_extension};
use crate::strings::{extend_str, owned, str_eq, string_from_chars};

verus! {

#[derive(Debug, Clone)]
pub struct BackendId(pub String);

#[derive(Debug, Clone)]
pub struct ParserId(pub String);

#[derive(Debug, Clone)]
pub struct ResolverId(pub String);

/// A file or directory whose presence marks the root of a workspace.
#[derive(Debug, Clone, Copy)]
pub enum WorkspaceMarker {
    File(&'static str),
    Directory(&'static str),
}

/// What the index records about the backend that produced it.
#[derive(Debug, Clone)]
pub struct BackendMetadata {
    pub backend_id: String,
    pub language: String,
    pub parser_id: String,
    pub parser_version: String,
    pub resolver_id: Option<String>,
    pub resolver_version: Option<String>,
    pub config_hash: String,
}

/// The file a parser is asked to read.
pub struct ParseInput<'a> {
    pub path: &'a str,
}

/// What a parser found in one file; occurrences refer to their enclosing symbol
/// by its position in `symbols`.
#[derive(Debug, Clone)]
pub struct ParsedFile {
    pub symbols: Vec<Symbol>,
    pub call_sites: Vec<CallSite>,
}

/// A call site to resolve against the symbols of a workspace.
pub struct ResolveInput<'a> {
    pub workspace_root: &'a str,
    pub call_site: &'a CallSite,
    pub symbols: &'a [Symbol],
}

/// The symbol a call resolves to, by position, and how sure the resolution is.
#[derive(Debug, Clone, Copy)]
pub struct ResolveOutput {
    pub resolved_symbol_index: Option<usize>,
    pub confidence: ResolutionConfidence,
}

/// The language backends the index is built with, in the order they are tried.
#[derive(Debug, Clone, Copy, PartialEq, Eq, Structural)]
pub enum BackendKind {
    Rust,
    Python,
}

/// The backend that takes a file: Rust for `.rs` files, Python for `.py` files.
pub open spec fn backend_for(path: Seq<char>) -> Option<BackendKind> {
    match extension_of(path) {
        Some(e) => if e == "rs"@ {
            Some(BackendKind::Rust)
        } else if e == "py"@ {
            Some(BackendKind::Python)
        } else {
            None
        },
        None => None,
    }
}

/// The backend that takes a file (see `backend_for`).
pub fn find_by_path(path: &str) -> (r: Option<BackendKind>)
    ensures
        r == backend_for(path@),
{
    match path_extension(path) {
        Some(e) => if str_eq(e.as_str(), "rs") {
            Some(BackendKind::Rust)
        } else if str_eq(e.as_str(), "py") {
            Some(BackendKind::Python)
        } else {
            None
        },
        None => None,
    }
}

/// `true` or `false`, as `{}` writes a `bool`.
pub open spec fn bool_text(b: bool) -> Seq<char> {
    if b {
        "true"@
    } else {
        "false"@
    }
}

/// The fingerprint of the options a backend's output depends on.
pub open spec fn fingerprint_text(config: BuildIndexOptions) -> Seq<char> {
    "use_lsp="@ + bool_text(config.use_lsp) + ",include_tests="@ + bool_text(config.include_tests)
}

fn push_bool(v: &mut Vec<char>, b: bool)
    ensures
        final(v)@ == old(v)@ + bool_text(b),
{
    if b {
        extend_str(v, "true");
    } else {
        extend_str(v, "false");
    }
}

fn config_fingerprint_of(config: &BuildIndexOptions) -> (s: String)
    ensures
        s@ == fingerprint_text(*config),
{
    let mut v: Vec<char> = Vec::new();
    extend_str(&mut v, "use_lsp=");
    push_bool(&mut v, config.use_lsp);
    extend_str(&mut v, ",include_tests=");
    push_bool(&mut v, config.include_tests);
    string_from_chars(&v)
}

/// Resolution by rust-analyzer over the language server protocol, falling back
/// to resolution by name. The server connection itself is held by the caller.
pub struct RustResolver {}

impl RustResolver {
    pub fn new() -> (r: RustResolver) {
        RustResolver {}
    }

    pub fn resolver_id(&self) -> (r: ResolverId)
        ensures
            r.0@ == "rust-analyzer-lsp"@,
    {
        ResolverId(owned("rust-analyzer-lsp"))
    }

    pub fn resolver_version(&self) -> (r: String)
        ensures
            r@ == "0.1.0"@,
    {
        owned("0.1.0")
    }

    /// The resolution of a call once the language server has answered: the symbol
    /// it points at, exactly; without one, the resolution by name.
    pub fn resolve_with_lsp_result(&self, input: &ResolveInput, lsp_match: Option<usize>) -> (r:
        ResolveOutput)
        ensures
            lsp_match is Some ==> r.resolved_symbol_index == lsp_match && r.confidence
                == ResolutionConfidence::LspExact,
            lsp_match is None ==> name_only_result(
                input.call_site.raw_name@,
                input.symbols@,
                input.call_site.file@,
                (r.resolved_symbol_index, r.confidence),
            ),
    {
        match lsp_match {
            Some(i) => ResolveOutput {
                resolved_symbol_index: Some(i),
                confidence: ResolutionConfidence::LspExact,
            },
            None => {
                let (idx, conf) = resolve_name_only(
                    input.call_site.raw_name.as_str(),
                    input.symbols,
                    input.call_site.file.as_str(),
                );
                ResolveOutput { resolved_symbol_index: idx, confidence: conf }
            },
        }
    }
}

/// The Rust backend: `.rs` files, workspaces marked by `Cargo.toml`.
pub struct RustBackend {
    pub resolver: RustResolver,
}

impl RustBackend {
    pub fn new() -> (r: RustBackend) {
        RustBackend { resolver: RustResolver::new() }
    }

    pub fn id(&self) -> (r: BackendId)
        ensures
            r.0@ == "rust-backend"@,
    {
        BackendId(owned("rust-backend"))
    }

    pub fn language(&self) -> (r: Language)
        ensures
            r.0@ == "rust"@,
    {
        Language::rust()
    }

    pub fn display_name(&self) -> (r: &'static str)
        ensures
            r@ == "Rust"@,
    {
        "Rust"
    }

    pub fn matches_path(&self, path: &str) -> (r: bool)
        ensures
            r == (extension_of(path@) == Some("rs"@)),
    {
        match path_extension(path) {
            Some(e) => str_eq(e.as_str(), "rs"),
            None => false,
        }
    }

    pub fn workspace_markers(&self) -> (r: Vec<WorkspaceMarker>)
        ensures
            r@.len() == 1,
            r@[0] matches WorkspaceMarker::File(f) && f@ == "Cargo.toml"@,
    {
        vec![WorkspaceMarker::File("Cargo.toml")]
    }

    /// What an index built with this backend records about it, given its
    /// parser's identity: the backend's id and language, the parser, the
    /// rust-analyzer resolver and the options fingerprint.
    pub fn metadata(&self, config: &BuildIndexOptions, parser_id: &ParserId, parser_version: &str) -> (m:
        BackendMetadata)
        ensures
            m.backend_id@ == "rust-backend"@,
            m.language@ == "rust"@,
            m.parser_id@ == parser_id.0@,
            m.parser_version@ == parser_version@,
            m.resolver_id matches Some(r) && r@ == "rust-analyzer-lsp"@,
            m.resolver_version matches Some(v) && v@ == "0.1.0"@,
            m.config_hash@ == fingerprint_text(*config),
    {
        BackendMetadata {
            backend_id: self.id().0,
            language: self.language().0,
            parser_id: owned(parser_id.0.as_str()),
            parser_version: owned(parser_version),
            resolver_id: Some(self.resolver.resolver_id().0),
            resolver_version: Some(self.resolver.resolver_version()),
            config_hash: self.config_fingerprint(config),
        }
    }

    /// The options fingerprint (see `fingerprint_text`).
    pub fn config_fingerprint(&self, config: &BuildIndexOptions) -> (s: String)
        ensures
            s@ == fingerprint_text(*config),
    {
        config_fingerprint_of(config)
    }
}

/// The Python resolver; it resolves calls by name.
pub struct PythonResolver {}

impl PythonResolver {
    pub fn new() -> (r: PythonResolver) {
        PythonResolver {}
    }
}

/// The Python backend: `.py` files, workspaces marked by `pyproject.toml`,
/// `requirements.txt` or `setup.py`.
pub struct PythonBackend {
    pub resolver: PythonResolver,
}

impl PythonBackend {
    pub fn new() -> (r: PythonBackend) {
        PythonBackend { resolver: PythonResolver::new() }
    }

    pub fn id(&self) -> (r: BackendId)
        ensures
            r.0@ == "python-backend"@,
    {
        BackendId(owned("python-backend"))
    }

    pub fn language(&self) -> (r: Language)
        ensures
            r.0@ == "python"@,
    {
        Language::python()
    }

    pub fn display_name(&self) -> (r: &'static str)
        ensures
            r@ == "Python"@,
    {
        "Python"
    }

    pub fn matches_path(&self, path: &str) -> (r: bool)
        ensures
            r == (extension_of(path@) == Some("py"@)),
    {
        match path_extension(path) {
            Some(e) => str_eq(e.as_str(), "py"),
            None => false,
        }
    }

    pub fn workspace_markers(&self) -> (r: Vec<WorkspaceMarker>)
        ensures
            r@.len() == 3,
            r@[0] matches WorkspaceMarker::File(f) && f@ == "pyproject.toml"@,
            r@[1] matches WorkspaceMarker::File(f) && f@ == "requirements.txt"@,
            r@[2] matches WorkspaceMarker::File(f) && f@ == "setup.py"@,
    {
        vec![
            WorkspaceMarker::File("pyproject.toml"),
            WorkspaceMarker::File("requirements.txt"),
            WorkspaceMarker::File("setup.py"),
        ]
    }

    /// What an index built with this backend records about it, given the
    /// identity of its parser and resolver: the backend's id and language, the
    /// parser, the resolver and the options fingerprint.
    pub fn metadata(
        &self,
        config: &BuildIndexOptions,
        parser_id: &ParserId,
        parser_version: &str,
        resolver_id: &ResolverId,
        resolver_version: &str,
    ) -> (m: BackendMetadata)
        ensures
            m.backend_id@ == "python-backend"@,
            m.language@ == "python"@,
            m.parser_id@ == parser_id.0@,
            m.parser_version@ == parser_version@,
            m.resolver_id matches Some(r) && r@ == resolver_id.0@,
            m.resolver_version matches Some(v) && v@ == resolver_version@,
            m.config_hash@ == fingerprint_text(*config),
    {
        BackendMetadata {
            backend_id: self.id().0,
            language: self.language().0,
            parser_id: owned(parser_id.0.as_str()),
            parser_version: owned(parser_version),
            resolver_id: Some(owned(resolver_id.0.as_str())),
            resolver_version: Some(owned(resolver_version)),
            config_hash: self.config_fingerprint(config),
        }
    }

    /// The options fingerprint (see `fingerprint_text`).
    pub fn config_fingerprint(&self, config: &BuildIndexOptions) -> (s: String)
        ensures
            s@ == fingerprint_text(*config),
    {
        config_fingerprint_of(config)
    }
}

} // verus!
