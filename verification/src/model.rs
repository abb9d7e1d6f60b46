//! The code-graph data model: identifiers, symbols, call sites, edges and the index.
use vstd::prelude::*;
use crate::strings::{str_eq, chars_of, string_from_chars};

verus! {

#[derive(Debug, Clone, Copy, PartialEq, Eq, Structural, Hash)]
pub struct FileId(pub i64);

#[derive(Debug, Clone, Copy, PartialEq, Eq, Structural, Hash)]
pub struct SymbolId(pub i64);

#[derive(Debug, Clone, Copy, PartialEq, Eq, Structural, Hash)]
pub struct CallId(pub i64);

#[derive(Debug, Clone, Copy, PartialEq, Eq, Structural, Hash)]
pub struct EdgeId(pub i64);

#[derive(Debug, Clone, Copy, PartialEq, Eq, Structural, Hash)]
pub struct OccurrenceId(pub i64);

/// A language identifier such as `"rust"` or `"python"`.
#[derive(Debug, Clone)]
pub struct Language(pub String);

/// The identifier under which a language backend is registered.
pub type LanguageId = Language;

impl Language {
    pub fn rust() -> (l: Language)
        ensures
            l.0@ == "rust"@,
    {
        Language(String::from_str("rust"))
    }

    pub fn python() -> (l: Language)
        ensures
            l.0@ == "python"@,
    {
        Language(String::from_str("python"))
    }

    pub fn as_str(&self) -> (s: &str)
        ensures
            s@ == self.0@,
    {
        self.0.as_str()
    }
}

#[derive(Debug, Clone, Copy, PartialEq, Eq, Structural, Hash)]
pub enum SymbolKind {
    Function,
    Method,
    Impl,
    Struct,
    Enum,
    Trait,
    Module,
    Test,
}

pub open spec fn symbol_kind_name(k: SymbolKind) -> Seq<char> {
    match k {
        SymbolKind::Function => "Function"@,
        SymbolKind::Method => "Method"@,
        SymbolKind::Impl => "Impl"@,
        SymbolKind::Struct => "Struct"@,
        SymbolKind::Enum => "Enum"@,
        SymbolKind::Trait => "Trait"@,
        SymbolKind::Module => "Module"@,
        SymbolKind::Test => "Test"@,
    }
}

pub open spec fn symbol_kind_parse(s: Seq<char>) -> Option<SymbolKind> {
    if s == "Function"@ {
        Some(SymbolKind::Function)
    } else if s == "Method"@ {
        Some(SymbolKind::Method)
    } else if s == "Impl"@ {
        Some(SymbolKind::Impl)
    } else if s == "Struct"@ {
        Some(SymbolKind::Struct)
    } else if s == "Enum"@ {
        Some(SymbolKind::Enum)
    } else if s == "Trait"@ {
        Some(SymbolKind::Trait)
    } else if s == "Module"@ {
        Some(SymbolKind::Module)
    } else if s == "Test"@ {
        Some(SymbolKind::Test)
    } else {
        None
    }
}

impl SymbolKind {
    pub fn as_str(&self) -> (s: &'static str)
        ensures
            s@ == symbol_kind_name(*self),
    {
        match self {
            SymbolKind::Function => "Function",
            SymbolKind::Method => "Method",
            SymbolKind::Impl => "Impl",
            SymbolKind::Struct => "Struct",
            SymbolKind::Enum => "Enum",
            SymbolKind::Trait => "Trait",
            SymbolKind::Module => "Module",
            SymbolKind::Test => "Test",
        }
    }

    pub fn from_str(s: &str) -> (r: Option<SymbolKind>)
        ensures
            r == symbol_kind_parse(s@),
    {
        if str_eq(s, "Function") {
            Some(SymbolKind::Function)
        } else if str_eq(s, "Method") {
            Some(SymbolKind::Method)
        } else if str_eq(s, "Impl") {
            Some(SymbolKind::Impl)
        } else if str_eq(s, "Struct") {
            Some(SymbolKind::Struct)
        } else if str_eq(s, "Enum") {
            Some(SymbolKind::Enum)
        } else if str_eq(s, "Trait") {
            Some(SymbolKind::Trait)
        } else if str_eq(s, "Module") {
            Some(SymbolKind::Module)
        } else if str_eq(s, "Test") {
            Some(SymbolKind::Test)
        } else {
            None
        }
    }
}

/// Parsing the name of a symbol kind gives that kind back.
pub proof fn law_symbol_kind_roundtrip(k: SymbolKind)
    ensures
        symbol_kind_parse(symbol_kind_name(k)) == Some(k),
{
    broadcast use vstd::string::group_string_axioms;

    reveal_strlit("Function");
    reveal_strlit("Method");
    reveal_strlit("Impl");
    reveal_strlit("Struct");
    reveal_strlit("Enum");
    reveal_strlit("Trait");
    reveal_strlit("Module");
    reveal_strlit("Test");
    assert("Function"@[0] == 'F' && "Function"@[1] == 'u' && "Function"@[2] == 'n');
    assert("Method"@[0] == 'M' && "Method"@[1] == 'e' && "Method"@[2] == 't');
    assert("Impl"@[0] == 'I' && "Impl"@[1] == 'm' && "Impl"@[2] == 'p');
    assert("Struct"@[0] == 'S' && "Struct"@[1] == 't' && "Struct"@[2] == 'r');
    assert("Enum"@[0] == 'E' && "Enum"@[1] == 'n' && "Enum"@[2] == 'u');
    assert("Trait"@[0] == 'T' && "Trait"@[1] == 'r' && "Trait"@[2] == 'a');
    assert("Module"@[0] == 'M' && "Module"@[1] == 'o' && "Module"@[2] == 'd');
    assert("Test"@[0] == 'T' && "Test"@[1] == 'e' && "Test"@[2] == 's');
}

/// How a call target was resolved, from most to least certain.
#[derive(Debug, Clone, Copy, PartialEq, Eq, Structural, Hash)]
pub enum ResolutionConfidence {
    LspExact,
    Exact,
    Syntax,
    Local,
    Heuristic,
    NameOnly,
    Ambiguous,
    Unresolved,
}

pub open spec fn confidence_name(c: ResolutionConfidence) -> Seq<char> {
    match c {
        ResolutionConfidence::LspExact => "LspExact"@,
        ResolutionConfidence::Exact => "Exact"@,
        ResolutionConfidence::Syntax => "Syntax"@,
        ResolutionConfidence::Local => "Local"@,
        ResolutionConfidence::Heuristic => "Heuristic"@,
        ResolutionConfidence::NameOnly => "NameOnly"@,
        ResolutionConfidence::Ambiguous => "Ambiguous"@,
        ResolutionConfidence::Unresolved => "Unresolved"@,
    }
}

pub open spec fn confidence_parse(s: Seq<char>) -> Option<ResolutionConfidence> {
    if s == "LspExact"@ {
        Some(ResolutionConfidence::LspExact)
    } else if s == "Exact"@ {
        Some(ResolutionConfidence::Exact)
    } else if s == "Syntax"@ {
        Some(ResolutionConfidence::Syntax)
    } else if s == "Local"@ {
        Some(ResolutionConfidence::Local)
    } else if s == "Heuristic"@ {
        Some(ResolutionConfidence::Heuristic)
    } else if s == "NameOnly"@ {
        Some(ResolutionConfidence::NameOnly)
    } else if s == "Ambiguous"@ {
        Some(ResolutionConfidence::Ambiguous)
    } else if s == "Unresolved"@ {
        Some(ResolutionConfidence::Unresolved)
    } else {
        None
    }
}

impl ResolutionConfidence {
    pub fn as_str(&self) -> (s: &'static str)
        ensures
            s@ == confidence_name(*self),
    {
        match self {
            ResolutionConfidence::LspExact => "LspExact",
            ResolutionConfidence::Exact => "Exact",
            ResolutionConfidence::Syntax => "Syntax",
            ResolutionConfidence::Local => "Local",
            ResolutionConfidence::Heuristic => "Heuristic",
            ResolutionConfidence::NameOnly => "NameOnly",
            ResolutionConfidence::Ambiguous => "Ambiguous",
            ResolutionConfidence::Unresolved => "Unresolved",
        }
    }

    pub fn from_str(s: &str) -> (r: Option<ResolutionConfidence>)
        ensures
            r == confidence_parse(s@),
    {
        if str_eq(s, "LspExact") {
            Some(ResolutionConfidence::LspExact)
        } else if str_eq(s, "Exact") {
            Some(ResolutionConfidence::Exact)
        } else if str_eq(s, "Syntax") {
            Some(ResolutionConfidence::Syntax)
        } else if str_eq(s, "Local") {
            Some(ResolutionConfidence::Local)
        } else if str_eq(s, "Heuristic") {
            Some(ResolutionConfidence::Heuristic)
        } else if str_eq(s, "NameOnly") {
            Some(ResolutionConfidence::NameOnly)
        } else if str_eq(s, "Ambiguous") {
            Some(ResolutionConfidence::Ambiguous)
        } else if str_eq(s, "Unresolved") {
            Some(ResolutionConfidence::Unresolved)
        } else {
            None
        }
    }
}

/// Parsing the name of a confidence level gives that level back.
pub proof fn law_confidence_roundtrip(c: ResolutionConfidence)
    ensures
        confidence_parse(confidence_name(c)) == Some(c),
{
    broadcast use vstd::string::group_string_axioms;

    reveal_strlit("LspExact");
    reveal_strlit("Exact");
    reveal_strlit("Syntax");
    reveal_strlit("Local");
    reveal_strlit("Heuristic");
    reveal_strlit("NameOnly");
    reveal_strlit("Ambiguous");
    reveal_strlit("Unresolved");
    assert("LspExact"@[0] == 'L' && "LspExact"@[1] == 's' && "LspExact"@[2] == 'p');
    assert("Exact"@[0] == 'E' && "Exact"@[1] == 'x' && "Exact"@[2] == 'a');
    assert("Syntax"@[0] == 'S' && "Syntax"@[1] == 'y' && "Syntax"@[2] == 'n');
    assert("Local"@[0] == 'L' && "Local"@[1] == 'o' && "Local"@[2] == 'c');
    assert("Heuristic"@[0] == 'H' && "Heuristic"@[1] == 'e' && "Heuristic"@[2] == 'u');
    assert("NameOnly"@[0] == 'N' && "NameOnly"@[1] == 'a' && "NameOnly"@[2] == 'm');
    assert("Ambiguous"@[0] == 'A' && "Ambiguous"@[1] == 'm' && "Ambiguous"@[2] == 'b');
    assert("Unresolved"@[0] == 'U' && "Unresolved"@[1] == 'n' && "Unresolved"@[2] == 'r');
}

/// The relationship an edge records between two program entities.
#[derive(Debug, Clone, Copy, PartialEq, Eq, Structural, Hash)]
pub enum EdgeKind {
    Call,
    Reference,
    Import,
    Export,
    TypeUse,
    Inherits,
    Implements,
    DataFlow,
    Contains,
    Unknown,
}

pub open spec fn edge_kind_name(k: EdgeKind) -> Seq<char> {
    match k {
        EdgeKind::Call => "Call"@,
        EdgeKind::Reference => "Reference"@,
        EdgeKind::Import => "Import"@,
        EdgeKind::Export => "Export"@,
        EdgeKind::TypeUse => "TypeUse"@,
        EdgeKind::Inherits => "Inherits"@,
        EdgeKind::Implements => "Implements"@,
        EdgeKind::DataFlow => "DataFlow"@,
        EdgeKind::Contains => "Contains"@,
        EdgeKind::Unknown => "Unknown"@,
    }
}

pub open spec fn edge_kind_parse(s: Seq<char>) -> Option<EdgeKind> {
    if s == "Call"@ {
        Some(EdgeKind::Call)
    } else if s == "Reference"@ {
        Some(EdgeKind::Reference)
    } else if s == "Import"@ {
        Some(EdgeKind::Import)
    } else if s == "Export"@ {
        Some(EdgeKind::Export)
    } else if s == "TypeUse"@ {
        Some(EdgeKind::TypeUse)
    } else if s == "Inherits"@ {
        Some(EdgeKind::Inherits)
    } else if s == "Implements"@ {
        Some(EdgeKind::Implements)
    } else if s == "DataFlow"@ {
        Some(EdgeKind::DataFlow)
    } else if s == "Contains"@ {
        Some(EdgeKind::Contains)
    } else if s == "Unknown"@ {
        Some(EdgeKind::Unknown)
    } else {
        None
    }
}

impl EdgeKind {
    pub fn as_str(&self) -> (s: &'static str)
        ensures
            s@ == edge_kind_name(*self),
    {
        match self {
            EdgeKind::Call => "Call",
            EdgeKind::Reference => "Reference",
            EdgeKind::Import => "Import",
            EdgeKind::Export => "Export",
            EdgeKind::TypeUse => "TypeUse",
            EdgeKind::Inherits => "Inherits",
            EdgeKind::Implements => "Implements",
            EdgeKind::DataFlow => "DataFlow",
            EdgeKind::Contains => "Contains",
            EdgeKind::Unknown => "Unknown",
        }
    }

    pub fn from_str(s: &str) -> (r: Option<EdgeKind>)
        ensures
            r == edge_kind_parse(s@),
    {
        let v = chars_of(s);
        Self::from_chars(&v)
    }

    pub fn from_chars(v: &Vec<char>) -> (r: Option<EdgeKind>)
        ensures
            r == edge_kind_parse(v@),
    {
        let s = string_from_chars(v);
        let s = s.as_str();
        if str_eq(s, "Call") {
            Some(EdgeKind::Call)
        } else if str_eq(s, "Reference") {
            Some(EdgeKind::Reference)
        } else if str_eq(s, "Import") {
            Some(EdgeKind::Import)
        } else if str_eq(s, "Export") {
            Some(EdgeKind::Export)
        } else if str_eq(s, "TypeUse") {
            Some(EdgeKind::TypeUse)
        } else if str_eq(s, "Inherits") {
            Some(EdgeKind::Inherits)
        } else if str_eq(s, "Implements") {
            Some(EdgeKind::Implements)
        } else if str_eq(s, "DataFlow") {
            Some(EdgeKind::DataFlow)
        } else if str_eq(s, "Contains") {
            Some(EdgeKind::Contains)
        } else if str_eq(s, "Unknown") {
            Some(EdgeKind::Unknown)
        } else {
            None
        }
    }
}

/// Parsing the name of an edge kind gives that kind back.
pub proof fn law_edge_kind_roundtrip(k: EdgeKind)
    ensures
        edge_kind_parse(edge_kind_name(k)) == Some(k),
{
    broadcast use vstd::string::group_string_axioms;

    reveal_strlit("Call");
    reveal_strlit("Reference");
    reveal_strlit("Import");
    reveal_strlit("Export");
    reveal_strlit("TypeUse");
    reveal_strlit("Inherits");
    reveal_strlit("Implements");
    reveal_strlit("DataFlow");
    reveal_strlit("Contains");
    reveal_strlit("Unknown");
    assert("Call"@[0] == 'C' && "Call"@[1] == 'a' && "Call"@[2] == 'l' && "Call"@[3] == 'l');
    assert("Reference"@[0] == 'R' && "Reference"@[1] == 'e' && "Reference"@[2] == 'f' && "Reference"@[3] == 'e');
    assert("Import"@[0] == 'I' && "Import"@[1] == 'm' && "Import"@[2] == 'p' && "Import"@[3] == 'o');
    assert("Export"@[0] == 'E' && "Export"@[1] == 'x' && "Export"@[2] == 'p' && "Export"@[3] == 'o');
    assert("TypeUse"@[0] == 'T' && "TypeUse"@[1] == 'y' && "TypeUse"@[2] == 'p' && "TypeUse"@[3] == 'e');
    assert("Inherits"@[0] == 'I' && "Inherits"@[1] == 'n' && "Inherits"@[2] == 'h' && "Inherits"@[3] == 'e');
    assert("Implements"@[0] == 'I' && "Implements"@[1] == 'm' && "Implements"@[2] == 'p' && "Implements"@[3] == 'l');
    assert("DataFlow"@[0] == 'D' && "DataFlow"@[1] == 'a' && "DataFlow"@[2] == 't' && "DataFlow"@[3] == 'a');
    assert("Contains"@[0] == 'C' && "Contains"@[1] == 'o' && "Contains"@[2] == 'n' && "Contains"@[3] == 't');
    assert("Unknown"@[0] == 'U' && "Unknown"@[1] == 'n' && "Unknown"@[2] == 'k' && "Unknown"@[3] == 'n');
}

/// Direction in which an edge is followed from a symbol.
#[derive(Debug, Clone, Copy, PartialEq, Eq, Structural, Hash)]
pub enum EdgeDirection {
    Inbound,
    Outbound,
}

/// A source file of an index: its id once stored, its path and language, and
/// what was measured of it.
#[derive(Debug, Clone)]
pub struct SourceFile {
    pub id: Option<FileId>,
    pub path: String,
    pub language: Language,
    pub mtime_ms: Option<i64>,
    pub size_bytes: Option<i64>,
    pub content_hash: Option<String>,
}

/// A 1-based line/column range inside a source file.
#[derive(Debug, Clone, Copy, PartialEq, Eq, Structural, Hash)]
pub struct TextRange {
    pub start_line: usize,
    pub start_col: usize,
    pub end_line: usize,
    pub end_col: usize,
}

/// A range as exposed in context results.
#[derive(Debug, Clone, Copy, PartialEq, Eq, Structural, Hash)]
pub struct SourceRange {
    pub start_line: usize,
    pub start_col: usize,
    pub end_line: usize,
    pub end_col: usize,
}

impl SourceRange {
    pub fn from(r: TextRange) -> (s: SourceRange)
        ensures
            s.start_line == r.start_line,
            s.start_col == r.start_col,
            s.end_line == r.end_line,
            s.end_col == r.end_col,
    {
        SourceRange {
            start_line: r.start_line,
            start_col: r.start_col,
            end_line: r.end_line,
            end_col: r.end_col,
        }
    }
}

/// A definition found in a source file.
#[derive(Debug, Clone)]
pub struct Symbol {
    pub id: Option<SymbolId>,
    pub file_id: Option<FileId>,
    pub name: String,
    pub qualified_name: String,
    pub kind: SymbolKind,
    pub language: Language,
    pub file: String,
    pub range: TextRange,
    pub body_range: Option<TextRange>,
}

/// A call expression found in a source file.
#[derive(Debug, Clone)]
pub struct CallSite {
    pub id: Option<CallId>,
    pub file_id: Option<FileId>,
    pub from: Option<SymbolId>,
    pub from_temp_index: Option<usize>,
    pub raw_name: String,
    pub file: String,
    pub range: TextRange,
}

#[derive(Debug, Clone, Copy, PartialEq, Eq, Structural, Hash)]
pub enum OccurrenceKind {
    Call,
    Reference,
    Import,
    TypeUse,
    Unknown,
}

/// A textual occurrence of a name inside a symbol.
#[derive(Debug, Clone)]
pub struct Occurrence {
    pub id: Option<OccurrenceId>,
    pub file_id: Option<FileId>,
    pub enclosing_symbol: Option<SymbolId>,
    pub enclosing_temp_index: Option<usize>,
    pub kind: OccurrenceKind,
    pub raw_text: String,
    pub file: String,
    pub range: TextRange,
    pub language: Language,
}

/// A directed relationship between two symbols (or a symbol and an external name).
#[derive(Debug, Clone)]
pub struct GraphEdge {
    pub id: Option<EdgeId>,
    pub kind: EdgeKind,
    pub from_file_id: Option<FileId>,
    pub from_symbol_id: Option<SymbolId>,
    pub to_symbol_id: Option<SymbolId>,
    pub to_external: Option<String>,
    pub occurrence_id: Option<OccurrenceId>,
    pub raw_text: Option<String>,
    pub range: Option<TextRange>,
    pub confidence: ResolutionConfidence,
    pub produced_by: Option<String>,
}

/// Call edges are graph edges of kind `Call`.
pub type CallEdge = GraphEdge;

#[derive(Debug, Clone, Copy, PartialEq, Eq, Structural, Hash)]
pub enum FileChangeDetection {
    MtimeAndSize,
    ContentHash,
}

#[derive(Debug, Clone, Copy, PartialEq, Eq, Structural, Hash)]
pub enum FileParseStatus {
    Success,
    Failed,
}

/// What the index records about one source file.
#[derive(Debug, Clone)]
pub struct FileSnapshot {
    pub file_id: Option<FileId>,
    pub rel_path: String,
    pub abs_path: String,
    pub language: Language,
    pub backend_id: String,
    pub size_bytes: u64,
    pub mtime_ms: i64,
    pub mtime_ns: Option<i64>,
    pub content_hash: Option<String>,
    pub parser_id: String,
    pub parser_version: String,
    pub parser_config_hash: String,
    pub indexed_at_ms: Option<i64>,
    pub parse_status: FileParseStatus,
}

/// The whole code graph of a workspace.
#[derive(Debug, Clone)]
pub struct CodeIndex {
    pub root: String,
    pub files: Vec<FileSnapshot>,
    pub symbols: Vec<Symbol>,
    pub occurrences: Vec<Occurrence>,
    pub call_sites: Vec<CallSite>,
    pub edges: Vec<GraphEdge>,
}

#[derive(Debug, Clone, Copy, PartialEq, Eq, Structural, Hash)]
pub enum LanguageObjectKind {
    Function,
    Method,
    Struct,
    Enum,
    Trait,
    Impl,
    Module,
    Class,
    Interface,
    TypeAlias,
    Constant,
    Variable,
    Unknown,
}

pub open spec fn object_kind_of(kind: SymbolKind) -> LanguageObjectKind {
    match kind {
        SymbolKind::Function => LanguageObjectKind::Function,
        SymbolKind::Method => LanguageObjectKind::Method,
        SymbolKind::Struct => LanguageObjectKind::Struct,
        SymbolKind::Enum => LanguageObjectKind::Enum,
        SymbolKind::Trait => LanguageObjectKind::Trait,
        SymbolKind::Impl => LanguageObjectKind::Impl,
        SymbolKind::Module => LanguageObjectKind::Module,
        SymbolKind::Test => LanguageObjectKind::Function,
    }
}

impl LanguageObjectKind {
    pub fn from(kind: SymbolKind) -> (r: LanguageObjectKind)
        ensures
            r == object_kind_of(kind),
    {
        match kind {
            SymbolKind::Function => LanguageObjectKind::Function,
            SymbolKind::Method => LanguageObjectKind::Method,
            SymbolKind::Struct => LanguageObjectKind::Struct,
            SymbolKind::Enum => LanguageObjectKind::Enum,
            SymbolKind::Trait => LanguageObjectKind::Trait,
            SymbolKind::Impl => LanguageObjectKind::Impl,
            SymbolKind::Module => LanguageObjectKind::Module,
            SymbolKind::Test => LanguageObjectKind::Function,
        }
    }
}

/// A symbol as presented to context consumers.
#[derive(Debug, Clone)]
pub struct LanguageObject {
    pub id: SymbolId,
    pub name: String,
    pub qualified_name: String,
    pub kind: LanguageObjectKind,
    pub file_path: String,
    pub range: SourceRange,
    pub signature: Option<String>,
    pub language: Option<String>,
}

/// Outcome of looking a query up among the indexed symbols.
#[derive(Debug, Clone)]
pub enum SymbolResolution {
    Unique(LanguageObject),
    Ambiguous(Vec<LanguageObject>),
    NotFound,
}

#[derive(Debug, Clone, Copy, PartialEq, Eq, Structural, Hash)]
pub enum GraphContextMode {
    Callers,
    Callees,
    Dependencies,
    Dependents,
    ForwardSlice,
    ReverseSlice,
    Forward,
    Reverse,
    Neighborhood,
    Impact,
}

#[derive(Debug, Clone, Copy)]
pub struct GraphContextOptions {
    pub mode: GraphContextMode,
    pub max_depth: usize,
    pub max_nodes: usize,
    pub include_root: bool,
}

/// An edge of a context result, labelled with its source text and confidence.
#[derive(Debug, Clone)]
pub struct GraphContextEdge {
    pub from: SymbolId,
    pub to: SymbolId,
    pub label: Option<String>,
    pub confidence: Option<String>,
}

#[derive(Debug, Clone)]
pub struct ContextFileSpan {
    pub file_path: String,
    pub range: SourceRange,
}

#[derive(Debug, Clone)]
pub struct GraphContextDiagnostic {
    pub severity: String,
    pub message: String,
}

#[derive(Debug, Clone)]
pub struct GraphContextResult {
    pub root: LanguageObject,
    pub nodes: Vec<LanguageObject>,
    pub edges: Vec<GraphContextEdge>,
    pub files: Vec<ContextFileSpan>,
    pub diagnostics: Vec<GraphContextDiagnostic>,
}

/// The target of an edge once its endpoint has been looked up.
#[derive(Debug, Clone)]
pub enum ResolvedEdgeTarget {
    Symbol(Symbol),
    External(String),
    Missing,
}

/// A copy of an optional string.
pub fn copy_opt_string(s: &Option<String>) -> (r: Option<String>)
    ensures
        r == *s,
{
    match s {
        Some(x) => Some(x.clone()),
        None => None,
    }
}

/// A copy of a language object, equal to it.
pub fn copy_object(o: &LanguageObject) -> (r: LanguageObject)
    ensures
        r == *o,
{
    LanguageObject {
        id: o.id,
        name: o.name.clone(),
        qualified_name: o.qualified_name.clone(),
        kind: o.kind,
        file_path: o.file_path.clone(),
        range: o.range,
        signature: copy_opt_string(&o.signature),
        language: copy_opt_string(&o.language),
    }
}

/// A copy of a context edge, equal to it.
pub fn copy_context_edge(e: &GraphContextEdge) -> (r: GraphContextEdge)
    ensures
        r == *e,
{
    GraphContextEdge {
        from: e.from,
        to: e.to,
        label: copy_opt_string(&e.label),
        confidence: copy_opt_string(&e.confidence),
    }
}

} // verus!
