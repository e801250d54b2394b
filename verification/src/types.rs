//! Data types the client hands to the editor: completion items, hover and
//! signature contents, locations, edits, code actions, log entries,
//! notifications and errors. Each type with owned strings or vectors has a
//! view over sequences, and its `Clone` keeps that view.
use vstd::prelude::*;
use crate::json::{Json, JsonValue, model_items};
use crate::text::TextRange;

verus! {

/// Views of each `String` in a vector.
pub open spec fn views(v: Seq<String>) -> Seq<Seq<char>> {
    v.map_values(|s: String| s@)
}

/// View of an optional `String`.
pub open spec fn opt_view(o: Option<String>) -> Option<Seq<char>> {
    match o {
        Some(s) => Some(s@),
        None => None,
    }
}

/// Copy of a vector of strings.
pub fn clone_strings(v: &Vec<String>) -> (r: Vec<String>)
    ensures
        views(r@) == views(v@),
        r@ == v@,
{
    let r = v.clone();
    proof {
        assert(r@ =~= v@);
    }
    r
}

/// Copy of an optional string.
pub fn clone_opt_string(o: &Option<String>) -> (r: Option<String>)
    ensures
        r == *o,
{
    match o {
        Some(s) => Some(s.clone()),
        None => None,
    }
}

/// Optional string as `Option<&str>`.
pub fn opt_as_str(o: &Option<String>) -> (r: Option<&str>)
    ensures
        match r {
            Some(s) => opt_view(*o) == Some(s@),
            None => o.is_none(),
        },
{
    match o {
        Some(s) => Some(s.as_str()),
        None => None,
    }
}

/// Completion item kinds, in the protocol's numbering from 1.
#[derive(Debug, Clone, Copy, PartialEq, Eq, Structural)]
pub enum LspCompletionKind {
    Text,
    Method,
    Function,
    Constructor,
    Field,
    Variable,
    Class,
    Interface,
    Module,
    Property,
    Unit,
    Value,
    Enum,
    Keyword,
    Snippet,
    Color,
    File,
    Reference,
    Folder,
    EnumMember,
    Constant,
    Struct,
    Event,
    Operator,
    TypeParameter,
}

/// A completion proposal from one server.
#[derive(Debug, PartialEq, Eq)]
pub struct LspCompletionItem {
    pub server_id: String,
    pub kind: Option<LspCompletionKind>,
    pub label: String,
    pub insert_text: String,
    pub edit_range: Option<TextRange>,
    pub detail: Option<String>,
    pub documentation: Option<String>,
    pub has_documentation: bool,
    pub raw_item: JsonValue,
}

impl LspCompletionItem {
    pub fn new(
        server_id: String,
        kind: Option<LspCompletionKind>,
        label: String,
        insert_text: String,
        edit_range: Option<TextRange>,
        detail: Option<String>,
        documentation: Option<String>,
    ) -> (r: Self)
        ensures
            r.server_id == server_id,
            r.kind == kind,
            r.label == label,
            r.insert_text == insert_text,
            r.edit_range == edit_range,
            r.detail == detail,
            r.documentation == documentation,
            !r.has_documentation,
            r.raw_item.model() == Json::Null,
    {
        LspCompletionItem {
            server_id,
            kind,
            label,
            insert_text,
            edit_range,
            detail,
            documentation,
            has_documentation: false,
            raw_item: JsonValue::Null,
        }
    }

    /// The item with the raw protocol payload and the documentation flag set.
    pub fn with_raw_item(self, raw_item: JsonValue, has_documentation: bool) -> (r: Self)
        ensures
            r.server_id == self.server_id,
            r.kind == self.kind,
            r.label == self.label,
            r.insert_text == self.insert_text,
            r.edit_range == self.edit_range,
            r.detail == self.detail,
            r.documentation == self.documentation,
            r.has_documentation == has_documentation,
            r.raw_item == raw_item,
    {
        let mut item = self;
        item.raw_item = raw_item;
        item.has_documentation = has_documentation;
        item
    }

    pub fn server_id(&self) -> (r: &str)
        ensures
            r@ == self.server_id@,
    {
        self.server_id.as_str()
    }

    pub fn kind(&self) -> (r: Option<LspCompletionKind>)
        ensures
            r == self.kind,
    {
        self.kind
    }

    pub fn label(&self) -> (r: &str)
        ensures
            r@ == self.label@,
    {
        self.label.as_str()
    }

    pub fn insert_text(&self) -> (r: &str)
        ensures
            r@ == self.insert_text@,
    {
        self.insert_text.as_str()
    }

    pub fn edit_range(&self) -> (r: Option<TextRange>)
        ensures
            r == self.edit_range,
    {
        self.edit_range
    }

    pub fn detail(&self) -> (r: Option<&str>)
        ensures
            match r {
                Some(s) => opt_view(self.detail) == Some(s@),
                None => self.detail.is_none(),
            },
    {
        opt_as_str(&self.detail)
    }

    pub fn documentation(&self) -> (r: Option<&str>)
        ensures
            match r {
                Some(s) => opt_view(self.documentation) == Some(s@),
                None => self.documentation.is_none(),
            },
    {
        opt_as_str(&self.documentation)
    }
}

/// An inline (ghost-text) completion proposal.
#[derive(Debug, PartialEq, Eq)]
pub struct LspInlineCompletionItem {
    pub server_id: String,
    pub root: Option<String>,
    pub insert_text: String,
    pub range: TextRange,
    pub raw_item: JsonValue,
}

impl LspInlineCompletionItem {
    pub fn new(
        server_id: String,
        root: Option<String>,
        insert_text: String,
        range: TextRange,
        raw_item: JsonValue,
    ) -> (r: Self)
        ensures
            r.server_id == server_id,
            r.root == root,
            r.insert_text == insert_text,
            r.range == range,
            r.raw_item == raw_item,
    {
        LspInlineCompletionItem { server_id, root, insert_text, range, raw_item }
    }

    pub fn server_id(&self) -> (r: &str)
        ensures
            r@ == self.server_id@,
    {
        self.server_id.as_str()
    }

    pub fn insert_text(&self) -> (r: &str)
        ensures
            r@ == self.insert_text@,
    {
        self.insert_text.as_str()
    }

    pub fn range(&self) -> (r: TextRange)
        ensures
            r == self.range,
    {
        self.range
    }
}

/// Hover contents from one server: the text, its display lines, and whether
/// the text is markdown.
#[derive(Debug, PartialEq, Eq)]
pub struct LspHoverContents {
    pub server_id: String,
    pub text: String,
    pub lines: Vec<String>,
    pub markdown: bool,
}

impl LspHoverContents {
    pub fn new(server_id: String, text: String, lines: Vec<String>, markdown: bool) -> (r: Self)
        ensures
            r.server_id == server_id,
            r.text == text,
            r.lines == lines,
            r.markdown == markdown,
    {
        LspHoverContents { server_id, text, lines, markdown }
    }

    pub fn server_id(&self) -> (r: &str)
        ensures
            r@ == self.server_id@,
    {
        self.server_id.as_str()
    }

    pub fn text(&self) -> (r: &str)
        ensures
            r@ == self.text@,
    {
        self.text.as_str()
    }

    pub fn is_markdown(&self) -> (r: bool)
        ensures
            r == self.markdown,
    {
        self.markdown
    }

    pub fn lines(&self) -> (r: &[String])
        ensures
            r@ == self.lines@,
    {
        self.lines.as_slice()
    }
}

/// The active parameter of the active signature, as a character range of the
/// signature label.
#[derive(Debug, PartialEq, Eq)]
pub struct LspSignatureActiveParameter {
    pub signature_index: usize,
    pub label: String,
    pub start: usize,
    pub end: usize,
}

/// A location in a document, by URI; `file_path` is set when the URI is a
/// `file://` URI.
#[derive(Debug, PartialEq, Eq)]
pub struct LspLocation {
    pub server_id: String,
    pub path: String,
    pub file_path: Option<String>,
    pub uri: String,
    pub range: TextRange,
}

impl Clone for LspLocation {
    fn clone(&self) -> (r: Self)
        ensures
            r == *self,
    {
        LspLocation {
            server_id: self.server_id.clone(),
            path: self.path.clone(),
            file_path: match &self.file_path {
                Some(p) => Some(p.clone()),
                None => None,
            },
            uri: self.uri.clone(),
            range: self.range,
        }
    }
}

impl LspLocation {
    pub fn server_id(&self) -> (r: &str)
        ensures
            r@ == self.server_id@,
    {
        self.server_id.as_str()
    }

    pub fn path(&self) -> (r: &str)
        ensures
            r@ == self.path@,
    {
        self.path.as_str()
    }

    pub fn file_path(&self) -> (r: Option<&str>)
        ensures
            match r {
                Some(s) => opt_view(self.file_path) == Some(s@),
                None => self.file_path.is_none(),
            },
    {
        opt_as_str(&self.file_path)
    }

    pub fn uri(&self) -> (r: &str)
        ensures
            r@ == self.uri@,
    {
        self.uri.as_str()
    }

    pub fn is_file_path(&self) -> (r: bool)
        ensures
            r == self.file_path.is_some(),
    {
        self.file_path.is_some()
    }

    pub fn range(&self) -> (r: TextRange)
        ensures
            r == self.range,
    {
        self.range
    }
}

/// One text replacement.
#[derive(Debug, PartialEq, Eq)]
pub struct LspTextEdit {
    pub range: TextRange,
    pub new_text: String,
}

impl LspTextEdit {
    pub fn new(range: TextRange, new_text: String) -> (r: Self)
        ensures
            r.range == range,
            r.new_text == new_text,
    {
        LspTextEdit { range, new_text }
    }

    pub fn range(&self) -> (r: TextRange)
        ensures
            r == self.range,
    {
        self.range
    }

    pub fn new_text(&self) -> (r: &str)
        ensures
            r@ == self.new_text@,
    {
        self.new_text.as_str()
    }
}

impl Clone for LspTextEdit {
    fn clone(&self) -> (r: Self)
        ensures
            r == *self,
    {
        LspTextEdit { range: self.range, new_text: self.new_text.clone() }
    }
}

/// The edits of one document within a workspace edit.
#[derive(Debug, PartialEq, Eq)]
pub struct LspDocumentTextEdits {
    pub path: String,
    pub edits: Vec<LspTextEdit>,
}

impl LspDocumentTextEdits {
    pub fn new(path: String, edits: Vec<LspTextEdit>) -> (r: Self)
        ensures
            r.path == path,
            r.edits == edits,
    {
        LspDocumentTextEdits { path, edits }
    }

    pub fn path(&self) -> (r: &str)
        ensures
            r@ == self.path@,
    {
        self.path.as_str()
    }

    pub fn edits(&self) -> (r: &[LspTextEdit])
        ensures
            r@ == self.edits@,
    {
        self.edits.as_slice()
    }
}

/// A code action offered by a server.
#[derive(Debug, PartialEq, Eq)]
pub struct LspCodeAction {
    pub server_id: String,
    pub title: String,
    pub kind: Option<String>,
    pub disabled_reason: Option<String>,
    pub preferred: bool,
    pub document_edits: Vec<LspDocumentTextEdits>,
    pub command_name: Option<String>,
    pub has_resource_operations: bool,
}

impl LspCodeAction {
    pub fn server_id(&self) -> (r: &str)
        ensures
            r@ == self.server_id@,
    {
        self.server_id.as_str()
    }

    pub fn title(&self) -> (r: &str)
        ensures
            r@ == self.title@,
    {
        self.title.as_str()
    }

    pub fn kind(&self) -> (r: Option<&str>)
        ensures
            match r {
                Some(s) => opt_view(self.kind) == Some(s@),
                None => self.kind.is_none(),
            },
    {
        opt_as_str(&self.kind)
    }

    pub fn disabled_reason(&self) -> (r: Option<&str>)
        ensures
            match r {
                Some(s) => opt_view(self.disabled_reason) == Some(s@),
                None => self.disabled_reason.is_none(),
            },
    {
        opt_as_str(&self.disabled_reason)
    }

    pub fn is_preferred(&self) -> (r: bool)
        ensures
            r == self.preferred,
    {
        self.preferred
    }

    pub fn document_edits(&self) -> (r: &[LspDocumentTextEdits])
        ensures
            r@ == self.document_edits@,
    {
        self.document_edits.as_slice()
    }

    pub fn command_name(&self) -> (r: Option<&str>)
        ensures
            match r {
                Some(s) => opt_view(self.command_name) == Some(s@),
                None => self.command_name.is_none(),
            },
    {
        opt_as_str(&self.command_name)
    }

    pub fn has_resource_operations(&self) -> (r: bool)
        ensures
            r == self.has_resource_operations,
    {
        self.has_resource_operations
    }
}

/// Tab size and whether to indent with spaces.
#[derive(Debug, Clone, Copy, PartialEq, Eq, Structural)]
pub struct LspFormattingOptions {
    pub tab_size: u32,
    pub insert_spaces: bool,
}

impl LspFormattingOptions {
    pub fn new(tab_size: u32, insert_spaces: bool) -> (r: Self)
        ensures
            r.tab_size == tab_size,
            r.insert_spaces == insert_spaces,
    {
        LspFormattingOptions { tab_size, insert_spaces }
    }

    pub fn tab_size(&self) -> (r: u32)
        ensures
            r == self.tab_size,
    {
        self.tab_size
    }

    pub fn insert_spaces(&self) -> (r: bool)
        ensures
            r == self.insert_spaces,
    {
        self.insert_spaces
    }
}

/// Severity of a diagnostic.
#[derive(Debug, Clone, Copy, PartialEq, Eq, Structural)]
pub enum DiagnosticSeverity {
    Error,
    Warning,
    Information,
}

/// A diagnostic attached to a range of a document.
#[derive(Debug, PartialEq, Eq)]
pub struct Diagnostic {
    pub source: String,
    pub message: String,
    pub severity: DiagnosticSeverity,
    pub range: TextRange,
}

impl Diagnostic {
    pub fn new(source: String, message: String, severity: DiagnosticSeverity, range: TextRange) -> (r: Self)
        ensures
            r.source == source,
            r.message == message,
            r.severity == severity,
            r.range == range,
    {
        Diagnostic { source, message, severity, range }
    }

    pub fn source(&self) -> (r: &str)
        ensures
            r@ == self.source@,
    {
        self.source.as_str()
    }

    pub fn message(&self) -> (r: &str)
        ensures
            r@ == self.message@,
    {
        self.message.as_str()
    }

    pub fn severity(&self) -> (r: DiagnosticSeverity)
        ensures
            r == self.severity,
    {
        self.severity
    }

    pub fn range(&self) -> (r: TextRange)
        ensures
            r == self.range,
    {
        self.range
    }
}

impl Clone for Diagnostic {
    fn clone(&self) -> (r: Self)
        ensures
            r == *self,
    {
        Diagnostic {
            source: self.source.clone(),
            message: self.message.clone(),
            severity: self.severity,
            range: self.range,
        }
    }
}

/// The protocol's numeric severity: 1 for errors, 2 for warnings, 3 for
/// information.
pub fn lsp_diagnostic_severity(severity: DiagnosticSeverity) -> (r: u8)
    ensures
        r == match severity {
            DiagnosticSeverity::Error => 1u8,
            DiagnosticSeverity::Warning => 2u8,
            DiagnosticSeverity::Information => 3u8,
        },
{
    match severity {
        DiagnosticSeverity::Error => 1,
        DiagnosticSeverity::Warning => 2,
        DiagnosticSeverity::Information => 3,
    }
}

/// An I/O failure reported by the operating system.
#[verifier::external_type_specification]
#[verifier::external_body]
pub struct ExIoError(std::io::Error);

/// Failures of the language-server client.
#[derive(Debug)]
pub enum LspClientError {
    /// The server registry could not plan a session; holds its message.
    Registry(String),
    Io(std::io::Error),
    Protocol(String),
    /// No response arrived in time for the named method.
    Timeout(String),
    /// The named server's transport is closed.
    Disconnected(String),
}

/// The display text of an I/O error (`std::io::Error` as `Display`).
/// Nothing is stated of it: it holds the operating system's own wording.
#[verifier::external_body]
fn io_error_text(error: &std::io::Error) -> String {
    error.to_string()
}

/// The error text for a request that timed out.
pub open spec fn timeout_text(method: Seq<char>) -> Seq<char> {
    "timed out waiting for LSP response to `"@ + method + "`"@
}

/// The error text for a closed transport.
pub open spec fn disconnected_text(server_id: Seq<char>) -> Seq<char> {
    "language server `"@ + server_id + "` disconnected"@
}

impl LspClientError {
    /// The error as text: a registry or protocol message as it stands, the
    /// timed-out method or disconnected server in a sentence, an I/O error
    /// as the operating system words it.
    pub fn message(&self) -> (r: String)
        ensures
            self matches LspClientError::Registry(m) ==> r@ == m@,
            self matches LspClientError::Protocol(m) ==> r@ == m@,
            self matches LspClientError::Timeout(m) ==> r@ == timeout_text(m@),
            self matches LspClientError::Disconnected(m) ==> r@ == disconnected_text(m@),
    {
        match self {
            LspClientError::Registry(m) => crate::strings::owned(m.as_str()),
            LspClientError::Io(e) => io_error_text(e),
            LspClientError::Protocol(m) => crate::strings::owned(m.as_str()),
            LspClientError::Timeout(method) => crate::strings::concat3(
                "timed out waiting for LSP response to `",
                method.as_str(),
                "`",
            ),
            LspClientError::Disconnected(server_id) => crate::strings::concat3(
                "language server `",
                server_id.as_str(),
                "` disconnected",
            ),
        }
    }
}

} // verus!
