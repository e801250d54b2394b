//! Completion payloads: completion items and their kinds, inline
//! completions, and the server commands they carry.
use vstd::prelude::*;
use crate::json::{
    JsonValue, Json, model_items, lemma_model_items, clone_items, object2, model_members, lemma_model_members,
    lemma_model_members_push, member_index, first_key_index,
};
use crate::strings::{owned, string_of, trim_spec, trim_chars, chars_of, concat3};
use crate::text::{TextPoint, TextRange};
use crate::types::{LspCompletionKind, LspCompletionItem, LspInlineCompletionItem, LspClientError, opt_view};
use crate::logs::{LspServerCommand, CopilotDeviceCodePrompt};
use crate::parse::{inline_range_spec, parse_inline_text_range};
use crate::notify::opt_str;

verus! {

/// The completion kind with protocol number `n` (1 to 25).
pub open spec fn completion_kind_spec(n: u64) -> Option<LspCompletionKind> {
    if n == 1 {
        Some(LspCompletionKind::Text)
    } else if n == 2 {
        Some(LspCompletionKind::Method)
    } else if n == 3 {
        Some(LspCompletionKind::Function)
    } else if n == 4 {
        Some(LspCompletionKind::Constructor)
    } else if n == 5 {
        Some(LspCompletionKind::Field)
    } else if n == 6 {
        Some(LspCompletionKind::Variable)
    } else if n == 7 {
        Some(LspCompletionKind::Class)
    } else if n == 8 {
        Some(LspCompletionKind::Interface)
    } else if n == 9 {
        Some(LspCompletionKind::Module)
    } else if n == 10 {
        Some(LspCompletionKind::Property)
    } else if n == 11 {
        Some(LspCompletionKind::Unit)
    } else if n == 12 {
        Some(LspCompletionKind::Value)
    } else if n == 13 {
        Some(LspCompletionKind::Enum)
    } else if n == 14 {
        Some(LspCompletionKind::Keyword)
    } else if n == 15 {
        Some(LspCompletionKind::Snippet)
    } else if n == 16 {
        Some(LspCompletionKind::Color)
    } else if n == 17 {
        Some(LspCompletionKind::File)
    } else if n == 18 {
        Some(LspCompletionKind::Reference)
    } else if n == 19 {
        Some(LspCompletionKind::Folder)
    } else if n == 20 {
        Some(LspCompletionKind::EnumMember)
    } else if n == 21 {
        Some(LspCompletionKind::Constant)
    } else if n == 22 {
        Some(LspCompletionKind::Struct)
    } else if n == 23 {
        Some(LspCompletionKind::Event)
    } else if n == 24 {
        Some(LspCompletionKind::Operator)
    } else if n == 25 {
        Some(LspCompletionKind::TypeParameter)
    } else {
        None
    }
}

pub fn parse_completion_kind(kind: u64) -> (r: Option<LspCompletionKind>)
    ensures
        r == completion_kind_spec(kind),
{
    match kind {
        1 => Some(LspCompletionKind::Text),
        2 => Some(LspCompletionKind::Method),
        3 => Some(LspCompletionKind::Function),
        4 => Some(LspCompletionKind::Constructor),
        5 => Some(LspCompletionKind::Field),
        6 => Some(LspCompletionKind::Variable),
        7 => Some(LspCompletionKind::Class),
        8 => Some(LspCompletionKind::Interface),
        9 => Some(LspCompletionKind::Module),
        10 => Some(LspCompletionKind::Property),
        11 => Some(LspCompletionKind::Unit),
        12 => Some(LspCompletionKind::Value),
        13 => Some(LspCompletionKind::Enum),
        14 => Some(LspCompletionKind::Keyword),
        15 => Some(LspCompletionKind::Snippet),
        16 => Some(LspCompletionKind::Color),
        17 => Some(LspCompletionKind::File),
        18 => Some(LspCompletionKind::Reference),
        19 => Some(LspCompletionKind::Folder),
        20 => Some(LspCompletionKind::EnumMember),
        21 => Some(LspCompletionKind::Constant),
        22 => Some(LspCompletionKind::Struct),
        23 => Some(LspCompletionKind::Event),
        24 => Some(LspCompletionKind::Operator),
        25 => Some(LspCompletionKind::TypeParameter),
        _ => None,
    }
}

/// Completion documentation: a plain string, or the `value` of a markup
/// object.
pub open spec fn documentation_spec(j: Json) -> Option<Seq<char>> {
    match j {
        Json::Str(t) => Some(t),
        Json::Object(ms) => Json::str_opt(Json::Object(ms).get("value"@)),
        _ => None,
    }
}

pub fn completion_documentation(value: &JsonValue) -> (r: Option<String>)
    ensures
        opt_view(r) == documentation_spec(value.model()),
{
    match value {
        JsonValue::String(text) => Some(owned(text.as_str())),
        JsonValue::Object(_) => match value.get("value") {
            Some(v) => match v.as_str() {
                Some(t) => Some(owned(t)),
                None => None,
            },
            None => None,
        },
        _ => None,
    }
}

/// A completion item as read from the protocol.
pub struct CompletionModel {
    pub server_id: Seq<char>,
    pub kind: Option<LspCompletionKind>,
    pub label: Seq<char>,
    pub insert_text: Seq<char>,
    pub edit_range: Option<TextRange>,
    pub detail: Option<Seq<char>>,
    pub documentation: Option<Seq<char>>,
    pub has_documentation: bool,
    pub raw_item: Json,
}

pub open spec fn completion_view(c: LspCompletionItem) -> CompletionModel {
    CompletionModel {
        server_id: c.server_id@,
        kind: c.kind,
        label: c.label@,
        insert_text: c.insert_text@,
        edit_range: c.edit_range,
        detail: opt_view(c.detail),
        documentation: opt_view(c.documentation),
        has_documentation: c.has_documentation,
        raw_item: c.raw_item.model(),
    }
}

pub open spec fn or_else(a: Option<Seq<char>>, b: Seq<char>) -> Seq<char> {
    match a {
        Some(x) => x,
        None => b,
    }
}

/// A completion item: it needs a `label`. With a `textEdit`, its new text
/// (else `insertText`, else the label) is inserted over its `replace` or
/// `range`; without one, `insertText` or the label is inserted. The
/// documentation falls back to the detail.
pub open spec fn completion_item_spec(server_id: Seq<char>, j: Json) -> Option<CompletionModel> {
    match Json::str_opt(j.get("label"@)) {
        Some(label) => {
            let insert_default = or_else(Json::str_opt(j.get("insertText"@)), label);
            let (insert_text, edit_range) = match j.get("textEdit"@) {
                Some(te) => (
                    or_else(Json::str_opt(te.get("newText"@)), insert_default),
                    match te.get("replace"@) {
                        Some(r) => inline_range_spec(Some(r)),
                        None => inline_range_spec(te.get("range"@)),
                    },
                ),
                None => (insert_default, None),
            };
            let detail = Json::str_opt(j.get("detail"@));
            let documentation = match j.get("documentation"@) {
                Some(d) => match documentation_spec(d) {
                    Some(x) => Some(x),
                    None => detail,
                },
                None => detail,
            };
            Some(
                CompletionModel {
                    server_id,
                    kind: match Json::u64_opt(j.get("kind"@)) {
                        Some(n) => completion_kind_spec(n),
                        None => None,
                    },
                    label,
                    insert_text,
                    edit_range,
                    detail,
                    documentation,
                    has_documentation: documentation is Some,
                    raw_item: j,
                },
            )
        },
        None => None,
    }
}

fn str_member<'a>(value: &'a JsonValue, key: &str) -> (r: Option<&'a str>)
    ensures
        match r {
            Some(s) => Json::str_opt(value.model().get(key@)) == Some(s@),
            None => Json::str_opt(value.model().get(key@)) is None,
        },
{
    match value.get(key) {
        Some(v) => v.as_str(),
        None => None,
    }
}

fn opt_string(s: Option<&str>) -> (r: Option<String>)
    ensures
        opt_view(r) == opt_str(s),
{
    match s {
        Some(s) => Some(owned(s)),
        None => None,
    }
}

pub fn parse_completion_item(server_id: &str, value: &JsonValue) -> (r: Option<LspCompletionItem>)
    ensures
        match r {
            Some(c) => completion_item_spec(server_id@, value.model()) == Some(completion_view(c)),
            None => completion_item_spec(server_id@, value.model()) is None,
        },
{
    let label = match str_member(value, "label") {
        Some(l) => l,
        None => return None,
    };
    let kind = match value.get("kind") {
        Some(k) => match k.as_u64() {
            Some(n) => parse_completion_kind(n),
            None => None,
        },
        None => None,
    };
    let insert_default = match str_member(value, "insertText") {
        Some(t) => t,
        None => label,
    };
    let (insert_text, edit_range) = match value.get("textEdit") {
        Some(text_edit) => {
            let new_text = match str_member(text_edit, "newText") {
                Some(t) => t,
                None => insert_default,
            };
            let range = match text_edit.get("replace") {
                Some(r) => parse_inline_text_range(r),
                None => match text_edit.get("range") {
                    Some(r) => parse_inline_text_range(r),
                    None => None,
                },
            };
            (owned(new_text), range)
        },
        None => (owned(insert_default), None),
    };
    let detail = opt_string(str_member(value, "detail"));
    let documentation = match value.get("documentation") {
        Some(d) => match completion_documentation(d) {
            Some(x) => Some(x),
            None => opt_string(str_member(value, "detail")),
        },
        None => opt_string(str_member(value, "detail")),
    };
    let has_documentation = documentation.is_some();
    let item = LspCompletionItem::new(
        owned(server_id),
        kind,
        owned(label),
        insert_text,
        edit_range,
        detail,
        documentation,
    );
    Some(item.with_raw_item(value.clone(), has_documentation))
}

pub open spec fn completion_views(v: Seq<LspCompletionItem>) -> Seq<CompletionModel> {
    v.map_values(|c: LspCompletionItem| completion_view(c))
}

pub open spec fn completion_items_from(server_id: Seq<char>, items: Seq<Json>) -> Seq<CompletionModel>
    decreases items.len(),
{
    if items.len() == 0 {
        Seq::empty()
    } else {
        let rest = completion_items_from(server_id, items.drop_last());
        match completion_item_spec(server_id, items.last()) {
            Some(c) => rest.push(c),
            None => rest,
        }
    }
}

/// The items of a completion response: a bare array, or the `items` array of
/// a completion list; none otherwise.
pub open spec fn response_items(j: Json) -> Seq<Json> {
    match j {
        Json::Array(items) => items,
        Json::Object(ms) => match Json::array_opt(Json::Object(ms).get("items"@)) {
            Some(items) => items,
            None => Seq::empty(),
        },
        _ => Seq::empty(),
    }
}

/// The array a completion response lists its items in.
fn response_item_list(value: &JsonValue) -> (r: Option<&Vec<JsonValue>>)
    ensures
        match r {
            Some(items) => response_items(value.model()) == model_items(items@),
            None => response_items(value.model()) == Seq::<Json>::empty(),
        },
{
    match value {
        JsonValue::Array(items) => Some(items),
        JsonValue::Object(_) => match value.get("items") {
            Some(items) => items.as_array(),
            None => None,
        },
        _ => None,
    }
}

pub fn parse_completion_response(server_id: &str, value: &JsonValue) -> (r: Vec<LspCompletionItem>)
    ensures
        completion_views(r@) == completion_items_from(server_id@, response_items(value.model())),
{
    let mut out: Vec<LspCompletionItem> = Vec::new();
    let items = match response_item_list(value) {
        Some(items) => items,
        None => {
            proof {
                assert(completion_views(out@) =~= Seq::empty());
            }
            return out;
        },
    };
    proof {
        lemma_model_items(items@);
    }
    let ghost ms = model_items(items@);
    let mut i: usize = 0;
    while i < items.len()
        invariant
            ms == model_items(items@),
            ms.len() == items@.len(),
            forall|k: int| 0 <= k < items@.len() ==> #[trigger] ms[k] == items@[k].model(),
            i <= items@.len(),
            completion_views(out@) == completion_items_from(server_id@, ms.take(i as int)),
        decreases items@.len() - i,
    {
        proof {
            assert(ms.take(i + 1).drop_last() =~= ms.take(i as int));
            assert(ms.take(i + 1).last() == items@[i as int].model());
        }
        match parse_completion_item(server_id, &items[i]) {
            Some(c) => {
                proof {
                    assert(completion_views(out@.push(c)) =~= completion_views(out@).push(
                        completion_view(c),
                    ));
                }
                out.push(c);
            },
            None => {},
        }
        i += 1;
    }
    proof {
        assert(ms.take(ms.len() as int) =~= ms);
    }
    out
}

/// `s` with every `\r\n` written as `\n`, scanning left to right.
pub open spec fn crlf_to_lf(s: Seq<char>) -> Seq<char>
    decreases s.len(),
{
    if s.len() == 0 {
        Seq::empty()
    } else if s.len() >= 2 && s[0] == '\r' && s[1] == '\n' {
        seq!['\n'] + crlf_to_lf(s.skip(2))
    } else {
        seq![s[0]] + crlf_to_lf(s.skip(1))
    }
}

pub fn normalize_line_endings(s: &str) -> (r: String)
    ensures
        r@ == crlf_to_lf(s@),
{
    let cs = chars_of(s);
    let mut out: Vec<char> = Vec::new();
    let mut i: usize = 0;
    proof {
        assert(cs@.skip(0) =~= cs@);
        assert(out@ + crlf_to_lf(cs@) =~= crlf_to_lf(cs@));
    }
    while i < cs.len()
        invariant
            cs@ == s@,
            i <= cs@.len(),
            out@ + crlf_to_lf(cs@.skip(i as int)) == crlf_to_lf(cs@),
        decreases cs@.len() - i,
    {
        let ghost rest = cs@.skip(i as int);
        if i + 1 < cs.len() && cs[i] == '\r' && cs[i + 1] == '\n' {
            proof {
                assert(rest.skip(2) =~= cs@.skip(i + 2));
                assert(out@.push('\n') + crlf_to_lf(rest.skip(2)) =~= out@ + crlf_to_lf(rest));
            }
            out.push('\n');
            i += 2;
        } else {
            proof {
                assert(rest[0] == cs@[i as int]);
                assert(rest.skip(1) =~= cs@.skip(i + 1));
                assert(out@.push(cs@[i as int]) + crlf_to_lf(rest.skip(1)) =~= out@ + crlf_to_lf(rest));
            }
            out.push(cs[i]);
            i += 1;
        }
    }
    proof {
        assert(cs@.skip(cs@.len() as int) =~= Seq::<char>::empty());
        assert(out@ + Seq::<char>::empty() =~= out@);
    }
    string_of(out.as_slice())
}

/// An inline completion as read from the protocol.
pub struct InlineCompletionModel {
    pub server_id: Seq<char>,
    pub root: Option<Seq<char>>,
    pub insert_text: Seq<char>,
    pub range: TextRange,
    pub raw_item: Json,
}

pub open spec fn inline_completion_view(c: LspInlineCompletionItem) -> InlineCompletionModel {
    InlineCompletionModel {
        server_id: c.server_id@,
        root: opt_view(c.root),
        insert_text: c.insert_text@,
        range: c.range,
        raw_item: c.raw_item.model(),
    }
}

/// An inline completion: a non-empty `insertText` (line endings made `\n`)
/// over its `range`, or at the requested position.
pub open spec fn inline_completion_spec(
    server_id: Seq<char>,
    root: Option<Seq<char>>,
    position: TextPoint,
    j: Json,
) -> Option<InlineCompletionModel> {
    match Json::str_opt(j.get("insertText"@)) {
        Some(raw) => {
            let insert_text = crlf_to_lf(raw);
            if insert_text.len() == 0 {
                None
            } else {
                Some(
                    InlineCompletionModel {
                        server_id,
                        root,
                        insert_text,
                        range: match inline_range_spec(j.get("range"@)) {
                            Some(r) => r,
                            None => TextRange { start: position, end: position },
                        },
                        raw_item: j,
                    },
                )
            }
        },
        None => None,
    }
}

pub fn parse_inline_completion_item(
    server_id: &str,
    root: Option<&str>,
    position: TextPoint,
    value: &JsonValue,
) -> (r: Option<LspInlineCompletionItem>)
    ensures
        match r {
            Some(c) => inline_completion_spec(server_id@, opt_str(root), position, value.model()) == Some(
                inline_completion_view(c),
            ),
            None => inline_completion_spec(server_id@, opt_str(root), position, value.model()) is None,
        },
{
    let raw = match str_member(value, "insertText") {
        Some(t) => t,
        None => return None,
    };
    let insert_text = normalize_line_endings(raw);
    if insert_text.as_str().is_empty() {
        return None;
    }
    let range = match value.get("range") {
        Some(r) => match parse_inline_text_range(r) {
            Some(r) => r,
            None => TextRange::new(position, position),
        },
        None => TextRange::new(position, position),
    };
    Some(
        LspInlineCompletionItem::new(
            owned(server_id),
            opt_string(root),
            insert_text,
            range,
            value.clone(),
        ),
    )
}

pub open spec fn inline_completion_views(v: Seq<LspInlineCompletionItem>) -> Seq<InlineCompletionModel> {
    v.map_values(|c: LspInlineCompletionItem| inline_completion_view(c))
}

pub open spec fn inline_completions_from(
    server_id: Seq<char>,
    root: Option<Seq<char>>,
    position: TextPoint,
    items: Seq<Json>,
) -> Seq<InlineCompletionModel>
    decreases items.len(),
{
    if items.len() == 0 {
        Seq::empty()
    } else {
        let rest = inline_completions_from(server_id, root, position, items.drop_last());
        match inline_completion_spec(server_id, root, position, items.last()) {
            Some(c) => rest.push(c),
            None => rest,
        }
    }
}

pub fn parse_inline_completion_response(
    server_id: &str,
    root: Option<&str>,
    position: TextPoint,
    value: &JsonValue,
) -> (r: Vec<LspInlineCompletionItem>)
    ensures
        inline_completion_views(r@) == inline_completions_from(
            server_id@,
            opt_str(root),
            position,
            response_items(value.model()),
        ),
{
    let mut out: Vec<LspInlineCompletionItem> = Vec::new();
    let items = match response_item_list(value) {
        Some(items) => items,
        None => {
            proof {
                assert(inline_completion_views(out@) =~= Seq::empty());
            }
            return out;
        },
    };
    proof {
        lemma_model_items(items@);
    }
    let ghost ms = model_items(items@);
    let mut i: usize = 0;
    while i < items.len()
        invariant
            ms == model_items(items@),
            ms.len() == items@.len(),
            forall|k: int| 0 <= k < items@.len() ==> #[trigger] ms[k] == items@[k].model(),
            i <= items@.len(),
            inline_completion_views(out@) == inline_completions_from(
                server_id@,
                opt_str(root),
                position,
                ms.take(i as int),
            ),
        decreases items@.len() - i,
    {
        proof {
            assert(ms.take(i + 1).drop_last() =~= ms.take(i as int));
            assert(ms.take(i + 1).last() == items@[i as int].model());
        }
        match parse_inline_completion_item(server_id, root, position, &items[i]) {
            Some(c) => {
                proof {
                    assert(inline_completion_views(out@.push(c)) =~= inline_completion_views(out@).push(
                        inline_completion_view(c),
                    ));
                }
                out.push(c);
            },
            None => {},
        }
        i += 1;
    }
    proof {
        assert(ms.take(ms.len() as int) =~= ms);
    }
    out
}

/// A server command: its title and command name, trimmed.
pub open spec fn command_view(c: LspServerCommand) -> (Seq<char>, Seq<char>, Seq<Json>) {
    (c.title@, c.command@, model_items(c.arguments@))
}

/// A `Command` object: trimmed `title` and `command`, both non-empty, and its
/// `arguments` (none when absent).
pub open spec fn server_command_spec(j: Option<Json>) -> Option<(Seq<char>, Seq<char>, Seq<Json>)> {
    match (Json::str_opt(Json::get_opt(j, "title"@)), Json::str_opt(Json::get_opt(j, "command"@))) {
        (Some(t), Some(c)) => {
            let title = trim_spec(t);
            let command = trim_spec(c);
            if title.len() == 0 || command.len() == 0 {
                None
            } else {
                Some(
                    (
                        title,
                        command,
                        match Json::array_opt(Json::get_opt(j, "arguments"@)) {
                            Some(args) => args,
                            None => Seq::empty(),
                        },
                    ),
                )
            }
        },
        _ => None,
    }
}

pub fn parse_lsp_server_command(value: Option<&JsonValue>) -> (r: Option<LspServerCommand>)
    ensures
        match r {
            Some(c) => server_command_spec(crate::json::model_opt(value)) == Some(command_view(c)),
            None => server_command_spec(crate::json::model_opt(value)) is None,
        },
{
    let value = match value {
        Some(v) => v,
        None => return None,
    };
    let title = match str_member(value, "title") {
        Some(t) => trim_chars(t),
        None => return None,
    };
    let command = match str_member(value, "command") {
        Some(c) => trim_chars(c),
        None => return None,
    };
    if title.len() == 0 || command.len() == 0 {
        return None;
    }
    let empty: Vec<JsonValue> = Vec::new();
    proof {
        assert(model_items(empty@) =~= Seq::empty());
    }
    let arguments = match value.get("arguments") {
        Some(a) => match a.as_array() {
            Some(items) => clone_items(items),
            None => empty,
        },
        None => empty,
    };
    Some(LspServerCommand::new(string_of(title.as_slice()), string_of(command.as_slice()), arguments))
}

/// A Copilot sign-in reply: a non-empty trimmed `userCode` and a command.
pub open spec fn sign_in_spec(j: Json) -> Option<(Seq<char>, (Seq<char>, Seq<char>, Seq<Json>))> {
    match (Json::str_opt(j.get("userCode"@)), server_command_spec(j.get("command"@))) {
        (Some(code), Some(c)) => if trim_spec(code).len() == 0 {
            None
        } else {
            Some((trim_spec(code), c))
        },
        _ => None,
    }
}

pub fn parse_copilot_sign_in_response(value: &JsonValue) -> (r: Option<CopilotDeviceCodePrompt>)
    ensures
        match r {
            Some(p) => sign_in_spec(value.model()) == Some((p.user_code@, command_view(p.command))),
            None => sign_in_spec(value.model()) is None,
        },
{
    let user_code = match str_member(value, "userCode") {
        Some(c) => trim_chars(c),
        None => return None,
    };
    let command = match parse_lsp_server_command(value.get("command")) {
        Some(c) => c,
        None => return None,
    };
    if user_code.len() == 0 {
        return None;
    }
    Some(CopilotDeviceCodePrompt::new(string_of(user_code.as_slice()), command))
}

/// `workspace/executeCommand` parameters for a command.
pub open spec fn execute_params_spec(command: Seq<char>, arguments: Seq<Json>) -> Json {
    Json::Object(seq![("command"@, Json::Str(command)), ("arguments"@, Json::Array(arguments))])
}

pub fn execute_command_params(command: &LspServerCommand) -> (r: JsonValue)
    ensures
        r.model() == execute_params_spec(command.command@, model_items(command.arguments@)),
{
    let args = clone_items(&command.arguments);
    object2(
        "command",
        JsonValue::String(owned(command.command.as_str())),
        "arguments",
        JsonValue::Array(args),
    )
}

/// `workspace/executeCommand` parameters for the command of an inline
/// completion item, if it has one.
pub fn execute_command_params_from_inline_item(value: &JsonValue) -> (r: Option<JsonValue>)
    ensures
        match server_command_spec(value.model().get("command"@)) {
            Some((_, c, args)) => r matches Some(p) && p.model() == execute_params_spec(c, args),
            None => r is None,
        },
{
    match parse_lsp_server_command(value.get("command")) {
        Some(command) => Some(execute_command_params(&command)),
        None => None,
    }
}


/// The members of `acc` followed by each member of `initial` whose key is
/// not there yet, in order: a resolved completion item keeps what the
/// unresolved item had and the reply left out.
pub open spec fn fill_missing(acc: Seq<(Seq<char>, Json)>, initial: Seq<(Seq<char>, Json)>) -> Seq<(Seq<char>, Json)>
    decreases initial.len(),
{
    if initial.len() == 0 {
        acc
    } else {
        let prev = fill_missing(acc, initial.drop_last());
        if first_key_index(prev, initial.last().0) is Some {
            prev
        } else {
            prev.push(initial.last())
        }
    }
}

fn fill_missing_members(resolved: &mut Vec<(String, JsonValue)>, initial: &Vec<(String, JsonValue)>)
    ensures
        model_members(final(resolved)@) == fill_missing(model_members(old(resolved)@), model_members(initial@)),
{
    let ghost im = model_members(initial@);
    let ghost start = model_members(resolved@);
    proof {
        lemma_model_members(initial@);
        assert(im.take(0) =~= Seq::<(Seq<char>, Json)>::empty());
    }
    let mut i: usize = 0;
    while i < initial.len()
        invariant
            im == model_members(initial@),
            im.len() == initial@.len(),
            forall|k: int| 0 <= k < initial@.len() ==> #[trigger] im[k] == (initial@[k].0@, initial@[k].1.model()),
            i <= initial@.len(),
            model_members(resolved@) == fill_missing(start, im.take(i as int)),
        decreases initial@.len() - i,
    {
        proof {
            assert(im.take(i + 1).drop_last() =~= im.take(i as int));
            assert(im.take(i + 1).last() == im[i as int]);
        }
        match member_index(resolved, initial[i].0.as_str()) {
            Some(_) => {},
            None => {
                let m = (initial[i].0.clone(), initial[i].1.clone());
                proof {
                    lemma_model_members_push(resolved@, m);
                }
                resolved.push(m);
            },
        }
        i += 1;
    }
    proof {
        assert(im.take(im.len() as int) =~= im);
    }
}

/// Whether a completion item is worth a `completionItem/resolve` request:
/// it has no documentation yet and the server resolves items.
pub fn completion_needs_resolve(item: &LspCompletionItem, resolve_supported: bool) -> (r: bool)
    ensures
        r == (!item.has_documentation && resolve_supported),
{
    !item.has_documentation && resolve_supported
}

pub open spec fn invalid_resolve_text(server_id: Seq<char>) -> Seq<char> {
    "language server `"@ + server_id + "` returned an invalid completionItem/resolve response"@
}

pub open spec fn non_object_resolve_text(server_id: Seq<char>) -> Seq<char> {
    "language server `"@ + server_id + "` returned a non-object completionItem/resolve response"@
}

/// A resolved completion item read as any completion item is.
#[verifier::opaque]
pub open spec fn resolved_item_spec(server_id: Seq<char>, j: Json) -> Option<CompletionModel> {
    completion_item_spec(server_id, j)
}

/// The item a `completionItem/resolve` reply gives: the reply's members
/// completed by the unresolved item's, read as a completion item; an error
/// when the reply is no object or does not read as an item.
pub open spec fn resolve_reply_spec(server_id: Seq<char>, raw_item: Json, reply: Json) -> Result<
    CompletionModel,
    Seq<char>,
> {
    match reply {
        Json::Object(resolved) => {
            let merged = match raw_item {
                Json::Object(initial) => fill_missing(resolved, initial),
                _ => resolved,
            };
            match resolved_item_spec(server_id, Json::Object(merged)) {
                Some(c) => Ok(c),
                None => Err(invalid_resolve_text(server_id)),
            }
        },
        _ => Err(non_object_resolve_text(server_id)),
    }
}

fn read_resolved_item(server_id: &str, merged: &JsonValue) -> (r: Result<LspCompletionItem, LspClientError>)
    ensures
        match (r, resolved_item_spec(server_id@, merged.model())) {
            (Ok(c), Some(m)) => completion_view(c) == m,
            (Err(LspClientError::Protocol(e)), None) => e@ == invalid_resolve_text(server_id@),
            _ => false,
        },
{
    proof {
        reveal(resolved_item_spec);
    }
    match parse_completion_item(server_id, merged) {
        Some(c) => Ok(c),
        None => Err(LspClientError::Protocol(concat3("language server `", server_id, "` returned an invalid completionItem/resolve response"))),
    }
}

fn merge_with_raw_item(item: &LspCompletionItem, resolved: Vec<(String, JsonValue)>) -> (r: Vec<(String, JsonValue)>)
    ensures
        model_members(r@) == match item.raw_item.model() {
            Json::Object(initial) => fill_missing(model_members(resolved@), initial),
            _ => model_members(resolved@),
        },
{
    let mut resolved = resolved;
    match &item.raw_item {
        JsonValue::Object(initial) => fill_missing_members(&mut resolved, initial),
        _ => {},
    }
    resolved
}

pub fn resolved_completion_item(server_id: &str, item: &LspCompletionItem, reply: JsonValue) -> (r: Result<
    LspCompletionItem,
    LspClientError,
>)
    ensures
        match (r, resolve_reply_spec(server_id@, item.raw_item.model(), reply.model())) {
            (Ok(c), Ok(m)) => completion_view(c) == m,
            (Err(LspClientError::Protocol(e)), Err(m)) => e@ == m,
            _ => false,
        },
{
    let ghost reply_model = reply.model();
    match reply {
        JsonValue::Object(members) => {
            proof {
                assert(reply_model == Json::Object(model_members(members@)));
            }
            let merged = JsonValue::Object(merge_with_raw_item(item, members));
            read_resolved_item(server_id, &merged)
        },
        _ => {
            proof {
                assert(!(reply_model is Object));
            }
            Err(LspClientError::Protocol(concat3("language server `", server_id, "` returned a non-object completionItem/resolve response")))
        },
    }
}


/// The protocol number of each completion kind (`CompletionItemKind`).
pub open spec fn completion_kind_number(k: LspCompletionKind) -> u64 {
    match k {
        LspCompletionKind::Text => 1,
        LspCompletionKind::Method => 2,
        LspCompletionKind::Function => 3,
        LspCompletionKind::Constructor => 4,
        LspCompletionKind::Field => 5,
        LspCompletionKind::Variable => 6,
        LspCompletionKind::Class => 7,
        LspCompletionKind::Interface => 8,
        LspCompletionKind::Module => 9,
        LspCompletionKind::Property => 10,
        LspCompletionKind::Unit => 11,
        LspCompletionKind::Value => 12,
        LspCompletionKind::Enum => 13,
        LspCompletionKind::Keyword => 14,
        LspCompletionKind::Snippet => 15,
        LspCompletionKind::Color => 16,
        LspCompletionKind::File => 17,
        LspCompletionKind::Reference => 18,
        LspCompletionKind::Folder => 19,
        LspCompletionKind::EnumMember => 20,
        LspCompletionKind::Constant => 21,
        LspCompletionKind::Struct => 22,
        LspCompletionKind::Event => 23,
        LspCompletionKind::Operator => 24,
        LspCompletionKind::TypeParameter => 25,
    }
}

/// Completion kinds are read by their protocol numbers: exactly the numbers
/// 1 to 25 name a kind, and the kind read for `n` is the one numbered `n`
/// (so every kind is read from its own number and from no other).
pub proof fn law_completion_kinds_follow_protocol_numbers(n: u64, k: LspCompletionKind)
    ensures
        completion_kind_spec(n) is Some <==> 1 <= n <= 25,
        completion_kind_spec(n) matches Some(read) ==> completion_kind_number(read) == n,
        completion_kind_spec(completion_kind_number(k)) == Some(k),
{
}

} // verus!
