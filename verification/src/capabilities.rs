//! The capabilities the client announces in `initialize`.
use vstd::prelude::*;
use crate::json::{Json, JsonValue, model_members, object1, object2, push_member, string_array};

verus! {

/// `{k: true}`-style member.
pub open spec fn flag(k: Seq<char>, b: bool) -> (Seq<char>, Json) {
    (k, Json::Bool(b))
}

/// `["markdown"]`.
pub open spec fn markdown_only() -> Json {
    Json::Array(seq![Json::Str("markdown"@)])
}

pub open spec fn workspace_capabilities_spec() -> Json {
    Json::Object(
        seq![
            ("workspaceEdit"@, Json::Object(seq![flag("documentChanges"@, true)])),
            flag("configuration"@, true),
            flag("workspaceFolders"@, true),
        ],
    )
}

pub open spec fn window_capabilities_spec() -> Json {
    Json::Object(
        seq![
            flag("workDoneProgress"@, true),
            ("showDocument"@, Json::Object(seq![flag("support"@, true)])),
        ],
    )
}

/// The code action kinds the client can show.
pub open spec fn code_action_kinds() -> Seq<Seq<char>> {
    seq![
        "quickfix"@,
        "refactor"@,
        "refactor.extract"@,
        "refactor.inline"@,
        "refactor.rewrite"@,
        "source"@,
        "source.fixAll"@,
        "source.organizeImports"@,
    ]
}

pub open spec fn text_document_capabilities_spec() -> Json {
    Json::Object(
        seq![
            ("hover"@, Json::Object(seq![("contentFormat"@, markdown_only())])),
            (
                "signatureHelp"@,
                Json::Object(
                    seq![
                        (
                            "signatureInformation"@,
                            Json::Object(
                                seq![
                                    ("documentationFormat"@, markdown_only()),
                                    (
                                        "parameterInformation"@,
                                        Json::Object(seq![flag("labelOffsetSupport"@, true)]),
                                    ),
                                    flag("activeParameterSupport"@, true),
                                ],
                            ),
                        ),
                    ],
                ),
            ),
            (
                "completion"@,
                Json::Object(
                    seq![
                        (
                            "completionItem"@,
                            Json::Object(
                                seq![
                                    ("documentationFormat"@, markdown_only()),
                                    (
                                        "resolveSupport"@,
                                        Json::Object(
                                            seq![
                                                (
                                                    "properties"@,
                                                    Json::Array(
                                                        seq![
                                                            Json::Str("documentation"@),
                                                            Json::Str("detail"@),
                                                        ],
                                                    ),
                                                ),
                                            ],
                                        ),
                                    ),
                                    flag("snippetSupport"@, true),
                                ],
                            ),
                        ),
                    ],
                ),
            ),
            ("inlineCompletion"@, Json::Object(seq![flag("dynamicRegistration"@, false)])),
            (
                "codeAction"@,
                Json::Object(
                    seq![
                        flag("dynamicRegistration"@, false),
                        flag("isPreferredSupport"@, true),
                        flag("disabledSupport"@, true),
                        (
                            "codeActionLiteralSupport"@,
                            Json::Object(
                                seq![
                                    (
                                        "codeActionKind"@,
                                        Json::Object(
                                            seq![
                                                (
                                                    "valueSet"@,
                                                    Json::Array(
                                                        code_action_kinds().map_values(|k: Seq<char>| Json::Str(k)),
                                                    ),
                                                ),
                                            ],
                                        ),
                                    ),
                                ],
                            ),
                        ),
                    ],
                ),
            ),
            ("formatting"@, Json::Object(seq![flag("dynamicRegistration"@, false)])),
            ("rangeFormatting"@, Json::Object(seq![flag("dynamicRegistration"@, false)])),
            ("publishDiagnostics"@, Json::Object(seq![flag("relatedInformation"@, false)])),
            ("synchronization"@, Json::Object(seq![flag("didSave"@, true)])),
        ],
    )
}

/// The whole capabilities document.
pub open spec fn client_capabilities_spec() -> Json {
    Json::Object(
        seq![
            ("workspace"@, workspace_capabilities_spec()),
            ("window"@, window_capabilities_spec()),
            ("textDocument"@, text_document_capabilities_spec()),
        ],
    )
}

fn flag_object(k: &str, b: bool) -> (r: JsonValue)
    ensures
        r.model() == Json::Object(seq![flag(k@, b)]),
{
    object1(k, JsonValue::Bool(b))
}

fn markdown_array() -> (r: JsonValue)
    ensures
        r.model() == markdown_only(),
{
    let r = string_array(&["markdown"]);
    proof {
        assert(r.model()->Array_0 =~= seq![Json::Str("markdown"@)]);
    }
    r
}

fn workspace_capabilities() -> (r: JsonValue)
    ensures
        r.model() == workspace_capabilities_spec(),
{
    let mut m: Vec<(String, JsonValue)> = Vec::new();
    push_member(&mut m, "workspaceEdit", flag_object("documentChanges", true));
    push_member(&mut m, "configuration", JsonValue::Bool(true));
    push_member(&mut m, "workspaceFolders", JsonValue::Bool(true));
    proof {
        assert(model_members(Seq::<(String, JsonValue)>::empty()) =~= Seq::empty());
    }
    let r = JsonValue::Object(m);
    proof {
        assert(r.model()->Object_0 =~= workspace_capabilities_spec()->Object_0);
    }
    r
}

fn window_capabilities() -> (r: JsonValue)
    ensures
        r.model() == window_capabilities_spec(),
{
    let r = object2("workDoneProgress", JsonValue::Bool(true), "showDocument", flag_object("support", true));
    r
}

fn signature_help_capabilities() -> (r: JsonValue)
    ensures
        r.model() == text_document_capabilities_spec()->Object_0[1].1,
{
    let mut m: Vec<(String, JsonValue)> = Vec::new();
    push_member(&mut m, "documentationFormat", markdown_array());
    push_member(&mut m, "parameterInformation", flag_object("labelOffsetSupport", true));
    push_member(&mut m, "activeParameterSupport", JsonValue::Bool(true));
    proof {
        assert(model_members(Seq::<(String, JsonValue)>::empty()) =~= Seq::empty());
    }
    let info = JsonValue::Object(m);
    let r = object1("signatureInformation", info);
    proof {
        assert(r.model()->Object_0[0].1->Object_0 =~= text_document_capabilities_spec()->Object_0[1].1->Object_0[0].1->Object_0);
    }
    r
}

fn completion_capabilities() -> (r: JsonValue)
    ensures
        r.model() == text_document_capabilities_spec()->Object_0[2].1,
{
    let properties = string_array(&["documentation", "detail"]);
    proof {
        assert(properties.model()->Array_0 =~= seq![Json::Str("documentation"@), Json::Str("detail"@)]);
    }
    let mut m: Vec<(String, JsonValue)> = Vec::new();
    push_member(&mut m, "documentationFormat", markdown_array());
    push_member(&mut m, "resolveSupport", object1("properties", properties));
    push_member(&mut m, "snippetSupport", JsonValue::Bool(true));
    proof {
        assert(model_members(Seq::<(String, JsonValue)>::empty()) =~= Seq::empty());
    }
    let item = JsonValue::Object(m);
    let r = object1("completionItem", item);
    proof {
        assert(r.model()->Object_0[0].1->Object_0 =~= text_document_capabilities_spec()->Object_0[2].1->Object_0[0].1->Object_0);
    }
    r
}

fn code_action_capabilities() -> (r: JsonValue)
    ensures
        r.model() == text_document_capabilities_spec()->Object_0[4].1,
{
    let kinds = string_array(
        &[
            "quickfix",
            "refactor",
            "refactor.extract",
            "refactor.inline",
            "refactor.rewrite",
            "source",
            "source.fixAll",
            "source.organizeImports",
        ],
    );
    proof {
        assert(kinds.model()->Array_0 =~= code_action_kinds().map_values(|k: Seq<char>| Json::Str(k)));
    }
    let literal = object1("codeActionKind", object1("valueSet", kinds));
    let mut m: Vec<(String, JsonValue)> = Vec::new();
    push_member(&mut m, "dynamicRegistration", JsonValue::Bool(false));
    push_member(&mut m, "isPreferredSupport", JsonValue::Bool(true));
    push_member(&mut m, "disabledSupport", JsonValue::Bool(true));
    push_member(&mut m, "codeActionLiteralSupport", literal);
    proof {
        assert(model_members(Seq::<(String, JsonValue)>::empty()) =~= Seq::empty());
    }
    let r = JsonValue::Object(m);
    proof {
        assert(r.model()->Object_0 =~= text_document_capabilities_spec()->Object_0[4].1->Object_0);
    }
    r
}

fn text_document_capabilities() -> (r: JsonValue)
    ensures
        r.model() == text_document_capabilities_spec(),
{
    let mut m: Vec<(String, JsonValue)> = Vec::new();
    push_member(&mut m, "hover", object1("contentFormat", markdown_array()));
    push_member(&mut m, "signatureHelp", signature_help_capabilities());
    push_member(&mut m, "completion", completion_capabilities());
    push_member(&mut m, "inlineCompletion", flag_object("dynamicRegistration", false));
    push_member(&mut m, "codeAction", code_action_capabilities());
    push_member(&mut m, "formatting", flag_object("dynamicRegistration", false));
    push_member(&mut m, "rangeFormatting", flag_object("dynamicRegistration", false));
    push_member(&mut m, "publishDiagnostics", flag_object("relatedInformation", false));
    push_member(&mut m, "synchronization", flag_object("didSave", true));
    proof {
        assert(model_members(Seq::<(String, JsonValue)>::empty()) =~= Seq::empty());
    }
    let r = JsonValue::Object(m);
    proof {
        assert(r.model()->Object_0 =~= text_document_capabilities_spec()->Object_0);
    }
    r
}

/// The capabilities document sent in `initialize`: workspace edits with
/// document changes, configuration and workspace folders; work-done
/// progress and `showDocument`; markdown hover, signature help and
/// completion documentation; completion resolve of documentation and
/// detail; code action literals of the listed kinds; formatting, range
/// formatting, diagnostics and save notifications.
pub fn client_capabilities() -> (r: JsonValue)
    ensures
        r.model() == client_capabilities_spec(),
{
    let r = object3_of(workspace_capabilities(), window_capabilities(), text_document_capabilities());
    r
}

fn object3_of(workspace: JsonValue, window: JsonValue, text_document: JsonValue) -> (r: JsonValue)
    ensures
        r.model() == Json::Object(
            seq![
                ("workspace"@, workspace.model()),
                ("window"@, window.model()),
                ("textDocument"@, text_document.model()),
            ],
        ),
{
    crate::json::object3("workspace", workspace, "window", window, "textDocument", text_document)
}

} // verus!
