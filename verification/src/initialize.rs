//! The `initialize` request: the client's capabilities as the protocol types
//! read them, the workspace folder, and the request's parameters.
use vstd::prelude::*;
use crate::json::{Json, JsonValue, JsonNumber, model_members, model_items, push_member};
use crate::strings::{owned, string_of};
use crate::paths::{PathStyle, components, is_sep, path_components};
use crate::params::{num, path_to_uri, path_uri_spec, uri_fits};
use crate::types::LspClientError;
use crate::notify::opt_str;
use crate::decode::{dedup_json, dedup_spec};

verus! {

/// What `lsp_types::ClientCapabilities` makes of a JSON value, written back
/// as JSON, or the error's text (a number whose text does not read as a JSON
/// number gives its own error).
pub uninterp spec fn client_capabilities_decode(j: Json) -> Result<Json, Seq<char>>;

#[verifier::external_body]
fn client_capabilities_normalized(value: &JsonValue) -> (r: Result<JsonValue, String>)
    ensures
        crate::decode::outcome_model(r) == client_capabilities_decode(value.model()),
{
    let v = crate::decode::serde_of_json(value)?;
    match serde_json::from_value::<lsp_types::ClientCapabilities>(v) {
        Ok(t) => serde_json::to_value(t).map(|v| crate::decode::json_of_serde(&v)).map_err(|e| e.to_string()),
        Err(e) => Err(e.to_string()),
    }
}

/// The capabilities the client announces, as `lsp-types` reads and writes
/// them, or the error.
pub open spec fn announced_capabilities_spec() -> Result<Json, Seq<char>> {
    match client_capabilities_decode(dedup_spec(crate::capabilities::client_capabilities_spec())) {
        Ok(c) => Ok(c),
        Err(e) => Err("failed to build LSP client capabilities: "@ + e),
    }
}

pub fn announced_client_capabilities() -> (r: Result<JsonValue, LspClientError>)
    ensures
        match (r, announced_capabilities_spec()) {
            (Ok(v), Ok(m)) => v.model() == m,
            (Err(LspClientError::Protocol(t)), Err(e)) => t@ == e,
            _ => false,
        },
{
    let caps = dedup_json(&crate::capabilities::client_capabilities());
    match client_capabilities_normalized(&caps) {
        Ok(v) => Ok(v),
        Err(e) => {
            let mut m = owned("failed to build LSP client capabilities: ");
            m.append(e.as_str());
            Err(LspClientError::Protocol(m))
        },
    }
}

/// The name of a workspace folder: the root's last component, as
/// `Path::file_name` gives it, else `workspace`. There is none for a root
/// that ends in `..` or `.`, is a root or a bare drive (`C:`), or is a share
/// (`\\server\share`) on Windows.
pub open spec fn folder_name_spec(root: Seq<char>, style: PathStyle) -> Seq<char> {
    let cs = components(root, style);
    if cs.len() == 0 || cs.last() == ".."@ || cs.last() == "."@ || (style == PathStyle::Windows && cs.len() == 1
        && crate::windows::is_bare_drive(cs[0])) || (style == PathStyle::Windows && root.len() >= 2 && is_sep(
        root[0],
        style,
    ) && is_sep(root[1], style) && cs.len() <= 2) {
        "workspace"@
    } else {
        cs.last()
    }
}

pub fn workspace_folder_name(root: &str, style: PathStyle) -> (r: String)
    ensures
        r@ == folder_name_spec(root@, style),
{
    proof {
        reveal_strlit("workspace");
        reveal_strlit("..");
        reveal_strlit(".");
    }
    let (_, comps) = path_components(root, style);
    let ghost cs = components(root@, style);
    proof {
        assert(comps@.len() == cs.len());
    }
    if comps.len() == 0 {
        return owned("workspace");
    }
    let last = &comps[comps.len() - 1];
    proof {
        assert(last@ == cs.last());
    }
    let dots = (last.len() == 2 && last[0] == '.' && last[1] == '.') || (last.len() == 1 && last[0] == '.');
    proof {
        if last@.len() == 2 && last@[0] == '.' && last@[1] == '.' {
            assert(last@ =~= ".."@);
        }
        if last@.len() == 1 && last@[0] == '.' {
            assert(last@ =~= "."@);
        }
        assert(dots == (cs.last() == ".."@ || cs.last() == "."@));
    }
    let windows = match style {
        PathStyle::Windows => true,
        PathStyle::Posix => false,
    };
    let first = &comps[0];
    proof {
        assert(first@ == cs[0]);
    }
    let drive = windows && comps.len() == 1 && first.len() == 2 && first[1] == ':' && (('a' <= first[0]
        && first[0] <= 'z') || ('A' <= first[0] && first[0] <= 'Z'));
    let rc = crate::strings::chars_of(root);
    let share = windows && rc.len() >= 2 && (rc[0] == '/' || rc[0] == '\\') && (rc[1] == '/' || rc[1] == '\\')
        && comps.len() <= 2;
    if dots || drive || share {
        owned("workspace")
    } else {
        string_of(last.as_slice())
    }
}

/// The `initialize` parameters, members in key order: the capabilities, the
/// client's name, the initialization options when there are any, the
/// process id, a `null` root URI, tracing off, the progress token, and the
/// root as the one workspace folder when there is a root; or the error of a
/// root whose URI does not parse.
pub open spec fn initialize_params_spec(
    root: Option<Seq<char>>,
    process_id: u32,
    options: Option<Json>,
    capabilities: Json,
    token: Seq<char>,
    style: PathStyle,
) -> Result<Json, Seq<char>> {
    let head = seq![
        ("capabilities"@, capabilities),
        ("clientInfo"@, Json::Object(seq![("name"@, Json::Str("volt"@))])),
    ];
    let with_options = match options {
        Some(o) => head.push(("initializationOptions"@, o)),
        None => head,
    };
    let body = with_options + seq![
        ("processId"@, num(process_id as u64)),
        ("rootUri"@, Json::Null),
        ("trace"@, Json::Str("off"@)),
        ("workDoneToken"@, Json::Str(token)),
    ];
    match root {
        None => Ok(Json::Object(body)),
        Some(r) => match path_uri_spec(r) {
            Err(e) => Err(e),
            Ok(uri) => Ok(
                Json::Object(
                    body.push(
                        (
                            "workspaceFolders"@,
                            Json::Array(
                                seq![
                                    Json::Object(
                                        seq![("name"@, Json::Str(folder_name_spec(r, style))), ("uri"@, Json::Str(uri))],
                                    ),
                                ],
                            ),
                        ),
                    ),
                ),
            ),
        },
    }
}

pub fn initialize_params(
    root: Option<&str>,
    process_id: u32,
    options: Option<JsonValue>,
    capabilities: JsonValue,
    token: &str,
    style: PathStyle,
) -> (r: Result<JsonValue, LspClientError>)
    requires
        root matches Some(p) ==> uri_fits(p@),
    ensures
        match (r, initialize_params_spec(
            opt_str(root),
            process_id,
            match options {
                Some(o) => Some(o.model()),
                None => None,
            },
            capabilities.model(),
            token@,
            style,
        )) {
            (Ok(v), Ok(m)) => v.model() == m,
            (Err(LspClientError::Protocol(t)), Err(e)) => t@ == e,
            _ => false,
        },
{
    let folder = match root {
        Some(p) => match path_to_uri(p) {
            Ok(uri) => Some((uri, workspace_folder_name(p, style))),
            Err(e) => return Err(e),
        },
        None => None,
    };
    let ghost om = match &options {
        Some(o) => Some(o.model()),
        None => None::<Json>,
    };
    let ghost cm = capabilities.model();
    let ghost head = seq![
        ("capabilities"@, cm),
        ("clientInfo"@, Json::Object(seq![("name"@, Json::Str("volt"@))])),
    ];
    let ghost with_options = match om {
        Some(o) => head.push(("initializationOptions"@, o)),
        None => head,
    };
    let ghost body = with_options + seq![
        ("processId"@, num(process_id as u64)),
        ("rootUri"@, Json::Null),
        ("trace"@, Json::Str("off"@)),
        ("workDoneToken"@, Json::Str(token@)),
    ];
    let mut members: Vec<(String, JsonValue)> = Vec::new();
    let ghost m0 = model_members(members@);
    proof {
        assert(m0 =~= Seq::empty());
    }
    push_member(&mut members, "capabilities", capabilities);
    push_member(&mut members, "clientInfo", crate::json::object1("name", JsonValue::String(owned("volt"))));
    match options {
        Some(o) => push_member(&mut members, "initializationOptions", o),
        None => {},
    }
    push_member(&mut members, "processId", JsonValue::Number(JsonNumber::PosInt(process_id as u64)));
    push_member(&mut members, "rootUri", JsonValue::Null);
    push_member(&mut members, "trace", JsonValue::String(owned("off")));
    push_member(&mut members, "workDoneToken", JsonValue::String(owned(token)));
    proof {
        assert(model_members(members@) =~= body);
    }
    match folder {
        Some((uri, name)) => {
            let entry = crate::json::object2("name", JsonValue::String(name), "uri", JsonValue::String(uri));
            let mut items: Vec<JsonValue> = Vec::new();
            crate::json::push_item(&mut items, entry);
            proof {
                assert(model_items(items@) =~= seq![model_items(items@)[0]]);
            }
            push_member(&mut members, "workspaceFolders", JsonValue::Array(items));
        },
        None => {},
    }
    Ok(JsonValue::Object(members))
}

} // verus!
