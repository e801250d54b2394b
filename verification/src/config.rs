//! Per-session workspace configuration (section selection, runtime
//! overrides, `workspace/configuration` replies), initialization options,
//! the C# solution-path override and C# metadata, and the replies to
//! server-to-client requests.
use vstd::prelude::*;
use crate::json::{
    object1, object2, string_value,
    Json, JsonValue, NumberModel, first_key_index, get_opt, json_equal, lemma_model_items,
    lemma_model_items_push, lemma_model_members, lemma_model_members_push, member_put,
    member_remove, merge_json_values, merge_spec, model_items, model_members, model_opt,
    put_member, remove_member, str_opt,
};
use crate::logs::LspNotification;
use crate::notify::{
    copilot_server_id, has_prefix, is_copilot_server, notification_opt_model, opt_str,
    show_document_notification, show_document_spec,
};
use crate::logs::NotificationModel;
use crate::strings::{chars_of, owned, starts_with_str, str_eq, trim_spec, trimmed};
use crate::types::{opt_view, LspClientError};

verus! {

/// A configuration section name: trimmed, and absent when blank.
pub open spec fn section_spec(section: Option<Seq<char>>) -> Option<Seq<char>> {
    match section {
        Some(s) => if trim_spec(s).len() > 0 {
            Some(trim_spec(s))
        } else {
            None
        },
        None => None,
    }
}

pub fn normalize_configuration_section(section: Option<&str>) -> (r: Option<String>)
    ensures
        opt_view(r) == section_spec(opt_str(section)),
{
    match section {
        Some(s) => {
            let t = trimmed(s);
            if t.as_str().is_empty() {
                None
            } else {
                Some(t)
            }
        },
        None => None,
    }
}

/// Section of the C# servers' settings.
pub open spec fn csharp_section() -> Seq<char> {
    "csharp"@
}

pub open spec fn is_csharp_server_spec(server_id: Seq<char>) -> bool {
    server_id == "csharp-ls"@ || server_id == "roslyn-language-server"@
}

pub fn is_csharp_server(server_id: &str) -> (r: bool)
    ensures
        r == is_csharp_server_spec(server_id@),
{
    str_eq(server_id, "csharp-ls") || str_eq(server_id, "roslyn-language-server")
}

pub fn is_csharp_metadata_uri(uri: &str) -> (r: bool)
    ensures
        r == has_prefix(uri@, "csharp:/"@),
{
    starts_with_str(uri, "csharp:/")
}

/// The section a session answers configuration requests for: the configured
/// one, or `csharp` for the C# servers.
pub open spec fn session_section_spec(configured: Option<Seq<char>>, server_id: Seq<char>) -> Option<Seq<char>> {
    match section_spec(configured) {
        Some(s) => Some(s),
        None => if is_csharp_server_spec(server_id) {
            Some(csharp_section())
        } else {
            None
        },
    }
}

pub fn workspace_configuration_section_for_session(configured: Option<&str>, server_id: &str) -> (r:
    Option<String>)
    ensures
        opt_view(r) == session_section_spec(opt_str(configured), server_id@),
{
    match normalize_configuration_section(configured) {
        Some(s) => Some(s),
        None => if is_csharp_server(server_id) {
            Some(owned("csharp"))
        } else {
            None
        },
    }
}

/// Settings as a session sees them: when there is a section and the settings
/// are an object, the member named by the section, or the whole object when
/// it has no such member.
pub open spec fn normalized_settings_spec(section: Option<Seq<char>>, settings: Option<Json>) -> Option<Json> {
    match settings {
        None => None,
        Some(v) => match section_spec(section) {
            None => Some(v),
            Some(s) => match v {
                Json::Object(ms) => match first_key_index(ms, s) {
                    Some(i) => Some(ms[i].1),
                    None => Some(Json::Object(ms)),
                },
                _ => Some(v),
            },
        },
    }
}

pub open spec fn json_opt_model(v: Option<JsonValue>) -> Option<Json> {
    match v {
        Some(x) => Some(x.model()),
        None => None,
    }
}

pub fn normalized_workspace_configuration_settings(section: Option<&str>, settings: Option<JsonValue>) -> (r:
    Option<JsonValue>)
    ensures
        json_opt_model(r) == normalized_settings_spec(opt_str(section), json_opt_model(settings)),
{
    let settings = match settings {
        Some(s) => s,
        None => return None,
    };
    let section = match normalize_configuration_section(section) {
        Some(s) => s,
        None => return Some(settings),
    };
    match settings {
        JsonValue::Object(mut members) => {
            let ghost before = model_members(members@);
            match remove_member(&mut members, section.as_str()) {
                Some(v) => {
                    proof {
                        assert(Json::Object(before).get(section@) == Some(v.model()));
                    }
                    Some(v)
                },
                None => {
                    proof {
                        assert(model_members(members@) == before);
                    }
                    Some(JsonValue::Object(members))
                },
            }
        },
        other => Some(other),
    }
}

/// Settings in effect: the base settings with the runtime override merged
/// over them.
pub open spec fn effective_spec(base: Option<Json>, over: Option<Json>) -> Option<Json> {
    match (base, over) {
        (Some(b), Some(o)) => Some(merge_spec(b, o)),
        (Some(b), None) => Some(b),
        (None, Some(o)) => Some(o),
        (None, None) => None,
    }
}

pub fn effective_workspace_configuration_settings(
    base_settings: Option<&JsonValue>,
    runtime_override: Option<&JsonValue>,
) -> (r: Option<JsonValue>)
    ensures
        json_opt_model(r) == effective_spec(model_opt(base_settings), model_opt(runtime_override)),
{
    match (base_settings, runtime_override) {
        (Some(b), Some(o)) => Some(merge_json_values(b, o)),
        (Some(b), None) => Some(b.clone()),
        (None, Some(o)) => Some(o.clone()),
        (None, None) => None,
    }
}

/// Whether the settings are an object with member `key`.
pub open spec fn contains_key_spec(settings: Option<Json>, key: Seq<char>) -> bool {
    match settings {
        Some(Json::Object(ms)) => first_key_index(ms, key) is Some,
        _ => false,
    }
}

pub fn settings_contains_key(settings: Option<&JsonValue>, key: &str) -> (r: bool)
    ensures
        r == contains_key_spec(model_opt(settings), key@),
{
    match settings {
        Some(JsonValue::Object(members)) => {
            proof {
                lemma_model_members(members@);
            }
            crate::json::member_index(members, key).is_some()
        },
        _ => false,
    }
}

/// `{ section: settings }`.
pub fn wrap_workspace_configuration_settings(section: &str, settings: JsonValue) -> (r: JsonValue)
    ensures
        r.model() == Json::Object(seq![(section@, settings.model())]),
{
    let mut members: Vec<(String, JsonValue)> = Vec::new();
    let ghost empty = members@;
    let k = owned(section);
    members.push((k, settings));
    proof {
        lemma_model_members_push(empty, members@[0]);
        assert(empty.push(members@[0]) =~= members@);
        assert(model_members(empty) =~= Seq::empty());
        assert(model_members(members@) =~= seq![(section@, members@[0].1.model())]);
    }
    JsonValue::Object(members)
}

/// Section requested by one `workspace/configuration` item.
pub open spec fn item_section_spec(item: Json) -> Option<Seq<char>> {
    section_spec(Json::str_opt(item.get("section"@)))
}

pub fn configuration_item_section(item: &JsonValue) -> (r: Option<String>)
    ensures
        opt_view(r) == item_section_spec(item.model()),
{
    normalize_configuration_section(str_opt(item.get("section")))
}

/// A session's workspace configuration: its section, the registry's settings
/// and the runtime override, both as seen through the section.
#[derive(Debug)]
pub struct SessionWorkspaceConfiguration {
    pub section: Option<String>,
    pub base_settings: Option<JsonValue>,
    pub runtime_override: Option<JsonValue>,
}

impl SessionWorkspaceConfiguration {
    /// Configuration for a session of `server_id`, whose registry entry names
    /// `configured_section` and `settings`.
    pub fn new(
        configured_section: Option<&str>,
        server_id: &str,
        settings: Option<JsonValue>,
        runtime_override: Option<JsonValue>,
    ) -> (r: Self)
        ensures
            opt_view(r.section) == session_section_spec(opt_str(configured_section), server_id@),
            json_opt_model(r.base_settings) == normalized_settings_spec(
                opt_view(r.section),
                json_opt_model(settings),
            ),
            json_opt_model(r.runtime_override) == normalized_settings_spec(
                opt_view(r.section),
                json_opt_model(runtime_override),
            ),
    {
        let section = workspace_configuration_section_for_session(configured_section, server_id);
        let section_ref = match &section {
            Some(s) => Some(s.as_str()),
            None => None,
        };
        let base_settings = normalized_workspace_configuration_settings(section_ref, settings);
        let runtime_override = normalized_workspace_configuration_settings(
            section_ref,
            runtime_override,
        );
        SessionWorkspaceConfiguration { section, base_settings, runtime_override }
    }

    pub open spec fn effective(&self) -> Option<Json> {
        effective_spec(json_opt_model(self.base_settings), json_opt_model(self.runtime_override))
    }

    pub fn effective_settings(&self) -> (r: Option<JsonValue>)
        ensures
            json_opt_model(r) == self.effective(),
    {
        effective_workspace_configuration_settings(
            match &self.base_settings {
                Some(b) => Some(b),
                None => None,
            },
            match &self.runtime_override {
                Some(o) => Some(o),
                None => None,
            },
        )
    }

    /// Reply to `workspace/configuration`: for each requested item, the
    /// effective settings when the item asks for this session's section (or
    /// for no section when the session has none), `null` otherwise.
    pub open spec fn response_spec(&self, params: Option<Json>) -> Json {
        match Json::array_opt(Json::get_opt(params, "items"@)) {
            None => Json::Array(Seq::empty()),
            Some(items) => Json::Array(
                Seq::new(
                    items.len(),
                    |i: int|
                        if item_section_spec(items[i]) == opt_view(self.section) {
                            match self.effective() {
                                Some(v) => v,
                                None => Json::Null,
                            }
                        } else {
                            Json::Null
                        },
                ),
            ),
        }
    }

    pub fn response_for_request(&self, params: Option<&JsonValue>) -> (r: JsonValue)
        ensures
            r.model() == self.response_spec(model_opt(params)),
    {
        let items = match get_opt(params, "items") {
            Some(v) => match v.as_array() {
                Some(items) => items,
                None => return JsonValue::Array(Vec::new()),
            },
            None => return JsonValue::Array(Vec::new()),
        };
        proof {
            lemma_model_items(items@);
        }
        let ghost expected = self.response_spec(model_opt(params));
        let ghost im = model_items(items@);
        let mut out: Vec<JsonValue> = Vec::new();
        let mut i: usize = 0;
        while i < items.len()
            invariant
                im == model_items(items@),
                im.len() == items@.len(),
                forall|k: int| 0 <= k < items@.len() ==> #[trigger] im[k] == items@[k].model(),
                expected == self.response_spec(model_opt(params)),
                expected == Json::Array(
                    Seq::new(
                        im.len(),
                        |k: int|
                            if item_section_spec(im[k]) == opt_view(self.section) {
                                match self.effective() {
                                    Some(v) => v,
                                    None => Json::Null,
                                }
                            } else {
                                Json::Null
                            },
                    ),
                ),
                i <= items@.len(),
                model_items(out@).len() == i,
                forall|k: int|
                    0 <= k < i ==> #[trigger] model_items(out@)[k] == (if item_section_spec(im[k])
                        == opt_view(self.section) {
                        match self.effective() {
                            Some(v) => v,
                            None => Json::Null,
                        }
                    } else {
                        Json::Null
                    }),
            decreases items@.len() - i,
        {
            let section = configuration_item_section(&items[i]);
            let same = match (&section, &self.section) {
                (Some(a), Some(b)) => str_eq(a.as_str(), b.as_str()),
                (None, None) => true,
                _ => false,
            };
            let v = if same {
                match self.effective_settings() {
                    Some(v) => v,
                    None => JsonValue::Null,
                }
            } else {
                JsonValue::Null
            };
            proof {
                lemma_model_items_push(out@, v);
                lemma_model_items(out@);
            }
            out.push(v);
            i += 1;
        }
        proof {
            lemma_model_items(out@);
            if let Json::Array(exp) = expected {
                assert(model_items(out@) =~= exp);
            }
        }
        JsonValue::Array(out)
    }

    /// Replaces the runtime override; returns whether the effective settings
    /// changed.
    pub fn set_runtime_override(&mut self, runtime_override: Option<JsonValue>) -> (r: bool)
        ensures
            final(self).section == old(self).section,
            final(self).base_settings == old(self).base_settings,
            json_opt_model(final(self).runtime_override) == normalized_settings_spec(
                opt_view(old(self).section),
                json_opt_model(runtime_override),
            ),
            r == (final(self).effective() != old(self).effective()),
    {
        let previous = self.effective_settings();
        let section_ref = match &self.section {
            Some(s) => Some(s.as_str()),
            None => None,
        };
        let normalized = normalized_workspace_configuration_settings(section_ref, runtime_override);
        self.runtime_override = normalized;
        let current = self.effective_settings();
        match (&current, &previous) {
            (Some(a), Some(b)) => !json_equal(a, b),
            (None, None) => false,
            _ => true,
        }
    }

    /// Payload of `workspace/didChangeConfiguration`: the effective settings
    /// wrapped in the section (or bare when there is no section); a `null`
    /// section when asked and there are no settings.
    pub open spec fn payload_spec(&self, include_null_section: bool) -> Option<Json> {
        match opt_view(self.section) {
            Some(s) => match self.effective() {
                Some(v) => Some(Json::Object(seq![(s, v)])),
                None => if include_null_section {
                    Some(Json::Object(seq![(s, Json::Null)]))
                } else {
                    None
                },
            },
            None => self.effective(),
        }
    }

    pub fn did_change_configuration_payload(&self, include_null_section: bool) -> (r: Option<JsonValue>)
        ensures
            json_opt_model(r) == self.payload_spec(include_null_section),
    {
        let effective = self.effective_settings();
        match &self.section {
            Some(section) => match effective {
                Some(settings) => Some(wrap_workspace_configuration_settings(section.as_str(), settings)),
                None => if include_null_section {
                    Some(wrap_workspace_configuration_settings(section.as_str(), JsonValue::Null))
                } else {
                    None
                },
            },
            None => effective,
        }
    }
}

/// Parameters of the `workspace/didChangeConfiguration` notification a
/// runtime override change calls for: `{"settings": payload}` when the
/// effective settings changed and there is a payload to send.
pub open spec fn override_notification_spec(changed: bool, payload: Option<Json>) -> Option<Json> {
    if !changed {
        None
    } else {
        match payload {
            Some(p) => Some(Json::Object(seq![("settings"@, p)])),
            None => None,
        }
    }
}

impl SessionWorkspaceConfiguration {
    /// Replaces the runtime override and returns the parameters of the
    /// configuration notification to send, if any.
    pub fn apply_runtime_override(&mut self, runtime_override: Option<JsonValue>) -> (r: Option<JsonValue>)
        ensures
            final(self).section == old(self).section,
            final(self).base_settings == old(self).base_settings,
            json_opt_model(final(self).runtime_override) == normalized_settings_spec(
                opt_view(old(self).section),
                json_opt_model(runtime_override),
            ),
            json_opt_model(r) == override_notification_spec(
                final(self).effective() != old(self).effective(),
                final(self).payload_spec(true),
            ),
    {
        if !self.set_runtime_override(runtime_override) {
            return None;
        }
        match self.did_change_configuration_payload(true) {
            Some(settings) => Some(wrap_workspace_configuration_settings("settings", settings)),
            None => None,
        }
    }

    /// Parameters of the configuration notification sent once the session
    /// is initialized: the settings in effect, when there are any.
    pub fn initial_notification(&self) -> (r: Option<JsonValue>)
        ensures
            json_opt_model(r) == override_notification_spec(true, self.payload_spec(false)),
    {
        match self.did_change_configuration_payload(false) {
            Some(settings) => Some(wrap_workspace_configuration_settings("settings", settings)),
            None => None,
        }
    }
}

/// Reply to `workspace/configuration` when the session has no
/// configuration: one `null` per requested item.
pub open spec fn null_response_spec(params: Option<Json>) -> Json {
    let n = match Json::array_opt(Json::get_opt(params, "items"@)) {
        Some(items) => items.len(),
        None => 0,
    };
    Json::Array(Seq::new(n, |i: int| Json::Null))
}

pub fn workspace_configuration_null_response(params: Option<&JsonValue>) -> (r: JsonValue)
    ensures
        r.model() == null_response_spec(model_opt(params)),
{
    let n: usize = match get_opt(params, "items") {
        Some(v) => match v.as_array() {
            Some(items) => {
                proof {
                    lemma_model_items(items@);
                }
                items.len()
            },
            None => 0,
        },
        None => 0,
    };
    let mut out: Vec<JsonValue> = Vec::new();
    let mut i: usize = 0;
    while i < n
        invariant
            i <= n,
            model_items(out@) =~= Seq::new(i as nat, |k: int| Json::Null),
        decreases n - i,
    {
        proof {
            lemma_model_items_push(out@, JsonValue::Null);
        }
        out.push(JsonValue::Null);
        i += 1;
    }
    JsonValue::Array(out)
}

/// Version reported to servers in client information.
pub open spec fn editor_version() -> Seq<char> {
    "0.1.0"@
}

/// Initialization options a server receives by default: editor and plugin
/// information for Copilot, metadata URIs for the C# servers, none for
/// others.
pub open spec fn init_base_spec(server_id: Seq<char>) -> Option<Json> {
    if server_id == copilot_server_id() {
        Some(
            Json::Object(
                seq![
                    ("editorInfo"@, Json::Object(seq![("name"@, Json::Str("Volt"@)), ("version"@, Json::Str(editor_version()))])),
                    ("editorPluginInfo"@, Json::Object(seq![("name"@, Json::Str("Volt Copilot"@)), ("version"@, Json::Str(editor_version()))])),
                ],
            ),
        )
    } else if is_csharp_server_spec(server_id) {
        Some(
            Json::Object(
                seq![("experimental"@, Json::Object(seq![("csharp"@, Json::Object(seq![("metadataUris"@, Json::Bool(true))]))]))],
            ),
        )
    } else {
        None
    }
}

/// Initialization options sent to `server_id`: its defaults with the
/// override merged over them.
pub open spec fn init_options_spec(server_id: Seq<char>, over: Option<Json>) -> Option<Json> {
    effective_spec(init_base_spec(server_id), over)
}

fn init_base(server_id: &str) -> (r: Option<JsonValue>)
    ensures
        json_opt_model(r) == init_base_spec(server_id@),
{
    if is_copilot_server(server_id) {
        let editor = object2("name", string_value("Volt"), "version", string_value("0.1.0"));
        let plugin = object2("name", string_value("Volt Copilot"), "version", string_value("0.1.0"));
        Some(object2("editorInfo", editor, "editorPluginInfo", plugin))
    } else if is_csharp_server(server_id) {
        let inner = object1("metadataUris", JsonValue::Bool(true));
        let csharp = object1("csharp", inner);
        Some(object1("experimental", csharp))
    } else {
        None
    }
}

pub fn initialization_options_for_server(server_id: &str, override_value: Option<&JsonValue>) -> (r:
    Option<JsonValue>)
    ensures
        json_opt_model(r) == init_options_spec(server_id@, model_opt(override_value)),
{
    let base = init_base(server_id);
    effective_workspace_configuration_settings(
        match &base {
            Some(b) => Some(b),
            None => None,
        },
        override_value,
    )
}

/// Settings with the C# solution path override set.
pub open spec fn with_solution_override_spec(current: Option<Json>, path: Seq<char>) -> Option<Json> {
    let ov = Json::Object(seq![("solutionPathOverride"@, Json::Str(path))]);
    match normalized_settings_spec(Some(csharp_section()), current) {
        Some(c) => Some(merge_spec(c, ov)),
        None => Some(ov),
    }
}

pub fn with_csharp_solution_path_override(current: Option<JsonValue>, solution_path: &str) -> (r: Option<
    JsonValue,
>)
    ensures
        json_opt_model(r) == with_solution_override_spec(json_opt_model(current), solution_path@),
{
    let ov = object1("solutionPathOverride", string_value(solution_path));
    match normalized_workspace_configuration_settings(Some("csharp"), current) {
        Some(c) => Some(merge_json_values(&c, &ov)),
        None => Some(ov),
    }
}

/// Settings with the C# solution path override removed; absent when nothing
/// else is left.
pub open spec fn without_solution_override_spec(current: Option<Json>) -> Option<Json> {
    match normalized_settings_spec(Some(csharp_section()), current) {
        None => None,
        Some(Json::Object(ms)) => {
            let rest = member_remove(ms, "solutionPathOverride"@);
            if rest.len() > 0 {
                Some(Json::Object(rest))
            } else {
                None
            }
        },
        Some(c) => Some(c),
    }
}

pub fn without_csharp_solution_path_override(current: Option<JsonValue>) -> (r: Option<JsonValue>)
    ensures
        json_opt_model(r) == without_solution_override_spec(json_opt_model(current)),
{
    let current = match normalized_workspace_configuration_settings(Some("csharp"), current) {
        Some(c) => c,
        None => return None,
    };
    match current {
        JsonValue::Object(mut members) => {
            let _ = remove_member(&mut members, "solutionPathOverride");
            proof {
                lemma_model_members(members@);
            }
            if members.len() > 0 {
                Some(JsonValue::Object(members))
            } else {
                None
            }
        },
        other => Some(other),
    }
}

/// Parameters of a `csharp/metadata` request.
pub fn csharp_metadata_request_params(uri: &str) -> (r: JsonValue)
    ensures
        r.model() == Json::Object(seq![("textDocument"@, Json::Object(seq![("uri"@, Json::Str(uri@))]))]),
{
    object1("textDocument", object1("uri", string_value(uri)))
}

/// Decoded `csharp/metadata` reply: nothing for `null`; a bare string is the
/// source of `uri`; an object gains `uri` when it lacks one and `source`
/// (copied from `text`) when it lacks one; anything else is a protocol
/// error.
pub open spec fn metadata_spec(uri: Seq<char>, value: Json) -> Option<Option<Json>> {
    match value {
        Json::Null => Some(None),
        Json::Str(s) => Some(Some(Json::Object(seq![("source"@, Json::Str(s)), ("uri"@, Json::Str(uri))]))),
        Json::Object(ms) => {
            let with_uri = if first_key_index(ms, "uri"@) is Some {
                ms
            } else {
                member_put(ms, "uri"@, Json::Str(uri))
            };
            let with_source = if first_key_index(with_uri, "source"@) is None && first_key_index(
                with_uri,
                "text"@,
            ) is Some {
                member_put(with_uri, "source"@, with_uri[first_key_index(with_uri, "text"@)->0].1)
            } else {
                with_uri
            };
            Some(Some(Json::Object(with_source)))
        },
        _ => None,
    }
}

pub fn parse_csharp_metadata_response(uri: &str, value: &JsonValue) -> (r: Result<Option<JsonValue>, LspClientError>)
    ensures
        match metadata_spec(uri@, value.model()) {
            Some(expected) => r matches Ok(v) && json_opt_model(v) == expected,
            None => r matches Err(LspClientError::Protocol(m)) && m@
                == "failed to decode csharp metadata response: expected an object"@,
        },
{
    match value {
        JsonValue::Null => Ok(None),
        JsonValue::String(s) => Ok(Some(object2("source", string_value(s.as_str()), "uri", string_value(uri)))),
        JsonValue::Object(_) => {
            let copy = value.clone();
            let mut members = match copy {
                JsonValue::Object(m) => m,
                _ => Vec::new(),
            };
            proof {
                lemma_model_members(members@);
            }
            if crate::json::member_index(&members, "uri").is_none() {
                put_member(&mut members, "uri", string_value(uri));
            }
            if crate::json::member_index(&members, "source").is_none() {
                match crate::json::member_index(&members, "text") {
                    Some(i) => {
                        proof {
                            lemma_model_members(members@);
                        }
                        let text = members[i].1.clone();
                        put_member(&mut members, "source", text);
                    },
                    None => {},
                }
            }
            Ok(Some(JsonValue::Object(members)))
        },
        _ => Err(LspClientError::Protocol(owned("failed to decode csharp metadata response: expected an object"))),
    }
}

/// The reply to a server-to-client request and the notification it raises.
#[derive(Debug)]
pub struct ServerRequestHandling {
    pub result: JsonValue,
    pub notification: Option<LspNotification>,
}

/// The client's reply to a server request: configuration for
/// `workspace/configuration`, no folders, the first offered action of a
/// message request, success only for Copilot browser requests, and `null`
/// otherwise.
pub open spec fn request_result_spec(
    method: Option<Seq<char>>,
    params: Option<Json>,
    workspace_configuration: Option<SessionWorkspaceConfiguration>,
) -> Json {
    match method {
        Some(m) => if m == "workspace/configuration"@ {
            match workspace_configuration {
                Some(c) => c.response_spec(params),
                None => null_response_spec(params),
            }
        } else if m == "workspace/workspaceFolders"@ {
            Json::Array(Seq::empty())
        } else if m == "window/showMessageRequest"@ {
            match Json::array_opt(Json::get_opt(params, "actions"@)) {
                Some(actions) => if actions.len() > 0 {
                    actions[0]
                } else {
                    Json::Null
                },
                None => Json::Null,
            }
        } else if m == "window/showDocument"@ {
            Json::Object(seq![("success"@, Json::Bool(false))])
        } else {
            Json::Null
        },
        None => Json::Null,
    }
}

pub open spec fn request_notification_spec(
    server_id: Seq<char>,
    root: Option<Seq<char>>,
    method: Option<Seq<char>>,
    params: Option<Json>,
) -> Option<NotificationModel> {
    if method == Some("window/showDocument"@) {
        show_document_spec(server_id, root, params)
    } else {
        None
    }
}

pub fn server_request_response(
    server_id: &str,
    root: Option<&str>,
    method: Option<&JsonValue>,
    params: Option<&JsonValue>,
    workspace_configuration: Option<&SessionWorkspaceConfiguration>,
) -> (r: ServerRequestHandling)
    ensures
        notification_opt_model(r.notification) == request_notification_spec(
            server_id@,
            opt_str(root),
            crate::json::Json::str_opt(model_opt(method)),
            model_opt(params),
        ),
        r.notification is Some ==> r.result.model() == Json::Object(seq![("success"@, Json::Bool(true))]),
        r.notification is None ==> r.result.model() == request_result_spec(
            crate::json::Json::str_opt(model_opt(method)),
            model_opt(params),
            match workspace_configuration {
                Some(c) => Some(*c),
                None => None,
            },
        ),
{
    let name = str_opt(method);
    let is_show_document = match name {
        Some(m) => str_eq(m, "window/showDocument"),
        None => false,
    };
    let notification = if is_show_document {
        show_document_notification(server_id, root, params)
    } else {
        None
    };
    if notification.is_some() {
        return ServerRequestHandling {
            result: object1("success", JsonValue::Bool(true)),
            notification,
        };
    }
    let result = match name {
        Some(m) => if str_eq(m, "workspace/configuration") {
            match workspace_configuration {
                Some(c) => c.response_for_request(params),
                None => workspace_configuration_null_response(params),
            }
        } else if str_eq(m, "workspace/workspaceFolders") {
            JsonValue::Array(Vec::new())
        } else if str_eq(m, "window/showMessageRequest") {
            match get_opt(params, "actions") {
                Some(v) => match v.as_array() {
                    Some(actions) => {
                        proof {
                            lemma_model_items(actions@);
                        }
                        if actions.len() > 0 {
                            actions[0].clone()
                        } else {
                            JsonValue::Null
                        }
                    },
                    None => JsonValue::Null,
                },
                None => JsonValue::Null,
            }
        } else if is_show_document {
            object1("success", JsonValue::Bool(false))
        } else {
            JsonValue::Null
        },
        None => JsonValue::Null,
    };
    ServerRequestHandling { result, notification }
}

} // verus!
