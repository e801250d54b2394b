//! What the client does with each message a server sends: answer server
//! requests, resolve pending requests, record published diagnostics, and
//! turn progress, message and status notifications into user
//! notifications.
use vstd::prelude::*;
use crate::json::{JsonValue, Json, model_opt, model_members, lemma_model_members};
use crate::strings::{owned, str_eq};
use crate::types::Diagnostic;
use crate::logs::{LspNotification, NotificationModel};
use crate::notify::{
    ProgressTracks, TracksModel, tokens_unique, progress_step, window_message_spec, copilot_status_spec,
    notification_opt_model, opt_str, parse_progress_notification, parse_window_message_notification,
    parse_copilot_status_notification,
};
use crate::config::{SessionWorkspaceConfiguration, server_request_response, request_result_spec, request_notification_spec};
use crate::parse::{publish_spec, diagnostic_views, parse_publish_diagnostics_in_style};
use crate::paths::PathStyle;

verus! {

/// What to do with one message from a server.
#[derive(Debug)]
pub enum IncomingMessage {
    /// Nothing (not an object, or nothing the client handles).
    Ignore,
    /// A server request: send `response`, and show `notification` if any.
    ServerRequest { response: JsonValue, notification: Option<LspNotification> },
    /// The response to request `id`: its error if it carries one, else its
    /// result (`null` when absent).
    Response { id: u64, error: Option<JsonValue>, result: JsonValue },
    /// Diagnostics published for a document.
    Diagnostics { path: String, diagnostics: Vec<Diagnostic> },
    /// A notification for the user.
    Notification(LspNotification),
}

/// An incoming message as a model.
pub enum IncomingModel {
    Ignore,
    ServerRequest { response: Json, notification: Option<NotificationModel> },
    Response { id: u64, error: Option<Json>, result: Json },
    Diagnostics {
        path: Seq<char>,
        diagnostics: Seq<(Seq<char>, Seq<char>, crate::types::DiagnosticSeverity, crate::text::TextRange)>,
    },
    Notification(NotificationModel),
}

pub open spec fn incoming_model(m: IncomingMessage) -> IncomingModel {
    match m {
        IncomingMessage::Ignore => IncomingModel::Ignore,
        IncomingMessage::ServerRequest { response, notification } => IncomingModel::ServerRequest {
            response: response.model(),
            notification: notification_opt_model(notification),
        },
        IncomingMessage::Response { id, error, result } => IncomingModel::Response {
            id,
            error: match error {
                Some(e) => Some(e.model()),
                None => None,
            },
            result: result.model(),
        },
        IncomingMessage::Diagnostics { path, diagnostics } => IncomingModel::Diagnostics {
            path: path@,
            diagnostics: diagnostic_views(diagnostics@),
        },
        IncomingMessage::Notification(n) => IncomingModel::Notification(n.model()),
    }
}

/// The reply to a server request: `{ jsonrpc: "2.0", id, result }`, the id
/// being `null` when absent.
pub open spec fn reply_spec(id: Option<Json>, result: Json) -> Json {
    Json::Object(
        seq![
            ("jsonrpc"@, Json::Str("2.0"@)),
            ("id"@, match id {
                Some(i) => i,
                None => Json::Null,
            }),
            ("result"@, result),
        ],
    )
}

/// The result of a server request as the client answers it.
#[verifier::opaque]
pub open spec fn request_reply_spec(
    server_id: Seq<char>,
    root: Option<Seq<char>>,
    msg: Json,
    configuration: Option<SessionWorkspaceConfiguration>,
) -> (Json, Option<NotificationModel>) {
    let method = Json::str_opt(msg.get("method"@));
    let params = msg.get("params"@);
    let notification = request_notification_spec(server_id, root, method, params);
    let result = if notification is Some {
        Json::Object(seq![("success"@, Json::Bool(true))])
    } else {
        request_result_spec(method, params, configuration)
    };
    (reply_spec(msg.get("id"@), result), notification)
}

/// Published diagnostics for a file URI.
#[verifier::opaque]
pub open spec fn diagnostics_case(p: Json, style: PathStyle) -> IncomingModel {
    match publish_spec(p, style) {
        Some((path, ds)) => IncomingModel::Diagnostics { path, diagnostics: ds },
        None => IncomingModel::Ignore,
    }
}

/// A progress notification, which also moves the progress tracks.
#[verifier::opaque]
pub open spec fn progress_case(server_id: Seq<char>, root: Option<Seq<char>>, p: Json, tracks: TracksModel) -> (
    IncomingModel,
    TracksModel,
) {
    let (n, t) = progress_step(server_id, root, p, tracks);
    match n {
        Some(x) => (IncomingModel::Notification(x), t),
        None => (IncomingModel::Ignore, t),
    }
}

/// A `window/showMessage` (or `window/logMessage`) notification.
#[verifier::opaque]
pub open spec fn window_case(method: Seq<char>, server_id: Seq<char>, root: Option<Seq<char>>, p: Json) -> IncomingModel {
    match window_message_spec(method, server_id, root, p) {
        Some(x) => IncomingModel::Notification(x),
        None => IncomingModel::Ignore,
    }
}

/// A Copilot status notification.
#[verifier::opaque]
pub open spec fn status_case(server_id: Seq<char>, root: Option<Seq<char>>, p: Json) -> IncomingModel {
    match copilot_status_spec(server_id, root, p) {
        Some(x) => IncomingModel::Notification(x),
        None => IncomingModel::Ignore,
    }
}

/// A notification from the server: published diagnostics (for a file URI),
/// progress, `window/showMessage` and Copilot status become something to
/// record; progress also moves the progress tracks.
#[verifier::opaque]
pub open spec fn notification_spec(
    server_id: Seq<char>,
    root: Option<Seq<char>>,
    method: Seq<char>,
    params: Option<Json>,
    tracks: TracksModel,
    style: PathStyle,
) -> (IncomingModel, TracksModel) {
    match params {
        None => (IncomingModel::Ignore, tracks),
        Some(p) => if method == "textDocument/publishDiagnostics"@ {
            (diagnostics_case(p, style), tracks)
        } else if method == "$/progress"@ {
            progress_case(server_id, root, p, tracks)
        } else if method == "window/showMessage"@ || method == "window/logMessage"@ {
            (window_case(method, server_id, root, p), tracks)
        } else if method == "didChangeStatus"@ {
            (status_case(server_id, root, p), tracks)
        } else {
            (IncomingModel::Ignore, tracks)
        },
    }
}

/// The handling of one message: objects with both `method` and `id` are
/// server requests; objects with an unsigned `id` are responses; objects
/// with a string `method` are notifications; anything else is ignored.
pub open spec fn incoming_spec(
    server_id: Seq<char>,
    root: Option<Seq<char>>,
    msg: Json,
    configuration: Option<SessionWorkspaceConfiguration>,
    tracks: TracksModel,
    style: PathStyle,
) -> (IncomingModel, TracksModel) {
    if !(msg is Object) {
        (IncomingModel::Ignore, tracks)
    } else if msg.get("method"@) is Some && msg.get("id"@) is Some {
        let (response, notification) = request_reply_spec(server_id, root, msg, configuration);
        (IncomingModel::ServerRequest { response, notification }, tracks)
    } else if Json::u64_opt(msg.get("id"@)) is Some {
        (
            IncomingModel::Response {
                id: Json::u64_opt(msg.get("id"@))->0,
                error: msg.get("error"@),
                result: match msg.get("result"@) {
                    Some(r) => r,
                    None => Json::Null,
                },
            },
            tracks,
        )
    } else {
        match Json::str_opt(msg.get("method"@)) {
            Some(method) => notification_spec(server_id, root, method, msg.get("params"@), tracks, style),
            None => (IncomingModel::Ignore, tracks),
        }
    }
}

fn clone_opt(v: Option<&JsonValue>) -> (r: Option<JsonValue>)
    ensures
        match r {
            Some(x) => model_opt(v) == Some(x.model()),
            None => v is None,
        },
{
    match v {
        Some(x) => Some(x.clone()),
        None => None,
    }
}

fn reply_message(id: Option<&JsonValue>, result: JsonValue) -> (r: JsonValue)
    ensures
        r.model() == reply_spec(model_opt(id), result.model()),
{
    let id_value = match id {
        Some(i) => i.clone(),
        None => JsonValue::Null,
    };
    let version = JsonValue::String(owned("2.0"));
    proof {
        assert(version.model() == Json::Str("2.0"@));
        assert(id_value.model() == match model_opt(id) {
            Some(i) => i,
            None => Json::Null,
        });
    }
    let ghost rm = result.model();
    let r = crate::json::object3("jsonrpc", version, "id", id_value, "result", result);
    proof {
        assert(r.model()->Object_0 =~= reply_spec(model_opt(id), rm)->Object_0);
    }
    r
}

fn diagnostics_message(params: &JsonValue, style: PathStyle) -> (r: IncomingMessage)
    ensures
        incoming_model(r) == diagnostics_case(params.model(), style),
{
    proof {
        reveal(diagnostics_case);
    }
    match parse_publish_diagnostics_in_style(params, style) {
        Some((path, diagnostics)) => IncomingMessage::Diagnostics { path, diagnostics },
        None => IncomingMessage::Ignore,
    }
}

fn progress_message(server_id: &str, root: Option<&str>, params: &JsonValue, progress_tracks: &mut ProgressTracks) -> (r:
    IncomingMessage)
    requires
        tokens_unique(old(progress_tracks).model()),
    ensures
        tokens_unique(final(progress_tracks).model()),
        (incoming_model(r), final(progress_tracks).model()) == progress_case(
            server_id@,
            opt_str(root),
            params.model(),
            old(progress_tracks).model(),
        ),
{
    proof {
        reveal(progress_case);
    }
    match parse_progress_notification(server_id, root, params, progress_tracks) {
        Some(n) => IncomingMessage::Notification(n),
        None => IncomingMessage::Ignore,
    }
}

fn window_message(method: &str, server_id: &str, root: Option<&str>, params: &JsonValue) -> (r: IncomingMessage)
    ensures
        incoming_model(r) == window_case(method@, server_id@, opt_str(root), params.model()),
{
    proof {
        reveal(window_case);
    }
    match parse_window_message_notification(method, server_id, root, params) {
        Some(n) => IncomingMessage::Notification(n),
        None => IncomingMessage::Ignore,
    }
}

fn status_message(server_id: &str, root: Option<&str>, params: &JsonValue) -> (r: IncomingMessage)
    ensures
        incoming_model(r) == status_case(server_id@, opt_str(root), params.model()),
{
    proof {
        reveal(status_case);
    }
    match parse_copilot_status_notification(server_id, root, params) {
        Some(n) => IncomingMessage::Notification(n),
        None => IncomingMessage::Ignore,
    }
}

fn handle_notification(
    server_id: &str,
    root: Option<&str>,
    method: &str,
    params: Option<&JsonValue>,
    progress_tracks: &mut ProgressTracks,
    style: PathStyle,
) -> (r: IncomingMessage)
    requires
        tokens_unique(old(progress_tracks).model()),
    ensures
        tokens_unique(final(progress_tracks).model()),
        (incoming_model(r), final(progress_tracks).model()) == notification_spec(
            server_id@,
            opt_str(root),
            method@,
            model_opt(params),
            old(progress_tracks).model(),
            style,
        ),
{
    proof {
        reveal(notification_spec);
    }
    let params = match params {
        Some(p) => p,
        None => return IncomingMessage::Ignore,
    };
    if str_eq(method, "textDocument/publishDiagnostics") {
        return diagnostics_message(params, style);
    }
    if str_eq(method, "$/progress") {
        return progress_message(server_id, root, params, progress_tracks);
    }
    if str_eq(method, "window/showMessage") || str_eq(method, "window/logMessage") {
        return window_message(method, server_id, root, params);
    }
    if str_eq(method, "didChangeStatus") {
        return status_message(server_id, root, params);
    }
    IncomingMessage::Ignore
}

fn server_request_reply(
    server_id: &str,
    root: Option<&str>,
    message: &JsonValue,
    workspace_configuration: Option<&SessionWorkspaceConfiguration>,
) -> (r: (JsonValue, Option<LspNotification>))
    ensures
        (r.0.model(), notification_opt_model(r.1)) == request_reply_spec(
            server_id@,
            opt_str(root),
            message.model(),
            match workspace_configuration {
                Some(c) => Some(*c),
                None => None,
            },
        ),
{
    let handling = server_request_response(
        server_id,
        root,
        message.get("method"),
        message.get("params"),
        workspace_configuration,
    );
    let ghost n = notification_opt_model(handling.notification);
    let response = reply_message(message.get("id"), handling.result);
    proof {
        reveal(request_reply_spec);
    }
    (response, handling.notification)
}

fn response_message(id: u64, message: &JsonValue) -> (r: IncomingMessage)
    ensures
        incoming_model(r) == (IncomingModel::Response {
            id,
            error: message.model().get("error"@),
            result: match message.model().get("result"@) {
                Some(r) => r,
                None => Json::Null,
            },
        }),
{
    let error = clone_opt(message.get("error"));
    let result = match message.get("result") {
        Some(r) => r.clone(),
        None => JsonValue::Null,
    };
    IncomingMessage::Response { id, error, result }
}

/// Decides what to do with one message read from a server's transport.
pub fn handle_incoming_message(
    server_id: &str,
    root: Option<&str>,
    message: &JsonValue,
    workspace_configuration: Option<&SessionWorkspaceConfiguration>,
    progress_tracks: &mut ProgressTracks,
    style: PathStyle,
) -> (r: IncomingMessage)
    requires
        tokens_unique(old(progress_tracks).model()),
    ensures
        tokens_unique(final(progress_tracks).model()),
        (incoming_model(r), final(progress_tracks).model()) == incoming_spec(
            server_id@,
            opt_str(root),
            message.model(),
            match workspace_configuration {
                Some(c) => Some(*c),
                None => None,
            },
            old(progress_tracks).model(),
            style,
        ),
{
    if message.as_object().is_none() {
        return IncomingMessage::Ignore;
    }
    let method = message.get("method");
    let id = message.get("id");
    if method.is_some() && id.is_some() {
        let (response, notification) = server_request_reply(server_id, root, message, workspace_configuration);
        return IncomingMessage::ServerRequest { response, notification };
    }
    match crate::json::u64_opt(id) {
        Some(n) => {
            return response_message(n, message);
        },
        None => {},
    }
    match crate::json::str_opt(method) {
        Some(m) => handle_notification(server_id, root, m, message.get("params"), progress_tracks, style),
        None => IncomingMessage::Ignore,
    }
}


/// Published diagnostics are recorded: a `textDocument/publishDiagnostics`
/// notification (an object with that method and no `id`) whose parameters
/// read as the diagnostics of a document yields exactly that document's path
/// and those diagnostics, and leaves the progress tracks alone.
pub proof fn law_published_diagnostics_are_recorded(
    server_id: Seq<char>,
    root: Option<Seq<char>>,
    msg: Json,
    configuration: Option<SessionWorkspaceConfiguration>,
    tracks: TracksModel,
    style: PathStyle,
    params: Json,
    path: Seq<char>,
    diagnostics: Seq<(Seq<char>, Seq<char>, crate::types::DiagnosticSeverity, crate::text::TextRange)>,
)
    requires
        msg is Object,
        msg.get("id"@) is None,
        Json::str_opt(msg.get("method"@)) == Some("textDocument/publishDiagnostics"@),
        msg.get("params"@) == Some(params),
        publish_spec(params, style) == Some((path, diagnostics)),
    ensures
        incoming_spec(server_id, root, msg, configuration, tracks, style) == (
            IncomingModel::Diagnostics { path, diagnostics },
            tracks,
        ),
{
    lemma_notification_dispatch(server_id, root, msg, configuration, tracks, style, params);
    lemma_publish_notification(server_id, root, params, tracks, style);
    lemma_diagnostics_case(params, style, path, diagnostics);
}

proof fn lemma_diagnostics_case(
    params: Json,
    style: PathStyle,
    path: Seq<char>,
    diagnostics: Seq<(Seq<char>, Seq<char>, crate::types::DiagnosticSeverity, crate::text::TextRange)>,
)
    requires
        publish_spec(params, style) == Some((path, diagnostics)),
    ensures
        diagnostics_case(params, style) == (IncomingModel::Diagnostics { path, diagnostics }),
{
    reveal(diagnostics_case);
}

proof fn lemma_notification_dispatch(
    server_id: Seq<char>,
    root: Option<Seq<char>>,
    msg: Json,
    configuration: Option<SessionWorkspaceConfiguration>,
    tracks: TracksModel,
    style: PathStyle,
    params: Json,
)
    requires
        msg is Object,
        msg.get("id"@) is None,
        Json::str_opt(msg.get("method"@)) == Some("textDocument/publishDiagnostics"@),
        msg.get("params"@) == Some(params),
    ensures
        incoming_spec(server_id, root, msg, configuration, tracks, style) == notification_spec(
            server_id,
            root,
            "textDocument/publishDiagnostics"@,
            Some(params),
            tracks,
            style,
        ),
{
    assert(Json::u64_opt(msg.get("id"@)) is None);
}

proof fn lemma_publish_notification(
    server_id: Seq<char>,
    root: Option<Seq<char>>,
    params: Json,
    tracks: TracksModel,
    style: PathStyle,
)
    ensures
        notification_spec(server_id, root, "textDocument/publishDiagnostics"@, Some(params), tracks, style) == (
            diagnostics_case(params, style),
            tracks,
        ),
{
    reveal(notification_spec);
}

} // verus!
