//! Transport-level rules: redaction of secrets in logged messages, framing
//! headers, per-method timeouts, launch summaries and the recognition of
//! "method not supported" replies.
use vstd::prelude::*;
use crate::json::{
    Json, JsonValue, model_items, model_members, lemma_model_items, lemma_model_members,
    lemma_model_items_push, lemma_model_members_push,
};
use crate::strings::{
    chars_of, contains_chars, contains_spec, lower_chars, lower_spec, lower_char, owned,
    push_char, str_eq, string_of, trim_spec, trim_chars, u64_decimal, decimal,
};
use crate::types::LspClientError;

verus! {

/// Whether `c` is an ASCII letter or digit.
pub open spec fn is_ascii_alnum(c: char) -> bool {
    ('a' <= c && c <= 'z') || ('A' <= c && c <= 'Z') || ('0' <= c && c <= '9')
}

/// The key with everything but ASCII letters and digits dropped, lowercased.
pub open spec fn normalized_key(k: Seq<char>) -> Seq<char>
    decreases k.len(),
{
    if k.len() == 0 {
        Seq::empty()
    } else {
        let r = normalized_key(k.drop_last());
        if is_ascii_alnum(k.last()) {
            r.push(lower_char(k.last()))
        } else {
            r
        }
    }
}

/// Keys whose values are never written to the transport log.
pub open spec fn key_is_sensitive(k: Seq<char>) -> bool {
    let n = normalized_key(k);
    n == "apikey"@ || n == "authorization"@ || n == "connectionstring"@ || n == "datasourcename"@
        || n == "passphrase"@ || n == "passwd"@ || n == "password"@ || n == "privatekey"@ || n
        == "secret"@
}

pub fn transport_key_is_sensitive(key: &str) -> (r: bool)
    ensures
        r == key_is_sensitive(key@),
{
    let chars = chars_of(key);
    let mut normalized = String::new();
    let mut i: usize = 0;
    while i < chars.len()
        invariant
            chars@ == key@,
            i <= chars@.len(),
            normalized@ == normalized_key(chars@.take(i as int)),
        decreases chars@.len() - i,
    {
        let c = chars[i];
        proof {
            assert(chars@.take(i + 1).drop_last() =~= chars@.take(i as int));
        }
        if ('a' <= c && c <= 'z') || ('A' <= c && c <= 'Z') || ('0' <= c && c <= '9') {
            push_char(&mut normalized, crate::strings::lower_one(c));
        }
        i += 1;
    }
    proof {
        assert(chars@.take(chars@.len() as int) =~= chars@);
    }
    let n = normalized.as_str();
    str_eq(n, "apikey") || str_eq(n, "authorization") || str_eq(n, "connectionstring") || str_eq(
        n,
        "datasourcename",
    ) || str_eq(n, "passphrase") || str_eq(n, "passwd") || str_eq(n, "password") || str_eq(
        n,
        "privatekey",
    ) || str_eq(n, "secret")
}

/// The value with every member under a sensitive key replaced by the string
/// `[redacted]`, at any depth.
pub open spec fn sanitize_spec(j: Json) -> Json
    decreases j,
{
    match j {
        Json::Array(items) => Json::Array(sanitize_items(items)),
        Json::Object(members) => Json::Object(sanitize_members(members)),
        _ => j,
    }
}

pub open spec fn sanitize_items(items: Seq<Json>) -> Seq<Json>
    decreases items,
{
    if items.len() == 0 {
        Seq::empty()
    } else {
        sanitize_items(items.subrange(0, items.len() - 1)).push(sanitize_spec(items[items.len() - 1]))
    }
}

pub open spec fn sanitize_members(members: Seq<(Seq<char>, Json)>) -> Seq<(Seq<char>, Json)>
    decreases members,
{
    if members.len() == 0 {
        Seq::empty()
    } else {
        let k = members[members.len() - 1].0;
        let v = members[members.len() - 1].1;
        sanitize_members(members.subrange(0, members.len() - 1)).push(
            (
                k,
                if key_is_sensitive(k) {
                    Json::Str("[redacted]"@)
                } else {
                    sanitize_spec(v)
                },
            ),
        )
    }
}

proof fn lemma_sanitize_items_pointwise(items: Seq<Json>)
    ensures
        sanitize_items(items).len() == items.len(),
        forall|i: int| 0 <= i < items.len() ==> #[trigger] sanitize_items(items)[i] == sanitize_spec(items[i]),
    decreases items.len(),
{
    if items.len() > 0 {
        let init = items.subrange(0, items.len() - 1);
        lemma_sanitize_items_pointwise(init);
        assert forall|i: int| 0 <= i < items.len() implies #[trigger] sanitize_items(items)[i] == sanitize_spec(
            items[i],
        ) by {
            if i < items.len() - 1 {
                assert(init[i] == items[i]);
            }
        }
    }
}

proof fn lemma_sanitize_members_pointwise(members: Seq<(Seq<char>, Json)>)
    ensures
        sanitize_members(members).len() == members.len(),
        forall|i: int|
            0 <= i < members.len() ==> (#[trigger] sanitize_members(members)[i]).0 == members[i].0
                && sanitize_members(members)[i].1 == if key_is_sensitive(members[i].0) {
                Json::Str("[redacted]"@)
            } else {
                sanitize_spec(members[i].1)
            },
    decreases members.len(),
{
    if members.len() > 0 {
        let init = members.subrange(0, members.len() - 1);
        lemma_sanitize_members_pointwise(init);
        assert forall|i: int| 0 <= i < members.len() implies (#[trigger] sanitize_members(members)[i]).0
            == members[i].0 && sanitize_members(members)[i].1 == if key_is_sensitive(members[i].0) {
            Json::Str("[redacted]"@)
        } else {
            sanitize_spec(members[i].1)
        } by {
            if i < members.len() - 1 {
                assert(init[i] == members[i]);
            }
        }
    }
}

/// Redaction keeps the message's shape: an array keeps its length with each
/// item redacted in turn; an object keeps its keys in order, each value
/// under a sensitive key becoming the string `[redacted]` and every other
/// value redacted in turn; any other value is kept as it is.
pub proof fn law_sanitize_keeps_shape(j: Json)
    ensures
        match j {
            Json::Array(items) => sanitize_spec(j) matches Json::Array(out) && out.len() == items.len()
                && forall|i: int| 0 <= i < items.len() ==> #[trigger] out[i] == sanitize_spec(items[i]),
            Json::Object(ms) => sanitize_spec(j) matches Json::Object(out) && out.len() == ms.len() && forall|i: int|
                0 <= i < ms.len() ==> (#[trigger] out[i]).0 == ms[i].0 && out[i].1 == if key_is_sensitive(ms[i].0) {
                    Json::Str("[redacted]"@)
                } else {
                    sanitize_spec(ms[i].1)
                },
            _ => sanitize_spec(j) == j,
        },
{
    match j {
        Json::Array(items) => lemma_sanitize_items_pointwise(items),
        Json::Object(ms) => lemma_sanitize_members_pointwise(ms),
        _ => {},
    }
}

/// Redacting twice changes nothing more than redacting once: a redacted
/// message logged again comes out the same.
pub proof fn law_sanitize_is_idempotent(j: Json)
    ensures
        sanitize_spec(sanitize_spec(j)) == sanitize_spec(j),
    decreases j,
{
    match j {
        Json::Array(items) => {
            lemma_sanitize_items_idempotent(items);
        },
        Json::Object(members) => {
            lemma_sanitize_members_idempotent(members);
        },
        _ => {},
    }
}

proof fn lemma_sanitize_items_idempotent(items: Seq<Json>)
    ensures
        sanitize_items(sanitize_items(items)) == sanitize_items(items),
    decreases items,
{
    if items.len() > 0 {
        let init = items.subrange(0, items.len() - 1);
        let last = items[items.len() - 1];
        lemma_sanitize_items_idempotent(init);
        law_sanitize_is_idempotent(last);
        let once = sanitize_items(items);
        assert(once == sanitize_items(init).push(sanitize_spec(last)));
        assert(once.subrange(0, once.len() - 1) =~= sanitize_items(init));
        assert(once[once.len() - 1] == sanitize_spec(last));
    }
}

proof fn lemma_sanitize_members_idempotent(members: Seq<(Seq<char>, Json)>)
    ensures
        sanitize_members(sanitize_members(members)) == sanitize_members(members),
    decreases members,
{
    if members.len() > 0 {
        let init = members.subrange(0, members.len() - 1);
        let k = members[members.len() - 1].0;
        let v = members[members.len() - 1].1;
        lemma_sanitize_members_idempotent(init);
        law_sanitize_is_idempotent(v);
        let once = sanitize_members(members);
        let nv = if key_is_sensitive(k) {
            Json::Str("[redacted]"@)
        } else {
            sanitize_spec(v)
        };
        assert(once == sanitize_members(init).push((k, nv)));
        assert(once.subrange(0, once.len() - 1) =~= sanitize_members(init));
        assert(once[once.len() - 1] == (k, nv));
    }
}

/// The message with secrets redacted, ready for the transport log.
pub fn sanitize_transport_message(message: &JsonValue) -> (r: JsonValue)
    ensures
        r.model() == sanitize_spec(message.model()),
    decreases message,
{
    match message {
        JsonValue::Array(items) => {
            let mut out: Vec<JsonValue> = Vec::new();
            let mut i: usize = 0;
            proof {
                lemma_model_items(items@);
            }
            let ghost im = model_items(items@);
            while i < items.len()
                invariant
                    *message == JsonValue::Array(*items),
                    im == model_items(items@),
                    im.len() == items@.len(),
                    forall|k: int| 0 <= k < items@.len() ==> #[trigger] im[k] == items@[k].model(),
                    i <= items@.len(),
                    model_items(out@) == sanitize_items(im.take(i as int)),
                decreases items@.len() - i,
            {
                proof {
                    vstd::std_specs::vec::axiom_vec_index_decreases(*items, i as int);
                    assert(decreases_to!(*message => (*message)->Array_0));
                    assert(decreases_to!(*message => items@[i as int]));
                    assert(im.take(i + 1).subrange(0, i as int) =~= im.take(i as int));
                }
                let v = sanitize_transport_message(&items[i]);
                proof {
                    lemma_model_items_push(out@, v);
                }
                out.push(v);
                i += 1;
            }
            proof {
                assert(im.take(items@.len() as int) =~= im);
            }
            JsonValue::Array(out)
        },
        JsonValue::Object(members) => {
            let mut out: Vec<(String, JsonValue)> = Vec::new();
            let mut i: usize = 0;
            proof {
                lemma_model_members(members@);
            }
            let ghost mm = model_members(members@);
            while i < members.len()
                invariant
                    *message == JsonValue::Object(*members),
                    mm == model_members(members@),
                    mm.len() == members@.len(),
                    forall|k: int|
                        0 <= k < members@.len() ==> #[trigger] mm[k] == (
                            members@[k].0@,
                            members@[k].1.model(),
                        ),
                    i <= members@.len(),
                    model_members(out@) == sanitize_members(mm.take(i as int)),
                decreases members@.len() - i,
            {
                proof {
                    vstd::std_specs::vec::axiom_vec_index_decreases(*members, i as int);
                    assert(decreases_to!(*message => (*message)->Object_0));
                    assert(decreases_to!(members@[i as int] => members@[i as int].1));
                    assert(decreases_to!(*message => members@[i as int].1));
                    assert(mm.take(i + 1).subrange(0, i as int) =~= mm.take(i as int));
                }
                let key = members[i].0.clone();
                let v = if transport_key_is_sensitive(key.as_str()) {
                    JsonValue::String(owned("[redacted]"))
                } else {
                    sanitize_transport_message(&members[i].1)
                };
                proof {
                    lemma_model_members_push(out@, (key, v));
                }
                out.push((key, v));
                i += 1;
            }
            proof {
                assert(mm.take(members@.len() as int) =~= mm);
            }
            JsonValue::Object(out)
        },
        _ => message.clone(),
    }
}

/// Request timeout in milliseconds: 10 s for `initialize`, 3 s for code
/// actions, 1.2 s for inline completions, 400 ms otherwise.
pub open spec fn timeout_millis(method: Seq<char>) -> u64 {
    if method == "initialize"@ {
        10000
    } else if method == "textDocument/codeAction"@ {
        3000
    } else if method == "textDocument/inlineCompletion"@ {
        1200
    } else {
        400
    }
}

pub fn request_timeout_millis(method: &str) -> (r: u64)
    ensures
        r == timeout_millis(method@),
{
    if str_eq(method, "initialize") {
        10000
    } else if str_eq(method, "textDocument/codeAction") {
        3000
    } else if str_eq(method, "textDocument/inlineCompletion") {
        1200
    } else {
        400
    }
}

/// Work-done progress token of a request: `progress:<method>:<n>`.
pub open spec fn progress_token_spec(method: Seq<char>, n: u64) -> Seq<char> {
    "progress:"@ + method + ":"@ + decimal(n as nat)
}

pub fn work_done_progress_token(method: &str, n: u64) -> (r: String)
    ensures
        r@ == progress_token_spec(method@, n),
{
    let mut r = owned("progress:");
    r.append(method);
    r.append(":");
    let d = u64_decimal(n);
    r.append(d.as_str());
    r
}

/// Whether an error reply means the server does not implement the method.
pub open spec fn unsupported_spec(e: LspClientError) -> bool {
    match e {
        LspClientError::Protocol(m) => {
            let l = lower_spec(m@);
            contains_spec(l, "-32601"@) || contains_spec(l, "method not found"@) || contains_spec(
                l,
                "method not supported"@,
            )
        },
        _ => false,
    }
}

pub fn unsupported_lsp_request(error: &LspClientError) -> (r: bool)
    ensures
        r == unsupported_spec(*error),
{
    match error {
        LspClientError::Protocol(message) => {
            let lower = lower_chars(message.as_str());
            let a = chars_of("-32601");
            let b = chars_of("method not found");
            let c = chars_of("method not supported");
            contains_chars(lower.as_slice(), a.as_slice()) || contains_chars(
                lower.as_slice(),
                b.as_slice(),
            ) || contains_chars(lower.as_slice(), c.as_slice())
        },
        _ => false,
    }
}

/// The words joined by single spaces.
pub open spec fn join_spaces(words: Seq<Seq<char>>) -> Seq<char>
    decreases words.len(),
{
    if words.len() == 0 {
        Seq::empty()
    } else if words.len() == 1 {
        words[0]
    } else {
        join_spaces(words.drop_last()) + " "@ + words.last()
    }
}

/// Summary logged when a server process starts: the command line, then the
/// working directory and the root when present, one per line.
pub open spec fn launch_summary_spec(
    pid: u32,
    program: Seq<char>,
    args: Seq<Seq<char>>,
    cwd: Option<Seq<char>>,
    root: Option<Seq<char>>,
) -> Seq<char> {
    let first = "started process "@ + decimal(pid as nat) + ": "@ + program + (if args.len() > 0 {
        " "@ + join_spaces(args)
    } else {
        Seq::empty()
    });
    let second = match cwd {
        Some(c) => first + "\ncwd: "@ + c,
        None => first,
    };
    match root {
        Some(r) => second + "\nroot: "@ + r,
        None => second,
    }
}

pub fn launch_summary(
    pid: u32,
    program: &str,
    args: &Vec<String>,
    cwd: Option<&str>,
    root: Option<&str>,
) -> (r: String)
    ensures
        r@ == launch_summary_spec(
            pid,
            program@,
            crate::types::views(args@),
            crate::notify::opt_str(cwd),
            crate::notify::opt_str(root),
        ),
{
    let mut r = owned("started process ");
    let d = u64_decimal(pid as u64);
    r.append(d.as_str());
    r.append(": ");
    r.append(program);
    let ghost head = r@;
    let ghost words = crate::types::views(args@);
    if args.len() > 0 {
        r.append(" ");
        let mut i: usize = 0;
        while i < args.len()
            invariant
                words == crate::types::views(args@),
                0 < args@.len(),
                i <= args@.len(),
                i == 0 ==> r@ == head + " "@,
                i > 0 ==> r@ == head + " "@ + join_spaces(words.take(i as int)),
            decreases args@.len() - i,
        {
            if i > 0 {
                r.append(" ");
            }
            r.append(args[i].as_str());
            proof {
                assert(words.take(i + 1).drop_last() =~= words.take(i as int));
                if i == 0 {
                    assert(join_spaces(words.take(1)) == words.take(1)[0]);
                }
            }
            i += 1;
        }
        proof {
            assert(words.take(args@.len() as int) =~= words);
        }
    }
    match cwd {
        Some(c) => {
            r.append("\ncwd: ");
            r.append(c);
        },
        None => {},
    }
    match root {
        Some(rt) => {
            r.append("\nroot: ");
            r.append(rt);
        },
        None => {},
    }
    r
}

} // verus!
