//! Hover and signature help: the markdown shown for hover contents and
//! signatures, and the character range of the active parameter.
use vstd::prelude::*;
use crate::strings::{
    chars_of, string_of, owned, concat2, concat3, trim_spec, trim_end_spec, trim_chars, trim_end_chars,
    split_on, split_chars, char_views, decimal, u64_decimal, occurs_at, contains_spec, find_chars,
};
use crate::completion::{crlf_to_lf, normalize_line_endings};
use crate::types::{LspHoverContents, LspSignatureActiveParameter, views};

verus! {

/// Hover or documentation text with every line ending written as `\n`.
pub open spec fn normalize_spec(s: Seq<char>) -> Seq<char> {
    crlf_to_lf(s).map_values(|c: char| if c == '\r' { '\n' } else { c })
}

pub fn normalize_hover_text(text: &str) -> (r: String)
    ensures
        r@ == normalize_spec(text@),
{
    let lf = normalize_line_endings(text);
    let cs = chars_of(lf.as_str());
    let mut out: Vec<char> = Vec::new();
    let mut i: usize = 0;
    while i < cs.len()
        invariant
            cs@ == crlf_to_lf(text@),
            i <= cs@.len(),
            out@ == cs@.take(i as int).map_values(|c: char| if c == '\r' { '\n' } else { c }),
        decreases cs@.len() - i,
    {
        let c = cs[i];
        out.push(if c == '\r' { '\n' } else { c });
        proof {
            assert(cs@.take(i + 1).map_values(|c: char| if c == '\r' { '\n' } else { c }) =~= cs@.take(
                i as int,
            ).map_values(|c: char| if c == '\r' { '\n' } else { c }).push(if c == '\r' { '\n' } else { c }));
        }
        i += 1;
    }
    proof {
        assert(cs@.take(cs@.len() as int) =~= cs@);
    }
    string_of(out.as_slice())
}

/// Whether a text is empty or only whitespace.
pub open spec fn blank(s: Seq<char>) -> bool {
    trim_spec(s).len() == 0
}

/// A fenced markdown code block, tagged with the trimmed language if any.
pub open spec fn fence_spec(language: Seq<char>, value: Seq<char>) -> Seq<char> {
    let v = normalize_spec(value);
    let l = trim_spec(language);
    if l.len() == 0 {
        "```\n"@ + v + "\n```"@
    } else {
        "```"@ + l + "\n"@ + v + "\n```"@
    }
}

pub fn markdown_code_fence(language: &str, value: &str) -> (r: String)
    ensures
        r@ == fence_spec(language@, value@),
{
    let v = normalize_hover_text(value);
    let l = string_of(trim_chars(language).as_slice());
    if l.as_str().is_empty() {
        concat3("```\n", v.as_str(), "\n```")
    } else {
        let head = concat3("```", l.as_str(), "\n");
        concat3(head.as_str(), v.as_str(), "\n```")
    }
}

/// Parts joined with a separator between neighbours.
pub open spec fn join_spec(parts: Seq<Seq<char>>, sep: Seq<char>) -> Seq<char>
    decreases parts.len(),
{
    if parts.len() == 0 {
        Seq::empty()
    } else if parts.len() == 1 {
        parts[0]
    } else {
        join_spec(parts.drop_last(), sep) + sep + parts.last()
    }
}

pub fn join_strings(parts: &Vec<String>, sep: &str) -> (r: String)
    ensures
        r@ == join_spec(views(parts@), sep@),
{
    let ghost pv = views(parts@);
    let mut out = String::new();
    let mut i: usize = 0;
    proof {
        assert(pv.take(0) =~= Seq::<Seq<char>>::empty());
    }
    while i < parts.len()
        invariant
            pv == views(parts@),
            i <= parts@.len(),
            out@ == join_spec(pv.take(i as int), sep@),
        decreases parts@.len() - i,
    {
        proof {
            assert(pv.take(i + 1).drop_last() =~= pv.take(i as int));
            assert(pv.take(i + 1).last() == parts@[i as int]@);
        }
        if i == 0 {
            proof {
                assert(pv.take(1)[0] == parts@[0]@);
            }
            out = owned(parts[i].as_str());
        } else {
            out = concat3(out.as_str(), sep, parts[i].as_str());
        }
        i += 1;
    }
    proof {
        assert(pv.take(pv.len() as int) =~= pv);
    }
    out
}

/// Lines without trailing empty lines.
pub open spec fn strip_trailing_empty(ls: Seq<Seq<char>>) -> Seq<Seq<char>>
    decreases ls.len(),
{
    if ls.len() > 0 && ls.last().len() == 0 {
        strip_trailing_empty(ls.drop_last())
    } else {
        ls
    }
}

/// The display lines of a hover text: none for blank text; otherwise its
/// lines without trailing whitespace, trailing empty lines dropped.
pub open spec fn hover_lines_spec(text: Seq<char>) -> Seq<Seq<char>> {
    let t = normalize_spec(text);
    if blank(t) {
        Seq::empty()
    } else {
        strip_trailing_empty(split_on(t, '\n').map_values(|l: Seq<char>| trim_end_spec(l)))
    }
}

pub fn hover_text_lines(text: &str) -> (r: Vec<String>)
    ensures
        views(r@) == hover_lines_spec(text@),
{
    let t = normalize_hover_text(text);
    let mut lines: Vec<String> = Vec::new();
    if crate::strings::is_blank(t.as_str()) {
        proof {
            assert(views(lines@) =~= Seq::empty());
        }
        return lines;
    }
    let parts = split_chars(t.as_str(), '\n');
    let ghost ps = char_views(parts@);
    let mut i: usize = 0;
    while i < parts.len()
        invariant
            ps == char_views(parts@),
            i <= parts@.len(),
            views(lines@) == ps.take(i as int).map_values(|l: Seq<char>| trim_end_spec(l)),
        decreases parts@.len() - i,
    {
        let s = string_of(parts[i].as_slice());
        let line = string_of(trim_end_chars(s.as_str()).as_slice());
        proof {
            assert(ps.take(i + 1).map_values(|l: Seq<char>| trim_end_spec(l)) =~= ps.take(
                i as int,
            ).map_values(|l: Seq<char>| trim_end_spec(l)).push(line@));
            assert(views(lines@.push(line)) =~= views(lines@).push(line@));
        }
        lines.push(line);
        i += 1;
    }
    proof {
        assert(ps.take(ps.len() as int) =~= ps);
    }
    while lines.len() > 0 && lines[lines.len() - 1].as_str().is_empty()
        invariant
            strip_trailing_empty(views(lines@)) == hover_lines_spec(text@),
        decreases lines@.len(),
    {
        let ghost before = views(lines@);
        lines.pop();
        proof {
            assert(before.drop_last() =~= views(lines@));
        }
    }
    lines
}

/// Kinds of markup content.
#[derive(Debug, Clone, Copy, PartialEq, Eq, Structural)]
pub enum MarkupKind {
    PlainText,
    Markdown,
}

/// A markup string (`MarkedString`): plain markdown, or code in a language.
#[derive(Debug, Clone, PartialEq, Eq)]
pub enum MarkedString {
    String(String),
    LanguageString { language: String, value: String },
}

/// Decoded hover contents.
#[derive(Debug, Clone, PartialEq, Eq)]
pub enum HoverContents {
    Scalar(MarkedString),
    Array(Vec<MarkedString>),
    Markup { kind: MarkupKind, value: String },
}

/// The text of a marked string (code becomes a fenced block), if not blank;
/// always markdown.
pub open spec fn marked_spec(m: MarkedString) -> Option<(Seq<char>, bool)> {
    let text = match m {
        MarkedString::String(t) => normalize_spec(t@),
        MarkedString::LanguageString { language, value } => normalize_spec(fence_spec(language@, value@)),
    };
    if blank(text) {
        None
    } else {
        Some((text, true))
    }
}

pub fn hover_marked_string(marked: &MarkedString) -> (r: Option<(String, bool)>)
    ensures
        match r {
            Some((t, md)) => marked_spec(*marked) == Some((t@, md)),
            None => marked_spec(*marked) is None,
        },
{
    let text = match marked {
        MarkedString::String(t) => normalize_hover_text(t.as_str()),
        MarkedString::LanguageString { language, value } => {
            let fence = markdown_code_fence(language.as_str(), value.as_str());
            normalize_hover_text(fence.as_str())
        },
    };
    if crate::strings::is_blank(text.as_str()) {
        None
    } else {
        Some((text, true))
    }
}

pub open spec fn marked_texts(ms: Seq<MarkedString>) -> Seq<Seq<char>>
    decreases ms.len(),
{
    if ms.len() == 0 {
        Seq::empty()
    } else {
        let rest = marked_texts(ms.drop_last());
        match marked_spec(ms.last()) {
            Some((t, _)) => rest.push(t),
            None => rest,
        }
    }
}

/// The text of hover contents and whether it is markdown: a marked string
/// as is; a list of them joined by blank lines (markdown); markup content
/// with its own kind. Blank text gives none.
pub open spec fn hover_text_spec(contents: HoverContents) -> Option<(Seq<char>, bool)> {
    match contents {
        HoverContents::Scalar(m) => marked_spec(m),
        HoverContents::Array(ms) => {
            let text = normalize_spec(join_spec(marked_texts(ms@), "\n\n"@));
            if blank(text) {
                None
            } else {
                Some((text, true))
            }
        },
        HoverContents::Markup { kind, value } => {
            let text = normalize_spec(value@);
            if blank(text) {
                None
            } else {
                Some((text, kind == MarkupKind::Markdown))
            }
        },
    }
}

pub fn hover_text(contents: &HoverContents) -> (r: Option<(String, bool)>)
    ensures
        match r {
            Some((t, md)) => hover_text_spec(*contents) == Some((t@, md)),
            None => hover_text_spec(*contents) is None,
        },
{
    match contents {
        HoverContents::Scalar(m) => hover_marked_string(m),
        HoverContents::Array(values) => {
            let mut parts: Vec<String> = Vec::new();
            let mut i: usize = 0;
            while i < values.len()
                invariant
                    i <= values@.len(),
                    views(parts@) == marked_texts(values@.take(i as int)),
                decreases values@.len() - i,
            {
                proof {
                    assert(values@.take(i + 1).drop_last() =~= values@.take(i as int));
                }
                match hover_marked_string(&values[i]) {
                    Some((t, _)) => {
                        proof {
                            assert(views(parts@.push(t)) =~= views(parts@).push(t@));
                        }
                        parts.push(t);
                    },
                    None => {},
                }
                i += 1;
            }
            proof {
                assert(values@.take(values@.len() as int) =~= values@);
            }
            let joined = join_strings(&parts, "\n\n");
            let text = normalize_hover_text(joined.as_str());
            if crate::strings::is_blank(text.as_str()) {
                None
            } else {
                Some((text, true))
            }
        },
        HoverContents::Markup { kind, value } => {
            let text = normalize_hover_text(value.as_str());
            if crate::strings::is_blank(text.as_str()) {
                None
            } else {
                Some((text, *kind == MarkupKind::Markdown))
            }
        },
    }
}

/// Hover contents as shown: server, text, display lines, markdown flag.
pub open spec fn hover_view(h: LspHoverContents) -> (Seq<char>, Seq<char>, Seq<Seq<char>>, bool) {
    (h.server_id@, h.text@, views(h.lines@), h.markdown)
}

/// A hover response's contents as shown, if they have a non-empty line.
pub open spec fn hover_response_spec(server_id: Seq<char>, contents: HoverContents) -> Option<
    (Seq<char>, Seq<char>, Seq<Seq<char>>, bool),
> {
    match hover_text_spec(contents) {
        Some((text, md)) => {
            let lines = hover_lines_spec(text);
            if lines.len() > 0 {
                Some((server_id, text, lines, md))
            } else {
                None
            }
        },
        None => None,
    }
}

pub fn parse_hover_response(server_id: &str, contents: &HoverContents) -> (r: Option<LspHoverContents>)
    ensures
        match r {
            Some(h) => hover_response_spec(server_id@, *contents) == Some(hover_view(h)),
            None => hover_response_spec(server_id@, *contents) is None,
        },
{
    let (text, markdown) = match hover_text(contents) {
        Some(t) => t,
        None => return None,
    };
    let lines = hover_text_lines(text.as_str());
    if lines.len() == 0 {
        return None;
    }
    Some(LspHoverContents::new(owned(server_id), text, lines, markdown))
}

/// Documentation of a signature or parameter.
#[derive(Debug, Clone, PartialEq, Eq)]
pub enum Documentation {
    String(String),
    MarkupContent { kind: MarkupKind, value: String },
}

/// A parameter label: its text, or character offsets into the signature
/// label.
#[derive(Debug, Clone, PartialEq, Eq)]
pub enum ParameterLabel {
    Simple(String),
    LabelOffsets(u32, u32),
}

#[derive(Debug, Clone, PartialEq, Eq)]
pub struct ParameterInformation {
    pub label: ParameterLabel,
    pub documentation: Option<Documentation>,
}

#[derive(Debug, Clone, PartialEq, Eq)]
pub struct SignatureInformation {
    pub label: String,
    pub documentation: Option<Documentation>,
    pub parameters: Option<Vec<ParameterInformation>>,
    pub active_parameter: Option<u32>,
}

/// Decoded signature help.
#[derive(Debug, Clone, PartialEq, Eq)]
pub struct SignatureHelp {
    pub signatures: Vec<SignatureInformation>,
    pub active_signature: Option<u32>,
    pub active_parameter: Option<u32>,
}

/// Documentation as markdown text.
pub open spec fn documentation_spec(d: Documentation) -> Seq<char> {
    match d {
        Documentation::String(t) => normalize_spec(t@),
        Documentation::MarkupContent { value, .. } => normalize_spec(value@),
    }
}

pub fn documentation_markdown(documentation: &Documentation) -> (r: String)
    ensures
        r@ == documentation_spec(*documentation),
{
    match documentation {
        Documentation::String(text) => normalize_hover_text(text.as_str()),
        Documentation::MarkupContent { value, .. } => normalize_hover_text(value.as_str()),
    }
}

/// The signature shown as active: the announced one when it exists, else
/// the first.
pub open spec fn active_signature_spec(help: SignatureHelp) -> int {
    match help.active_signature {
        Some(i) => if (i as int) < help.signatures@.len() {
            i as int
        } else {
            0
        },
        None => 0,
    }
}

/// The active parameter: the active signature's own, else the help's.
pub open spec fn active_parameter_spec(help: SignatureHelp) -> Option<u32> {
    match help.signatures@[active_signature_spec(help)].active_parameter {
        Some(p) => Some(p),
        None => help.active_parameter,
    }
}

/// Documentation of parameter `p` of a signature, if it has one.
pub open spec fn parameter_doc(sig: SignatureInformation, p: Option<u32>) -> Option<Documentation> {
    match (p, sig.parameters) {
        (Some(i), Some(ps)) => if (i as int) < ps@.len() {
            ps@[i as int].documentation
        } else {
            None
        },
        _ => None,
    }
}

/// The heading of signature `i` of `n`.
pub open spec fn signature_heading(i: int, n: int, active: bool) -> Seq<char> {
    "**Signature "@ + decimal((i + 1) as nat) + "/"@ + decimal(n as nat) + (if active {
        " (active)"@
    } else {
        Seq::empty()
    }) + "**"@
}

/// The markdown parts of signature `i`: a heading when there are several,
/// the label as code, the active parameter's documentation for the active
/// signature, then the signature's documentation.
pub open spec fn signature_parts(help: SignatureHelp, language: Seq<char>, i: int) -> Seq<Seq<char>> {
    let n = help.signatures@.len() as int;
    let a = active_signature_spec(help);
    let sig = help.signatures@[i];
    let heading = if n > 1 {
        seq![signature_heading(i, n, i == a)]
    } else {
        Seq::empty()
    };
    let param = if i == a {
        match parameter_doc(sig, active_parameter_spec(help)) {
            Some(d) => seq![documentation_spec(d)],
            None => Seq::empty(),
        }
    } else {
        Seq::empty()
    };
    let doc = match sig.documentation {
        Some(d) => seq![documentation_spec(d)],
        None => Seq::empty(),
    };
    heading + seq![fence_spec(language, sig.label@)] + param + doc
}

pub open spec fn all_signature_parts(help: SignatureHelp, language: Seq<char>, k: int) -> Seq<Seq<char>>
    decreases k,
{
    if k <= 0 {
        Seq::empty()
    } else {
        all_signature_parts(help, language, k - 1) + signature_parts(help, language, k - 1)
    }
}

/// Signature help as markdown: none without signatures or when blank.
pub open spec fn signature_markdown_spec(help: SignatureHelp, language: Seq<char>) -> Option<Seq<char>> {
    if help.signatures@.len() == 0 {
        None
    } else {
        let text = normalize_spec(
            join_spec(all_signature_parts(help, language, help.signatures@.len() as int), "\n\n"@),
        );
        if blank(text) {
            None
        } else {
            Some(text)
        }
    }
}

fn active_signature_index(help: &SignatureHelp) -> (r: usize)
    ensures
        r == active_signature_spec(*help),
{
    match help.active_signature {
        Some(i) => if (i as usize) < help.signatures.len() {
            i as usize
        } else {
            0
        },
        None => 0,
    }
}

fn push_part(parts: &mut Vec<String>, part: String)
    ensures
        views(final(parts)@) == views(old(parts)@).push(part@),
{
    let ghost before = views(parts@);
    parts.push(part);
    proof {
        assert(views(parts@) =~= before.push(part@));
    }
}

fn signature_heading_text(i: usize, n: usize, active: bool) -> (r: String)
    requires
        i < n,
    ensures
        r@ == signature_heading(i as int, n as int, active),
{
    let number = u64_decimal((i + 1) as u64);
    let total = u64_decimal(n as u64);
    let a = concat3("**Signature ", number.as_str(), "/");
    let b = concat2(a.as_str(), total.as_str());
    let c = if active {
        concat2(b.as_str(), " (active)")
    } else {
        b
    };
    proof {
        if !active {
            assert(c@ + Seq::<char>::empty() =~= c@);
        }
    }
    concat2(c.as_str(), "**")
}

pub fn signature_help_markdown(help: &SignatureHelp, language: Option<&str>) -> (r: Option<String>)
    ensures
        crate::types::opt_view(r) == signature_markdown_spec(
            *help,
            match language {
                Some(l) => l@,
                None => Seq::empty(),
            },
        ),
{
    if help.signatures.len() == 0 {
        return None;
    }
    let a = active_signature_index(help);
    let active_sig = &help.signatures[a];
    let param_index = match active_sig.active_parameter {
        Some(p) => Some(p),
        None => help.active_parameter,
    };
    let lang = match language {
        Some(l) => l,
        None => "",
    };
    proof {
        reveal_strlit("");
    }
    let n = help.signatures.len();
    let mut parts: Vec<String> = Vec::new();
    let mut i: usize = 0;
    proof {
        assert(views(parts@) =~= Seq::empty());
    }
    while i < n
        invariant
            n == help.signatures@.len(),
            a == active_signature_spec(*help),
            a < n,
            param_index == active_parameter_spec(*help),
            lang@ == match language {
                Some(l) => l@,
                None => Seq::<char>::empty(),
            },
            i <= n,
            views(parts@) == all_signature_parts(*help, lang@, i as int),
        decreases n - i,
    {
        let ghost before = views(parts@);
        let sig = &help.signatures[i];
        if n > 1 {
            push_part(&mut parts, signature_heading_text(i, n, i == a));
        }
        push_part(&mut parts, markdown_code_fence(lang, sig.label.as_str()));
        if i == a {
            match (param_index, &sig.parameters) {
                (Some(p), Some(ps)) => {
                    if (p as usize) < ps.len() {
                        match &ps[p as usize].documentation {
                            Some(d) => push_part(&mut parts, documentation_markdown(d)),
                            None => {},
                        }
                    }
                },
                _ => {},
            }
        }
        match &sig.documentation {
            Some(d) => push_part(&mut parts, documentation_markdown(d)),
            None => {},
        }
        proof {
            assert(views(parts@) =~= before + signature_parts(*help, lang@, i as int));
        }
        i += 1;
    }
    let joined = join_strings(&parts, "\n\n");
    let text = normalize_hover_text(joined.as_str());
    if crate::strings::is_blank(text.as_str()) {
        None
    } else {
        Some(text)
    }
}

/// Whether a label of text can be looked up in a signature label without
/// reading past it: the trimmed text is empty or not longer than the label.
pub open spec fn label_fits(sig: SignatureInformation, index: int) -> bool {
    match sig.parameters {
        Some(ps) => 0 <= index < ps@.len() ==> match ps@[index].label {
            ParameterLabel::Simple(t) => trim_spec(t@).len() == 0 || trim_spec(t@).len() <= sig.label@.len(),
            ParameterLabel::LabelOffsets(_, _) => true,
        },
        None => true,
    }
}

/// The character range of the first occurrence of a non-empty `needle`
/// in `haystack`; none for an empty or absent needle. A non-empty needle
/// longer than the haystack is outside the contract: the slice it would
/// compare runs past the haystack's end.
pub fn find_substring_char_range(haystack: &str, needle: &str) -> (r: Option<(usize, usize)>)
    requires
        needle@.len() == 0 || needle@.len() <= haystack@.len(),
    ensures
        match r {
            Some((s, e)) => needle@.len() > 0 && occurs_at(haystack@, needle@, s as int) && e == s + needle@.len()
                && forall|b: int| 0 <= b < s ==> !occurs_at(haystack@, needle@, b),
            None => needle@.len() == 0 || !contains_spec(haystack@, needle@),
        },
{
    let n = chars_of(needle);
    if n.len() == 0 {
        return None;
    }
    let h = chars_of(haystack);
    match find_chars(h.as_slice(), n.as_slice()) {
        Some(at) => {
            let hl = h.len();
            proof {
                assert(at + n@.len() <= hl);
            }
            Some((at, at + n.len()))
        },
        None => None,
    }
}

/// Whether `r` is the character range of parameter `index` in the label of
/// `signature`: none without such a parameter; for offsets, the offsets when
/// they lie in the label; for text, the first occurrence of the trimmed,
/// non-empty text.
pub open spec fn param_range_matches(signature: SignatureInformation, index: int, r: Option<(usize, usize)>) -> bool {
    match signature.parameters {
        Some(ps) => if 0 <= index < ps@.len() {
            match ps@[index].label {
                ParameterLabel::Simple(t) => match r {
                    Some((s, e)) => trim_spec(t@).len() > 0 && occurs_at(signature.label@, trim_spec(t@), s as int)
                        && e == s + trim_spec(t@).len() && forall|b: int|
                        0 <= b < s ==> !occurs_at(signature.label@, trim_spec(t@), b),
                    None => trim_spec(t@).len() == 0 || !contains_spec(signature.label@, trim_spec(t@)),
                },
                ParameterLabel::LabelOffsets(a, b) => r == if a <= b && b <= signature.label@.len() {
                    Some((a as usize, b as usize))
                } else {
                    None
                },
            }
        } else {
            r is None
        },
        None => r is None,
    }
}

/// The character range of parameter `index` in a signature label: its
/// offsets if they lie in the label, or where its (trimmed, non-empty)
/// text first occurs.
pub fn active_parameter_char_range(signature: &SignatureInformation, active_parameter_index: usize) -> (r: Option<
    (usize, usize),
>)
    requires
        label_fits(*signature, active_parameter_index as int),
    ensures
        match r {
            Some((s, e)) => s <= e <= signature.label@.len() && (signature.parameters matches Some(ps)
                && active_parameter_index < ps@.len()),
            None => true,
        },
        match signature.parameters {
            Some(ps) => active_parameter_index < ps@.len() ==> match ps@[active_parameter_index as int].label {
                ParameterLabel::Simple(t) => match r {
                    Some((s, e)) => trim_spec(t@).len() > 0 && occurs_at(signature.label@, trim_spec(t@), s as int)
                        && e == s + trim_spec(t@).len() && forall|b: int|
                        0 <= b < s ==> !occurs_at(signature.label@, trim_spec(t@), b),
                    None => trim_spec(t@).len() == 0 || !contains_spec(signature.label@, trim_spec(t@)),
                },
                ParameterLabel::LabelOffsets(a, b) => r == if a <= b && b <= signature.label@.len() {
                    Some((a as usize, b as usize))
                } else {
                    None
                },
            },
            None => r is None,
        },
        signature.parameters is None ==> r is None,
        param_range_matches(*signature, active_parameter_index as int, r),
{
    let params = match &signature.parameters {
        Some(ps) => ps,
        None => return None,
    };
    if active_parameter_index >= params.len() {
        return None;
    }
    match &params[active_parameter_index].label {
        ParameterLabel::Simple(text) => {
            let trimmed = string_of(trim_chars(text.as_str()).as_slice());
            if trimmed.as_str().is_empty() {
                return None;
            }
            match find_substring_char_range(signature.label.as_str(), trimmed.as_str()) {
                Some((s, e)) => Some((s, e)),
                None => None,
            }
        },
        ParameterLabel::LabelOffsets(start, end) => {
            let start = *start as usize;
            let end = *end as usize;
            let label_chars = chars_of(signature.label.as_str()).len();
            if start <= end && end <= label_chars {
                Some((start, end))
            } else {
                None
            }
        },
    }
}

/// Decoded signature help from one server.
#[derive(Debug, Clone, PartialEq, Eq)]
pub struct LspSignatureHelpContents {
    pub server_id: String,
    pub signature_help: SignatureHelp,
}

impl LspSignatureHelpContents {
    pub fn new(server_id: String, signature_help: SignatureHelp) -> (r: Self)
        ensures
            r.server_id == server_id,
            r.signature_help == signature_help,
    {
        LspSignatureHelpContents { server_id, signature_help }
    }

    pub fn server_id(&self) -> (r: &str)
        ensures
            r@ == self.server_id@,
    {
        self.server_id.as_str()
    }

    /// The markdown of the help, empty when there is none.
    pub fn markdown_text(&self, language: Option<&str>) -> (r: String)
        ensures
            r@ == match signature_markdown_spec(
                self.signature_help,
                match language {
                    Some(l) => l@,
                    None => Seq::empty(),
                },
            ) {
                Some(t) => t,
                None => Seq::empty(),
            },
    {
        match signature_help_markdown(&self.signature_help, language) {
            Some(t) => t,
            None => String::new(),
        }
    }

    /// The active signature and the character range of its active parameter.
    pub fn active_parameter_range(&self) -> (r: Option<LspSignatureActiveParameter>)
        requires
            self.signature_help.signatures@.len() > 0 ==> match active_parameter_spec(self.signature_help) {
                Some(p) => label_fits(
                    self.signature_help.signatures@[active_signature_spec(self.signature_help)],
                    p as int,
                ),
                None => true,
            },
        ensures
            match r {
                Some(ap) => self.signature_help.signatures@.len() > 0 && ap.signature_index
                    == active_signature_spec(self.signature_help) && ap.label@
                    == self.signature_help.signatures@[ap.signature_index as int].label@
                    && active_parameter_spec(self.signature_help) is Some && ap.start <= ap.end
                    <= ap.label@.len(),
                None => true,
            },
            self.signature_help.signatures@.len() == 0 ==> r is None,
            self.signature_help.signatures@.len() > 0 ==> match active_parameter_spec(self.signature_help) {
                None => r is None,
                Some(p) => param_range_matches(
                    self.signature_help.signatures@[active_signature_spec(self.signature_help)],
                    p as int,
                    match r {
                        Some(ap) => Some((ap.start, ap.end)),
                        None => None,
                    },
                ),
            },
    {
        let help = &self.signature_help;
        if help.signatures.len() == 0 {
            return None;
        }
        let a = active_signature_index(help);
        let sig = &help.signatures[a];
        let p = match sig.active_parameter {
            Some(p) => p,
            None => match help.active_parameter {
                Some(p) => p,
                None => return None,
            },
        };
        let (start, end) = match active_parameter_char_range(sig, p as usize) {
            Some(r) => r,
            None => return None,
        };
        Some(LspSignatureActiveParameter { signature_index: a, label: owned(sig.label.as_str()), start, end })
    }
}


/// Signature help from a server, kept only when it renders to some text.
pub fn signature_help_contents(server_id: &str, help: SignatureHelp) -> (r: Option<LspSignatureHelpContents>)
    ensures
        match r {
            Some(c) => c.server_id@ == server_id@ && c.signature_help == help && signature_markdown_spec(
                help,
                Seq::empty(),
            ) is Some,
            None => signature_markdown_spec(help, Seq::empty()) is None,
        },
{
    match signature_help_markdown(&help, None) {
        Some(_) => Some(LspSignatureHelpContents::new(server_id.to_owned(), help)),
        None => None,
    }
}

} // verus!
