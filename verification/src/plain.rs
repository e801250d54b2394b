//! Plain-text rendering of hover and signature help: the lines shown in a
//! text popup, blank lines dropped and trailing whitespace trimmed.
use vstd::prelude::*;
use crate::strings::{
    owned, chars_of, string_of, split_on, split_chars, char_views, trim_end_spec, trim_end_chars, trim_spec,
    trim_chars, decimal, u64_decimal,
};
use crate::json::{Json, JsonValue, model_items, lemma_model_items};
use crate::types::views;
use crate::hover::{
    Documentation, ParameterLabel, SignatureInformation, SignatureHelp, active_signature_spec,
    active_parameter_spec, parameter_doc,
};

verus! {

/// Nonempty lines only.
pub open spec fn nonempty_lines(ls: Seq<Seq<char>>) -> Seq<Seq<char>> {
    ls.filter(|l: Seq<char>| l.len() > 0)
}

/// The lines of `text` (split at line feeds), each without trailing
/// whitespace, empty ones dropped (`str::lines`, `trim_end`, filter).
pub open spec fn normalize_lines_spec(text: Seq<char>) -> Seq<Seq<char>> {
    nonempty_lines(split_on(text, '\n').map_values(|l: Seq<char>| trim_end_spec(l)))
}

proof fn lemma_nonempty_push(ls: Seq<Seq<char>>, l: Seq<char>)
    ensures
        nonempty_lines(ls.push(l)) == if l.len() > 0 {
            nonempty_lines(ls).push(l)
        } else {
            nonempty_lines(ls)
        },
{
    reveal(Seq::filter);
    assert(ls.push(l).drop_last() =~= ls);
}

pub fn normalize_lines(text: &str) -> (r: Vec<String>)
    ensures
        views(r@) == normalize_lines_spec(text@),
{
    let parts = split_chars(text, '\n');
    let ghost ps = char_views(parts@);
    let ghost trimmed = ps.map_values(|l: Seq<char>| trim_end_spec(l));
    let mut lines: Vec<String> = Vec::new();
    let mut i: usize = 0;
    proof {
        assert(trimmed.take(0) =~= Seq::<Seq<char>>::empty());
        reveal(Seq::filter);
        assert(views(lines@) =~= nonempty_lines(trimmed.take(0)));
    }
    while i < parts.len()
        invariant
            ps == char_views(parts@),
            trimmed == ps.map_values(|l: Seq<char>| trim_end_spec(l)),
            i <= parts@.len(),
            views(lines@) == nonempty_lines(trimmed.take(i as int)),
        decreases parts@.len() - i,
    {
        let s = string_of(parts[i].as_slice());
        let line = string_of(trim_end_chars(s.as_str()).as_slice());
        proof {
            assert(trimmed.take(i + 1) =~= trimmed.take(i as int).push(line@));
            lemma_nonempty_push(trimmed.take(i as int), line@);
        }
        if !line.as_str().is_empty() {
            proof {
                assert(views(lines@.push(line)) =~= views(lines@).push(line@));
            }
            lines.push(line);
        } else {
            proof {
                assert(line@.len() == 0);
            }
        }
        i += 1;
    }
    proof {
        assert(trimmed.take(trimmed.len() as int) =~= trimmed);
    }
    lines
}

/// The text of a documentation block, by lines.
pub open spec fn documentation_lines_spec(d: Documentation) -> Seq<Seq<char>> {
    match d {
        Documentation::String(t) => normalize_lines_spec(t@),
        Documentation::MarkupContent { value, .. } => normalize_lines_spec(value@),
    }
}

pub fn documentation_lines(documentation: &Documentation) -> (r: Vec<String>)
    ensures
        views(r@) == documentation_lines_spec(*documentation),
{
    match documentation {
        Documentation::String(text) => normalize_lines(text.as_str()),
        Documentation::MarkupContent { value, .. } => normalize_lines(value.as_str()),
    }
}

/// The lines of hover contents given as JSON: a string's lines; the lines
/// of each entry of an array in turn; an object's `value` string, or else
/// `Language: …` for its `language` string; nothing otherwise.
pub open spec fn hover_json_lines(j: Json) -> Seq<Seq<char>>
    decreases j,
{
    match j {
        Json::Str(t) => normalize_lines_spec(t),
        Json::Array(vs) => hover_items_lines(vs),
        Json::Object(_) => match Json::str_opt(j.get("value"@)) {
            Some(v) => normalize_lines_spec(v),
            None => match Json::str_opt(j.get("language"@)) {
                Some(l) => seq!["Language: "@ + l],
                None => Seq::empty(),
            },
        },
        _ => Seq::empty(),
    }
}

/// The hover lines of each value in turn.
pub open spec fn hover_items_lines(vs: Seq<Json>) -> Seq<Seq<char>>
    decreases vs,
{
    if vs.len() == 0 {
        Seq::empty()
    } else {
        hover_items_lines(vs.drop_last()) + hover_json_lines(vs.last())
    }
}

fn append_lines(lines: &mut Vec<String>, more: Vec<String>)
    ensures
        views(final(lines)@) == views(old(lines)@) + views(more@),
{
    let mut more = more;
    let ghost a = lines@;
    let ghost b = more@;
    lines.append(&mut more);
    proof {
        assert(views(a + b) =~= views(a) + views(b));
    }
}

pub fn hover_lines(value: &JsonValue) -> (r: Vec<String>)
    ensures
        views(r@) == hover_json_lines(value.model()),
    decreases value,
{
    match value {
        JsonValue::String(text) => normalize_lines(text.as_str()),
        JsonValue::Array(items) => {
            proof {
                lemma_model_items(items@);
            }
            let ghost ms = model_items(items@);
            let mut lines: Vec<String> = Vec::new();
            let mut i: usize = 0;
            proof {
                assert(ms.take(0) =~= Seq::<Json>::empty());
                assert(views(lines@) =~= Seq::<Seq<char>>::empty());
            }
            while i < items.len()
                invariant
                    *value == JsonValue::Array(*items),
                    ms == model_items(items@),
                    ms.len() == items@.len(),
                    forall|k: int| 0 <= k < items@.len() ==> #[trigger] ms[k] == items@[k].model(),
                    i <= items@.len(),
                    views(lines@) == hover_items_lines(ms.take(i as int)),
                decreases items@.len() - i,
            {
                proof {
                    vstd::std_specs::vec::axiom_vec_index_decreases(*items, i as int);
                    assert(decreases_to!(*value => (*value)->Array_0));
                    assert(decreases_to!(*value => items@[i as int]));
                }
                let more = hover_lines(&items[i]);
                proof {
                    assert(ms.take(i + 1).drop_last() =~= ms.take(i as int));
                    assert(ms.take(i + 1).last() == items@[i as int].model());
                }
                append_lines(&mut lines, more);
                i += 1;
            }
            proof {
                assert(ms.take(ms.len() as int) =~= ms);
            }
            lines
        },
        JsonValue::Object(_) => {
            match value.get("value") {
                Some(JsonValue::String(text)) => return normalize_lines(text.as_str()),
                _ => {},
            }
            match value.get("language") {
                Some(JsonValue::String(language)) => {
                    let mut lines: Vec<String> = Vec::new();
                    lines.push(crate::strings::concat2("Language: ", language.as_str()));
                    proof {
                        assert(views(lines@) =~= seq!["Language: "@ + language@]);
                    }
                    lines
                },
                _ => Vec::new(),
            }
        },
        _ => Vec::new(),
    }
}

/// Characters `start..end` of `text`, when `start <= end <= ` its length.
pub open spec fn slice_chars_spec(text: Seq<char>, start: int, end: int) -> Option<Seq<char>> {
    if start <= end && end <= text.len() {
        Some(text.subrange(start, end))
    } else {
        None
    }
}

/// Characters `start..end` of `text`, counted in characters.
pub fn string_slice_by_chars(text: &str, start: usize, end: usize) -> (r: Option<String>)
    ensures
        crate::types::opt_view(r) == slice_chars_spec(text@, start as int, end as int),
{
    if start > end {
        return None;
    }
    let cs = chars_of(text);
    if end > cs.len() {
        return None;
    }
    let s = string_of(&cs.as_slice()[start..end]);
    proof {
        assert(s@ =~= text@.subrange(start as int, end as int));
    }
    Some(s)
}

/// The UTF-8 length of a character sequence.
pub open spec fn utf8_len(s: Seq<char>) -> int {
    vstd::utf8::encode_utf8(s).len() as int
}

/// The UTF-8 width of one character.
pub open spec fn utf8_width(c: char) -> int {
    vstd::utf8::encode_scalar(c as u32).len() as int
}

proof fn lemma_utf8_len_push(s: Seq<char>, c: char)
    ensures
        utf8_len(s.push(c)) == utf8_len(s) + utf8_width(c),
    decreases s.len(),
{
    let t = s.push(c);
    if s.len() == 0 {
        assert(t.drop_first() =~= Seq::<char>::empty());
        assert(vstd::utf8::encode_utf8(t.drop_first()) =~= Seq::<u8>::empty());
        assert(vstd::utf8::encode_utf8(t) == vstd::utf8::encode_scalar(c as u32) + Seq::<u8>::empty());
        assert(vstd::utf8::encode_utf8(s) =~= Seq::<u8>::empty());
    } else {
        assert(t.drop_first() =~= s.drop_first().push(c));
        assert(t[0] == s[0]);
        lemma_utf8_len_push(s.drop_first(), c);
        assert(vstd::utf8::encode_utf8(t) == vstd::utf8::encode_scalar(s[0] as u32) + vstd::utf8::encode_utf8(
            s.drop_first().push(c),
        ));
        assert(vstd::utf8::encode_utf8(s) == vstd::utf8::encode_scalar(s[0] as u32) + vstd::utf8::encode_utf8(
            s.drop_first(),
        ));
    }
}

proof fn lemma_utf8_len_prefix(s: Seq<char>, k: int)
    requires
        0 <= k <= s.len(),
    ensures
        utf8_len(s.take(k)) <= utf8_len(s),
    decreases s.len() - k,
{
    if k < s.len() {
        lemma_utf8_len_prefix(s, k + 1);
        assert(s.take(k + 1) =~= s.take(k).push(s[k]));
        lemma_utf8_len_push(s.take(k), s[k]);
    } else {
        assert(s.take(k) =~= s);
    }
}

/// The byte offset of character `char_index` of `text`: the UTF-8 length
/// of the characters before it; the byte length for the index just past
/// the end; none beyond.
pub fn char_to_byte_offset(text: &str, char_index: usize) -> (r: Option<usize>)
    requires
        utf8_len(text@) <= usize::MAX,
    ensures
        r == if char_index <= text@.len() {
            Some(utf8_len(text@.take(char_index as int)) as usize)
        } else {
            None
        },
{
    let cs = chars_of(text);
    if char_index > cs.len() {
        return None;
    }
    let mut offset: usize = 0;
    let mut i: usize = 0;
    proof {
        assert(cs@.take(0) =~= Seq::<char>::empty());
    }
    while i < char_index
        invariant
            cs@ == text@,
            char_index <= cs@.len(),
            i <= char_index,
            utf8_len(text@) <= usize::MAX,
            offset == utf8_len(cs@.take(i as int)),
        decreases char_index - i,
    {
        let c = cs[i];
        proof {
            assert(cs@.take(i + 1) =~= cs@.take(i as int).push(c));
            lemma_utf8_len_push(cs@.take(i as int), c);
            lemma_utf8_len_prefix(cs@, i + 1);
        }
        let code = c as u32;
        let w: usize = if code <= 0x7F {
            1
        } else if code <= 0x7FF {
            2
        } else if code <= 0xFFFF && !(0xD800 <= code && code <= 0xDFFF) {
            3
        } else {
            4
        };
        offset = offset + w;
        i += 1;
    }
    Some(offset)
}

/// The text of a parameter label: its own text, or the characters it
/// points at in the signature label; trimmed, and none when empty.
pub open spec fn parameter_label_spec(label: ParameterLabel, signature_label: Seq<char>) -> Option<Seq<char>> {
    let raw = match label {
        ParameterLabel::Simple(t) => Some(t@),
        ParameterLabel::LabelOffsets(a, b) => slice_chars_spec(signature_label, a as int, b as int),
    };
    match raw {
        Some(t) => if trim_spec(t).len() > 0 {
            Some(trim_spec(t))
        } else {
            None
        },
        None => None,
    }
}

pub fn parameter_label_text(label: &ParameterLabel, signature_label: &str) -> (r: Option<String>)
    ensures
        crate::types::opt_view(r) == parameter_label_spec(*label, signature_label@),
{
    let raw = match label {
        ParameterLabel::Simple(text) => owned(text.as_str()),
        ParameterLabel::LabelOffsets(start, end) => {
            match string_slice_by_chars(signature_label, *start as usize, *end as usize) {
                Some(s) => s,
                None => return None,
            }
        },
    };
    let trimmed = string_of(trim_chars(raw.as_str()).as_slice());
    if !trimmed.as_str().is_empty() {
        Some(trimmed)
    } else {
        None
    }
}

/// The label of parameter `index` of a signature, if it has one.
pub open spec fn active_parameter_label_spec(sig: SignatureInformation, index: int) -> Option<Seq<char>> {
    match sig.parameters {
        Some(ps) => if 0 <= index < ps@.len() {
            parameter_label_spec(ps@[index].label, sig.label@)
        } else {
            None
        },
        None => None,
    }
}

pub fn active_parameter_label(signature: &SignatureInformation, active_parameter_index: usize) -> (r: Option<String>)
    ensures
        crate::types::opt_view(r) == active_parameter_label_spec(*signature, active_parameter_index as int),
{
    match &signature.parameters {
        Some(ps) => if active_parameter_index < ps.len() {
            parameter_label_text(&ps[active_parameter_index].label, signature.label.as_str())
        } else {
            None
        },
        None => None,
    }
}

/// The plain-text lines of signature help: the active signature's label;
/// `Overload i/n` when there are several; `Parameter: …` for the active
/// parameter's label; the active parameter's documentation; the
/// signature's documentation. Nothing when there is no signature.
pub open spec fn signature_help_lines_spec(help: SignatureHelp) -> Seq<Seq<char>> {
    let n = help.signatures@.len();
    if n == 0 {
        Seq::empty()
    } else {
        let i = active_signature_spec(help);
        let sig = help.signatures@[i];
        let p = active_parameter_spec(help);
        seq![sig.label@] + (if n > 1 {
            seq!["Overload "@ + decimal((i + 1) as nat) + "/"@ + decimal(n)]
        } else {
            Seq::empty()
        }) + (match p {
            Some(k) => match active_parameter_label_spec(sig, k as int) {
                Some(l) => seq!["Parameter: "@ + l],
                None => Seq::empty(),
            },
            None => Seq::empty(),
        }) + (match parameter_doc(sig, p) {
            Some(d) => documentation_lines_spec(d),
            None => Seq::empty(),
        }) + (match sig.documentation {
            Some(d) => documentation_lines_spec(d),
            None => Seq::empty(),
        })
    }
}

pub fn signature_help_lines(help: &SignatureHelp) -> (r: Vec<String>)
    ensures
        views(r@) == signature_help_lines_spec(*help),
{
    let n = help.signatures.len();
    if n == 0 {
        let r: Vec<String> = Vec::new();
        proof {
            assert(views(r@) =~= Seq::<Seq<char>>::empty());
        }
        return r;
    }
    let i: usize = match help.active_signature {
        Some(a) => if (a as usize) < n {
            a as usize
        } else {
            0
        },
        None => 0,
    };
    let sig = &help.signatures[i];
    let p: Option<u32> = match sig.active_parameter {
        Some(k) => Some(k),
        None => help.active_parameter,
    };
    let mut lines: Vec<String> = Vec::new();
    lines.push(owned(sig.label.as_str()));
    proof {
        assert(views(lines@) =~= seq![sig.label@]);
    }
    let mut overload: Vec<String> = Vec::new();
    if n > 1 {
        let mut t = owned("Overload ");
        let a = u64_decimal((i + 1) as u64);
        t.append(a.as_str());
        t.append("/");
        let b = u64_decimal(n as u64);
        t.append(b.as_str());
        overload.push(t);
    }
    append_lines(&mut lines, overload);
    let mut parameter: Vec<String> = Vec::new();
    match p {
        Some(k) => match active_parameter_label(sig, k as usize) {
            Some(l) => parameter.push(crate::strings::concat2("Parameter: ", l.as_str())),
            None => {},
        },
        None => {},
    }
    append_lines(&mut lines, parameter);
    let mut parameter_docs: Vec<String> = Vec::new();
    match (p, &sig.parameters) {
        (Some(k), Some(ps)) => if (k as usize) < ps.len() {
            match &ps[k as usize].documentation {
                Some(d) => {
                    parameter_docs = documentation_lines(d);
                },
                None => {},
            }
        },
        _ => {},
    }
    append_lines(&mut lines, parameter_docs);
    let signature_docs: Vec<String> = match &sig.documentation {
        Some(d) => documentation_lines(d),
        None => Vec::new(),
    };
    append_lines(&mut lines, signature_docs);
    proof {
        let w = signature_help_lines_spec(*help);
        assert(views(lines@) =~= w);
    }
    lines
}

} // verus!
