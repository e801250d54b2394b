//! `file://` URIs: percent-encoding of a path's UTF-8 bytes and the decoding
//! back to a path.
use vstd::prelude::*;
use vstd::utf8::{encode_utf8, valid_utf8, decode_utf8, is_ascii_chars};
use crate::strings::{chars_of, push_char, string_of};
use crate::paths::PathStyle;

verus! {

/// The path with every backslash written as a slash.
pub open spec fn slashes(p: Seq<char>) -> Seq<char> {
    p.map_values(|c: char| if c == '\\' { '/' } else { c })
}

/// Bytes kept as they are in a file URI: ASCII letters, digits and `/:-._~`.
pub open spec fn uri_plain_byte(b: u8) -> bool {
    (0x30 <= b <= 0x39) || (0x41 <= b <= 0x5a) || (0x61 <= b <= 0x7a) || b == 0x2f || b == 0x3a
        || b == 0x2d || b == 0x2e || b == 0x5f || b == 0x7e
}

/// The upper-case hexadecimal digit of `d`.
pub open spec fn hex_digit(d: int) -> char {
    if d < 10 {
        ((0x30 + d) as u8) as char
    } else {
        ((0x41 + d - 10) as u8) as char
    }
}

/// How one byte is written in a file URI.
pub open spec fn encode_byte(b: u8) -> Seq<char> {
    if uri_plain_byte(b) {
        seq![b as char]
    } else {
        seq!['%', hex_digit((b / 16) as int), hex_digit((b % 16) as int)]
    }
}

pub open spec fn encode_bytes(bs: Seq<u8>) -> Seq<char>
    decreases bs.len(),
{
    if bs.len() == 0 {
        Seq::empty()
    } else {
        encode_bytes(bs.drop_last()) + encode_byte(bs.last())
    }
}

/// The `file://` URI of a path: slashes for backslashes, a leading slash
/// where the path has none, every other byte percent-encoded.
pub open spec fn file_uri_spec(path: Seq<char>) -> Seq<char> {
    let raw = slashes(path);
    let lead: Seq<char> = if raw.len() > 0 && raw[0] == '/' {
        Seq::empty()
    } else {
        seq!['/']
    };
    "file://"@ + lead + encode_bytes(encode_utf8(raw))
}

fn hex_digit_exec(d: u8) -> (c: char)
    requires
        d < 16,
    ensures
        c == hex_digit(d as int),
{
    if d < 10 {
        (0x30u8 + d) as char
    } else {
        (0x41u8 + d - 10) as char
    }
}

fn slashes_exec(path: &str) -> (r: Vec<char>)
    ensures
        r@ == slashes(path@),
{
    let cs = chars_of(path);
    let mut out: Vec<char> = Vec::new();
    let mut i: usize = 0;
    while i < cs.len()
        invariant
            cs@ == path@,
            i <= cs@.len(),
            out@ == slashes(cs@.take(i as int)),
        decreases cs@.len() - i,
    {
        let c = cs[i];
        out.push(if c == '\\' { '/' } else { c });
        proof {
            assert(slashes(cs@.take(i + 1)) =~= slashes(cs@.take(i as int)).push(
                if c == '\\' { '/' } else { c },
            ));
        }
        i += 1;
    }
    proof {
        assert(cs@.take(cs@.len() as int) =~= cs@);
    }
    out
}

/// The `file://` URI of `path`.
pub fn path_to_file_uri(path: &str) -> (uri: String)
    ensures
        uri@ == file_uri_spec(path@),
{
    let raw_chars = slashes_exec(path);
    let raw = string_of(raw_chars.as_slice());
    let mut uri = string_of(chars_of("file://").as_slice());
    proof {
        reveal_strlit("file://");
    }
    if !(raw_chars.len() > 0 && raw_chars[0] == '/') {
        push_char(&mut uri, '/');
    }
    let ghost head = uri@;
    let bytes = raw.as_str().as_bytes();
    let mut i: usize = 0;
    while i < bytes.len()
        invariant
            bytes@ == encode_utf8(raw@),
            i <= bytes@.len(),
            uri@ == head + encode_bytes(bytes@.take(i as int)),
        decreases bytes@.len() - i,
    {
        let b = bytes[i];
        proof {
            assert(bytes@.take(i + 1).drop_last() =~= bytes@.take(i as int));
        }
        if (0x30 <= b && b <= 0x39) || (0x41 <= b && b <= 0x5a) || (0x61 <= b && b <= 0x7a) || b
            == 0x2f || b == 0x3a || b == 0x2d || b == 0x2e || b == 0x5f || b == 0x7e {
            push_char(&mut uri, b as char);
            proof {
                assert(uri@ =~= head + encode_bytes(bytes@.take(i + 1)));
            }
        } else {
            push_char(&mut uri, '%');
            push_char(&mut uri, hex_digit_exec(b / 16));
            push_char(&mut uri, hex_digit_exec(b % 16));
            proof {
                assert(uri@ =~= head + encode_bytes(bytes@.take(i + 1)));
            }
        }
        i += 1;
    }
    proof {
        assert(bytes@.take(bytes@.len() as int) =~= bytes@);
    }
    uri
}

/// The value of an ASCII hexadecimal digit.
pub open spec fn hex_value(b: u8) -> Option<u8> {
    if 0x30 <= b <= 0x39 {
        Some((b - 0x30) as u8)
    } else if 0x61 <= b <= 0x66 {
        Some((b - 0x61 + 10) as u8)
    } else if 0x41 <= b <= 0x46 {
        Some((b - 0x41 + 10) as u8)
    } else {
        None
    }
}

/// The byte that the two characters after a `%` stand for, read as a
/// base-16 `u8` (which also takes a leading `+`).
pub open spec fn escape_value(high: u8, low: u8) -> Option<u8> {
    if high == 0x2b {
        hex_value(low)
    } else {
        match (hex_value(high), hex_value(low)) {
            (Some(h), Some(l)) => Some((h * 16 + l) as u8),
            _ => None,
        }
    }
}

/// Percent-decoding of bytes: a `%` followed by two bytes that read as a
/// byte is replaced by it; everything else is kept.
pub open spec fn percent_decode_bytes(bs: Seq<u8>) -> Seq<u8>
    decreases bs.len(),
{
    if bs.len() == 0 {
        Seq::empty()
    } else if bs[0] == 0x25 && bs.len() >= 3 && escape_value(bs[1], bs[2]) is Some {
        seq![escape_value(bs[1], bs[2])->0] + percent_decode_bytes(bs.skip(3))
    } else {
        seq![bs[0]] + percent_decode_bytes(bs.skip(1))
    }
}

fn hex_value_exec(b: u8) -> (r: Option<u8>)
    ensures
        r == hex_value(b),
{
    if 0x30 <= b && b <= 0x39 {
        Some(b - 0x30)
    } else if 0x61 <= b && b <= 0x66 {
        Some(b - 0x61 + 10)
    } else if 0x41 <= b && b <= 0x46 {
        Some(b - 0x41 + 10)
    } else {
        None
    }
}

fn escape_value_exec(high: u8, low: u8) -> (r: Option<u8>)
    ensures
        r == escape_value(high, low),
{
    if high == 0x2b {
        hex_value_exec(low)
    } else {
        match (hex_value_exec(high), hex_value_exec(low)) {
            (Some(h), Some(l)) => Some(h * 16 + l),
            _ => None,
        }
    }
}

/// What `String::from_utf8_lossy` gives for `bytes`.
pub uninterp spec fn utf8_lossy(bytes: Seq<u8>) -> Seq<char>;

/// Bytes read as UTF-8 text: the decoded characters where the bytes are
/// valid UTF-8, what `String::from_utf8_lossy` makes of them elsewhere.
pub open spec fn lossy_text(bytes: Seq<u8>) -> Seq<char> {
    if valid_utf8(bytes) {
        decode_utf8(bytes)
    } else {
        utf8_lossy(bytes)
    }
}

/// `String::from_utf8_lossy(bytes).into_owned()`. Its result is named by
/// `utf8_lossy`; of valid UTF-8 it is the decoded text, as the std
/// documentation states. How invalid sequences are replaced is left to the
/// name.
#[verifier::external_body]
fn string_from_utf8_lossy(bytes: &[u8]) -> (s: String)
    ensures
        s@ == utf8_lossy(bytes@),
        valid_utf8(bytes@) ==> s@ == decode_utf8(bytes@),
{
    String::from_utf8_lossy(bytes).into_owned()
}

/// Percent-decodes `raw` and reads the bytes as UTF-8, replacing what is not.
pub fn percent_decode(raw: &str) -> (r: String)
    ensures
        r@ == lossy_text(percent_decode_bytes(encode_utf8(raw@))),
{
    let bytes = raw.as_bytes();
    let mut decoded: Vec<u8> = Vec::new();
    let mut index: usize = 0;
    proof {
        assert(bytes@.skip(0) =~= bytes@);
        assert(decoded@ + percent_decode_bytes(bytes@) =~= percent_decode_bytes(bytes@));
    }
    while index < bytes.len()
        invariant
            bytes@ == encode_utf8(raw@),
            index <= bytes@.len(),
            decoded@ + percent_decode_bytes(bytes@.skip(index as int)) == percent_decode_bytes(
                bytes@,
            ),
        decreases bytes@.len() - index,
    {
        let ghost rest = bytes@.skip(index as int);
        if bytes[index] == 0x25 && bytes.len() - index > 2 {
            match escape_value_exec(bytes[index + 1], bytes[index + 2]) {
                Some(byte) => {
                    proof {
                        assert(rest[0] == 0x25 && rest[1] == bytes@[index + 1] && rest[2]
                            == bytes@[index + 2]);
                        assert(rest.skip(3) =~= bytes@.skip(index + 3));
                        assert(decoded@.push(byte) + percent_decode_bytes(rest.skip(3))
                            =~= decoded@ + percent_decode_bytes(rest));
                    }
                    decoded.push(byte);
                    index += 3;
                    continue ;
                },
                None => {},
            }
        }
        proof {
            assert(rest[0] == bytes@[index as int]);
            assert(rest.skip(1) =~= bytes@.skip(index + 1));
            assert(decoded@.push(bytes@[index as int]) + percent_decode_bytes(rest.skip(1))
                =~= decoded@ + percent_decode_bytes(rest));
        }
        decoded.push(bytes[index]);
        index += 1;
    }
    proof {
        assert(bytes@.skip(bytes@.len() as int) =~= Seq::<u8>::empty());
        assert(decoded@ + Seq::<u8>::empty() =~= decoded@);
    }
    string_from_utf8_lossy(decoded.as_slice())
}

/// The path of a decoded `file://` URI body: on Windows a leading slash
/// before a drive letter is dropped and slashes become backslashes.
pub open spec fn uri_path_spec(decoded: Seq<char>, style: PathStyle) -> Seq<char> {
    if style == PathStyle::Windows {
        let trimmed = if decoded.len() > 0 && decoded[0] == '/' && encode_utf8(decoded.skip(1)).len()
            > 1 && encode_utf8(decoded.skip(1))[1] == 0x3a {
            decoded.skip(1)
        } else {
            decoded
        };
        trimmed.map_values(|c: char| if c == '/' { '\\' } else { c })
    } else {
        decoded
    }
}

pub open spec fn has_file_scheme(uri: Seq<char>) -> bool {
    uri.len() >= 7 && uri.take(7) == "file://"@
}

/// The path that a `file://` URI names, under the given path rules; `None`
/// for any other URI.
pub open spec fn file_uri_to_path_spec(uri: Seq<char>, style: PathStyle) -> Option<Seq<char>> {
    if has_file_scheme(uri) {
        Some(
            uri_path_spec(lossy_text(percent_decode_bytes(encode_utf8(uri.skip(7)))), style),
        )
    } else {
        None
    }
}

fn backslashes_exec(cs: &[char]) -> (r: String)
    ensures
        r@ == cs@.map_values(|c: char| if c == '/' { '\\' } else { c }),
{
    let mut out: Vec<char> = Vec::new();
    let mut i: usize = 0;
    while i < cs.len()
        invariant
            i <= cs@.len(),
            out@ == cs@.take(i as int).map_values(|c: char| if c == '/' { '\\' } else { c }),
        decreases cs@.len() - i,
    {
        let c = cs[i];
        out.push(if c == '/' { '\\' } else { c });
        proof {
            assert(cs@.take(i + 1).map_values(|c: char| if c == '/' { '\\' } else { c })
                =~= cs@.take(i as int).map_values(|c: char| if c == '/' { '\\' } else { c }).push(
                if c == '/' { '\\' } else { c },
            ));
        }
        i += 1;
    }
    proof {
        assert(cs@.take(cs@.len() as int) =~= cs@);
    }
    string_of(out.as_slice())
}

/// The path that a `file://` URI names under the given path rules.
pub fn file_uri_to_path_in_style(uri: &str, style: PathStyle) -> (r: Option<String>)
    ensures
        match r {
            Some(p) => file_uri_to_path_spec(uri@, style) == Some(p@),
            None => file_uri_to_path_spec(uri@, style) is None,
        },
{
    let cs = chars_of(uri);
    let scheme = chars_of("file://");
    proof {
        reveal_strlit("file://");
    }
    if cs.len() < 7 || !crate::strings::matches_at(cs.as_slice(), scheme.as_slice(), 0) {
        proof {
            if cs@.len() >= 7 {
                assert(!(cs@.take(7) =~= "file://"@) || crate::strings::occurs_at(cs@, scheme@, 0));
            }
        }
        return None;
    }
    proof {
        assert(cs@.take(7) =~= "file://"@);
    }
    let raw = string_of(vstd::slice::slice_subrange(cs.as_slice(), 7, cs.len()));
    proof {
        assert(raw@ =~= uri@.skip(7));
    }
    let decoded = percent_decode(raw.as_str());
    if style == PathStyle::Windows {
        let dc = chars_of(decoded.as_str());
        if dc.len() > 0 && dc[0] == '/' {
            let rest = string_of(vstd::slice::slice_subrange(dc.as_slice(), 1, dc.len()));
            let rb = rest.as_str().as_bytes();
            proof {
                assert(rest@ =~= decoded@.skip(1));
            }
            if rb.len() > 1 && rb[1] == 0x3a {
                return Some(backslashes_exec(vstd::slice::slice_subrange(dc.as_slice(), 1, dc.len())));
            }
        }
        Some(backslashes_exec(dc.as_slice()))
    } else {
        Some(decoded)
    }
}

/// The path that a `file://` URI names, under the host's path rules.
pub fn file_uri_to_path(uri: &str) -> (r: Option<String>)
    ensures
        match r {
            Some(p) => file_uri_to_path_spec(uri@, PathStyle::Posix) == Some(p@)
                || file_uri_to_path_spec(uri@, PathStyle::Windows) == Some(p@),
            None => file_uri_to_path_spec(uri@, PathStyle::Posix) is None,
        },
{
    file_uri_to_path_in_style(uri, crate::paths::host_path_style())
}

/// The bytes of ASCII characters.
pub open spec fn ascii_bytes(cs: Seq<char>) -> Seq<u8> {
    cs.map_values(|c: char| c as u8)
}

proof fn lemma_encode_bytes_concat(a: Seq<u8>, b: Seq<u8>)
    ensures
        encode_bytes(a + b) == encode_bytes(a) + encode_bytes(b),
    decreases b.len(),
{
    if b.len() == 0 {
        assert(a + b =~= a);
        assert(encode_bytes(a) + encode_bytes(b) =~= encode_bytes(a));
    } else {
        lemma_encode_bytes_concat(a, b.drop_last());
        assert((a + b).drop_last() =~= a + b.drop_last());
        assert((a + b).last() == b.last());
        assert(encode_bytes(a + b) =~= encode_bytes(a) + encode_bytes(b));
    }
}

proof fn lemma_encode_bytes_ascii(bs: Seq<u8>)
    ensures
        is_ascii_chars(encode_bytes(bs)),
    decreases bs.len(),
{
    if bs.len() > 0 {
        lemma_encode_bytes_ascii(bs.drop_last());
        let prev = encode_bytes(bs.drop_last());
        let last = encode_byte(bs.last());
        assert(is_ascii_chars(last));
        assert forall|i| 0 <= i < encode_bytes(bs).len() implies '\0' <= #[trigger] encode_bytes(
            bs,
        )[i] <= '\u{7f}' by {
            if i < prev.len() {
                assert(encode_bytes(bs)[i] == prev[i]);
            } else {
                assert(encode_bytes(bs)[i] == last[i - prev.len()]);
            }
        }
    }
}

proof fn lemma_encode_utf8_concat(a: Seq<char>, b: Seq<char>)
    ensures
        encode_utf8(a + b) == encode_utf8(a) + encode_utf8(b),
    decreases a.len(),
{
    if a.len() == 0 {
        assert(a + b =~= b);
        assert(encode_utf8(a) + encode_utf8(b) =~= encode_utf8(b));
    } else {
        lemma_encode_utf8_concat(a.drop_first(), b);
        assert((a + b).drop_first() =~= a.drop_first() + b);
        assert((a + b)[0] == a[0]);
        assert(encode_utf8(a + b) =~= encode_utf8(a) + encode_utf8(b));
    }
}

proof fn lemma_ascii_utf8(cs: Seq<char>)
    requires
        is_ascii_chars(cs),
    ensures
        encode_utf8(cs) == ascii_bytes(cs),
{
    vstd::utf8::is_ascii_chars_encode_utf8(cs);
    assert(encode_utf8(cs) =~= ascii_bytes(cs));
}

proof fn lemma_decode_encoded(bs: Seq<u8>)
    ensures
        percent_decode_bytes(ascii_bytes(encode_bytes(bs))) == bs,
    decreases bs.len(),
{
    if bs.len() == 0 {
        assert(ascii_bytes(encode_bytes(bs)) =~= Seq::<u8>::empty());
    } else {
        let b = bs[0];
        let rest = bs.skip(1);
        assert(bs =~= seq![b] + rest);
        lemma_encode_bytes_concat(seq![b], rest);
        assert(seq![b].drop_last() =~= Seq::<u8>::empty());
        assert(seq![b].last() == b);
        assert(encode_bytes(Seq::<u8>::empty()) =~= Seq::<char>::empty());
        assert(encode_bytes(seq![b]) =~= encode_byte(b));
        lemma_decode_encoded(rest);
        let tail = ascii_bytes(encode_bytes(rest));
        let all = ascii_bytes(encode_bytes(bs));
        assert(all =~= ascii_bytes(encode_byte(b)) + tail);
        if uri_plain_byte(b) {
            assert(all[0] == b);
            assert(all.skip(1) =~= tail);
        } else {
            let h = hex_digit((b / 16) as int) as u8;
            let l = hex_digit((b % 16) as int) as u8;
            assert(all[0] == 0x25 && all[1] == h && all[2] == l);
            assert(hex_value(h) == Some((b / 16) as u8));
            assert(hex_value(l) == Some((b % 16) as u8));
            assert(escape_value(h, l) == Some(b));
            assert(all.skip(3) =~= tail);
        }
        assert(percent_decode_bytes(all) =~= bs);
    }
}

/// What the percent-decoding of a URI body built by `encode_bytes` yields:
/// the encoded bytes themselves.
proof fn lemma_body_decodes(bs: Seq<u8>)
    ensures
        percent_decode_bytes(encode_utf8(encode_bytes(bs))) == bs,
{
    lemma_encode_bytes_ascii(bs);
    lemma_ascii_utf8(encode_bytes(bs));
    lemma_decode_encoded(bs);
}

/// A rooted path without backslashes comes back unchanged from its file
/// URI under POSIX path rules.
pub proof fn law_file_uri_roundtrip_posix(path: Seq<char>)
    requires
        path.len() > 0,
        path[0] == '/',
        forall|i: int| 0 <= i < path.len() ==> path[i] != '\\',
    ensures
        file_uri_to_path_spec(file_uri_spec(path), PathStyle::Posix) == Some(path),
{
    reveal_strlit("file://");
    assert(slashes(path) =~= path);
    let e = encode_utf8(path);
    let uri = file_uri_spec(path);
    assert(uri =~= "file://"@ + encode_bytes(e));
    assert(uri.take(7) =~= "file://"@);
    assert(uri.skip(7) =~= encode_bytes(e));
    lemma_body_decodes(e);
    vstd::utf8::encode_utf8_valid_utf8(path);
    vstd::utf8::encode_utf8_decode_utf8(path);
}

/// A Windows drive path (`C:` and what follows, no forward slashes) comes
/// back unchanged from its file URI under Windows path rules.
pub proof fn law_file_uri_roundtrip_windows_drive(path: Seq<char>)
    requires
        path.len() >= 2,
        path[1] == ':',
        '\0' <= path[0] <= '\u{7f}',
        path[0] != '\\',
        forall|i: int| 0 <= i < path.len() ==> path[i] != '/',
    ensures
        file_uri_to_path_spec(file_uri_spec(path), PathStyle::Windows) == Some(path),
{
    reveal_strlit("file://");
    let raw = slashes(path);
    let e = encode_utf8(raw);
    let uri = file_uri_spec(path);
    assert(raw[0] == path[0]);
    assert(uri =~= "file://"@ + seq!['/'] + encode_bytes(e));
    assert(uri.take(7) =~= "file://"@);
    let body = uri.skip(7);
    assert(body =~= seq!['/'] + encode_bytes(e));
    lemma_encode_utf8_concat(seq!['/'], encode_bytes(e));
    lemma_ascii_utf8(seq!['/']);
    lemma_body_decodes(e);
    let x = encode_utf8(encode_bytes(e));
    assert(ascii_bytes(seq!['/']) =~= seq![0x2fu8]);
    assert(encode_utf8(body) =~= seq![0x2fu8] + x);
    assert((seq![0x2fu8] + x).skip(1) =~= x);
    assert(percent_decode_bytes(encode_utf8(body)) =~= seq![0x2fu8] + e);
    let slashed = seq!['/'] + raw;
    lemma_encode_utf8_concat(seq!['/'], raw);
    assert(encode_utf8(slashed) =~= seq![0x2fu8] + e);
    vstd::utf8::encode_utf8_valid_utf8(slashed);
    vstd::utf8::encode_utf8_decode_utf8(slashed);
    let decoded = lossy_text(percent_decode_bytes(encode_utf8(body)));
    assert(decoded == slashed);
    assert(decoded.skip(1) =~= raw);
    assert(raw =~= raw.take(2) + raw.skip(2));
    lemma_encode_utf8_concat(raw.take(2), raw.skip(2));
    assert(is_ascii_chars(raw.take(2)));
    lemma_ascii_utf8(raw.take(2));
    assert(encode_utf8(raw)[1] == 0x3a);
    assert(raw.map_values(|c: char| if c == '/' { '\\' } else { c }) =~= path);
}

} // verus!
