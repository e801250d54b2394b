//! JSON-RPC framing over a byte stream: the `Content-Length` header that
//! precedes each message, as written and as read back line by line.
use vstd::prelude::*;
use crate::strings::{chars_of, string_of, owned, concat3, trim_spec, trim_chars, u64_decimal, decimal, digit_char, is_space};
use crate::types::LspClientError;

verus! {

/// Whether `c` is an ASCII decimal digit.
pub open spec fn is_digit(c: char) -> bool {
    '0' <= c && c <= '9'
}

pub open spec fn all_digits(s: Seq<char>) -> bool {
    forall|i: int| 0 <= i < s.len() ==> is_digit(#[trigger] s[i])
}

/// The number written by decimal digits.
pub open spec fn digits_value(s: Seq<char>) -> nat
    decreases s.len(),
{
    if s.len() == 0 {
        0
    } else {
        digits_value(s.drop_last()) * 10 + ((s.last() as u32 - '0' as u32) as nat)
    }
}

/// `str::parse::<usize>`: an optional `+`, then at least one decimal digit,
/// the value fitting in `usize`.
pub open spec fn parse_usize_spec(s: Seq<char>) -> Option<usize> {
    let digits = if s.len() > 0 && s[0] == '+' {
        s.skip(1)
    } else {
        s
    };
    if digits.len() > 0 && all_digits(digits) && digits_value(digits) <= usize::MAX {
        Some(digits_value(digits) as usize)
    } else {
        None
    }
}

proof fn lemma_digits_value_monotone(s: Seq<char>, i: int, j: int)
    requires
        0 <= i <= j <= s.len(),
    ensures
        digits_value(s.take(i)) <= digits_value(s.take(j)),
    decreases j - i,
{
    if i < j {
        lemma_digits_value_monotone(s, i, j - 1);
        assert(s.take(j).drop_last() =~= s.take(j - 1));
    }
}

pub fn parse_usize(s: &str) -> (r: Option<usize>)
    ensures
        r == parse_usize_spec(s@),
{
    let cs = chars_of(s);
    let start: usize = if cs.len() > 0 && cs[0] == '+' {
        1
    } else {
        0
    };
    let ghost digits = if s@.len() > 0 && s@[0] == '+' {
        s@.skip(1)
    } else {
        s@
    };
    proof {
        assert(digits =~= cs@.skip(start as int));
    }
    if start >= cs.len() {
        return None;
    }
    let mut acc: u128 = 0;
    let mut i: usize = start;
    while i < cs.len()
        invariant
            cs@ == s@,
            digits == cs@.skip(start as int),
            digits == (if s@.len() > 0 && s@[0] == '+' {
                s@.skip(1)
            } else {
                s@
            }),
            start <= i <= cs@.len(),
            all_digits(digits.take(i - start)),
            acc == digits_value(digits.take(i - start)),
            acc <= usize::MAX,
        decreases cs@.len() - i,
    {
        let c = cs[i];
        let k = i - start;
        proof {
            assert(digits.take(k + 1).drop_last() =~= digits.take(k as int));
            assert(digits[k as int] == c);
        }
        if !('0' <= c && c <= '9') {
            proof {
                assert(!is_digit(digits[k as int]));
                assert(!all_digits(digits));
            }
            return None;
        }
        let d = (c as u32 - '0' as u32) as u128;
        acc = acc * 10 + d;
        proof {
            assert(all_digits(digits.take(k + 1)));
        }
        if acc > usize::MAX as u128 {
            proof {
                lemma_digits_value_monotone(digits, k + 1, digits.len() as int);
                assert(digits.take(digits.len() as int) =~= digits);
            }
            return None;
        }
        i += 1;
    }
    proof {
        assert(digits.take(digits.len() as int) =~= digits);
    }
    Some(acc as usize)
}

/// A header line without its trailing line breaks.
pub open spec fn strip_line_end(line: Seq<char>) -> Seq<char>
    decreases line.len(),
{
    if line.len() > 0 && (line.last() == '\r' || line.last() == '\n') {
        strip_line_end(line.drop_last())
    } else {
        line
    }
}

/// Reading one header line: an empty line ends the headers; a
/// `Content-Length:` line sets the length (unset when its value does not
/// read as a number); other headers leave it as it was.
pub open spec fn header_line_spec(line: Seq<char>, content_length: Option<usize>) -> (bool, Option<usize>) {
    let t = strip_line_end(line);
    let prefix = "Content-Length:"@;
    if t.len() == 0 {
        (true, content_length)
    } else if t.len() >= prefix.len() && t.take(prefix.len() as int) == prefix {
        (false, parse_usize_spec(trim_spec(t.skip(prefix.len() as int))))
    } else {
        (false, content_length)
    }
}

/// Reads one header line of a frame; says whether the headers ended and
/// what content length is known.
pub fn read_header_line(line: &str, content_length: Option<usize>) -> (r: (bool, Option<usize>))
    ensures
        r == header_line_spec(line@, content_length),
{
    let mut cs = chars_of(line);
    while cs.len() > 0 && (cs[cs.len() - 1] == '\r' || cs[cs.len() - 1] == '\n')
        invariant
            strip_line_end(cs@) == strip_line_end(line@),
        decreases cs@.len(),
    {
        let ghost before = cs@;
        cs.pop();
        proof {
            assert(before.drop_last() =~= cs@);
        }
    }
    proof {
        assert(strip_line_end(cs@) == cs@);
    }
    if cs.len() == 0 {
        return (true, content_length);
    }
    let prefix = chars_of("Content-Length:");
    if cs.len() >= prefix.len() && crate::strings::matches_at(cs.as_slice(), prefix.as_slice(), 0) {
        proof {
            assert(cs@.subrange(0, prefix@.len() as int) =~= cs@.take(prefix@.len() as int));
        }
        let rest = string_of(vstd::slice::slice_subrange(cs.as_slice(), prefix.len(), cs.len()));
        proof {
            assert(rest@ =~= cs@.skip(prefix@.len() as int));
        }
        let value = string_of(trim_chars(rest.as_str()).as_slice());
        return (false, parse_usize(value.as_str()));
    }
    proof {
        if cs@.len() >= prefix@.len() {
            assert(!(cs@.take(prefix@.len() as int) =~= prefix@) || crate::strings::occurs_at(cs@, prefix@, 0));
        }
    }
    (false, content_length)
}

/// The length of a frame whose headers ended: an error when no
/// `Content-Length` was read.
pub fn frame_content_length(content_length: Option<usize>) -> (r: Result<usize, LspClientError>)
    ensures
        match content_length {
            Some(n) => r == Ok::<usize, LspClientError>(n),
            None => r matches Err(LspClientError::Protocol(m)) && m@
                == "received JSON-RPC frame without Content-Length"@,
        },
{
    match content_length {
        Some(n) => Ok(n),
        None => Err(LspClientError::Protocol(owned("received JSON-RPC frame without Content-Length"))),
    }
}

/// The header line announcing a body of `n` bytes.
pub open spec fn length_line(n: nat) -> Seq<char> {
    "Content-Length: "@ + decimal(n) + "\r\n"@
}

/// The header written before a body of `n` bytes: its length line and an
/// empty line.
pub open spec fn frame_header_spec(n: nat) -> Seq<char> {
    length_line(n) + "\r\n"@
}

pub fn frame_header(len: usize) -> (r: String)
    ensures
        r@ == frame_header_spec(len as nat),
{
    let d = u64_decimal(len as u64);
    let head = concat3("Content-Length: ", d.as_str(), "\r\n");
    let r = crate::strings::concat2(head.as_str(), "\r\n");
    r
}

proof fn lemma_decimal_digits(n: nat)
    ensures
        decimal(n).len() > 0,
        all_digits(decimal(n)),
        digits_value(decimal(n)) == n,
    decreases n,
{
    if n >= 10 {
        lemma_decimal_digits(n / 10);
        let d = decimal(n);
        assert(d.drop_last() =~= decimal(n / 10));
        assert forall|i: int| 0 <= i < d.len() implies is_digit(#[trigger] d[i]) by {
            if i < d.len() - 1 {
                assert(d[i] == decimal(n / 10)[i]);
            }
        }
        assert(d.last() == digit_char(n % 10));
        assert((digit_char(n % 10) as u32 - '0' as u32) == n % 10);
        assert(n == (n / 10) * 10 + n % 10);
        assert(digits_value(d) == digits_value(d.drop_last()) * 10 + n % 10);
    } else {
        let d = decimal(n);
        assert(d =~= seq![digit_char(n)]);
        assert(d.drop_last() =~= Seq::<char>::empty());
        assert((digit_char(n) as u32 - '0' as u32) == n);
        assert(digits_value(d) == digits_value(d.drop_last()) * 10 + n);
    }
}

proof fn lemma_strip_line_end_append(s: Seq<char>, tail: Seq<char>)
    requires
        s.len() > 0,
        s.last() != '\r' && s.last() != '\n',
        forall|i: int| 0 <= i < tail.len() ==> tail[i] == '\r' || tail[i] == '\n',
    ensures
        strip_line_end(s + tail) == s,
    decreases tail.len(),
{
    if tail.len() == 0 {
        assert(s + tail =~= s);
    } else {
        assert((s + tail).drop_last() =~= s + tail.drop_last());
        lemma_strip_line_end_append(s, tail.drop_last());
    }
}

proof fn lemma_trim_digits(ds: Seq<char>)
    requires
        ds.len() > 0,
        all_digits(ds),
    ensures
        trim_spec(seq![' '] + ds) == ds,
{
    let s = seq![' '] + ds;
    assert(!is_space(ds.last()));
    assert(s.last() == ds.last());
    assert(crate::strings::trailing_space(s) == 0);
    assert(crate::strings::trim_end_spec(s) =~= s);
    assert(s.drop_first() =~= ds);
    assert(!is_space(ds[0]));
    assert(crate::strings::leading_space(ds) == 0);
    assert(crate::strings::leading_space(s) == 1);
    assert(s.skip(1) =~= ds);
}

/// The header written for a body is read back as its length: the length
/// line yields the length, and the empty line after it ends the headers
/// with that length.
pub proof fn law_frame_header_reads_back(n: usize, before: Option<usize>)
    ensures
        frame_header_spec(n as nat) == length_line(n as nat) + "\r\n"@,
        header_line_spec(length_line(n as nat), before) == (false, Some(n)),
        header_line_spec("\r\n"@, Some(n)) == (true, Some(n)),
{
    reveal_strlit("Content-Length: ");
    reveal_strlit("Content-Length:");
    reveal_strlit("\r\n");
    lemma_decimal_digits(n as nat);
    let d = decimal(n as nat);
    let body = "Content-Length: "@ + d;
    assert(length_line(n as nat) =~= body + "\r\n"@);
    assert(body.last() == d.last());
    assert(is_digit(d.last()));
    lemma_strip_line_end_append(body, "\r\n"@);
    let prefix = "Content-Length:"@;
    assert(body.take(prefix.len() as int) =~= prefix);
    assert(body.skip(prefix.len() as int) =~= seq![' '] + d);
    lemma_trim_digits(d);
    assert(parse_usize_spec(d) == Some(n));
    let crlf = "\r\n"@;
    assert(crlf.drop_last() =~= seq!['\r']);
    assert(seq!['\r'].drop_last() =~= Seq::<char>::empty());
    assert(strip_line_end(seq!['\r']) == strip_line_end(Seq::<char>::empty()));
    assert(strip_line_end(crlf) == strip_line_end(seq!['\r']));
}

} // verus!
