//! Document synchronisation: protocol positions on a text (lines and UTF-16
//! columns), the edit chain that links two synced revisions, and the
//! incremental content changes that replay such a chain.
use vstd::prelude::*;
use vstd::utf8::{encode_utf8, decode_utf8, is_char_boundary, valid_utf8};
use vstd::string::StringSliceAdditionalSpecFns;
use crate::strings::{chars_of, string_of, concat3, str_eq, owned};
use crate::text::{TextPoint, TextEdit, LspPosition, LspRange};

verus! {

/// `n` saturated to the range of `u32`.
pub open spec fn sat_u32(n: int) -> u32 {
    if n > u32::MAX {
        u32::MAX
    } else {
        n as u32
    }
}

/// UTF-16 code units a character counts for in a column (a carriage return
/// counts for none).
pub open spec fn utf16_width(c: char) -> nat {
    if c == '\r' {
        0
    } else if c as u32 >= 0x10000 {
        2
    } else {
        1
    }
}

pub open spec fn utf16_units(cs: Seq<char>) -> nat
    decreases cs.len(),
{
    if cs.len() == 0 {
        0
    } else {
        utf16_units(cs.drop_last()) + utf16_width(cs.last())
    }
}

/// Index of the first line feed, or the length when there is none.
pub open spec fn newline_index(cs: Seq<char>) -> int
    decreases cs.len(),
{
    if cs.len() == 0 {
        0
    } else if cs[0] == '\n' {
        0
    } else {
        1 + newline_index(cs.skip(1))
    }
}

proof fn lemma_newline_index(cs: Seq<char>, i: int)
    requires
        0 <= i <= cs.len(),
        forall|k: int| 0 <= k < i ==> cs[k] != '\n',
    ensures
        newline_index(cs) >= i,
        newline_index(cs) <= cs.len(),
        i == cs.len() ==> newline_index(cs) == i,
        i < cs.len() && cs[i] == '\n' ==> newline_index(cs) == i,
    decreases i,
{
    if i == 0 {
        lemma_newline_index_bound(cs);
    } else {
        lemma_newline_index(cs.skip(1), i - 1);
    }
}

proof fn lemma_newline_index_bound(cs: Seq<char>)
    ensures
        0 <= newline_index(cs) <= cs.len(),
        newline_index(cs) < cs.len() ==> cs[newline_index(cs)] == '\n',
    decreases cs.len(),
{
    if cs.len() > 0 && cs[0] != '\n' {
        lemma_newline_index_bound(cs.skip(1));
    }
}

/// Line `k` of a text (without its line feed); empty past the last line.
pub open spec fn line_slice_spec(text: Seq<char>, k: nat) -> Seq<char>
    decreases k,
{
    let n = newline_index(text);
    if k == 0 {
        text.take(n)
    } else if n >= text.len() {
        Seq::empty()
    } else {
        line_slice_spec(text.skip(n + 1), (k - 1) as nat)
    }
}

/// First line feed at or after `from`, or the length.
fn scan_to_newline(cs: &Vec<char>, from: usize) -> (q: usize)
    requires
        from <= cs@.len(),
    ensures
        from <= q <= cs@.len(),
        q == from + newline_index(cs@.skip(from as int)),
{
    let mut q = from;
    while q < cs.len() && cs[q] != '\n'
        invariant
            from <= q <= cs@.len(),
            forall|k: int| from <= k < q ==> cs@[k] != '\n',
        decreases cs@.len() - q,
    {
        q += 1;
    }
    proof {
        lemma_newline_index(cs@.skip(from as int), q - from);
    }
    q
}

/// Line `line_index` of `text`, without its line feed; empty past the end.
pub fn line_slice(text: &str, line_index: usize) -> (r: String)
    ensures
        r@ == line_slice_spec(text@, line_index as nat),
{
    let cs = chars_of(text);
    let mut pos: usize = 0;
    let mut j: usize = 0;
    proof {
        assert(cs@.skip(0) =~= cs@);
    }
    while j < line_index
        invariant
            cs@ == text@,
            pos <= cs@.len(),
            j <= line_index,
            line_slice_spec(cs@, line_index as nat) == line_slice_spec(
                cs@.skip(pos as int),
                (line_index - j) as nat,
            ),
        decreases line_index - j,
    {
        let q = scan_to_newline(&cs, pos);
        if q >= cs.len() {
            return String::new();
        }
        proof {
            assert(cs@.skip(pos as int).skip(q - pos + 1) =~= cs@.skip(q + 1));
        }
        pos = q + 1;
        j += 1;
    }
    let q = scan_to_newline(&cs, pos);
    let line = vstd::slice::slice_subrange(cs.as_slice(), pos, q);
    proof {
        assert(line@ =~= cs@.skip(pos as int).take(q - pos));
    }
    string_of(line)
}

/// The UTF-16 column of character column `col` on `line`: the code units
/// before it, stopping at a line feed, saturated to `u32`.
pub open spec fn utf16_column_spec(line: Seq<char>, col: int) -> u32 {
    let n = newline_index(line);
    let stop = if col < n {
        col
    } else {
        n
    };
    sat_u32(utf16_units(line.take(stop)) as int)
}

/// UTF-16 code units of one character, as `char::len_utf16` counts them,
/// carriage returns excluded.
fn utf16_width_exec(c: char) -> (w: u32)
    ensures
        w == utf16_width(c),
{
    if c == '\r' {
        0
    } else if (c as u32) >= 0x10000 {
        2
    } else {
        1
    }
}

fn sat_add(a: u32, w: u32) -> (r: u32)
    ensures
        r == sat_u32(a + w),
{
    if a > u32::MAX - w {
        u32::MAX
    } else {
        a + w
    }
}

/// The protocol column of character column `char_column` on `line`.
pub fn utf16_column(line: &str, char_column: usize) -> (r: u32)
    ensures
        r == utf16_column_spec(line@, char_column as int),
{
    let cs = chars_of(line);
    let mut character: u32 = 0;
    let mut i: usize = 0;
    while i < cs.len() && i < char_column && cs[i] != '\n'
        invariant
            cs@ == line@,
            i <= cs@.len(),
            i <= char_column,
            forall|k: int| 0 <= k < i ==> cs@[k] != '\n',
            character == sat_u32(utf16_units(cs@.take(i as int)) as int),
        decreases cs@.len() - i,
    {
        let w = utf16_width_exec(cs[i]);
        proof {
            assert(cs@.take(i + 1).drop_last() =~= cs@.take(i as int));
        }
        character = sat_add(character, w);
        i += 1;
    }
    proof {
        lemma_newline_index(cs@, i as int);
    }
    character
}

/// Line feeds in a text and UTF-16 units after the last one.
pub open spec fn end_counts(cs: Seq<char>) -> (int, int)
    decreases cs.len(),
{
    if cs.len() == 0 {
        (0, 0)
    } else {
        let (l, c) = end_counts(cs.drop_last());
        if cs.last() == '\n' {
            (l + 1, 0)
        } else {
            (l, c + utf16_width(cs.last()))
        }
    }
}

proof fn lemma_end_counts_nonneg(cs: Seq<char>)
    ensures
        end_counts(cs).0 >= 0,
        end_counts(cs).1 >= 0,
    decreases cs.len(),
{
    if cs.len() > 0 {
        lemma_end_counts_nonneg(cs.drop_last());
    }
}

/// The protocol position just after the last character of a text.
pub open spec fn text_end_spec(cs: Seq<char>) -> LspPosition {
    LspPosition { line: sat_u32(end_counts(cs).0), character: sat_u32(end_counts(cs).1) }
}

pub fn text_end_position(text: &str) -> (r: LspPosition)
    ensures
        r == text_end_spec(text@),
{
    let cs = chars_of(text);
    let mut line: u32 = 0;
    let mut character: u32 = 0;
    let mut i: usize = 0;
    while i < cs.len()
        invariant
            cs@ == text@,
            i <= cs@.len(),
            line == sat_u32(end_counts(cs@.take(i as int)).0),
            character == sat_u32(end_counts(cs@.take(i as int)).1),
        decreases cs@.len() - i,
    {
        let c = cs[i];
        proof {
            assert(cs@.take(i + 1).drop_last() =~= cs@.take(i as int));
            lemma_end_counts_nonneg(cs@.take(i as int));
        }
        if c == '\n' {
            line = sat_add(line, 1);
            character = 0;
        } else {
            character = sat_add(character, utf16_width_exec(c));
        }
        i += 1;
    }
    proof {
        assert(cs@.take(cs@.len() as int) =~= cs@);
    }
    LspPosition { line, character }
}

/// The range from the start of a text to its end.
pub open spec fn full_range_spec(cs: Seq<char>) -> LspRange {
    LspRange { start: LspPosition { line: 0, character: 0 }, end: text_end_spec(cs) }
}

pub fn full_document_range(text: &str) -> (r: LspRange)
    ensures
        r == full_range_spec(text@),
{
    LspRange { start: LspPosition { line: 0, character: 0 }, end: text_end_position(text) }
}

/// The protocol position of an editor point on a text: the line as a 32-bit
/// value (truncated), the column counted in UTF-16 units on that line.
pub open spec fn position_on_text_spec(text: Seq<char>, point: TextPoint) -> LspPosition {
    LspPosition {
        line: point.line as u32,
        character: utf16_column_spec(line_slice_spec(text, point.line as nat), point.column as int),
    }
}

pub fn lsp_position_on_text(text: &str, point: TextPoint) -> (r: LspPosition)
    ensures
        r == position_on_text_spec(text@, point),
{
    let line = line_slice(text, point.line);
    LspPosition { line: point.line as u32, character: utf16_column(line.as_str(), point.column) }
}

/// Consecutive edits of a chain: each starts at the revision where the
/// previous one ended.
pub open spec fn linked(s: Seq<TextEdit>) -> bool {
    forall|i: int| 0 <= i < s.len() - 1 ==> #[trigger] s[i].after_revision == s[i + 1].before_revision
}

/// Index of the first edit that starts at revision `rev`, or the length.
pub open spec fn first_from_revision(edits: Seq<TextEdit>, rev: u64) -> int
    decreases edits.len(),
{
    if edits.len() == 0 {
        0
    } else if edits[0].before_revision == rev {
        0
    } else {
        1 + first_from_revision(edits.skip(1), rev)
    }
}

proof fn lemma_first_from_revision(edits: Seq<TextEdit>, rev: u64, i: int)
    requires
        0 <= i <= edits.len(),
        forall|k: int| 0 <= k < i ==> edits[k].before_revision != rev,
        i < edits.len() ==> edits[i].before_revision == rev,
    ensures
        first_from_revision(edits, rev) == i,
    decreases i,
{
    if i > 0 {
        lemma_first_from_revision(edits.skip(1), rev, i - 1);
    }
}

/// The recorded edits that lead from the last synced revision to the
/// current one: none when the revisions agree; otherwise the edits from the
/// first one that starts at the last synced revision, provided they end at
/// the current revision and link up; nothing usable otherwise.
pub open spec fn edit_chain_spec(edits: Option<Seq<TextEdit>>, last_revision: Option<u64>, current: u64) -> Option<Seq<TextEdit>> {
    match (edits, last_revision) {
        (Some(es), Some(last)) => if last == current {
            Some(Seq::empty())
        } else {
            let start = first_from_revision(es, last);
            if start >= es.len() {
                None
            } else {
                let suffix = es.skip(start);
                if suffix.last().after_revision != current || !linked(suffix) {
                    None
                } else {
                    Some(suffix)
                }
            }
        },
        _ => None,
    }
}

pub open spec fn opt_slice_view<'a>(o: Option<&'a [TextEdit]>) -> Option<Seq<TextEdit>> {
    match o {
        Some(s) => Some(s@),
        None => None,
    }
}

/// The part of the recorded edits that replays the buffer from the last
/// synced revision to the current one, if there is one.
pub fn usable_edit_chain<'a>(
    edits: Option<&'a [TextEdit]>,
    last_revision: Option<u64>,
    current_revision: u64,
) -> (r: Option<&'a [TextEdit]>)
    ensures
        opt_slice_view(r) == edit_chain_spec(opt_slice_view(edits), last_revision, current_revision),
        match r {
            Some(chain) => chain@.len() > 0 ==> {
                &&& chain@[0].before_revision == last_revision->0
                &&& chain@.last().after_revision == current_revision
                &&& linked(chain@)
            },
            None => true,
        },
{
    let es = match edits {
        Some(e) => e,
        None => return None,
    };
    let last = match last_revision {
        Some(l) => l,
        None => return None,
    };
    if last == current_revision {
        let empty: &[TextEdit] = vstd::slice::slice_subrange(es, 0, 0);
        proof {
            assert(empty@ =~= Seq::<TextEdit>::empty());
        }
        return Some(empty);
    }
    let mut start: usize = 0;
    while start < es.len() && es[start].before_revision != last
        invariant
            start <= es@.len(),
            forall|k: int| 0 <= k < start ==> es@[k].before_revision != last,
        decreases es@.len() - start,
    {
        start += 1;
    }
    proof {
        lemma_first_from_revision(es@, last, start as int);
    }
    if start >= es.len() {
        return None;
    }
    let suffix = vstd::slice::slice_subrange(es, start, es.len());
    proof {
        assert(suffix@ =~= es@.skip(start as int));
    }
    if suffix[suffix.len() - 1].after_revision != current_revision {
        return None;
    }
    let mut i: usize = 0;
    while i < suffix.len() - 1
        invariant
            edits == Some(es),
            last_revision == Some(last),
            suffix@ == es@.skip(start as int),
            start == first_from_revision(es@, last),
            start < es@.len(),
            last != current_revision,
            suffix@.last().after_revision == current_revision,
            suffix@.len() >= 1,
            i + 1 <= suffix@.len(),
            forall|k: int| 0 <= k < i ==> #[trigger] suffix@[k].after_revision == suffix@[k
                + 1].before_revision,
        decreases suffix@.len() - i,
    {
        if suffix[i].after_revision != suffix[i + 1].before_revision {
            proof {
                assert(suffix@[i as int].after_revision != suffix@[i + 1].before_revision);
                assert(!linked(suffix@));
            }
            return None;
        }
        i += 1;
    }
    Some(suffix)
}

/// Byte offsets that a `String` can hold (at most `isize::MAX`).
pub open spec fn edit_offsets_fit(e: TextEdit) -> bool {
    e.start_byte <= isize::MAX && e.old_end_byte <= isize::MAX && e.new_end_byte <= isize::MAX
}

/// An exclusive byte range moved through a later edit: unchanged when it
/// ends before the edit, shifted by the edit's growth when it starts after
/// the replaced bytes, lost when it overlaps them or would leave
/// `0..=isize::MAX`.
pub open spec fn map_range_spec(start: int, end: int, edit: TextEdit) -> Option<(int, int)> {
    let delta = edit.new_end_byte - edit.old_end_byte;
    if end <= edit.start_byte {
        Some((start, end))
    } else if start >= edit.old_end_byte {
        let s = start + delta;
        let e = end + delta;
        if 0 <= s <= isize::MAX && 0 <= e <= isize::MAX {
            Some((s, e))
        } else {
            None
        }
    } else {
        None
    }
}

fn shift_offset(x: usize, old_end: usize, new_end: usize) -> (r: Option<usize>)
    requires
        x <= isize::MAX,
        old_end <= isize::MAX,
        new_end <= isize::MAX,
    ensures
        match r {
            Some(v) => v == x + new_end - old_end && v <= isize::MAX,
            None => x + new_end - old_end < 0 || x + new_end - old_end > isize::MAX,
        },
{
    if new_end >= old_end {
        let v = x + (new_end - old_end);
        if v > isize::MAX as usize {
            None
        } else {
            Some(v)
        }
    } else {
        let d = old_end - new_end;
        if x >= d {
            Some(x - d)
        } else {
            None
        }
    }
}

/// Moves the byte range `start..end` of a later text through `edit`.
pub fn map_exclusive_range_through_edit(start: usize, end: usize, edit: &TextEdit) -> (r: Option<(usize, usize)>)
    requires
        start <= isize::MAX,
        end <= isize::MAX,
        edit_offsets_fit(*edit),
    ensures
        match r {
            Some((s, e)) => map_range_spec(start as int, end as int, *edit) == Some((s as int, e as int)),
            None => map_range_spec(start as int, end as int, *edit) is None,
        },
{
    if end <= edit.start_byte {
        Some((start, end))
    } else if start >= edit.old_end_byte {
        let s = match shift_offset(start, edit.old_end_byte, edit.new_end_byte) {
            Some(s) => s,
            None => return None,
        };
        let e = match shift_offset(end, edit.old_end_byte, edit.new_end_byte) {
            Some(e) => e,
            None => return None,
        };
        Some((s, e))
    } else {
        None
    }
}

/// A byte range moved through each of `edits` in turn.
pub open spec fn map_through_spec(start: int, end: int, edits: Seq<TextEdit>) -> Option<(int, int)>
    decreases edits.len(),
{
    if edits.len() == 0 {
        Some((start, end))
    } else {
        match map_range_spec(start, end, edits[0]) {
            Some((s, e)) => map_through_spec(s, e, edits.skip(1)),
            None => None,
        }
    }
}

/// The characters of `text` between two byte offsets, as `str::get` gives
/// them: none unless the offsets are ordered, in bounds and on character
/// boundaries.
pub open spec fn str_get_spec(text: Seq<char>, start: int, end: int) -> Option<Seq<char>> {
    let b = encode_utf8(text);
    if 0 <= start <= end <= b.len() && is_char_boundary(b, start) && is_char_boundary(b, end) {
        Some(decode_utf8(b.subrange(start, end)))
    } else {
        None
    }
}

proof fn lemma_prefix_boundary(b: Seq<u8>, start: int, end: int)
    requires
        valid_utf8(b),
        0 <= start <= end <= b.len(),
        is_char_boundary(b, start),
        is_char_boundary(b, end),
    ensures
        valid_utf8(b.subrange(0, end)),
        is_char_boundary(b.subrange(0, end), start),
{
    vstd::utf8::valid_utf8_split(b, end);
    let h = b.subrange(0, end);
    if start == end {
        vstd::utf8::is_char_boundary_start_end_of_seq(h);
    } else if start > 0 {
        vstd::utf8::is_char_boundary_iff_not_is_continuation_byte(b, start);
        vstd::utf8::is_char_boundary_iff_not_is_continuation_byte(h, start);
    }
}

/// The text between two byte offsets, if `str::get` yields one.
pub fn str_get(text: &str, start: usize, end: usize) -> (r: Option<String>)
    ensures
        match r {
            Some(s) => str_get_spec(text@, start as int, end as int) == Some(s@),
            None => str_get_spec(text@, start as int, end as int) is None,
        },
{
    proof {
        vstd::utf8::encode_utf8_valid_utf8(text@);
    }
    if start > end || end > text.as_bytes().len() {
        return None;
    }
    let start_ok = text.is_char_boundary(start);
    let end_ok = text.is_char_boundary(end);
    if !start_ok || !end_ok {
        proof {
            let b = encode_utf8(text@);
            assert(text.spec_bytes() == b);
            assert(!is_char_boundary(b, start as int) || !is_char_boundary(b, end as int));
        }
        return None;
    }
    proof {
        lemma_prefix_boundary(encode_utf8(text@), start as int, end as int);
    }
    let (head, _) = text.split_at(end);
    let (_, mid) = head.split_at(start);
    proof {
        let b = encode_utf8(text@);
        assert(encode_utf8(mid@) =~= b.subrange(start as int, end as int));
        vstd::utf8::encode_utf8_decode_utf8(mid@);
    }
    Some(owned(mid))
}

/// What an edit inserted, read from the final text: the inserted byte range
/// moved through the edits that came after it.
pub open spec fn inserted_spec(new_text: Seq<char>, edit: TextEdit, remaining: Seq<TextEdit>) -> Option<Seq<char>> {
    if edit.start_byte > edit.new_end_byte {
        None
    } else {
        match map_through_spec(edit.start_byte as int, edit.new_end_byte as int, remaining) {
            Some((s, e)) => str_get_spec(new_text, s, e),
            None => None,
        }
    }
}

pub open spec fn all_offsets_fit(edits: Seq<TextEdit>) -> bool {
    forall|i: int| 0 <= i < edits.len() ==> edit_offsets_fit(#[trigger] edits[i])
}

/// The text that `edit` inserted, as it stands in `new_text` after the
/// `remaining` edits.
pub fn inserted_text_after_edit(new_text: &str, edit: &TextEdit, remaining: &[TextEdit]) -> (r: Option<String>)
    requires
        edit_offsets_fit(*edit),
        all_offsets_fit(remaining@),
    ensures
        match r {
            Some(s) => inserted_spec(new_text@, *edit, remaining@) == Some(s@),
            None => inserted_spec(new_text@, *edit, remaining@) is None,
        },
{
    let mut start = edit.start_byte;
    let mut end = edit.new_end_byte;
    if start > end {
        return None;
    }
    let mut i: usize = 0;
    proof {
        assert(remaining@.skip(0) =~= remaining@);
    }
    while i < remaining.len()
        invariant
            all_offsets_fit(remaining@),
            i <= remaining@.len(),
            start <= isize::MAX,
            end <= isize::MAX,
            map_through_spec(edit.start_byte as int, edit.new_end_byte as int, remaining@)
                == map_through_spec(start as int, end as int, remaining@.skip(i as int)),
        decreases remaining@.len() - i,
    {
        proof {
            assert(remaining@.skip(i as int)[0] == remaining@[i as int]);
            assert(remaining@.skip(i as int).skip(1) =~= remaining@.skip(i + 1));
            assert(edit_offsets_fit(remaining@[i as int]));
        }
        match map_exclusive_range_through_edit(start, end, &remaining[i]) {
            Some((s, e)) => {
                start = s;
                end = e;
            },
            None => return None,
        }
        i += 1;
    }
    str_get(new_text, start, end)
}

/// One `textDocument/didChange` content change: the replaced range (none for
/// the whole document) and the text put in its place.
#[derive(Debug, Clone, PartialEq, Eq)]
pub struct TextDocumentContentChange {
    pub range: Option<LspRange>,
    pub range_length: Option<u32>,
    pub text: String,
}

/// A content change as a range and the characters of its text.
pub open spec fn change_model(c: TextDocumentContentChange) -> (Option<LspRange>, Seq<char>) {
    (c.range, c.text@)
}

pub open spec fn change_models(v: Seq<TextDocumentContentChange>) -> Seq<(Option<LspRange>, Seq<char>)> {
    v.map_values(|c: TextDocumentContentChange| change_model(c))
}

/// Whether an edit's replaced bytes lie within the working text, in order
/// and on character boundaries.
pub open spec fn edit_applies(w: Seq<char>, e: TextEdit) -> bool {
    let b = encode_utf8(w);
    e.start_byte <= e.old_end_byte && e.old_end_byte <= b.len() && is_char_boundary(b, e.start_byte as int)
        && is_char_boundary(b, e.old_end_byte as int)
}

/// The text with the bytes `start..end` replaced by `ins`.
pub open spec fn replace_spec(w: Seq<char>, start: int, end: int, ins: Seq<char>) -> Seq<char> {
    let b = encode_utf8(w);
    decode_utf8(b.subrange(0, start)) + ins + decode_utf8(b.subrange(end, b.len() as int))
}

/// Replaying `edits[i..]` on the working text `w`: the change sent for each
/// edit (the replaced range as positions on the working text, and the text
/// it inserted, read from `new_text`) and the working text at the end.
pub open spec fn replay_spec(w: Seq<char>, new_text: Seq<char>, edits: Seq<TextEdit>, i: int) -> Option<
    (Seq<(Option<LspRange>, Seq<char>)>, Seq<char>),
>
    decreases edits.len() - i,
{
    if i < 0 || i >= edits.len() {
        Some((Seq::empty(), w))
    } else {
        let e = edits[i];
        if !edit_applies(w, e) {
            None
        } else {
            match inserted_spec(new_text, e, edits.skip(i + 1)) {
                None => None,
                Some(ins) => {
                    let c = (
                        Some(
                            LspRange {
                                start: position_on_text_spec(w, e.start_position),
                                end: position_on_text_spec(w, e.old_end_position),
                            },
                        ),
                        ins,
                    );
                    match replay_spec(
                        replace_spec(w, e.start_byte as int, e.old_end_byte as int, ins),
                        new_text,
                        edits,
                        i + 1,
                    ) {
                        Some((cs, fw)) => Some((seq![c] + cs, fw)),
                        None => None,
                    }
                },
            }
        }
    }
}

proof fn lemma_replay_len(w: Seq<char>, new_text: Seq<char>, edits: Seq<TextEdit>, i: int)
    requires
        0 <= i <= edits.len(),
    ensures
        match replay_spec(w, new_text, edits, i) {
            Some((cs, _)) => cs.len() == edits.len() - i,
            None => true,
        },
    decreases edits.len() - i,
{
    if i < edits.len() {
        let e = edits[i];
        if edit_applies(w, e) {
            match inserted_spec(new_text, e, edits.skip(i + 1)) {
                Some(ins) => lemma_replay_len(
                    replace_spec(w, e.start_byte as int, e.old_end_byte as int, ins),
                    new_text,
                    edits,
                    i + 1,
                ),
                None => {},
            }
        }
    }
}

/// The incremental changes for an edit chain: none for an empty chain; the
/// replayed changes when the replay ends exactly at `new_text`; no usable
/// changes otherwise.
pub open spec fn incremental_changes_spec(previous: Seq<char>, new_text: Seq<char>, edits: Seq<TextEdit>) -> Option<
    Seq<(Option<LspRange>, Seq<char>)>,
> {
    if edits.len() == 0 {
        Some(Seq::empty())
    } else {
        match replay_spec(previous, new_text, edits, 0) {
            Some((cs, fw)) => if fw == new_text {
                Some(cs)
            } else {
                None
            },
            None => None,
        }
    }
}

/// The text after replacing, edit by edit, each edit's old byte range with
/// the matching text.
pub open spec fn apply_edit_texts(w: Seq<char>, edits: Seq<TextEdit>, texts: Seq<Seq<char>>) -> Seq<char>
    decreases edits.len(),
{
    if edits.len() == 0 || texts.len() == 0 {
        w
    } else {
        apply_edit_texts(
            replace_spec(w, edits[0].start_byte as int, edits[0].old_end_byte as int, texts[0]),
            edits.skip(1),
            texts.skip(1),
        )
    }
}

pub open spec fn change_texts(cs: Seq<(Option<LspRange>, Seq<char>)>) -> Seq<Seq<char>> {
    cs.map_values(|c: (Option<LspRange>, Seq<char>)| c.1)
}

proof fn lemma_replay_applies(w: Seq<char>, new_text: Seq<char>, edits: Seq<TextEdit>, i: int)
    requires
        0 <= i <= edits.len(),
        replay_spec(w, new_text, edits, i) is Some,
    ensures
        ({
            let (cs, fw) = replay_spec(w, new_text, edits, i).unwrap();
            &&& cs.len() == edits.len() - i
            &&& apply_edit_texts(w, edits.skip(i), change_texts(cs)) == fw
            &&& forall|k: int| 0 <= k < cs.len() ==> (#[trigger] cs[k]).0 is Some
        }),
    decreases edits.len() - i,
{
    let (cs, fw) = replay_spec(w, new_text, edits, i).unwrap();
    if i == edits.len() {
        assert(edits.skip(i).len() == 0);
    } else {
        let e = edits[i];
        let ins = inserted_spec(new_text, e, edits.skip(i + 1)).unwrap();
        let w2 = replace_spec(w, e.start_byte as int, e.old_end_byte as int, ins);
        lemma_replay_applies(w2, new_text, edits, i + 1);
        let (cs2, fw2) = replay_spec(w2, new_text, edits, i + 1).unwrap();
        assert(edits.skip(i).skip(1) =~= edits.skip(i + 1));
        assert(edits.skip(i)[0] == e);
        let ts = change_texts(cs);
        assert(ts[0] == ins);
        assert(ts.skip(1) =~= change_texts(cs2));
        assert forall|k: int| 0 <= k < cs.len() implies (#[trigger] cs[k]).0 is Some by {
            if k > 0 {
                assert(cs[k] == cs2[k - 1]);
            }
        }
    }
}

/// Incremental changes are faithful: for a chain of one edit or more, the
/// texts they carry, put in place of the edits' old byte ranges one after
/// another, turn the previous text into the new one, one change per edit,
/// each with a range.
pub proof fn law_incremental_changes_rebuild_new_text(
    previous: Seq<char>,
    new_text: Seq<char>,
    edits: Seq<TextEdit>,
    cs: Seq<(Option<LspRange>, Seq<char>)>,
)
    requires
        edits.len() > 0,
        incremental_changes_spec(previous, new_text, edits) == Some(cs),
    ensures
        cs.len() == edits.len(),
        apply_edit_texts(previous, edits, change_texts(cs)) == new_text,
        forall|k: int| 0 <= k < cs.len() ==> (#[trigger] cs[k]).0 is Some,
{
    lemma_replay_applies(previous, new_text, edits, 0);
    assert(edits.skip(0) =~= edits);
}

/// `w` with the bytes `start..end` replaced by `ins`.
fn replace_bytes(w: &str, start: usize, end: usize, ins: &str) -> (r: String)
    requires
        start <= end <= encode_utf8(w@).len(),
        is_char_boundary(encode_utf8(w@), start as int),
        is_char_boundary(encode_utf8(w@), end as int),
    ensures
        r@ == replace_spec(w@, start as int, end as int, ins@),
{
    let (head, _) = w.split_at(start);
    let (_, tail) = w.split_at(end);
    proof {
        let b = encode_utf8(w@);
        vstd::utf8::encode_utf8_decode_utf8(head@);
        vstd::utf8::encode_utf8_decode_utf8(tail@);
        assert(encode_utf8(head@) =~= b.subrange(0, start as int));
        assert(encode_utf8(tail@) =~= b.subrange(end as int, b.len() as int));
    }
    concat3(head, ins, tail)
}

/// The incremental `didChange` content changes that turn `previous_text`
/// into `new_text` along `edits`, or none when the edits do not replay.
pub fn incremental_content_changes(previous_text: &str, new_text: &str, edits: &[TextEdit]) -> (r: Option<
    Vec<TextDocumentContentChange>,
>)
    requires
        all_offsets_fit(edits@),
    ensures
        match r {
            Some(v) => incremental_changes_spec(previous_text@, new_text@, edits@) == Some(
                change_models(v@),
            ) && v@.len() == edits@.len() && forall|k: int|
                0 <= k < v@.len() ==> (#[trigger] v@[k]).range_length is None && v@[k].range is Some,
            None => incremental_changes_spec(previous_text@, new_text@, edits@) is None,
        },
{
    if edits.len() == 0 {
        let v: Vec<TextDocumentContentChange> = Vec::new();
        proof {
            assert(change_models(v@) =~= Seq::empty());
        }
        return Some(v);
    }
    let mut working = owned(previous_text);
    let mut changes: Vec<TextDocumentContentChange> = Vec::new();
    let mut index: usize = 0;
    proof {
        assert(change_models(changes@) + Seq::<(Option<LspRange>, Seq<char>)>::empty()
            =~= Seq::<(Option<LspRange>, Seq<char>)>::empty());
        match replay_spec(working@, new_text@, edits@, 0) {
            Some((cs, fw)) => {
                assert(change_models(changes@) + cs =~= cs);
            },
            None => {},
        }
    }
    while index < edits.len()
        invariant
            all_offsets_fit(edits@),
            index <= edits@.len(),
            edits@.len() > 0,
            forall|k: int| 0 <= k < changes@.len() ==> (#[trigger] changes@[k]).range_length is None
                && changes@[k].range is Some,
            replay_spec(previous_text@, new_text@, edits@, 0) == match replay_spec(
                working@,
                new_text@,
                edits@,
                index as int,
            ) {
                Some((cs, fw)) => Some((change_models(changes@) + cs, fw)),
                None => None,
            },
        decreases edits@.len() - index,
    {
        let edit = &edits[index];
        proof {
            vstd::utf8::encode_utf8_valid_utf8(working@);
        }
        let wlen = working.as_str().as_bytes().len();
        if edit.start_byte > edit.old_end_byte || edit.old_end_byte > wlen || edit.start_byte > wlen {
            return None;
        }
        if !working.as_str().is_char_boundary(edit.start_byte) || !working.as_str().is_char_boundary(
            edit.old_end_byte,
        ) {
            return None;
        }
        let remaining = vstd::slice::slice_subrange(edits, index + 1, edits.len());
        proof {
            assert(remaining@ =~= edits@.skip(index + 1));
            assert(edit_offsets_fit(edits@[index as int]));
            assert(all_offsets_fit(remaining@));
        }
        let inserted = match inserted_text_after_edit(new_text, edit, remaining) {
            Some(t) => t,
            None => return None,
        };
        let range = LspRange {
            start: lsp_position_on_text(working.as_str(), edit.start_position),
            end: lsp_position_on_text(working.as_str(), edit.old_end_position),
        };
        let change = TextDocumentContentChange {
            range: Some(range),
            range_length: None,
            text: owned(inserted.as_str()),
        };
        let next = replace_bytes(working.as_str(), edit.start_byte, edit.old_end_byte, inserted.as_str());
        proof {
            let c = change_model(change);
            let old_models = change_models(changes@);
            assert(change_models(changes@.push(change)) =~= old_models.push(c));
            match replay_spec(next@, new_text@, edits@, index + 1) {
                Some((cs, fw)) => {
                    assert(old_models.push(c) + cs =~= old_models + (seq![c] + cs));
                },
                None => {},
            }
        }
        changes.push(change);
        working = next;
        index += 1;
    }
    if str_eq(working.as_str(), new_text) {
        proof {
            lemma_replay_len(previous_text@, new_text@, edits@, 0);
            assert(change_models(changes@) + Seq::<(Option<LspRange>, Seq<char>)>::empty()
                =~= change_models(changes@));
        }
        Some(changes)
    } else {
        None
    }
}

/// How a server wants document changes: `0` none, `1` the full text, `2`
/// incremental ranges (any other value is read as not incremental).
#[derive(Debug, Clone, Copy, PartialEq, Eq, Structural)]
pub struct TextDocumentSyncKind(pub i32);

pub const SYNC_KIND_NONE: i32 = 0;

pub const SYNC_KIND_FULL: i32 = 1;

pub const SYNC_KIND_INCREMENTAL: i32 = 2;

/// A server's text synchronisation capability: a bare kind, or options whose
/// `change` field may give one.
#[derive(Debug, Clone, Copy, PartialEq, Eq, Structural)]
pub enum TextDocumentSyncCapability {
    Kind(TextDocumentSyncKind),
    Options(Option<TextDocumentSyncKind>),
}

/// The sync kind a capability announces; full text where it names none.
pub open spec fn sync_kind_spec(capability: Option<TextDocumentSyncCapability>) -> TextDocumentSyncKind {
    match capability {
        Some(TextDocumentSyncCapability::Kind(kind)) => kind,
        Some(TextDocumentSyncCapability::Options(Some(kind))) => kind,
        _ => TextDocumentSyncKind(SYNC_KIND_FULL),
    }
}

pub fn text_document_sync_kind(capability: Option<TextDocumentSyncCapability>) -> (r: TextDocumentSyncKind)
    ensures
        r == sync_kind_spec(capability),
{
    match capability {
        Some(TextDocumentSyncCapability::Kind(kind)) => kind,
        Some(TextDocumentSyncCapability::Options(change)) => match change {
            Some(kind) => kind,
            None => TextDocumentSyncKind(SYNC_KIND_FULL),
        },
        None => TextDocumentSyncKind(SYNC_KIND_FULL),
    }
}

/// The change that sends a whole new text: over the full range of the
/// previous text for incremental servers, without a range otherwise.
pub open spec fn full_change_spec(sync_kind: TextDocumentSyncKind, previous: Seq<char>, text: Seq<char>) -> (
    Option<LspRange>,
    Seq<char>,
) {
    if sync_kind.0 == SYNC_KIND_INCREMENTAL {
        (Some(full_range_spec(previous)), text)
    } else {
        (None, text)
    }
}

pub fn text_document_content_change(sync_kind: TextDocumentSyncKind, previous_text: &str, text: &str) -> (r:
    TextDocumentContentChange)
    ensures
        change_model(r) == full_change_spec(sync_kind, previous_text@, text@),
        r.range_length is None,
{
    if sync_kind.0 == SYNC_KIND_INCREMENTAL {
        TextDocumentContentChange {
            range: Some(full_document_range(previous_text)),
            range_length: None,
            text: owned(text),
        }
    } else {
        TextDocumentContentChange { range: None, range_length: None, text: owned(text) }
    }
}

} // verus!
