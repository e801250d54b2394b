//! The lexicographic order of strings by character code (the order of
//! `str::cmp`), and sorting with duplicates removed.
use vstd::prelude::*;
use crate::strings::{chars_of, str_eq};
use crate::types::{views, opt_view, LspLocation, LspCodeAction};
use crate::text::TextRange;

verus! {

/// `a` sorts before `b`: at the first position where they differ, `a` has
/// the smaller character, or `a` is a proper prefix of `b`.
pub open spec fn chars_lt(a: Seq<char>, b: Seq<char>) -> bool
    decreases a.len(),
{
    if a.len() == 0 {
        b.len() > 0
    } else if b.len() == 0 {
        false
    } else if a[0] != b[0] {
        a[0] < b[0]
    } else {
        chars_lt(a.skip(1), b.skip(1))
    }
}

pub proof fn lemma_chars_lt_irreflexive(a: Seq<char>)
    ensures
        !chars_lt(a, a),
    decreases a.len(),
{
    if a.len() > 0 {
        lemma_chars_lt_irreflexive(a.skip(1));
    }
}

pub proof fn lemma_chars_lt_total(a: Seq<char>, b: Seq<char>)
    ensures
        chars_lt(a, b) || a == b || chars_lt(b, a),
    decreases a.len(),
{
    if a.len() > 0 && b.len() > 0 && a[0] == b[0] {
        lemma_chars_lt_total(a.skip(1), b.skip(1));
        if a.skip(1) == b.skip(1) {
            assert(a =~= seq![a[0]] + a.skip(1));
            assert(b =~= seq![b[0]] + b.skip(1));
        }
    } else if a.len() == 0 && b.len() == 0 {
        assert(a =~= b);
    } else if a.len() > 0 && b.len() > 0 {
        assert(a[0] < b[0] || b[0] < a[0]);
    }
}

pub proof fn lemma_chars_lt_transitive(a: Seq<char>, b: Seq<char>, c: Seq<char>)
    requires
        chars_lt(a, b),
        chars_lt(b, c),
    ensures
        chars_lt(a, c),
    decreases a.len(),
{
    if a.len() > 0 && b.len() > 0 && c.len() > 0 && a[0] == b[0] && b[0] == c[0] {
        lemma_chars_lt_transitive(a.skip(1), b.skip(1), c.skip(1));
    }
}

proof fn lemma_push_contains(s: Seq<Seq<char>>, e: Seq<char>, y: Seq<char>)
    ensures
        s.push(e).contains(y) <==> (s.contains(y) || y == e),
{
    let t = s.push(e);
    if t.contains(y) && y != e {
        let j = choose|j: int| 0 <= j < t.len() && t[j] == y;
        assert(s[j] == y);
    }
    if s.contains(y) {
        let j = choose|j: int| 0 <= j < s.len() && s[j] == y;
        assert(t[j] == y);
    }
    assert(t[s.len() as int] == e);
}

proof fn lemma_insert_contains(s: Seq<Seq<char>>, k: int, e: Seq<char>, y: Seq<char>)
    requires
        0 <= k <= s.len(),
    ensures
        s.insert(k, e).contains(y) <==> (s.contains(y) || y == e),
{
    let t = s.insert(k, e);
    if t.contains(y) && y != e {
        let j = choose|j: int| 0 <= j < t.len() && t[j] == y;
        let j0 = if j < k { j } else { j - 1 };
        assert(s[j0] == y);
    }
    if s.contains(y) {
        let j = choose|j: int| 0 <= j < s.len() && s[j] == y;
        let j1 = if j < k { j } else { j + 1 };
        assert(t[j1] == y);
    }
    assert(t[k] == e);
}

/// Whether `a` sorts before `b`.
pub fn chars_less(a: &[char], b: &[char]) -> (r: bool)
    ensures
        r == chars_lt(a@, b@),
{
    let mut i: usize = 0;
    proof {
        assert(a@.skip(0) =~= a@);
        assert(b@.skip(0) =~= b@);
    }
    while i < a.len() && i < b.len() && a[i] == b[i]
        invariant
            i <= a@.len(),
            i <= b@.len(),
            chars_lt(a@, b@) == chars_lt(a@.skip(i as int), b@.skip(i as int)),
        decreases a@.len() - i,
    {
        proof {
            assert(a@.skip(i as int).skip(1) =~= a@.skip(i + 1));
            assert(b@.skip(i as int).skip(1) =~= b@.skip(i + 1));
            assert(a@.skip(i as int)[0] == a@[i as int]);
            assert(b@.skip(i as int)[0] == b@[i as int]);
        }
        i += 1;
    }
    if i < a.len() && i < b.len() {
        proof {
            assert(a@.skip(i as int)[0] == a@[i as int]);
            assert(b@.skip(i as int)[0] == b@[i as int]);
        }
        a[i] < b[i]
    } else {
        i == a.len() && i < b.len()
    }
}

/// Whether string `a` sorts before string `b`.
pub fn str_less(a: &str, b: &str) -> (r: bool)
    ensures
        r == chars_lt(a@, b@),
{
    let ac = chars_of(a);
    let bc = chars_of(b);
    chars_less(ac.as_slice(), bc.as_slice())
}

/// Sorted without repeats: each string sorts before the next ones.
pub open spec fn strictly_sorted(s: Seq<Seq<char>>) -> bool {
    forall|a: int, b: int| 0 <= a < b < s.len() ==> chars_lt(#[trigger] s[a], #[trigger] s[b])
}

/// `strings` sorted, each value once: the output is strictly sorted and
/// holds exactly the input's values.
pub fn sorted_unique_strings(strings: &Vec<String>) -> (r: Vec<String>)
    ensures
        strictly_sorted(views(r@)),
        forall|x: Seq<char>| views(r@).contains(x) <==> views(strings@).contains(x),
{
    let mut out: Vec<String> = Vec::new();
    let mut i: usize = 0;
    while i < strings.len()
        invariant
            i <= strings@.len(),
            strictly_sorted(views(out@)),
            forall|x: Seq<char>| views(out@).contains(x) <==> views(strings@.take(i as int)).contains(x),
        decreases strings@.len() - i,
    {
        let x = strings[i].as_str();
        let ghost ov = views(out@);
        let mut k: usize = 0;
        while k < out.len() && str_less(out[k].as_str(), x)
            invariant
                k <= out@.len(),
                ov == views(out@),
                forall|a: int| 0 <= a < k ==> chars_lt(#[trigger] ov[a], x@),
            decreases out@.len() - k,
        {
            k += 1;
        }
        let present = k < out.len() && str_eq(out[k].as_str(), x);
        proof {
            assert(forall|y: Seq<char>| ov.contains(y) <==> views(strings@.take(i as int)).contains(y));
            assert(strings@.take(i + 1) =~= strings@.take(i as int).push(strings@[i as int]));
            assert(views(strings@.take(i + 1)) =~= views(strings@.take(i as int)).push(x@));
            if k < out@.len() && !present {
                lemma_chars_lt_total(ov[k as int], x@);
            }
        }
        if !present {
            out.insert(k, crate::strings::owned(x));
            proof {
                let nv = views(out@);
                assert(nv =~= ov.insert(k as int, x@));
                assert forall|a: int, b: int| 0 <= a < b < nv.len() implies chars_lt(
                    #[trigger] nv[a],
                    #[trigger] nv[b],
                ) by {
                    if b == k {
                        assert(nv[a] == ov[a]);
                    } else if a == k {
                        assert(nv[b] == ov[b - 1]);
                        if b - 1 > k {
                            lemma_chars_lt_transitive(x@, ov[k as int], ov[b - 1]);
                        }
                    } else {
                        let a0 = if a < k { a } else { a - 1 };
                        let b0 = if b < k { b } else { b - 1 };
                        assert(nv[a] == ov[a0] && nv[b] == ov[b0]);
                    }
                }
                assert forall|y: Seq<char>| nv.contains(y) <==> views(strings@.take(i + 1)).contains(y) by {
                    lemma_insert_contains(ov, k as int, x@, y);
                    lemma_push_contains(views(strings@.take(i as int)), x@, y);
                }
            }
        } else {
            proof {
                assert forall|y: Seq<char>| ov.contains(y) <==> views(strings@.take(i + 1)).contains(y) by {
                    lemma_push_contains(views(strings@.take(i as int)), x@, y);
                    if y == x@ {
                        assert(ov[k as int] == y);
                    }
                }
            }
        }
        i += 1;
    }
    proof {
        assert(strings@.take(strings@.len() as int) =~= strings@);
    }
    out
}

/// `a` comes before `b` by start line, start column, end line, end column.
pub open spec fn range_before(a: TextRange, b: TextRange) -> bool {
    a.start.line < b.start.line || (a.start.line == b.start.line && (a.start.column
        < b.start.column || (a.start.column == b.start.column && (a.end.line < b.end.line || (
    a.end.line == b.end.line && a.end.column < b.end.column)))))
}

/// Locations are ordered by URI, then by range.
pub open spec fn location_before(a: LspLocation, b: LspLocation) -> bool {
    chars_lt(a.uri@, b.uri@) || (a.uri@ == b.uri@ && range_before(a.range, b.range))
}

/// Two locations name the same place: same URI and same range.
pub open spec fn same_place(a: LspLocation, b: LspLocation) -> bool {
    a.uri@ == b.uri@ && a.range == b.range
}

/// No location before index `i` names the same place as the one at `i`.
pub open spec fn first_of_place(s: Seq<LspLocation>, i: int) -> bool {
    forall|k: int| 0 <= k < i ==> !same_place(#[trigger] s[k], s[i])
}

/// `loc` is, among the first `upto` locations of `s`, the first one at its place.
pub open spec fn first_occurrence_in(s: Seq<LspLocation>, loc: LspLocation, upto: int) -> bool {
    exists|i: int| 0 <= i < upto && #[trigger] s[i] == loc && first_of_place(s, i)
}

/// Some location of `s` names the place of `loc`.
pub open spec fn place_listed(s: Seq<LspLocation>, loc: LspLocation) -> bool {
    exists|j: int| 0 <= j < s.len() && same_place(#[trigger] s[j], loc)
}

/// Strictly ascending by `location_before`.
pub open spec fn locations_sorted(s: Seq<LspLocation>) -> bool {
    forall|a: int, b: int| 0 <= a < b < s.len() ==> location_before(#[trigger] s[a], #[trigger] s[b])
}

pub proof fn lemma_location_order(a: LspLocation, b: LspLocation, c: LspLocation)
    ensures
        !location_before(a, a),
        location_before(a, b) || same_place(a, b) || location_before(b, a),
        location_before(a, b) && location_before(b, c) ==> location_before(a, c),
        location_before(a, b) ==> !same_place(a, b),
{
    lemma_chars_lt_irreflexive(a.uri@);
    lemma_chars_lt_total(a.uri@, b.uri@);
    if chars_lt(a.uri@, b.uri@) && chars_lt(b.uri@, c.uri@) {
        lemma_chars_lt_transitive(a.uri@, b.uri@, c.uri@);
    }
}

fn range_before_exec(a: TextRange, b: TextRange) -> (r: bool)
    ensures
        r == range_before(a, b),
{
    if a.start.line != b.start.line {
        a.start.line < b.start.line
    } else if a.start.column != b.start.column {
        a.start.column < b.start.column
    } else if a.end.line != b.end.line {
        a.end.line < b.end.line
    } else {
        a.end.column < b.end.column
    }
}

/// Whether location `a` comes before location `b`.
pub fn location_precedes(a: &LspLocation, b: &LspLocation) -> (r: bool)
    ensures
        r == location_before(*a, *b),
{
    if str_less(a.uri.as_str(), b.uri.as_str()) {
        true
    } else if str_eq(a.uri.as_str(), b.uri.as_str()) {
        range_before_exec(a.range, b.range)
    } else {
        false
    }
}

/// What the sorting loop keeps after the first `upto` input locations.
pub open spec fn sorted_places_of(out: Seq<LspLocation>, src: Seq<LspLocation>, upto: int) -> bool {
    &&& locations_sorted(out)
    &&& forall|j: int| 0 <= j < out.len() ==> first_occurrence_in(src, #[trigger] out[j], upto)
    &&& forall|ii: int| 0 <= ii < upto ==> place_listed(out, #[trigger] src[ii])
}

/// `k` is where `x` belongs in `ov`: everything before it comes before `x`.
pub open spec fn insertion_point(ov: Seq<LspLocation>, x: LspLocation, k: int) -> bool {
    &&& 0 <= k <= ov.len()
    &&& forall|a: int| 0 <= a < k ==> location_before(#[trigger] ov[a], x)
    &&& k < ov.len() ==> !location_before(ov[k], x)
}

proof fn lemma_new_place_is_first(ov: Seq<LspLocation>, src: Seq<LspLocation>, i: int, k: int)
    requires
        0 <= i < src.len(),
        forall|ii: int| 0 <= ii < i ==> place_listed(ov, #[trigger] src[ii]),
        insertion_point(ov, src[i], k),
        k < ov.len() ==> location_before(src[i], ov[k]),
        !(k < ov.len() && same_place(ov[k], src[i])),
        locations_sorted(ov),
    ensures
        first_of_place(src, i),
{
    let x = src[i];
    if !first_of_place(src, i) {
        let kk = choose|kk: int| 0 <= kk < i && same_place(#[trigger] src[kk], src[i]);
        assert(place_listed(ov, src[kk]));
        let j = choose|j: int| 0 <= j < ov.len() && same_place(#[trigger] ov[j], src[kk]);
        lemma_location_order(x, x, x);
        if j < k {
            assert(location_before(ov[j], x));
        } else if j > k {
            assert(location_before(ov[k], ov[j]));
            lemma_location_order(x, ov[k], ov[j]);
        }
    }
}

proof fn lemma_insert_keeps_sorted(ov: Seq<LspLocation>, x: LspLocation, k: int)
    requires
        locations_sorted(ov),
        insertion_point(ov, x, k),
        k < ov.len() ==> location_before(x, ov[k]),
    ensures
        locations_sorted(ov.insert(k, x)),
{
    let nv = ov.insert(k, x);
    assert forall|a: int, b: int| 0 <= a < b < nv.len() implies location_before(
        #[trigger] nv[a],
        #[trigger] nv[b],
    ) by {
        if b == k {
            assert(nv[a] == ov[a]);
        } else if a == k {
            assert(nv[b] == ov[b - 1]);
            if b - 1 > k {
                lemma_location_order(x, ov[k], ov[b - 1]);
            }
        } else {
            let a0 = if a < k { a } else { a - 1 };
            let b0 = if b < k { b } else { b - 1 };
            assert(nv[a] == ov[a0] && nv[b] == ov[b0]);
        }
    }
}

proof fn lemma_new_place(ov: Seq<LspLocation>, src: Seq<LspLocation>, i: int, k: int)
    requires
        0 <= i < src.len(),
        sorted_places_of(ov, src, i),
        insertion_point(ov, src[i], k),
        !(k < ov.len() && same_place(ov[k], src[i])),
    ensures
        sorted_places_of(ov.insert(k, src[i]), src, i + 1),
{
    let x = src[i];
    if k < ov.len() {
        lemma_location_order(ov[k], x, x);
    }
    lemma_new_place_is_first(ov, src, i, k);
    lemma_insert_keeps_sorted(ov, x, k);
    lemma_insert_keeps_first(ov, src, i, k);
    lemma_insert_keeps_listed(ov, src, i, k);
}

proof fn lemma_insert_keeps_first(ov: Seq<LspLocation>, src: Seq<LspLocation>, i: int, k: int)
    requires
        0 <= i < src.len(),
        0 <= k <= ov.len(),
        first_of_place(src, i),
        forall|j: int| 0 <= j < ov.len() ==> first_occurrence_in(src, #[trigger] ov[j], i),
    ensures
        forall|j: int| 0 <= j < ov.insert(k, src[i]).len() ==> first_occurrence_in(
            src,
            #[trigger] ov.insert(k, src[i])[j],
            i + 1,
        ),
{
    let nv = ov.insert(k, src[i]);
    assert forall|j: int| 0 <= j < nv.len() implies first_occurrence_in(src, #[trigger] nv[j], i + 1) by {
        if j == k {
            assert(src[i] == nv[j]);
        } else {
            let j0 = if j < k { j } else { j - 1 };
            assert(nv[j] == ov[j0]);
            assert(first_occurrence_in(src, ov[j0], i));
            let w = choose|w: int| 0 <= w < i && #[trigger] src[w] == ov[j0] && first_of_place(src, w);
            assert(src[w] == nv[j]);
        }
    }
}

proof fn lemma_insert_keeps_listed(ov: Seq<LspLocation>, src: Seq<LspLocation>, i: int, k: int)
    requires
        0 <= i < src.len(),
        0 <= k <= ov.len(),
        forall|ii: int| 0 <= ii < i ==> place_listed(ov, #[trigger] src[ii]),
    ensures
        forall|ii: int| 0 <= ii < i + 1 ==> place_listed(ov.insert(k, src[i]), #[trigger] src[ii]),
{
    let nv = ov.insert(k, src[i]);
    assert forall|ii: int| 0 <= ii < i + 1 implies place_listed(nv, #[trigger] src[ii]) by {
        if ii == i {
            assert(same_place(nv[k], src[ii]));
        } else {
            assert(place_listed(ov, src[ii]));
            let j = choose|j: int| 0 <= j < ov.len() && same_place(#[trigger] ov[j], src[ii]);
            let j1 = if j < k { j } else { j + 1 };
            assert(nv[j1] == ov[j]);
        }
    }
}

proof fn lemma_known_place(ov: Seq<LspLocation>, src: Seq<LspLocation>, i: int, k: int)
    requires
        0 <= i < src.len(),
        sorted_places_of(ov, src, i),
        0 <= k < ov.len(),
        same_place(ov[k], src[i]),
    ensures
        sorted_places_of(ov, src, i + 1),
{
    assert forall|j: int| 0 <= j < ov.len() implies first_occurrence_in(src, #[trigger] ov[j], i + 1) by {
        assert(first_occurrence_in(src, ov[j], i));
        let w = choose|w: int| 0 <= w < i && #[trigger] src[w] == ov[j] && first_of_place(src, w);
        assert(src[w] == ov[j]);
    }
    assert forall|ii: int| 0 <= ii < i + 1 implies place_listed(ov, #[trigger] src[ii]) by {
        if ii == i {
            assert(same_place(ov[k], src[ii]));
        }
    }
}

/// Sorts locations by URI, start and end, and keeps only the first location
/// given for each place (URI and range): the result is strictly ascending,
/// each entry is the first input location at its place, and every input
/// place is listed.
pub fn sort_locations(locations: &mut Vec<LspLocation>)
    ensures
        locations_sorted(final(locations)@),
        forall|j: int|
            0 <= j < final(locations)@.len() ==> first_occurrence_in(
                old(locations)@,
                #[trigger] final(locations)@[j],
                old(locations)@.len() as int,
            ),
        forall|i: int|
            0 <= i < old(locations)@.len() ==> place_listed(
                final(locations)@,
                #[trigger] old(locations)@[i],
            ),
{
    let ghost src = locations@;
    let mut out: Vec<LspLocation> = Vec::new();
    let mut i: usize = 0;
    while i < locations.len()
        invariant
            locations@ == src,
            i <= src.len(),
            sorted_places_of(out@, src, i as int),
        decreases src.len() - i,
    {
        let x = &locations[i];
        let mut k: usize = 0;
        while k < out.len() && location_precedes(&out[k], x)
            invariant
                k <= out@.len(),
                forall|a: int| 0 <= a < k ==> location_before(#[trigger] out@[a], *x),
            decreases out@.len() - k,
        {
            k += 1;
        }
        let present = k < out.len() && str_eq(out[k].uri.as_str(), x.uri.as_str())
            && out[k].range == x.range;
        if !present {
            let item = x.clone();
            proof {
                lemma_new_place(out@, src, i as int, k as int);
            }
            out.insert(k, item);
        } else {
            proof {
                lemma_known_place(out@, src, i as int, k as int);
            }
        }
        i += 1;
    }
    *locations = out;
}

/// `a` sorts before `b`, where no kind sorts before any kind.
pub open spec fn opt_chars_lt(a: Option<Seq<char>>, b: Option<Seq<char>>) -> bool {
    match (a, b) {
        (None, Some(_)) => true,
        (Some(x), Some(y)) => chars_lt(x, y),
        _ => false,
    }
}

/// What code actions are ordered by: preferred first, then title, server,
/// kind.
pub open spec fn action_key(a: LspCodeAction) -> (bool, Seq<char>, Seq<char>, Option<Seq<char>>) {
    (a.preferred, a.title@, a.server_id@, opt_view(a.kind))
}

/// Key `a` sorts strictly before key `b`.
pub open spec fn action_key_before(
    a: (bool, Seq<char>, Seq<char>, Option<Seq<char>>),
    b: (bool, Seq<char>, Seq<char>, Option<Seq<char>>),
) -> bool {
    (a.0 && !b.0) || (a.0 == b.0 && (chars_lt(a.1, b.1) || (a.1 == b.1 && (chars_lt(a.2, b.2) || (a.2
        == b.2 && opt_chars_lt(a.3, b.3))))))
}

/// No action sorts strictly before an earlier one.
pub open spec fn actions_ordered(s: Seq<LspCodeAction>) -> bool {
    forall|a: int, b: int|
        0 <= a < b < s.len() ==> !action_key_before(action_key(#[trigger] s[b]), action_key(#[trigger] s[a]))
}

/// The actions of `s` with key `k`, in their order in `s`.
pub open spec fn actions_with_key(
    s: Seq<LspCodeAction>,
    k: (bool, Seq<char>, Seq<char>, Option<Seq<char>>),
) -> Seq<LspCodeAction> {
    s.filter(|a: LspCodeAction| action_key(a) == k)
}

pub proof fn lemma_opt_chars_lt(a: Option<Seq<char>>, b: Option<Seq<char>>, c: Option<Seq<char>>)
    ensures
        !opt_chars_lt(a, a),
        opt_chars_lt(a, b) || a == b || opt_chars_lt(b, a),
        opt_chars_lt(a, b) && opt_chars_lt(b, c) ==> opt_chars_lt(a, c),
{
    if let Some(x) = a {
        lemma_chars_lt_irreflexive(x);
        if let Some(y) = b {
            lemma_chars_lt_total(x, y);
            if let Some(z) = c {
                if chars_lt(x, y) && chars_lt(y, z) {
                    lemma_chars_lt_transitive(x, y, z);
                }
            }
        }
    }
}

pub proof fn lemma_action_key_order(
    a: (bool, Seq<char>, Seq<char>, Option<Seq<char>>),
    b: (bool, Seq<char>, Seq<char>, Option<Seq<char>>),
    c: (bool, Seq<char>, Seq<char>, Option<Seq<char>>),
)
    ensures
        !action_key_before(a, a),
        action_key_before(a, b) || a == b || action_key_before(b, a),
        action_key_before(a, b) && action_key_before(b, c) ==> action_key_before(a, c),
{
    lemma_chars_lt_irreflexive(a.1);
    lemma_chars_lt_irreflexive(a.2);
    lemma_chars_lt_total(a.1, b.1);
    lemma_chars_lt_total(a.2, b.2);
    lemma_opt_chars_lt(a.3, b.3, c.3);
    if chars_lt(a.1, b.1) && chars_lt(b.1, c.1) {
        lemma_chars_lt_transitive(a.1, b.1, c.1);
    }
    if chars_lt(a.2, b.2) && chars_lt(b.2, c.2) {
        lemma_chars_lt_transitive(a.2, b.2, c.2);
    }
    if a.1 == b.1 && a.2 == b.2 && a.3 == b.3 && a.0 == b.0 {
        assert(a == b);
    }
}

fn opt_str_less(a: &Option<String>, b: &Option<String>) -> (r: bool)
    ensures
        r == opt_chars_lt(opt_view(*a), opt_view(*b)),
{
    match (a, b) {
        (None, Some(_)) => true,
        (Some(x), Some(y)) => str_less(x.as_str(), y.as_str()),
        _ => false,
    }
}

/// Whether action `a` sorts strictly before action `b`.
pub fn action_precedes(a: &LspCodeAction, b: &LspCodeAction) -> (r: bool)
    ensures
        r == action_key_before(action_key(*a), action_key(*b)),
{
    proof {
        lemma_chars_lt_irreflexive(a.title@);
        lemma_chars_lt_irreflexive(a.server_id@);
        lemma_opt_chars_lt(opt_view(a.kind), opt_view(a.kind), opt_view(a.kind));
    }
    if a.preferred != b.preferred {
        return a.preferred;
    }
    if !str_eq(a.title.as_str(), b.title.as_str()) {
        return str_less(a.title.as_str(), b.title.as_str());
    }
    if !str_eq(a.server_id.as_str(), b.server_id.as_str()) {
        return str_less(a.server_id.as_str(), b.server_id.as_str());
    }
    opt_str_less(&a.kind, &b.kind)
}

proof fn lemma_actions_with_key_push(
    s: Seq<LspCodeAction>,
    x: LspCodeAction,
    k: (bool, Seq<char>, Seq<char>, Option<Seq<char>>),
)
    ensures
        actions_with_key(s.push(x), k) == if action_key(x) == k {
            actions_with_key(s, k).push(x)
        } else {
            actions_with_key(s, k)
        },
{
    reveal(Seq::filter);
    assert(s.push(x).drop_last() =~= s);
}

proof fn lemma_actions_with_key_none(s: Seq<LspCodeAction>, k: (bool, Seq<char>, Seq<char>, Option<Seq<char>>))
    requires
        forall|j: int| 0 <= j < s.len() ==> action_key(#[trigger] s[j]) != k,
    ensures
        actions_with_key(s, k) == Seq::<LspCodeAction>::empty(),
    decreases s.len(),
{
    reveal(Seq::filter);
    if s.len() > 0 {
        lemma_actions_with_key_none(s.drop_last(), k);
    }
}

proof fn lemma_actions_with_key_insert(
    s: Seq<LspCodeAction>,
    x: LspCodeAction,
    i: int,
    k: (bool, Seq<char>, Seq<char>, Option<Seq<char>>),
)
    requires
        0 <= i <= s.len(),
        forall|j: int| i <= j < s.len() ==> action_key(#[trigger] s[j]) != action_key(x),
    ensures
        actions_with_key(s.insert(i, x), k) == if action_key(x) == k {
            actions_with_key(s, k).push(x)
        } else {
            actions_with_key(s, k)
        },
{
    let pred = |a: LspCodeAction| action_key(a) == k;
    let a = s.take(i);
    let b = s.skip(i);
    assert(s.insert(i, x) =~= a + (seq![x] + b));
    assert(s =~= a + b);
    Seq::filter_distributes_over_add(a, seq![x] + b, pred);
    Seq::filter_distributes_over_add(seq![x], b, pred);
    Seq::filter_distributes_over_add(a, b, pred);
    lemma_actions_with_key_push(Seq::<LspCodeAction>::empty(), x, k);
    assert(Seq::<LspCodeAction>::empty().push(x) =~= seq![x]);
    lemma_actions_with_key_none(Seq::<LspCodeAction>::empty(), k);
    if action_key(x) == k {
        assert forall|j: int| 0 <= j < b.len() implies action_key(#[trigger] b[j]) != k by {
            assert(b[j] == s[i + j]);
        }
        lemma_actions_with_key_none(b, k);
        assert(actions_with_key(a, k) + (seq![x] + Seq::<LspCodeAction>::empty()) =~= (actions_with_key(a, k)
            + Seq::<LspCodeAction>::empty()).push(x));
    } else {
        assert(Seq::<LspCodeAction>::empty() + actions_with_key(b, k) =~= actions_with_key(b, k));
    }
}

proof fn lemma_action_insertion_point(ov: Seq<LspCodeAction>, x: LspCodeAction, k: int)
    requires
        actions_ordered(ov),
        0 <= k <= ov.len(),
        forall|a: int| 0 <= a < k ==> !action_key_before(action_key(x), action_key(#[trigger] ov[a])),
        k < ov.len() ==> action_key_before(action_key(x), action_key(ov[k])),
    ensures
        actions_ordered(ov.insert(k, x)),
        forall|j: int| k <= j < ov.len() ==> action_key(#[trigger] ov[j]) != action_key(x),
{
    let kx = action_key(x);
    assert forall|j: int| k <= j < ov.len() implies action_key_before(kx, action_key(#[trigger] ov[j])) by {
        if j > k {
            lemma_action_key_order(action_key(ov[k]), action_key(ov[j]), action_key(ov[j]));
            lemma_action_key_order(kx, action_key(ov[k]), action_key(ov[j]));
        }
    }
    assert forall|j: int| k <= j < ov.len() implies action_key(#[trigger] ov[j]) != kx by {
        lemma_action_key_order(kx, kx, kx);
        assert(action_key_before(kx, action_key(ov[j])));
    }
    let nv = ov.insert(k, x);
    assert forall|a: int, b: int| 0 <= a < b < nv.len() implies !action_key_before(
        action_key(#[trigger] nv[b]),
        action_key(#[trigger] nv[a]),
    ) by {
        if b == k {
            assert(nv[a] == ov[a]);
        } else if a == k {
            assert(nv[b] == ov[b - 1]);
            assert(action_key_before(kx, action_key(ov[b - 1])));
            lemma_action_key_order(kx, action_key(ov[b - 1]), kx);
        } else {
            let a0 = if a < k { a } else { a - 1 };
            let b0 = if b < k { b } else { b - 1 };
            assert(nv[a] == ov[a0] && nv[b] == ov[b0]);
        }
    }
}

/// Orders code actions: preferred ones first, then by title, server and
/// kind, keeping the given order among actions with equal keys. The result
/// is ordered, and for every key it lists the same actions in the same
/// order as the input.
pub fn sort_code_actions(actions: Vec<LspCodeAction>) -> (r: Vec<LspCodeAction>)
    ensures
        actions_ordered(r@),
        forall|k: (bool, Seq<char>, Seq<char>, Option<Seq<char>>)| #[trigger] actions_with_key(r@, k)
            == actions_with_key(actions@, k),
{
    let ghost src = actions@;
    let mut rest = actions;
    let mut out: Vec<LspCodeAction> = Vec::new();
    let ghost mut i: int = 0;
    proof {
        assert(src.skip(0) =~= src);
        assert(src.take(0) =~= out@);
    }
    while rest.len() > 0
        invariant
            0 <= i <= src.len(),
            rest@ == src.skip(i),
            actions_ordered(out@),
            forall|k: (bool, Seq<char>, Seq<char>, Option<Seq<char>>)| #[trigger] actions_with_key(out@, k)
                == actions_with_key(src.take(i), k),
        decreases rest@.len(),
    {
        let x = rest.remove(0);
        proof {
            assert(x == src[i]);
            assert(rest@ =~= src.skip(i + 1));
        }
        let mut k: usize = 0;
        while k < out.len() && !action_precedes(&x, &out[k])
            invariant
                k <= out@.len(),
                forall|a: int| 0 <= a < k ==> !action_key_before(action_key(x), action_key(#[trigger] out@[a])),
            decreases out@.len() - k,
        {
            k += 1;
        }
        let ghost ov = out@;
        proof {
            lemma_action_insertion_point(ov, x, k as int);
            assert forall|kk: (bool, Seq<char>, Seq<char>, Option<Seq<char>>)| #[trigger] actions_with_key(
                ov.insert(k as int, x),
                kk,
            ) == actions_with_key(src.take(i + 1), kk) by {
                lemma_actions_with_key_insert(ov, x, k as int, kk);
                assert(src.take(i + 1) =~= src.take(i).push(x));
                lemma_actions_with_key_push(src.take(i), x, kk);
            }
        }
        out.insert(k, x);
        proof {
            assert(out@ =~= ov.insert(k as int, x));
            i = i + 1;
        }
    }
    proof {
        assert(src.take(i) =~= src);
    }
    out
}


/// Sorted locations name each place once.
pub proof fn law_sorted_locations_name_each_place_once(s: Seq<LspLocation>, a: int, b: int)
    requires
        locations_sorted(s),
        0 <= a < b < s.len(),
    ensures
        !same_place(s[a], s[b]),
{
    lemma_location_order(s[a], s[b], s[b]);
}

/// In ordered code actions every preferred action comes before every
/// action that is not preferred.
pub proof fn law_preferred_actions_come_first(s: Seq<LspCodeAction>, a: int, b: int)
    requires
        actions_ordered(s),
        0 <= a < b < s.len(),
        s[b].preferred,
    ensures
        s[a].preferred,
{
    assert(!action_key_before(action_key(s[b]), action_key(s[a])));
}


/// Sorted locations ascend by position within a document: of two locations
/// with the same URI, the earlier starts on an earlier line, or on the same
/// line at an earlier column, or at the same point and ends on an earlier
/// line, or on the same line at an earlier column.
pub proof fn law_sorted_locations_ascend_by_position(s: Seq<LspLocation>, a: int, b: int)
    requires
        locations_sorted(s),
        0 <= a < b < s.len(),
        s[a].uri@ == s[b].uri@,
    ensures
        s[a].range.start.line < s[b].range.start.line || (s[a].range.start.line == s[b].range.start.line && (
        s[a].range.start.column < s[b].range.start.column || (s[a].range.start.column == s[b].range.start.column
            && (s[a].range.end.line < s[b].range.end.line || (s[a].range.end.line == s[b].range.end.line
            && s[a].range.end.column < s[b].range.end.column))))),
        s[a].range.start.line == s[b].range.start.line ==> s[a].range.start.column <= s[b].range.start.column,
{
    assert(location_before(s[a], s[b]));
    lemma_chars_lt_irreflexive(s[a].uri@);
}

} // verus!
