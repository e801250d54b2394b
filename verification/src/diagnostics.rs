//! Published diagnostics: what each session holds per document, the paths
//! whose diagnostics changed since the editor last asked, a generation
//! counter bumped on each publication, and the order in which the
//! diagnostics of one document are shown.
use vstd::prelude::*;
use crate::strings::owned;
use crate::paths::{PathStyle, same_path, paths_equal};
use crate::documents::{
    doc_index, doc_text, docs_unique, lemma_doc_index, lemma_doc_index_props, path_index, in_paths,
    paths_unique, lemma_path_index, lemma_path_index_props,
};
use crate::types::{Diagnostic, DiagnosticSeverity};

verus! {

/// A copy of a list of diagnostics.
pub fn clone_diagnostics(v: &Vec<Diagnostic>) -> (r: Vec<Diagnostic>)
    ensures
        r@ == v@,
{
    let mut out: Vec<Diagnostic> = Vec::new();
    let mut i: usize = 0;
    while i < v.len()
        invariant
            i <= v@.len(),
            out@ == v@.take(i as int),
        decreases v@.len() - i,
    {
        out.push(v[i].clone());
        proof {
            assert(v@.take(i + 1) =~= v@.take(i as int).push(v@[i as int]));
        }
        i += 1;
    }
    proof {
        assert(v@.take(v@.len() as int) =~= v@);
    }
    out
}

/// The diagnostics one session's server last published, per document.
pub struct SessionDiagnostics {
    pub style: PathStyle,
    pub entries: Vec<(String, Vec<Diagnostic>)>,
}

impl SessionDiagnostics {
    pub open spec fn model(&self) -> Seq<(Seq<char>, Seq<Diagnostic>)> {
        self.entries@.map_values(|e: (String, Vec<Diagnostic>)| (e.0@, e.1@))
    }

    /// The documents with published diagnostics, in the order first published.
    pub open spec fn paths_model(&self) -> Seq<Seq<char>> {
        self.entries@.map_values(|e: (String, Vec<Diagnostic>)| e.0@)
    }

    /// Each document is listed once.
    pub open spec fn wf(&self) -> bool {
        docs_unique(self.model(), self.style)
    }

    /// The diagnostics last published for document `p`, if any were.
    pub open spec fn published(&self, p: Seq<char>) -> Option<Seq<Diagnostic>> {
        doc_text(self.model(), p, self.style)
    }

    /// No document has diagnostics yet.
    pub fn new(style: PathStyle) -> (r: Self)
        ensures
            r.wf(),
            r.style == style,
            forall|q: Seq<char>| #[trigger] r.published(q) is None,
            r.paths_model().len() == 0,
    {
        let r = SessionDiagnostics { style, entries: Vec::new() };
        proof {
            assert(r.model() =~= Seq::empty());
            assert(r.paths_model() =~= Seq::empty());
        }
        r
    }

    fn find(&self, path: &str) -> (r: usize)
        ensures
            r == doc_index(self.model(), path@, self.style),
            r <= self.entries@.len(),
    {
        let ghost d = self.model();
        let mut i: usize = 0;
        while i < self.entries.len()
            invariant
                d == self.model(),
                d.len() == self.entries@.len(),
                i <= self.entries@.len(),
                forall|k: int| 0 <= k < i ==> !same_path(#[trigger] d[k].0, path@, self.style),
            decreases self.entries@.len() - i,
        {
            if paths_equal(self.entries[i].0.as_str(), path, self.style) {
                proof {
                    lemma_doc_index(d, path@, self.style, i as int);
                }
                return i;
            }
            i += 1;
        }
        proof {
            lemma_doc_index(d, path@, self.style, i as int);
        }
        i
    }

    /// Replaces the diagnostics of `path` (the document keeps its place in
    /// the list), or adds the document at the end.
    pub fn insert(&mut self, path: &str, diagnostics: Vec<Diagnostic>)
        requires
            old(self).wf(),
        ensures
            final(self).wf(),
            final(self).style == old(self).style,
            final(self).published(path@) == Some(diagnostics@),
            forall|q: Seq<char>|
                !same_path(q, path@, old(self).style) ==> #[trigger] final(self).published(q) == old(
                    self,
                ).published(q),
            forall|q: Seq<char>|
                #[trigger] in_paths(final(self).paths_model(), q, old(self).style) == (in_paths(
                    old(self).paths_model(),
                    q,
                    old(self).style,
                ) || same_path(q, path@, old(self).style)),
    {
        let ghost d = self.model();
        let ghost ks = self.paths_model();
        let ghost st = self.style;
        let ghost dv = diagnostics@;
        let i = self.find(path);
        proof {
            lemma_doc_index_props(d, path@, st);
        }
        if i < self.entries.len() {
            let key = owned(self.entries[i].0.as_str());
            self.entries.set(i, (key, diagnostics));
            proof {
                let d2 = self.model();
                assert(d2 =~= d.update(i as int, (d[i as int].0, dv)));
                assert(self.paths_model() =~= ks);
                assert forall|a: int, b: int| 0 <= a < b < d2.len() implies !same_path(
                    #[trigger] d2[a].0,
                    #[trigger] d2[b].0,
                    st,
                ) by {
                    assert(d2[a].0 == d[a].0 && d2[b].0 == d[b].0);
                }
                lemma_doc_index(d2, path@, st, i as int);
                assert forall|q: Seq<char>| !same_path(q, path@, st) implies #[trigger] doc_text(d2, q, st)
                    == doc_text(d, q, st) by {
                    lemma_doc_index_props(d, q, st);
                    let j = doc_index(d, q, st);
                    lemma_doc_index(d2, q, st, j);
                }
                assert forall|q: Seq<char>| #[trigger] in_paths(ks, q, st) == (in_paths(ks, q, st) || same_path(q, path@, st)) by {
                    if same_path(q, path@, st) {
                        assert(ks[i as int] == d[i as int].0);
                        lemma_path_index_props(ks, q, st);
                        if !in_paths(ks, q, st) {
                            assert(!same_path(ks[i as int], q, st));
                        }
                    }
                }
            }
        } else {
            self.entries.push((owned(path), diagnostics));
            proof {
                let d2 = self.model();
                let ks2 = self.paths_model();
                assert(d2 =~= d.push((path@, dv)));
                assert(ks2 =~= ks.push(path@));
                assert forall|a: int, b: int| 0 <= a < b < d2.len() implies !same_path(
                    #[trigger] d2[a].0,
                    #[trigger] d2[b].0,
                    st,
                ) by {
                    if b == d.len() {
                        assert(!same_path(d[a].0, path@, st));
                    }
                }
                lemma_doc_index(d2, path@, st, d.len() as int);
                assert forall|q: Seq<char>| !same_path(q, path@, st) implies #[trigger] doc_text(d2, q, st)
                    == doc_text(d, q, st) by {
                    lemma_doc_index_props(d, q, st);
                    let j = doc_index(d, q, st);
                    if j < d.len() {
                        lemma_doc_index(d2, q, st, j);
                    } else {
                        lemma_doc_index(d2, q, st, d2.len() as int);
                    }
                }
                assert forall|q: Seq<char>| #[trigger] in_paths(ks2, q, st) == (in_paths(ks, q, st) || same_path(q, path@, st)) by {
                    lemma_path_index_props(ks, q, st);
                    let j = path_index(ks, q, st);
                    if j < ks.len() {
                        lemma_path_index(ks2, q, st, j);
                    } else if same_path(q, path@, st) {
                        assert(forall|k: int| 0 <= k < ks.len() ==> ks[k] == d[k].0);
                        lemma_path_index(ks2, q, st, ks.len() as int);
                    } else {
                        lemma_path_index(ks2, q, st, ks2.len() as int);
                    }
                }
            }
        }
    }

    /// The diagnostics last published for `path`; none if nothing was.
    pub fn diagnostics_for_path(&self, path: &str) -> (r: Vec<Diagnostic>)
        ensures
            r@ == match self.published(path@) {
                Some(d) => d,
                None => Seq::empty(),
            },
    {
        let i = self.find(path);
        if i < self.entries.len() {
            clone_diagnostics(&self.entries[i].1)
        } else {
            Vec::new()
        }
    }
}

/// What changed since the editor last looked: the documents whose
/// diagnostics changed, and a generation bumped on each publication.
pub struct DiagnosticsChanges {
    pub style: PathStyle,
    pub dirty: Vec<String>,
    pub generation: u64,
}

/// One more, wrapping at the end of the `u64` range (as an atomic
/// `fetch_add`).
pub open spec fn next_generation(g: u64) -> u64 {
    if g == u64::MAX {
        0
    } else {
        (g + 1) as u64
    }
}

impl DiagnosticsChanges {
    pub open spec fn dirty_model(&self) -> Seq<Seq<char>> {
        self.dirty@.map_values(|p: String| p@)
    }

    /// Each changed document is listed once.
    pub open spec fn wf(&self) -> bool {
        paths_unique(self.dirty_model(), self.style)
    }

    /// Whether the diagnostics of `p` changed since the last take.
    pub open spec fn is_dirty(&self, p: Seq<char>) -> bool {
        in_paths(self.dirty_model(), p, self.style)
    }

    /// Nothing changed yet; generation zero.
    pub fn new(style: PathStyle) -> (r: Self)
        ensures
            r.wf(),
            r.style == style,
            r.generation == 0,
            forall|q: Seq<char>| !#[trigger] r.is_dirty(q),
    {
        let r = DiagnosticsChanges { style, dirty: Vec::new(), generation: 0 };
        proof {
            assert(r.dirty_model() =~= Seq::empty());
        }
        r
    }

    pub fn generation(&self) -> (r: u64)
        ensures
            r == self.generation,
    {
        self.generation
    }

    fn find(&self, path: &str) -> (r: usize)
        ensures
            r == path_index(self.dirty_model(), path@, self.style),
            r <= self.dirty@.len(),
    {
        let ghost f = self.dirty_model();
        let mut i: usize = 0;
        while i < self.dirty.len()
            invariant
                f == self.dirty_model(),
                f.len() == self.dirty@.len(),
                i <= self.dirty@.len(),
                forall|k: int| 0 <= k < i ==> !same_path(#[trigger] f[k], path@, self.style),
            decreases self.dirty@.len() - i,
        {
            if paths_equal(self.dirty[i].as_str(), path, self.style) {
                proof {
                    lemma_path_index(f, path@, self.style, i as int);
                }
                return i;
            }
            i += 1;
        }
        proof {
            lemma_path_index(f, path@, self.style, i as int);
        }
        i
    }

    /// Marks the diagnostics of `path` as changed.
    pub fn mark_dirty(&mut self, path: &str)
        requires
            old(self).wf(),
        ensures
            final(self).wf(),
            final(self).style == old(self).style,
            final(self).generation == old(self).generation,
            forall|q: Seq<char>|
                #[trigger] final(self).is_dirty(q) == (old(self).is_dirty(q) || same_path(q, path@, old(self).style)),
    {
        let ghost f = self.dirty_model();
        let ghost st = self.style;
        let i = self.find(path);
        proof {
            lemma_path_index_props(f, path@, st);
        }
        if i >= self.dirty.len() {
            self.dirty.push(owned(path));
            proof {
                let f2 = self.dirty_model();
                assert(f2 =~= f.push(path@));
                assert forall|a: int, b: int| 0 <= a < b < f2.len() implies !same_path(
                    #[trigger] f2[a],
                    #[trigger] f2[b],
                    st,
                ) by {
                    if b == f.len() {
                        assert(!same_path(f[a], path@, st));
                    }
                }
                assert forall|q: Seq<char>| #[trigger] in_paths(f2, q, st) == (in_paths(f, q, st) || same_path(q, path@, st)) by {
                    lemma_path_index_props(f, q, st);
                    let j = path_index(f, q, st);
                    if j < f.len() {
                        lemma_path_index(f2, q, st, j);
                    } else if same_path(q, path@, st) {
                        lemma_path_index(f2, q, st, f.len() as int);
                    } else {
                        lemma_path_index(f2, q, st, f2.len() as int);
                    }
                }
            }
        } else {
            proof {
                assert forall|q: Seq<char>| #[trigger] in_paths(f, q, st) == (in_paths(f, q, st) || same_path(q, path@, st)) by {
                    if same_path(q, path@, st) {
                        lemma_path_index_props(f, q, st);
                        if !in_paths(f, q, st) {
                            assert(!same_path(f[i as int], q, st));
                        }
                    }
                }
            }
        }
    }

    /// Bumps the generation, wrapping at the end of the range.
    pub fn bump_generation(&mut self)
        ensures
            final(self).generation == next_generation(old(self).generation),
            final(self).style == old(self).style,
            final(self).dirty == old(self).dirty,
            forall|q: Seq<char>| #[trigger] final(self).is_dirty(q) == old(self).is_dirty(q),
    {
        self.generation = self.generation.wrapping_add(1);
    }

    /// The documents whose diagnostics changed since the last take, each
    /// once, in the order first marked; afterwards none is marked.
    pub fn take_dirty_diagnostic_paths(&mut self) -> (r: Vec<String>)
        requires
            old(self).wf(),
        ensures
            crate::types::views(r@) == old(self).dirty_model(),
            final(self).wf(),
            final(self).style == old(self).style,
            final(self).generation == old(self).generation,
            forall|q: Seq<char>| !#[trigger] final(self).is_dirty(q),
    {
        let mut r: Vec<String> = Vec::new();
        std::mem::swap(&mut r, &mut self.dirty);
        proof {
            assert(self.dirty_model() =~= Seq::empty());
            assert(crate::types::views(r@) =~= old(self).dirty_model());
        }
        r
    }
}

/// A server published `parsed` for `path`: the session now holds them,
/// the document is marked changed and the generation moves on.
pub fn record_published_diagnostics(
    diagnostics: &mut SessionDiagnostics,
    changes: &mut DiagnosticsChanges,
    path: &str,
    parsed: Vec<Diagnostic>,
)
    requires
        old(diagnostics).wf(),
        old(changes).wf(),
    ensures
        final(diagnostics).wf(),
        final(changes).wf(),
        final(diagnostics).style == old(diagnostics).style,
        final(changes).style == old(changes).style,
        final(diagnostics).published(path@) == Some(parsed@),
        forall|q: Seq<char>|
            !same_path(q, path@, old(diagnostics).style) ==> #[trigger] final(diagnostics).published(q)
                == old(diagnostics).published(q),
        forall|q: Seq<char>|
            #[trigger] final(changes).is_dirty(q) == (old(changes).is_dirty(q) || same_path(
                q,
                path@,
                old(changes).style,
            )),
        final(changes).generation == next_generation(old(changes).generation),
{
    diagnostics.insert(path, parsed);
    changes.mark_dirty(path);
    changes.bump_generation();
}

/// A session went away: every document it holds diagnostics for is marked
/// changed, so the editor drops them on its next look.
pub fn note_session_disconnect_diagnostics(diagnostics: &SessionDiagnostics, changes: &mut DiagnosticsChanges)
    requires
        old(changes).wf(),
    ensures
        final(changes).wf(),
        final(changes).style == old(changes).style,
        final(changes).generation == old(changes).generation,
        forall|q: Seq<char>|
            #[trigger] final(changes).is_dirty(q) == (old(changes).is_dirty(q) || in_paths(
                diagnostics.paths_model(),
                q,
                old(changes).style,
            )),
{
    let ghost ks = diagnostics.paths_model();
    let ghost st = changes.style;
    let mut i: usize = 0;
    while i < diagnostics.entries.len()
        invariant
            ks == diagnostics.paths_model(),
            ks.len() == diagnostics.entries@.len(),
            i <= ks.len(),
            changes.wf(),
            changes.style == st,
            st == old(changes).style,
            changes.generation == old(changes).generation,
            forall|q: Seq<char>|
                #[trigger] changes.is_dirty(q) == (old(changes).is_dirty(q) || in_paths(
                    ks.take(i as int),
                    q,
                    st,
                )),
        decreases ks.len() - i,
    {
        changes.mark_dirty(diagnostics.entries[i].0.as_str());
        proof {
            let t = ks.take(i as int);
            let t2 = ks.take(i + 1);
            assert(t2 =~= t.push(ks[i as int]));
            assert forall|q: Seq<char>| #[trigger] in_paths(t2, q, st) == (in_paths(t, q, st) || same_path(q, ks[i as int], st)) by {
                lemma_path_index_props(t, q, st);
                let j = path_index(t, q, st);
                if j < t.len() {
                    lemma_path_index(t2, q, st, j);
                } else if same_path(q, ks[i as int], st) {
                    lemma_path_index(t2, q, st, t.len() as int);
                } else {
                    lemma_path_index(t2, q, st, t2.len() as int);
                }
            }
        }
        i += 1;
    }
    proof {
        assert(ks.take(ks.len() as int) =~= ks);
    }
}

/// Rank of a severity in the order diagnostics are shown: errors first.
pub open spec fn severity_rank(s: DiagnosticSeverity) -> u8 {
    match s {
        DiagnosticSeverity::Error => 0,
        DiagnosticSeverity::Warning => 1,
        DiagnosticSeverity::Information => 2,
    }
}

fn severity_rank_exec(s: DiagnosticSeverity) -> (r: u8)
    ensures
        r == severity_rank(s),
{
    match s {
        DiagnosticSeverity::Error => 0,
        DiagnosticSeverity::Warning => 1,
        DiagnosticSeverity::Information => 2,
    }
}

/// What diagnostics are ordered by: start line, start column, severity.
pub open spec fn diagnostic_key(d: Diagnostic) -> (usize, usize, u8) {
    (d.range.start.line, d.range.start.column, severity_rank(d.severity))
}

/// Lexicographic order of keys.
pub open spec fn key_le(a: (usize, usize, u8), b: (usize, usize, u8)) -> bool {
    a.0 < b.0 || (a.0 == b.0 && (a.1 < b.1 || (a.1 == b.1 && a.2 <= b.2)))
}

/// Ascending by key.
pub open spec fn diagnostics_ordered(s: Seq<Diagnostic>) -> bool {
    forall|a: int, b: int|
        0 <= a < b < s.len() ==> key_le(diagnostic_key(#[trigger] s[a]), diagnostic_key(#[trigger] s[b]))
}

/// The diagnostics of `s` with key `k`, in their order in `s`.
pub open spec fn with_key(s: Seq<Diagnostic>, k: (usize, usize, u8)) -> Seq<Diagnostic> {
    s.filter(|d: Diagnostic| diagnostic_key(d) == k)
}

proof fn lemma_with_key_push(s: Seq<Diagnostic>, x: Diagnostic, k: (usize, usize, u8))
    ensures
        with_key(s.push(x), k) == if diagnostic_key(x) == k {
            with_key(s, k).push(x)
        } else {
            with_key(s, k)
        },
{
    reveal(Seq::filter);
    assert(s.push(x).drop_last() =~= s);
}

proof fn lemma_with_key_none(s: Seq<Diagnostic>, k: (usize, usize, u8))
    requires
        forall|j: int| 0 <= j < s.len() ==> diagnostic_key(#[trigger] s[j]) != k,
    ensures
        with_key(s, k) == Seq::<Diagnostic>::empty(),
    decreases s.len(),
{
    reveal(Seq::filter);
    if s.len() > 0 {
        lemma_with_key_none(s.drop_last(), k);
    }
}

proof fn lemma_with_key_insert(s: Seq<Diagnostic>, x: Diagnostic, i: int, k: (usize, usize, u8))
    requires
        0 <= i <= s.len(),
        forall|j: int| i <= j < s.len() ==> !key_le(diagnostic_key(#[trigger] s[j]), diagnostic_key(x)),
    ensures
        with_key(s.insert(i, x), k) == if diagnostic_key(x) == k {
            with_key(s, k).push(x)
        } else {
            with_key(s, k)
        },
{
    let pred = |d: Diagnostic| diagnostic_key(d) == k;
    let a = s.take(i);
    let b = s.skip(i);
    assert(s.insert(i, x) =~= a + (seq![x] + b));
    assert(s =~= a + b);
    Seq::filter_distributes_over_add(a, seq![x] + b, pred);
    Seq::filter_distributes_over_add(seq![x], b, pred);
    Seq::filter_distributes_over_add(a, b, pred);
    lemma_with_key_push(Seq::<Diagnostic>::empty(), x, k);
    assert(Seq::<Diagnostic>::empty().push(x) =~= seq![x]);
    lemma_with_key_none(Seq::<Diagnostic>::empty(), k);
    if diagnostic_key(x) == k {
        assert forall|j: int| 0 <= j < b.len() implies diagnostic_key(#[trigger] b[j]) != k by {
            assert(b[j] == s[i + j]);
        }
        lemma_with_key_none(b, k);
        assert(with_key(a, k) + (seq![x] + Seq::<Diagnostic>::empty()) =~= (with_key(a, k)
            + Seq::<Diagnostic>::empty()).push(x));
    } else {
        assert(Seq::<Diagnostic>::empty() + with_key(b, k) =~= with_key(b, k));
    }
}

/// Orders diagnostics by start line, start column and severity (errors
/// first), keeping the given order among those with equal keys: the result
/// is ascending, and for every key it lists the same diagnostics in the
/// same order as the input.
pub fn sort_diagnostics(diagnostics: Vec<Diagnostic>) -> (r: Vec<Diagnostic>)
    ensures
        diagnostics_ordered(r@),
        forall|k: (usize, usize, u8)| #[trigger] with_key(r@, k) == with_key(diagnostics@, k),
{
    let mut out: Vec<Diagnostic> = Vec::new();
    let mut i: usize = 0;
    proof {
        assert(diagnostics@.take(0) =~= out@);
    }
    while i < diagnostics.len()
        invariant
            i <= diagnostics@.len(),
            diagnostics_ordered(out@),
            forall|k: (usize, usize, u8)| #[trigger] with_key(out@, k) == with_key(diagnostics@.take(i as int), k),
        decreases diagnostics@.len() - i,
    {
        let x = diagnostics[i].clone();
        let xl = x.range.start.line;
        let xc = x.range.start.column;
        let xr = severity_rank_exec(x.severity);
        let mut k: usize = 0;
        while k < out.len() && (out[k].range.start.line < xl || (out[k].range.start.line == xl && (
        out[k].range.start.column < xc || (out[k].range.start.column == xc && severity_rank_exec(
            out[k].severity,
        ) <= xr))))
            invariant
                k <= out@.len(),
                x == diagnostics@[i as int],
                xl == x.range.start.line,
                xc == x.range.start.column,
                xr == severity_rank(x.severity),
                forall|a: int| 0 <= a < k ==> key_le(diagnostic_key(#[trigger] out@[a]), diagnostic_key(x)),
            decreases out@.len() - k,
        {
            k += 1;
        }
        let ghost ov = out@;
        proof {
            assert forall|j: int| k <= j < ov.len() implies !key_le(
                diagnostic_key(#[trigger] ov[j]),
                diagnostic_key(x),
            ) by {
                if j > k {
                    assert(key_le(diagnostic_key(ov[k as int]), diagnostic_key(ov[j])));
                }
            }
            assert forall|kk: (usize, usize, u8)| #[trigger] with_key(ov.insert(k as int, x), kk) == with_key(
                diagnostics@.take(i + 1),
                kk,
            ) by {
                lemma_with_key_insert(ov, x, k as int, kk);
                assert(diagnostics@.take(i + 1) =~= diagnostics@.take(i as int).push(x));
                lemma_with_key_push(diagnostics@.take(i as int), x, kk);
            }
        }
        out.insert(k, x);
        proof {
            let nv = out@;
            assert(nv =~= ov.insert(k as int, x));
            assert forall|a: int, b: int| 0 <= a < b < nv.len() implies key_le(
                diagnostic_key(#[trigger] nv[a]),
                diagnostic_key(#[trigger] nv[b]),
            ) by {
                if b == k {
                    assert(nv[a] == ov[a]);
                } else if a == k {
                    assert(nv[b] == ov[b - 1]);
                } else {
                    let a0 = if a < k { a } else { a - 1 };
                    let b0 = if b < k { b } else { b - 1 };
                    assert(nv[a] == ov[a0] && nv[b] == ov[b0]);
                }
            }
        }
        i += 1;
    }
    proof {
        assert(diagnostics@.take(diagnostics@.len() as int) =~= diagnostics@);
    }
    out
}

/// What a session shows for document `p`: its published diagnostics, or none.
pub open spec fn shown_by(s: SessionDiagnostics, p: Seq<char>) -> Seq<Diagnostic> {
    match s.published(p) {
        Some(d) => d,
        None => Seq::empty(),
    }
}

/// The diagnostics of `p` from each session in turn.
pub open spec fn shown_by_all(sessions: Seq<SessionDiagnostics>, p: Seq<char>) -> Seq<Diagnostic>
    decreases sessions.len(),
{
    if sessions.len() == 0 {
        Seq::empty()
    } else {
        shown_by_all(sessions.drop_last(), p) + shown_by(sessions.last(), p)
    }
}

/// The diagnostics of `path` from all the sessions that track it, ordered
/// for display: ascending by key, and among equal keys in session order,
/// then in published order.
pub fn collect_path_diagnostics(sessions: &Vec<SessionDiagnostics>, path: &str) -> (r: Vec<Diagnostic>)
    ensures
        diagnostics_ordered(r@),
        forall|k: (usize, usize, u8)| #[trigger] with_key(r@, k) == with_key(shown_by_all(sessions@, path@), k),
{
    let mut all: Vec<Diagnostic> = Vec::new();
    let mut i: usize = 0;
    while i < sessions.len()
        invariant
            i <= sessions@.len(),
            all@ == shown_by_all(sessions@.take(i as int), path@),
        decreases sessions@.len() - i,
    {
        let mut d = sessions[i].diagnostics_for_path(path);
        proof {
            assert(sessions@.take(i + 1).drop_last() =~= sessions@.take(i as int));
        }
        all.append(&mut d);
        i += 1;
    }
    proof {
        assert(sessions@.take(sessions@.len() as int) =~= sessions@);
    }
    sort_diagnostics(all)
}

/// One diagnostic of the workspace view: which server published it, for
/// which document.
#[derive(Debug, PartialEq, Eq)]
pub struct LspWorkspaceDiagnostic {
    pub server_id: String,
    pub path: String,
    pub diagnostic: Diagnostic,
}

impl LspWorkspaceDiagnostic {
    pub fn server_id(&self) -> (r: &str)
        ensures
            r@ == self.server_id@,
    {
        self.server_id.as_str()
    }

    pub fn path(&self) -> (r: &str)
        ensures
            r@ == self.path@,
    {
        self.path.as_str()
    }

    pub fn diagnostic(&self) -> (r: &Diagnostic)
        ensures
            *r == self.diagnostic,
    {
        &self.diagnostic
    }
}

pub open spec fn workspace_entry_view(e: LspWorkspaceDiagnostic) -> (Seq<char>, Seq<char>, Diagnostic) {
    (e.server_id@, e.path@, e.diagnostic)
}

/// A session's diagnostics as entries: document by document, each
/// document's diagnostics in order.
pub open spec fn session_entries(
    server_id: Seq<char>,
    model: Seq<(Seq<char>, Seq<Diagnostic>)>,
) -> Seq<(Seq<char>, Seq<char>, Diagnostic)>
    decreases model.len(),
{
    if model.len() == 0 {
        Seq::empty()
    } else {
        session_entries(server_id, model.drop_last()) + model.last().1.map_values(
            |d: Diagnostic| (server_id, model.last().0, d),
        )
    }
}

/// The entries of every session that is still connected, session by session.
pub open spec fn workspace_entries(sessions: Seq<(String, bool, SessionDiagnostics)>) -> Seq<
    (Seq<char>, Seq<char>, Diagnostic),
>
    decreases sessions.len(),
{
    if sessions.len() == 0 {
        Seq::empty()
    } else {
        workspace_entries(sessions.drop_last()) + if sessions.last().1 {
            Seq::empty()
        } else {
            session_entries(sessions.last().0@, sessions.last().2.model())
        }
    }
}

/// Every diagnostic of every connected session: for each session (server
/// id, whether it disconnected, its diagnostics), each document's
/// diagnostics tagged with the server and the document.
pub fn workspace_diagnostics(sessions: &Vec<(String, bool, SessionDiagnostics)>) -> (r: Vec<LspWorkspaceDiagnostic>)
    ensures
        r@.map_values(|e: LspWorkspaceDiagnostic| workspace_entry_view(e)) == workspace_entries(sessions@),
{
    let mut out: Vec<LspWorkspaceDiagnostic> = Vec::new();
    let mut i: usize = 0;
    proof {
        assert(sessions@.take(0) =~= Seq::<(String, bool, SessionDiagnostics)>::empty());
        assert(out@.map_values(|e: LspWorkspaceDiagnostic| workspace_entry_view(e)) =~= Seq::empty());
    }
    while i < sessions.len()
        invariant
            i <= sessions@.len(),
            out@.map_values(|e: LspWorkspaceDiagnostic| workspace_entry_view(e)) == workspace_entries(
                sessions@.take(i as int),
            ),
        decreases sessions@.len() - i,
    {
        let ghost before = out@.map_values(|e: LspWorkspaceDiagnostic| workspace_entry_view(e));
        proof {
            assert(sessions@.take(i + 1).drop_last() =~= sessions@.take(i as int));
            assert(sessions@.take(i + 1).last() == sessions@[i as int]);
        }
        if !sessions[i].1 {
            let server_id = sessions[i].0.as_str();
            let entries = &sessions[i].2.entries;
            let ghost model = sessions@[i as int].2.model();
            let mut p: usize = 0;
            proof {
                assert(model.take(0) =~= Seq::<(Seq<char>, Seq<Diagnostic>)>::empty());
                assert(before + session_entries(server_id@, model.take(0)) =~= before);
            }
            while p < entries.len()
                invariant
                    p <= entries@.len(),
                    model == sessions@[i as int].2.model(),
                    *entries == sessions@[i as int].2.entries,
                    server_id@ == sessions@[i as int].0@,
                    out@.map_values(|e: LspWorkspaceDiagnostic| workspace_entry_view(e)) == before
                        + session_entries(server_id@, model.take(p as int)),
                decreases entries@.len() - p,
            {
                let path = entries[p].0.as_str();
                let ds = &entries[p].1;
                let ghost mid = out@.map_values(|e: LspWorkspaceDiagnostic| workspace_entry_view(e));
                let mut q: usize = 0;
                proof {
                    assert(mid + ds@.take(0).map_values(|d: Diagnostic| (server_id@, path@, d)) =~= mid);
                }
                while q < ds.len()
                    invariant
                        q <= ds@.len(),
                        out@.map_values(|e: LspWorkspaceDiagnostic| workspace_entry_view(e)) == mid
                            + ds@.take(q as int).map_values(|d: Diagnostic| (server_id@, path@, d)),
                    decreases ds@.len() - q,
                {
                    let e = LspWorkspaceDiagnostic {
                        server_id: owned(server_id),
                        path: owned(path),
                        diagnostic: ds[q].clone(),
                    };
                    proof {
                        assert(out@.push(e).map_values(|e: LspWorkspaceDiagnostic| workspace_entry_view(e))
                            =~= out@.map_values(|e: LspWorkspaceDiagnostic| workspace_entry_view(e)).push(
                            workspace_entry_view(e),
                        ));
                        assert(ds@.take(q + 1).map_values(|d: Diagnostic| (server_id@, path@, d)) =~= ds@.take(
                            q as int,
                        ).map_values(|d: Diagnostic| (server_id@, path@, d)).push((server_id@, path@, ds@[q as int])));
                    }
                    out.push(e);
                    q += 1;
                }
                proof {
                    assert(ds@.take(ds@.len() as int) =~= ds@);
                    assert(model.take(p + 1).drop_last() =~= model.take(p as int));
                    assert(model.take(p + 1).last() == (path@, ds@));
                }
                p += 1;
            }
            proof {
                assert(model.take(model.len() as int) =~= model);
            }
        } else {
            proof {
                assert(before + Seq::<(Seq<char>, Seq<char>, Diagnostic)>::empty() =~= before);
            }
        }
        i += 1;
    }
    proof {
        assert(sessions@.take(sessions@.len() as int) =~= sessions@);
    }
    out
}


/// Sorted diagnostics come by position, then by severity: of two in order,
/// the first starts on an earlier line, or on the same line at an earlier or
/// the same column; at the same point errors come before warnings and
/// warnings before information.
pub proof fn law_sorted_diagnostics_by_position_then_severity(s: Seq<Diagnostic>, a: int, b: int)
    requires
        diagnostics_ordered(s),
        0 <= a < b < s.len(),
    ensures
        s[a].range.start.line <= s[b].range.start.line,
        s[a].range.start.line == s[b].range.start.line ==> s[a].range.start.column <= s[b].range.start.column,
        s[a].range.start == s[b].range.start && s[b].severity == DiagnosticSeverity::Error ==> s[a].severity
            == DiagnosticSeverity::Error,
        s[a].range.start == s[b].range.start && s[a].severity == DiagnosticSeverity::Information ==> s[b].severity
            == DiagnosticSeverity::Information,
{
    assert(key_le(diagnostic_key(s[a]), diagnostic_key(s[b])));
}

} // verus!
