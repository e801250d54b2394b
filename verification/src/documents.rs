//! The documents a session has opened on its server: the text last synced
//! for each, which ones must next be sent in full, and how the next sync of
//! a buffer goes out (`didOpen`, or `didChange` with full or incremental
//! content).
use vstd::prelude::*;
use crate::strings::owned;
use crate::paths::{PathStyle, same_path, paths_equal};
use crate::sync::{
    TextDocumentContentChange, TextDocumentSyncKind, SYNC_KIND_INCREMENTAL, SYNC_KIND_FULL,
    change_model, change_models, full_change_spec, text_document_content_change,
};

verus! {

/// Index of the first entry whose path is `p` (component-wise), or the
/// length.
pub open spec fn doc_index<V>(docs: Seq<(Seq<char>, V)>, p: Seq<char>, style: PathStyle) -> int
    decreases docs.len(),
{
    if docs.len() == 0 {
        0
    } else if same_path(docs[0].0, p, style) {
        0
    } else {
        1 + doc_index(docs.skip(1), p, style)
    }
}

pub proof fn lemma_doc_index<V>(docs: Seq<(Seq<char>, V)>, p: Seq<char>, style: PathStyle, i: int)
    requires
        0 <= i <= docs.len(),
        forall|k: int| 0 <= k < i ==> !same_path(#[trigger] docs[k].0, p, style),
        i < docs.len() ==> same_path(docs[i].0, p, style),
    ensures
        doc_index(docs, p, style) == i,
    decreases i,
{
    if i > 0 {
        lemma_doc_index(docs.skip(1), p, style, i - 1);
    }
}

pub proof fn lemma_doc_index_props<V>(docs: Seq<(Seq<char>, V)>, p: Seq<char>, style: PathStyle)
    ensures
        0 <= doc_index(docs, p, style) <= docs.len(),
        forall|k: int| 0 <= k < doc_index(docs, p, style) ==> !same_path(#[trigger] docs[k].0, p, style),
        doc_index(docs, p, style) < docs.len() ==> same_path(docs[doc_index(docs, p, style)].0, p, style),
    decreases docs.len(),
{
    if docs.len() > 0 && !same_path(docs[0].0, p, style) {
        lemma_doc_index_props(docs.skip(1), p, style);
        let j = doc_index(docs.skip(1), p, style);
        assert forall|k: int| 0 <= k < doc_index(docs, p, style) implies !same_path(
            #[trigger] docs[k].0,
            p,
            style,
        ) by {
            if k > 0 {
                assert(docs[k] == docs.skip(1)[k - 1]);
            }
        }
    }
}

/// The text synced for path `p`, if the document is open.
pub open spec fn doc_text<V>(docs: Seq<(Seq<char>, V)>, p: Seq<char>, style: PathStyle) -> Option<V> {
    let i = doc_index(docs, p, style);
    if i < docs.len() {
        Some(docs[i].1)
    } else {
        None
    }
}

/// Paths that name the same file occur at most once.
pub open spec fn docs_unique<V>(docs: Seq<(Seq<char>, V)>, style: PathStyle) -> bool {
    forall|i: int, j: int| 0 <= i < j < docs.len() ==> !same_path(#[trigger] docs[i].0, #[trigger] docs[j].0, style)
}

/// Index of `p` in a list of paths, or the length.
pub open spec fn path_index(paths: Seq<Seq<char>>, p: Seq<char>, style: PathStyle) -> int
    decreases paths.len(),
{
    if paths.len() == 0 {
        0
    } else if same_path(paths[0], p, style) {
        0
    } else {
        1 + path_index(paths.skip(1), p, style)
    }
}

pub proof fn lemma_path_index(paths: Seq<Seq<char>>, p: Seq<char>, style: PathStyle, i: int)
    requires
        0 <= i <= paths.len(),
        forall|k: int| 0 <= k < i ==> !same_path(#[trigger] paths[k], p, style),
        i < paths.len() ==> same_path(paths[i], p, style),
    ensures
        path_index(paths, p, style) == i,
    decreases i,
{
    if i > 0 {
        lemma_path_index(paths.skip(1), p, style, i - 1);
    }
}

pub proof fn lemma_path_index_props(paths: Seq<Seq<char>>, p: Seq<char>, style: PathStyle)
    ensures
        0 <= path_index(paths, p, style) <= paths.len(),
        forall|k: int| 0 <= k < path_index(paths, p, style) ==> !same_path(#[trigger] paths[k], p, style),
        path_index(paths, p, style) < paths.len() ==> same_path(paths[path_index(paths, p, style)], p, style),
    decreases paths.len(),
{
    if paths.len() > 0 && !same_path(paths[0], p, style) {
        lemma_path_index_props(paths.skip(1), p, style);
        assert forall|k: int| 0 <= k < path_index(paths, p, style) implies !same_path(
            #[trigger] paths[k],
            p,
            style,
        ) by {
            if k > 0 {
                assert(paths[k] == paths.skip(1)[k - 1]);
            }
        }
    }
}

pub open spec fn in_paths(paths: Seq<Seq<char>>, p: Seq<char>, style: PathStyle) -> bool {
    path_index(paths, p, style) < paths.len()
}

pub open spec fn paths_unique(paths: Seq<Seq<char>>, style: PathStyle) -> bool {
    forall|i: int, j: int| 0 <= i < j < paths.len() ==> !same_path(#[trigger] paths[i], #[trigger] paths[j], style)
}

/// One sync of a buffer onto a server.
#[derive(Debug)]
pub enum DocumentSyncAction {
    /// `textDocument/didOpen` with the full text.
    Open { version: i32, text: String },
    /// `textDocument/didChange` with these content changes;
    /// `used_incremental` records that incremental changes were on offer.
    Change { version: i32, changes: Vec<TextDocumentContentChange>, used_incremental: bool },
}

/// The documents a session has open, per path, with the text last synced.
pub struct DocumentSyncState {
    pub style: PathStyle,
    pub sync_kind: TextDocumentSyncKind,
    pub open: Vec<(String, String)>,
    pub needs_full: Vec<String>,
}

/// How a sync goes out, as a model.
pub enum SyncPlanModel {
    Open { version: i32, text: Seq<char> },
    Change { version: i32, changes: Seq<(Option<crate::text::LspRange>, Seq<char>)>, used_incremental: bool },
}

pub open spec fn action_model(a: DocumentSyncAction) -> SyncPlanModel {
    match a {
        DocumentSyncAction::Open { version, text } => SyncPlanModel::Open { version, text: text@ },
        DocumentSyncAction::Change { version, changes, used_incremental } => SyncPlanModel::Change {
            version,
            changes: change_models(changes@),
            used_incremental,
        },
    }
}

impl DocumentSyncState {
    pub open spec fn docs(&self) -> Seq<(Seq<char>, Seq<char>)> {
        self.open@.map_values(|e: (String, String)| (e.0@, e.1@))
    }

    pub open spec fn full(&self) -> Seq<Seq<char>> {
        self.needs_full@.map_values(|p: String| p@)
    }

    /// Each document and each pending full sync is listed once.
    pub open spec fn wf(&self) -> bool {
        docs_unique(self.docs(), self.style) && paths_unique(self.full(), self.style)
    }

    /// The text synced for `p`, if open.
    pub open spec fn text_of(&self, p: Seq<char>) -> Option<Seq<char>> {
        doc_text(self.docs(), p, self.style)
    }

    /// Whether the next change of `p` must carry the full text.
    pub open spec fn must_send_full(&self, p: Seq<char>) -> bool {
        in_paths(self.full(), p, self.style)
    }

    /// The sync of `text` at `version` for document `p`: `didOpen` for a
    /// document not open; otherwise `didChange`, with the offered incremental
    /// changes when the server syncs incrementally and no full sync is due,
    /// else one change with the whole text.
    pub open spec fn plan_spec(
        &self,
        p: Seq<char>,
        version: i32,
        text: Seq<char>,
        incremental: Option<Seq<(Option<crate::text::LspRange>, Seq<char>)>>,
    ) -> SyncPlanModel {
        match self.text_of(p) {
            None => SyncPlanModel::Open { version, text },
            Some(previous) => {
                let force_full = self.must_send_full(p);
                let used_incremental = !force_full && incremental is Some;
                SyncPlanModel::Change {
                    version,
                    changes: if self.sync_kind.0 == SYNC_KIND_INCREMENTAL && used_incremental {
                        incremental->0
                    } else {
                        seq![full_change_spec(self.sync_kind, previous, text)]
                    },
                    used_incremental,
                }
            },
        }
    }

    /// A session that has opened nothing, syncing full text until told
    /// otherwise.
    pub fn new(style: PathStyle) -> (r: Self)
        ensures
            r.wf(),
            r.style == style,
            r.sync_kind == TextDocumentSyncKind(SYNC_KIND_FULL),
            r.docs().len() == 0,
            r.full().len() == 0,
    {
        let r = DocumentSyncState {
            style,
            sync_kind: TextDocumentSyncKind(SYNC_KIND_FULL),
            open: Vec::new(),
            needs_full: Vec::new(),
        };
        proof {
            assert(r.docs() =~= Seq::empty());
            assert(r.full() =~= Seq::empty());
        }
        r
    }

    fn find_open(&self, path: &str) -> (r: usize)
        ensures
            r == doc_index(self.docs(), path@, self.style),
            r <= self.open@.len(),
    {
        let ghost d = self.docs();
        let mut i: usize = 0;
        while i < self.open.len()
            invariant
                d == self.docs(),
                d.len() == self.open@.len(),
                i <= self.open@.len(),
                forall|k: int| 0 <= k < i ==> !same_path(#[trigger] d[k].0, path@, self.style),
            decreases self.open@.len() - i,
        {
            if paths_equal(self.open[i].0.as_str(), path, self.style) {
                proof {
                    lemma_doc_index(d, path@, self.style, i as int);
                }
                return i;
            }
            i += 1;
        }
        proof {
            lemma_doc_index(d, path@, self.style, i as int);
        }
        i
    }

    fn find_full(&self, path: &str) -> (r: usize)
        ensures
            r == path_index(self.full(), path@, self.style),
            r <= self.needs_full@.len(),
    {
        let ghost f = self.full();
        let mut i: usize = 0;
        while i < self.needs_full.len()
            invariant
                f == self.full(),
                f.len() == self.needs_full@.len(),
                i <= self.needs_full@.len(),
                forall|k: int| 0 <= k < i ==> !same_path(#[trigger] f[k], path@, self.style),
            decreases self.needs_full@.len() - i,
        {
            if paths_equal(self.needs_full[i].as_str(), path, self.style) {
                proof {
                    lemma_path_index(f, path@, self.style, i as int);
                }
                return i;
            }
            i += 1;
        }
        proof {
            lemma_path_index(f, path@, self.style, i as int);
        }
        i
    }

    pub fn has_open_document(&self, path: &str) -> (r: bool)
        ensures
            r == (self.text_of(path@) is Some),
    {
        self.find_open(path) < self.open.len()
    }

    pub fn open_document_text(&self, path: &str) -> (r: Option<String>)
        ensures
            crate::types::opt_view(r) == self.text_of(path@),
    {
        let i = self.find_open(path);
        if i < self.open.len() {
            Some(owned(self.open[i].1.as_str()))
        } else {
            None
        }
    }

    pub fn path_needs_full_document(&self, path: &str) -> (r: bool)
        ensures
            r == self.must_send_full(path@),
    {
        self.find_full(path) < self.needs_full.len()
    }

    pub fn set_text_document_sync_kind(&mut self, kind: TextDocumentSyncKind)
        ensures
            final(self).sync_kind == kind,
            final(self).style == old(self).style,
            final(self).docs() == old(self).docs(),
            final(self).full() == old(self).full(),
    {
        self.sync_kind = kind;
    }

    /// How the sync of `text` at `version` goes out for `path`.
    pub fn plan_sync_text_document(
        &self,
        path: &str,
        version: i32,
        text: &str,
        incremental_changes: Option<&[TextDocumentContentChange]>,
    ) -> (r: DocumentSyncAction)
        ensures
            action_model(r) == self.plan_spec(
                path@,
                version,
                text@,
                match incremental_changes {
                    Some(c) => Some(change_models(c@)),
                    None => None,
                },
            ),
            r matches DocumentSyncAction::Change { changes, .. } ==> forall|k: int|
                0 <= k < changes@.len() ==> #[trigger] changes@[k].range_length == if self.sync_kind.0
                    == SYNC_KIND_INCREMENTAL && !self.must_send_full(path@) && incremental_changes is Some {
                    incremental_changes->0@[k].range_length
                } else {
                    None
                },
    {
        let previous = match self.open_document_text(path) {
            Some(p) => p,
            None => return DocumentSyncAction::Open { version, text: owned(text) },
        };
        let force_full = self.path_needs_full_document(path);
        let used_incremental = !force_full && incremental_changes.is_some();
        let mut changes: Vec<TextDocumentContentChange> = Vec::new();
        if self.sync_kind.0 == SYNC_KIND_INCREMENTAL && used_incremental {
            let offered = match incremental_changes {
                Some(c) => c,
                None => return DocumentSyncAction::Open { version, text: owned(text) },
            };
            let mut i: usize = 0;
            while i < offered.len()
                invariant
                    i <= offered@.len(),
                    changes@.len() == i,
                    forall|k: int| 0 <= k < i ==> #[trigger] changes@[k].range_length == offered@[k].range_length,
                    change_models(changes@) == change_models(offered@.take(i as int)),
                decreases offered@.len() - i,
            {
                let c = TextDocumentContentChange {
                    range: offered[i].range,
                    range_length: offered[i].range_length,
                    text: owned(offered[i].text.as_str()),
                };
                proof {
                    assert(change_models(offered@.take(i + 1)) =~= change_models(offered@.take(i as int)).push(
                        change_model(offered@[i as int]),
                    ));
                    assert(change_models(changes@.push(c)) =~= change_models(changes@).push(change_model(c)));
                }
                changes.push(c);
                i += 1;
            }
            proof {
                assert(offered@.take(offered@.len() as int) =~= offered@);
            }
        } else {
            let c = text_document_content_change(self.sync_kind, previous.as_str(), text);
            changes.push(c);
            proof {
                assert(change_models(changes@) =~= seq![change_model(c)]);
            }
        }
        DocumentSyncAction::Change { version, changes, used_incremental }
    }

    fn put_doc(&mut self, path: &str, text: &str)
        requires
            old(self).wf(),
        ensures
            final(self).wf(),
            final(self).style == old(self).style,
            final(self).sync_kind == old(self).sync_kind,
            final(self).full() == old(self).full(),
            final(self).text_of(path@) == Some(text@),
            forall|q: Seq<char>|
                !same_path(q, path@, old(self).style) ==> #[trigger] final(self).text_of(q) == old(self).text_of(q),
    {
        let ghost d = self.docs();
        let ghost st = self.style;
        let i = self.find_open(path);
        proof {
            lemma_doc_index_props(d, path@, st);
        }
        if i < self.open.len() {
            let key = owned(self.open[i].0.as_str());
            self.open.set(i, (key, owned(text)));
            proof {
                let d2 = self.docs();
                assert(d2 =~= d.update(i as int, (d[i as int].0, text@)));
                assert forall|a: int, b: int| 0 <= a < b < d2.len() implies !same_path(
                    #[trigger] d2[a].0,
                    #[trigger] d2[b].0,
                    st,
                ) by {
                    assert(d2[a].0 == d[a].0 && d2[b].0 == d[b].0);
                }
                lemma_doc_index(d2, path@, st, i as int);
                assert forall|q: Seq<char>| !same_path(q, path@, st) implies #[trigger] doc_text(d2, q, st)
                    == doc_text(d, q, st) by {
                    lemma_doc_index_props(d, q, st);
                    let j = doc_index(d, q, st);
                    lemma_doc_index(d2, q, st, j);
                }
            }
        } else {
            self.open.push((owned(path), owned(text)));
            proof {
                let d2 = self.docs();
                assert(d2 =~= d.push((path@, text@)));
                assert forall|a: int, b: int| 0 <= a < b < d2.len() implies !same_path(
                    #[trigger] d2[a].0,
                    #[trigger] d2[b].0,
                    st,
                ) by {
                    if b == d.len() {
                        assert(!same_path(d[a].0, path@, st));
                    }
                }
                lemma_doc_index(d2, path@, st, d.len() as int);
                assert forall|q: Seq<char>| !same_path(q, path@, st) implies #[trigger] doc_text(d2, q, st)
                    == doc_text(d, q, st) by {
                    lemma_doc_index_props(d, q, st);
                    let j = doc_index(d, q, st);
                    if j < d.len() {
                        lemma_doc_index(d2, q, st, j);
                    } else {
                        lemma_doc_index(d2, q, st, d2.len() as int);
                    }
                }
            }
        }
        proof {
            assert(self.full() =~= old(self).full());
        }
    }

    fn remove_doc(&mut self, path: &str)
        requires
            old(self).wf(),
        ensures
            final(self).wf(),
            final(self).style == old(self).style,
            final(self).sync_kind == old(self).sync_kind,
            final(self).full() == old(self).full(),
            final(self).text_of(path@) is None,
            forall|q: Seq<char>|
                !same_path(q, path@, old(self).style) ==> #[trigger] final(self).text_of(q) == old(self).text_of(q),
    {
        let ghost d = self.docs();
        let ghost st = self.style;
        let i = self.find_open(path);
        proof {
            lemma_doc_index_props(d, path@, st);
        }
        if i < self.open.len() {
            self.open.remove(i);
            proof {
                let d2 = self.docs();
                assert(d2 =~= d.remove(i as int));
                assert forall|a: int, b: int| 0 <= a < b < d2.len() implies !same_path(
                    #[trigger] d2[a].0,
                    #[trigger] d2[b].0,
                    st,
                ) by {
                    let a0 = if a < i { a } else { a + 1 };
                    let b0 = if b < i { b } else { b + 1 };
                    assert(d2[a] == d[a0] && d2[b] == d[b0]);
                }
                assert forall|k: int| 0 <= k < d2.len() implies !same_path(#[trigger] d2[k].0, path@, st) by {
                    let k0 = if k < i { k } else { k + 1 };
                    assert(d2[k] == d[k0]);
                    if k0 < i {
                        assert(!same_path(d[k0].0, d[i as int].0, st));
                    } else {
                        assert(!same_path(d[i as int].0, d[k0].0, st));
                    }
                }
                lemma_doc_index(d2, path@, st, d2.len() as int);
                assert forall|q: Seq<char>| !same_path(q, path@, st) implies #[trigger] doc_text(d2, q, st)
                    == doc_text(d, q, st) by {
                    lemma_doc_index_props(d, q, st);
                    let j = doc_index(d, q, st);
                    if j < i {
                        assert forall|k: int| 0 <= k < j implies !same_path(#[trigger] d2[k].0, q, st) by {
                            assert(d2[k] == d[k]);
                        }
                        lemma_doc_index(d2, q, st, j);
                    } else if j == i {
                        assert(false);
                    } else {
                        assert forall|k: int| 0 <= k < j - 1 implies !same_path(#[trigger] d2[k].0, q, st) by {
                            if k < i {
                                assert(d2[k] == d[k]);
                            } else {
                                assert(d2[k] == d[k + 1]);
                            }
                        }
                        if j < d.len() {
                            assert(d2[j - 1] == d[j]);
                        }
                        lemma_doc_index(d2, q, st, j - 1);
                    }
                }
            }
        }
        proof {
            assert(self.full() =~= old(self).full());
        }
    }

    fn insert_full(&mut self, path: &str)
        requires
            old(self).wf(),
        ensures
            final(self).wf(),
            final(self).style == old(self).style,
            final(self).sync_kind == old(self).sync_kind,
            final(self).docs() == old(self).docs(),
            final(self).must_send_full(path@),
            forall|q: Seq<char>|
                !same_path(q, path@, old(self).style) ==> #[trigger] final(self).must_send_full(q)
                    == old(self).must_send_full(q),
    {
        let ghost f = self.full();
        let ghost st = self.style;
        let i = self.find_full(path);
        proof {
            lemma_path_index_props(f, path@, st);
        }
        if i >= self.needs_full.len() {
            self.needs_full.push(owned(path));
            proof {
                let f2 = self.full();
                assert(f2 =~= f.push(path@));
                assert forall|a: int, b: int| 0 <= a < b < f2.len() implies !same_path(
                    #[trigger] f2[a],
                    #[trigger] f2[b],
                    st,
                ) by {
                    if b == f.len() {
                        assert(!same_path(f[a], path@, st));
                    }
                }
                lemma_path_index(f2, path@, st, f.len() as int);
                assert forall|q: Seq<char>| !same_path(q, path@, st) implies #[trigger] in_paths(f2, q, st)
                    == in_paths(f, q, st) by {
                    lemma_path_index_props(f, q, st);
                    let j = path_index(f, q, st);
                    if j < f.len() {
                        lemma_path_index(f2, q, st, j);
                    } else {
                        lemma_path_index(f2, q, st, f2.len() as int);
                    }
                }
            }
        }
        proof {
            assert(self.docs() =~= old(self).docs());
        }
    }

    fn remove_full(&mut self, path: &str)
        requires
            old(self).wf(),
        ensures
            final(self).wf(),
            final(self).style == old(self).style,
            final(self).sync_kind == old(self).sync_kind,
            final(self).docs() == old(self).docs(),
            !final(self).must_send_full(path@),
            forall|q: Seq<char>|
                !same_path(q, path@, old(self).style) ==> #[trigger] final(self).must_send_full(q)
                    == old(self).must_send_full(q),
    {
        let ghost f = self.full();
        let ghost st = self.style;
        let i = self.find_full(path);
        proof {
            lemma_path_index_props(f, path@, st);
        }
        if i < self.needs_full.len() {
            self.needs_full.remove(i);
            proof {
                let f2 = self.full();
                assert(f2 =~= f.remove(i as int));
                assert forall|a: int, b: int| 0 <= a < b < f2.len() implies !same_path(
                    #[trigger] f2[a],
                    #[trigger] f2[b],
                    st,
                ) by {
                    let a0 = if a < i { a } else { a + 1 };
                    let b0 = if b < i { b } else { b + 1 };
                    assert(f2[a] == f[a0] && f2[b] == f[b0]);
                }
                assert forall|k: int| 0 <= k < f2.len() implies !same_path(#[trigger] f2[k], path@, st) by {
                    let k0 = if k < i { k } else { k + 1 };
                    assert(f2[k] == f[k0]);
                    if k0 < i {
                        assert(!same_path(f[k0], f[i as int], st));
                    } else {
                        assert(!same_path(f[i as int], f[k0], st));
                    }
                }
                lemma_path_index(f2, path@, st, f2.len() as int);
                assert forall|q: Seq<char>| !same_path(q, path@, st) implies #[trigger] in_paths(f2, q, st)
                    == in_paths(f, q, st) by {
                    lemma_path_index_props(f, q, st);
                    let j = path_index(f, q, st);
                    if j < i {
                        assert forall|k: int| 0 <= k < j implies !same_path(#[trigger] f2[k], q, st) by {
                            assert(f2[k] == f[k]);
                        }
                        lemma_path_index(f2, q, st, j);
                    } else if j == i {
                        assert(false);
                    } else {
                        assert forall|k: int| 0 <= k < j - 1 implies !same_path(#[trigger] f2[k], q, st) by {
                            if k < i {
                                assert(f2[k] == f[k]);
                            } else {
                                assert(f2[k] == f[k + 1]);
                            }
                        }
                        if j < f.len() {
                            assert(f2[j - 1] == f[j]);
                        }
                        lemma_path_index(f2, q, st, j - 1);
                    }
                }
            }
        }
        proof {
            assert(self.docs() =~= old(self).docs());
        }
    }

    /// Marks `path` so that its next change carries the full text.
    pub fn mark_needs_full_document(&mut self, path: &str)
        requires
            old(self).wf(),
        ensures
            final(self).wf(),
            final(self).style == old(self).style,
            final(self).sync_kind == old(self).sync_kind,
            final(self).docs() == old(self).docs(),
            final(self).must_send_full(path@),
            forall|q: Seq<char>|
                !same_path(q, path@, old(self).style) ==> #[trigger] final(self).must_send_full(q)
                    == old(self).must_send_full(q),
    {
        self.insert_full(path);
    }

    pub fn clear_needs_full_document(&mut self, path: &str)
        requires
            old(self).wf(),
        ensures
            final(self).wf(),
            final(self).style == old(self).style,
            final(self).sync_kind == old(self).sync_kind,
            final(self).docs() == old(self).docs(),
            !final(self).must_send_full(path@),
            forall|q: Seq<char>|
                !same_path(q, path@, old(self).style) ==> #[trigger] final(self).must_send_full(q)
                    == old(self).must_send_full(q),
    {
        self.remove_full(path);
    }

    /// Records a `didOpen` the server accepted: the text is now the synced
    /// one and no full sync is due.
    pub fn record_did_open(&mut self, path: &str, text: &str)
        requires
            old(self).wf(),
        ensures
            final(self).wf(),
            final(self).style == old(self).style,
            final(self).sync_kind == old(self).sync_kind,
            final(self).text_of(path@) == Some(text@),
            !final(self).must_send_full(path@),
            forall|q: Seq<char>|
                !same_path(q, path@, old(self).style) ==> #[trigger] final(self).text_of(q) == old(self).text_of(q),
            forall|q: Seq<char>|
                !same_path(q, path@, old(self).style) ==> #[trigger] final(self).must_send_full(q)
                    == old(self).must_send_full(q),
    {
        self.put_doc(path, text);
        let ghost mid = *self;
        self.remove_full(path);
        proof {
            assert forall|q: Seq<char>| !same_path(q, path@, self.style) implies #[trigger] self.text_of(q)
                == old(self).text_of(q) by {
                assert(mid.text_of(q) == old(self).text_of(q));
            }
        }
    }

    /// Records the outcome of a `didChange`: on success the text is synced
    /// and no full sync is due; a failed send of incremental changes makes
    /// the next change carry the full text.
    pub fn record_did_change(&mut self, path: &str, text: &str, succeeded: bool, used_incremental: bool)
        requires
            old(self).wf(),
        ensures
            final(self).wf(),
            final(self).style == old(self).style,
            final(self).sync_kind == old(self).sync_kind,
            succeeded ==> final(self).text_of(path@) == Some(text@) && !final(self).must_send_full(path@),
            !succeeded ==> final(self).text_of(path@) == old(self).text_of(path@),
            !succeeded && used_incremental ==> final(self).must_send_full(path@),
            !succeeded && !used_incremental ==> final(self).must_send_full(path@) == old(self).must_send_full(
                path@,
            ),
            forall|q: Seq<char>|
                !same_path(q, path@, old(self).style) ==> #[trigger] final(self).text_of(q) == old(self).text_of(q),
            forall|q: Seq<char>|
                !same_path(q, path@, old(self).style) ==> #[trigger] final(self).must_send_full(q)
                    == old(self).must_send_full(q),
    {
        if succeeded {
            self.put_doc(path, text);
            let ghost mid = *self;
            self.remove_full(path);
            proof {
                assert forall|q: Seq<char>| !same_path(q, path@, self.style) implies #[trigger] self.text_of(q)
                    == old(self).text_of(q) by {
                    assert(mid.text_of(q) == old(self).text_of(q));
                }
            }
        } else if used_incremental {
            self.insert_full(path);
        }
    }

    /// Records a `didClose`: the document is no longer open and no full sync
    /// is due for it.
    pub fn record_did_close(&mut self, path: &str)
        requires
            old(self).wf(),
        ensures
            final(self).wf(),
            final(self).style == old(self).style,
            final(self).sync_kind == old(self).sync_kind,
            final(self).text_of(path@) is None,
            !final(self).must_send_full(path@),
            forall|q: Seq<char>|
                !same_path(q, path@, old(self).style) ==> #[trigger] final(self).text_of(q) == old(self).text_of(q),
            forall|q: Seq<char>|
                !same_path(q, path@, old(self).style) ==> #[trigger] final(self).must_send_full(q)
                    == old(self).must_send_full(q),
    {
        self.remove_doc(path);
        let ghost mid = *self;
        self.remove_full(path);
        proof {
            assert forall|q: Seq<char>| !same_path(q, path@, self.style) implies #[trigger] self.text_of(q)
                == old(self).text_of(q) by {
                assert(mid.text_of(q) == old(self).text_of(q));
            }
        }
    }
}

/// A document the session has not opened is synced with `didOpen` and its
/// full text, never with `didChange`, whatever changes are on offer.
pub proof fn law_unopened_document_is_opened_with_full_text(
    s: DocumentSyncState,
    p: Seq<char>,
    version: i32,
    text: Seq<char>,
    incremental: Option<Seq<(Option<crate::text::LspRange>, Seq<char>)>>,
)
    requires
        s.text_of(p) is None,
    ensures
        s.plan_spec(p, version, text, incremental) == (SyncPlanModel::Open { version, text }),
{
}

/// Once a full sync is due for an open document, its next change carries
/// one change with the whole new text (over the whole previous text for
/// incremental servers), whatever incremental changes are on offer.
pub proof fn law_due_full_sync_sends_whole_text(
    s: DocumentSyncState,
    p: Seq<char>,
    version: i32,
    text: Seq<char>,
    incremental: Option<Seq<(Option<crate::text::LspRange>, Seq<char>)>>,
)
    requires
        s.must_send_full(p),
        s.text_of(p) is Some,
    ensures
        s.plan_spec(p, version, text, incremental) == (SyncPlanModel::Change {
            version,
            changes: seq![full_change_spec(s.sync_kind, s.text_of(p)->0, text)],
            used_incremental: false,
        }),
{
}

/// Incremental changes go out exactly when the document is open, the
/// server syncs incrementally, no full sync is due and changes are offered.
pub proof fn law_incremental_changes_sent_only_when_usable(
    s: DocumentSyncState,
    p: Seq<char>,
    version: i32,
    text: Seq<char>,
    changes: Seq<(Option<crate::text::LspRange>, Seq<char>)>,
)
    requires
        s.text_of(p) is Some,
        s.sync_kind.0 == SYNC_KIND_INCREMENTAL,
        !s.must_send_full(p),
    ensures
        s.plan_spec(p, version, text, Some(changes)) == (SyncPlanModel::Change {
            version,
            changes,
            used_incremental: true,
        }),
{
}

/// What the client keeps of a buffer it has synced: the editor revision
/// and the protocol version last sent.
#[derive(Debug, Clone, Copy, PartialEq, Eq, Structural)]
pub struct TrackedBufferState {
    pub revision: u64,
    pub version: i32,
}

/// The decision for one sync of a buffer.
#[derive(Debug, Clone, Copy, PartialEq, Eq, Structural)]
pub struct BufferSyncPlan {
    /// Every session already holds this revision: nothing is sent.
    pub already_synced: bool,
    /// The document version to send.
    pub version: i32,
    /// The revision synced before, if the buffer was synced.
    pub last_revision: Option<u64>,
}

/// The next document version: one more (saturating), and at least 1.
pub open spec fn next_version(v: i32) -> i32 {
    let n = if v == i32::MAX {
        v
    } else {
        (v + 1) as i32
    };
    if n < 1 {
        1
    } else {
        n
    }
}

/// The plan for syncing revision `revision` of a buffer, and what is kept
/// of it afterwards: nothing is sent when that revision was synced and all
/// sessions hold it current; otherwise the version moves on.
pub open spec fn buffer_sync_spec(synced: Option<TrackedBufferState>, revision: u64, sessions_current: bool) -> (
    BufferSyncPlan,
    TrackedBufferState,
) {
    let last = match synced {
        Some(t) => Some(t.revision),
        None => None,
    };
    let state = match synced {
        Some(t) => t,
        None => TrackedBufferState { revision: 0, version: 0 },
    };
    if last == Some(revision) && sessions_current {
        (BufferSyncPlan { already_synced: true, version: state.version, last_revision: last }, state)
    } else {
        let v = next_version(state.version);
        (
            BufferSyncPlan { already_synced: false, version: v, last_revision: last },
            TrackedBufferState { revision, version: v },
        )
    }
}

pub fn plan_buffer_sync(synced: Option<TrackedBufferState>, revision: u64, sessions_current: bool) -> (r: (
    BufferSyncPlan,
    TrackedBufferState,
))
    ensures
        r == buffer_sync_spec(synced, revision, sessions_current),
        !r.0.already_synced ==> r.0.version >= 1 && r.1.version == r.0.version && r.1.revision == revision,
        !r.0.already_synced && synced is Some && synced->0.version < i32::MAX ==> r.0.version
            > synced->0.version,
{
    let last = match synced {
        Some(t) => Some(t.revision),
        None => None,
    };
    let state = match synced {
        Some(t) => t,
        None => TrackedBufferState { revision: 0, version: 0 },
    };
    if last == Some(revision) && sessions_current {
        return (BufferSyncPlan { already_synced: true, version: state.version, last_revision: last }, state);
    }
    let bumped = if state.version == i32::MAX {
        state.version
    } else {
        state.version + 1
    };
    let v = if bumped < 1 {
        1
    } else {
        bumped
    };
    (BufferSyncPlan { already_synced: false, version: v, last_revision: last }, TrackedBufferState { revision, version: v })
}

/// Syncing a revision twice in a row sends nothing the second time, once
/// all sessions hold it.
pub proof fn law_resync_of_same_revision_is_skipped(synced: Option<TrackedBufferState>, revision: u64)
    ensures
        ({
            let (_, state) = buffer_sync_spec(synced, revision, false);
            buffer_sync_spec(Some(state), revision, true).0.already_synced
        }),
{
}

/// Whether a buffer at `revision` needs syncing: not when a live session
/// already has this revision; otherwise when some server the registry would
/// run for the buffer has not failed to start.
pub open spec fn needs_sync_spec(
    synced_revision: Option<u64>,
    has_live_session: bool,
    revision: u64,
    servers: Seq<Seq<char>>,
    failed: Seq<Seq<char>>,
) -> bool {
    if synced_revision == Some(revision) && has_live_session {
        false
    } else {
        exists|i: int| 0 <= i < servers.len() && !failed.contains(#[trigger] servers[i])
    }
}

/// The decision of `needs_sync` from what the client knows of the buffer.
pub fn buffer_needs_sync(
    synced_revision: Option<u64>,
    has_live_session: bool,
    revision: u64,
    servers: &[String],
    failed: &[String],
) -> (r: bool)
    ensures
        r == needs_sync_spec(
            synced_revision,
            has_live_session,
            revision,
            crate::types::views(servers@),
            crate::types::views(failed@),
        ),
{
    let same = match synced_revision {
        Some(r) => r == revision,
        None => false,
    };
    if same && has_live_session {
        return false;
    }
    let ghost sv = crate::types::views(servers@);
    let ghost fv = crate::types::views(failed@);
    let mut i: usize = 0;
    while i < servers.len()
        invariant
            i <= servers@.len(),
            !(synced_revision == Some(revision) && has_live_session),
            sv == crate::types::views(servers@),
            fv == crate::types::views(failed@),
            forall|k: int| 0 <= k < i ==> fv.contains(#[trigger] sv[k]),
        decreases servers@.len() - i,
    {
        let mut j: usize = 0;
        let mut found = false;
        while j < failed.len()
            invariant
                j <= failed@.len(),
                sv == crate::types::views(servers@),
                fv == crate::types::views(failed@),
                i < servers@.len(),
                found ==> fv.contains(sv[i as int]),
                !found ==> forall|m: int| 0 <= m < j ==> #[trigger] fv[m] != sv[i as int],
            decreases failed@.len() - j,
        {
            if crate::strings::str_eq(failed[j].as_str(), servers[i].as_str()) {
                found = true;
                proof {
                    assert(fv[j as int] == sv[i as int]);
                }
            }
            j += 1;
        }
        if !found {
            proof {
                assert(fv.len() == failed@.len());
                assert(sv.len() == servers@.len());
                assert(!fv.contains(sv[i as int]));
                assert(0 <= i < sv.len() && !fv.contains(sv[i as int]));
            }
            return true;
        }
        i += 1;
    }
    proof {
        assert(sv.len() == servers@.len());
    }
    false
}

} // verus!
