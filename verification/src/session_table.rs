//! Which sessions the client runs and which documents each serves: the
//! session keys with whether each session is still connected, and per
//! document the keys of the sessions tracking it (in key order). The
//! decisions of the session manager, free of the processes themselves.
use vstd::prelude::*;
use crate::strings::{owned, str_eq, concat3};
use crate::paths::{
    PathStyle, SessionKey, LspLiveSession, same_path, paths_equal, normalize_opt_root_spec,
    normalize_session_root_in_style, in_scope_spec, language_server_session_in_workspace_scope_in_style,
};
use crate::documents::{doc_index, doc_text, docs_unique, lemma_doc_index, lemma_doc_index_props};
use crate::order::{sorted_unique_strings, strictly_sorted, chars_lt, opt_chars_lt, str_less, lemma_opt_chars_lt, lemma_chars_lt_irreflexive, lemma_chars_lt_total, lemma_chars_lt_transitive};
use crate::types::{opt_view, views, LspClientError};
use crate::notify::opt_str;
use crate::json::{Json, JsonValue, json_equal};
use crate::config::{
    json_opt_model, contains_key_spec, normalized_settings_spec, normalized_workspace_configuration_settings,
    settings_contains_key,
};

verus! {

/// A session key as plain values: server id and root.
pub type KeyView = (Seq<char>, Option<Seq<char>>);

pub open spec fn key_view(k: SessionKey) -> KeyView {
    (k.server_id@, opt_view(k.root))
}

pub open spec fn key_views(ks: Seq<SessionKey>) -> Seq<KeyView> {
    ks.map_values(|k: SessionKey| key_view(k))
}

/// The order of session keys: by server id, then root (no root first).
pub open spec fn key_lt(a: KeyView, b: KeyView) -> bool {
    chars_lt(a.0, b.0) || (a.0 == b.0 && opt_chars_lt(a.1, b.1))
}

/// Strictly ascending keys.
pub open spec fn keys_sorted(ks: Seq<KeyView>) -> bool {
    forall|a: int, b: int| 0 <= a < b < ks.len() ==> key_lt(#[trigger] ks[a], #[trigger] ks[b])
}

/// Index of the first entry with key `k`, or the length.
pub open spec fn entry_index<V>(s: Seq<(KeyView, V)>, k: KeyView) -> int
    decreases s.len(),
{
    if s.len() == 0 {
        0
    } else if s[0].0 == k {
        0
    } else {
        1 + entry_index(s.skip(1), k)
    }
}

proof fn lemma_entry_index<V>(s: Seq<(KeyView, V)>, k: KeyView, i: int)
    requires
        0 <= i <= s.len(),
        forall|j: int| 0 <= j < i ==> #[trigger] s[j].0 != k,
        i < s.len() ==> s[i].0 == k,
    ensures
        entry_index(s, k) == i,
    decreases i,
{
    if i > 0 {
        lemma_entry_index(s.skip(1), k, i - 1);
    }
}

proof fn lemma_entry_index_props<V>(s: Seq<(KeyView, V)>, k: KeyView)
    ensures
        0 <= entry_index(s, k) <= s.len(),
        forall|j: int| 0 <= j < entry_index(s, k) ==> #[trigger] s[j].0 != k,
        entry_index(s, k) < s.len() ==> s[entry_index(s, k)].0 == k,
    decreases s.len(),
{
    if s.len() > 0 && s[0].0 != k {
        lemma_entry_index_props(s.skip(1), k);
        assert forall|j: int| 0 <= j < entry_index(s, k) implies #[trigger] s[j].0 != k by {
            if j > 0 {
                assert(s[j] == s.skip(1)[j - 1]);
            }
        }
    }
}

/// Whether the session of `k` is known, and if so whether it disconnected.
pub open spec fn session_state(s: Seq<(KeyView, bool)>, k: KeyView) -> Option<bool> {
    let i = entry_index(s, k);
    if i < s.len() {
        Some(s[i].1)
    } else {
        None
    }
}

/// Session keys occur at most once.
pub open spec fn entry_keys_unique<V>(s: Seq<(KeyView, V)>) -> bool {
    forall|a: int, b: int| 0 <= a < b < s.len() ==> #[trigger] s[a].0 != #[trigger] s[b].0
}

pub proof fn lemma_filter_push<A>(s: Seq<A>, x: A, pred: spec_fn(A) -> bool)
    ensures
        s.push(x).filter(pred) == if pred(x) {
            s.filter(pred).push(x)
        } else {
            s.filter(pred)
        },
{
    reveal(Seq::filter);
    assert(s.push(x).drop_last() =~= s);
}

proof fn lemma_filter_all<A>(s: Seq<A>, pred: spec_fn(A) -> bool)
    requires
        forall|j: int| 0 <= j < s.len() ==> pred(#[trigger] s[j]),
    ensures
        s.filter(pred) == s,
    decreases s.len(),
{
    reveal(Seq::filter);
    if s.len() > 0 {
        lemma_filter_all(s.drop_last(), pred);
        assert(s.drop_last().push(s.last()) =~= s);
    }
}

/// Two entries of a filtered list come from two distinct entries, in order.
proof fn lemma_filter_sub(s: Seq<(KeyView, bool)>, pred: spec_fn((KeyView, bool)) -> bool, a: int, b: int)
    requires
        entry_keys_unique(s),
        0 <= a < b < s.filter(pred).len(),
    ensures
        s.filter(pred)[a].0 != s.filter(pred)[b].0,
    decreases s.len(),
{
    reveal(Seq::filter);
    let init = s.drop_last();
    assert(entry_keys_unique(init)) by {
        assert forall|x: int, y: int| 0 <= x < y < init.len() implies #[trigger] init[x].0 != #[trigger] init[y].0 by {
            assert(init[x] == s[x] && init[y] == s[y]);
        }
    }
    let fi = init.filter(pred);
    if pred(s.last()) && b == fi.len() {
        broadcast use vstd::seq_lib::group_filter_ensures;
        assert(s.filter(pred)[a] == fi[a]);
        assert(fi.contains(fi[a]));
        assert(init.filter(pred).contains(fi[a]));
        lemma_filter_from(init, pred, fi[a]);
        let j = choose|j: int| 0 <= j < init.len() && init[j] == fi[a];
        assert(s[j] == init[j]);
        assert(s[j].0 != s[s.len() - 1].0);
    } else {
        lemma_filter_sub(init, pred, a, b);
    }
}

proof fn lemma_filter_from<A>(s: Seq<A>, pred: spec_fn(A) -> bool, x: A)
    requires
        s.filter(pred).contains(x),
    ensures
        s.contains(x),
    decreases s.len(),
{
    reveal(Seq::filter);
    if s.len() > 0 {
        let fi = s.drop_last().filter(pred);
        if pred(s.last()) && x == s.last() {
            assert(s[s.len() - 1] == x);
        } else {
            let k = choose|k: int| 0 <= k < s.filter(pred).len() && s.filter(pred)[k] == x;
            if pred(s.last()) {
                assert(k < fi.len());
                assert(fi[k] == x);
            }
            assert(fi.contains(x));
            lemma_filter_from(s.drop_last(), pred, x);
            let j = choose|j: int| 0 <= j < s.drop_last().len() && s.drop_last()[j] == x;
            assert(s[j] == x);
        }
    }
}

/// A filtered ascending key list stays ascending.
proof fn lemma_filter_sorted(s: Seq<KeyView>, pred: spec_fn(KeyView) -> bool)
    requires
        keys_sorted(s),
    ensures
        keys_sorted(s.filter(pred)),
    decreases s.len(),
{
    reveal(Seq::filter);
    if s.len() > 0 {
        let init = s.drop_last();
        assert(keys_sorted(init)) by {
            assert forall|a: int, b: int| 0 <= a < b < init.len() implies key_lt(#[trigger] init[a], #[trigger] init[b]) by {
                assert(init[a] == s[a] && init[b] == s[b]);
            }
        }
        lemma_filter_sorted(init, pred);
        let fi = init.filter(pred);
        if pred(s.last()) {
            let f = fi.push(s.last());
            assert forall|a: int, b: int| 0 <= a < b < f.len() implies key_lt(#[trigger] f[a], #[trigger] f[b]) by {
                if b == fi.len() {
                    broadcast use vstd::seq_lib::group_filter_ensures;
                    assert(f[a] == fi[a]);
                    assert(fi.contains(fi[a]));
                    lemma_filter_from(init, pred, fi[a]);
                    let j = choose|j: int| 0 <= j < init.len() && init[j] == fi[a];
                    assert(s[j] == init[j]);
                    assert(key_lt(s[j], s[s.len() - 1]));
                } else {
                    assert(f[a] == fi[a] && f[b] == fi[b]);
                }
            }
        }
    }
}

/// Whether `k` is among `ks`.
pub fn keys_contain(ks: &Vec<SessionKey>, k: &SessionKey) -> (r: bool)
    ensures
        r == key_views(ks@).contains(key_view(*k)),
{
    let mut i: usize = 0;
    while i < ks.len()
        invariant
            i <= ks@.len(),
            forall|j: int| 0 <= j < i ==> #[trigger] key_views(ks@)[j] != key_view(*k),
        decreases ks@.len() - i,
    {
        if ks[i].same_as(k) {
            proof {
                assert(key_views(ks@)[i as int] == key_view(*k));
            }
            return true;
        }
        i += 1;
    }
    false
}

/// The sessions and the documents they track.
pub struct SessionTable {
    pub style: PathStyle,
    pub sessions: Vec<(SessionKey, bool)>,
    pub served: Vec<(String, Vec<SessionKey>)>,
}

impl SessionTable {
    /// Each session with its key and whether it disconnected.
    pub open spec fn sessions_model(&self) -> Seq<(KeyView, bool)> {
        self.sessions@.map_values(|e: (SessionKey, bool)| (key_view(e.0), e.1))
    }

    /// Each tracked document with the keys of its sessions.
    pub open spec fn served_model(&self) -> Seq<(Seq<char>, Seq<KeyView>)> {
        self.served@.map_values(|e: (String, Vec<SessionKey>)| (e.0@, key_views(e.1@)))
    }

    /// Keys are unique, documents listed once, each key list ascending.
    pub open spec fn wf(&self) -> bool {
        &&& entry_keys_unique(self.sessions_model())
        &&& docs_unique(self.served_model(), self.style)
        &&& forall|i: int| 0 <= i < self.served_model().len() ==> keys_sorted(#[trigger] self.served_model()[i].1)
    }

    /// Whether session `k` is known, and whether it disconnected.
    pub open spec fn state_of(&self, k: KeyView) -> Option<bool> {
        session_state(self.sessions_model(), k)
    }

    /// The keys of the sessions tracking document `p`.
    pub open spec fn keys_of(&self, p: Seq<char>) -> Seq<KeyView> {
        match doc_text(self.served_model(), p, self.style) {
            Some(ks) => ks,
            None => Seq::empty(),
        }
    }

    /// No sessions, nothing tracked.
    pub fn new(style: PathStyle) -> (r: Self)
        ensures
            r.wf(),
            r.style == style,
            r.sessions_model().len() == 0,
            r.served_model().len() == 0,
    {
        let r = SessionTable { style, sessions: Vec::new(), served: Vec::new() };
        proof {
            assert(r.sessions_model() =~= Seq::empty());
            assert(r.served_model() =~= Seq::empty());
        }
        r
    }

    fn find_session(&self, key: &SessionKey) -> (r: usize)
        ensures
            r == entry_index(self.sessions_model(), key_view(*key)),
            r <= self.sessions@.len(),
    {
        let ghost s = self.sessions_model();
        let mut i: usize = 0;
        while i < self.sessions.len()
            invariant
                s == self.sessions_model(),
                s.len() == self.sessions@.len(),
                i <= self.sessions@.len(),
                forall|j: int| 0 <= j < i ==> #[trigger] s[j].0 != key_view(*key),
            decreases self.sessions@.len() - i,
        {
            if self.sessions[i].0.same_as(key) {
                proof {
                    lemma_entry_index(s, key_view(*key), i as int);
                }
                return i;
            }
            i += 1;
        }
        proof {
            lemma_entry_index(s, key_view(*key), i as int);
        }
        i
    }

    fn find_served(&self, path: &str) -> (r: usize)
        ensures
            r == doc_index(self.served_model(), path@, self.style),
            r <= self.served@.len(),
    {
        let ghost d = self.served_model();
        let mut i: usize = 0;
        while i < self.served.len()
            invariant
                d == self.served_model(),
                d.len() == self.served@.len(),
                i <= self.served@.len(),
                forall|k: int| 0 <= k < i ==> !same_path(#[trigger] d[k].0, path@, self.style),
            decreases self.served@.len() - i,
        {
            if paths_equal(self.served[i].0.as_str(), path, self.style) {
                proof {
                    lemma_doc_index(d, path@, self.style, i as int);
                }
                return i;
            }
            i += 1;
        }
        proof {
            lemma_doc_index(d, path@, self.style, i as int);
        }
        i
    }

    /// Whether session `key` is known, and whether it disconnected.
    pub fn session_state(&self, key: &SessionKey) -> (r: Option<bool>)
        ensures
            r == self.state_of(key_view(*key)),
    {
        let i = self.find_session(key);
        if i < self.sessions.len() {
            Some(self.sessions[i].1)
        } else {
            None
        }
    }
}


impl SessionTable {
    /// A session started for `key`: it is known and connected.
    pub fn insert_session(&mut self, key: SessionKey)
        requires
            old(self).wf(),
        ensures
            final(self).wf(),
            final(self).style == old(self).style,
            final(self).served_model() == old(self).served_model(),
            final(self).state_of(key_view(key)) == Some(false),
            forall|k: KeyView|
                k != key_view(key) ==> #[trigger] final(self).state_of(k) == old(self).state_of(k),
    {
        let ghost s = self.sessions_model();
        let ghost kv = key_view(key);
        let i = self.find_session(&key);
        proof {
            lemma_entry_index_props(s, kv);
        }
        if i < self.sessions.len() {
            self.sessions.set(i, (key, false));
            proof {
                let s2 = self.sessions_model();
                assert(s2 =~= s.update(i as int, (kv, false)));
                lemma_entry_index(s2, kv, i as int);
                assert forall|k: KeyView| k != kv implies #[trigger] session_state(s2, k) == session_state(s, k) by {
                    lemma_entry_index_props(s, k);
                    lemma_entry_index(s2, k, entry_index(s, k));
                }
            }
        } else {
            self.sessions.push((key, false));
            proof {
                let s2 = self.sessions_model();
                assert(s2 =~= s.push((kv, false)));
                lemma_entry_index(s2, kv, s.len() as int);
                assert forall|k: KeyView| k != kv implies #[trigger] session_state(s2, k) == session_state(s, k) by {
                    lemma_entry_index_props(s, k);
                    let j = entry_index(s, k);
                    if j < s.len() {
                        lemma_entry_index(s2, k, j);
                    } else {
                        lemma_entry_index(s2, k, s2.len() as int);
                    }
                }
            }
        }
        proof {
            assert(self.served_model() =~= old(self).served_model());
        }
    }

    /// The session of `key` disconnected (its reader saw the transport close).
    pub fn mark_disconnected(&mut self, key: &SessionKey)
        requires
            old(self).wf(),
        ensures
            final(self).wf(),
            final(self).style == old(self).style,
            final(self).served_model() == old(self).served_model(),
            final(self).state_of(key_view(*key)) == match old(self).state_of(key_view(*key)) {
                Some(_) => Some(true),
                None => None,
            },
            forall|k: KeyView|
                k != key_view(*key) ==> #[trigger] final(self).state_of(k) == old(self).state_of(k),
    {
        let ghost s = self.sessions_model();
        let ghost kv = key_view(*key);
        let i = self.find_session(key);
        proof {
            lemma_entry_index_props(s, kv);
        }
        if i < self.sessions.len() {
            let k = SessionKey { server_id: owned(self.sessions[i].0.server_id.as_str()), root: match &self.sessions[i].0.root {
                Some(r) => Some(owned(r.as_str())),
                None => None,
            } };
            self.sessions.set(i, (k, true));
            proof {
                let s2 = self.sessions_model();
                assert(s2 =~= s.update(i as int, (kv, true)));
                lemma_entry_index(s2, kv, i as int);
                assert forall|k: KeyView| k != kv implies #[trigger] session_state(s2, k) == session_state(s, k) by {
                    lemma_entry_index_props(s, k);
                    lemma_entry_index(s2, k, entry_index(s, k));
                }
            }
        }
        proof {
            assert(self.served_model() =~= old(self).served_model());
        }
    }
}


/// Keeps a session entry unless its key is in `drop` (and, when
/// `only_disconnected`, it disconnected).
pub open spec fn dropping(drop: Seq<KeyView>, only_disconnected: bool) -> spec_fn((KeyView, bool)) -> bool {
    |e: (KeyView, bool)| !((e.1 || !only_disconnected) && drop.contains(e.0))
}

impl SessionTable {
    /// Drops the sessions whose entry `drop` selects, keeping the order.
    fn retain_sessions(&mut self, drop: &Vec<SessionKey>, only_disconnected: bool)
        requires
            old(self).wf(),
        ensures
            final(self).wf(),
            final(self).style == old(self).style,
            final(self).served_model() == old(self).served_model(),
            final(self).sessions_model() == old(self).sessions_model().filter(
                dropping(key_views(drop@), only_disconnected),
            ),
    {
        let ghost s = self.sessions_model();
        let ghost pred = dropping(key_views(drop@), only_disconnected);
        let mut kept: Vec<(SessionKey, bool)> = Vec::new();
        let mut i: usize = 0;
        proof {
            reveal(Seq::filter);
            assert(s.take(0) =~= Seq::<(KeyView, bool)>::empty());
            assert(kept@.map_values(|e: (SessionKey, bool)| (key_view(e.0), e.1)) =~= s.take(0).filter(pred));
        }
        while i < self.sessions.len()
            invariant
                s == self.sessions_model(),
                s.len() == self.sessions@.len(),
                i <= self.sessions@.len(),
                pred == dropping(key_views(drop@), only_disconnected),
                kept@.map_values(|e: (SessionKey, bool)| (key_view(e.0), e.1)) == s.take(i as int).filter(pred),
            decreases self.sessions@.len() - i,
        {
            let present = keys_contain(drop, &self.sessions[i].0);
            proof {
                assert(s.take(i + 1) =~= s.take(i as int).push(s[i as int]));
                lemma_filter_push(s.take(i as int), s[i as int], pred);
            }
            if !((self.sessions[i].1 || !only_disconnected) && present) {
                let e = (self.sessions[i].0.clone(), self.sessions[i].1);
                proof {
                    assert(kept@.push(e).map_values(|e: (SessionKey, bool)| (key_view(e.0), e.1)) =~= kept@.map_values(
                        |e: (SessionKey, bool)| (key_view(e.0), e.1),
                    ).push((key_view(e.0), e.1)));
                }
                kept.push(e);
            }
            i += 1;
        }
        proof {
            assert(s.take(s.len() as int) =~= s);
        }
        self.sessions = kept;
        proof {
            let s2 = self.sessions_model();
            assert forall|a: int, b: int| 0 <= a < b < s2.len() implies #[trigger] s2[a].0 != #[trigger] s2[b].0 by {
                lemma_filter_sub(s, pred, a, b);
            }
            assert(self.served_model() =~= old(self).served_model());
        }
    }
}


/// The error when several sessions of a server match and no root says which.
pub open spec fn ambiguous_server_text(server_id: Seq<char>) -> Seq<char> {
    "multiple live `"@ + server_id + "` sessions matched the request; provide a workspace root"@
}

impl SessionTable {
    /// The connected sessions tracking `path`, in key order; the
    /// disconnected ones among its keys are dropped from the table.
    pub fn tracked_sessions_for_path(&mut self, path: &str) -> (r: Vec<SessionKey>)
        requires
            old(self).wf(),
        ensures
            final(self).wf(),
            final(self).style == old(self).style,
            final(self).served_model() == old(self).served_model(),
            key_views(r@) == old(self).keys_of(path@).filter(|k: KeyView| old(self).state_of(k) == Some(false)),
            final(self).sessions_model() == old(self).sessions_model().filter(
                |e: (KeyView, bool)| !(e.1 && old(self).keys_of(path@).contains(e.0)),
            ),
    {
        let ghost s0 = self.sessions_model();
        let ghost st = self.style;
        let i = self.find_served(path);
        proof {
            lemma_doc_index_props(self.served_model(), path@, st);
        }
        if i >= self.served.len() {
            let out: Vec<SessionKey> = Vec::new();
            proof {
                reveal(Seq::filter);
                assert(old(self).keys_of(path@) =~= Seq::<KeyView>::empty());
                assert(key_views(out@) =~= Seq::<KeyView>::empty());
                lemma_filter_all(s0, |e: (KeyView, bool)| !(e.1 && old(self).keys_of(path@).contains(e.0)));
            }
            return out;
        }
        let mut keys: Vec<SessionKey> = Vec::new();
        let mut j: usize = 0;
        while j < self.served[i].1.len()
            invariant
                *self == *old(self),
                i < self.served@.len(),
                j <= self.served@[i as int].1@.len(),
                keys@ == self.served@[i as int].1@.take(j as int),
            decreases self.served@[i as int].1@.len() - j,
        {
            keys.push(self.served[i].1[j].clone());
            proof {
                assert(self.served@[i as int].1@.take(j + 1) =~= self.served@[i as int].1@.take(j as int).push(
                    self.served@[i as int].1@[j as int],
                ));
            }
            j += 1;
        }
        proof {
            assert(self.served@[i as int].1@.take(j as int) =~= self.served@[i as int].1@);
            assert(key_views(keys@) == old(self).keys_of(path@));
        }
        let ghost kv = key_views(keys@);
        let ghost live = |k: KeyView| old(self).state_of(k) == Some(false);
        let mut out: Vec<SessionKey> = Vec::new();
        let mut k: usize = 0;
        proof {
            reveal(Seq::filter);
            assert(kv.take(0) =~= Seq::<KeyView>::empty());
            assert(key_views(out@) =~= kv.take(0).filter(live));
        }
        while k < keys.len()
            invariant
                *self == *old(self),
                kv == key_views(keys@),
                live == (|k: KeyView| old(self).state_of(k) == Some(false)),
                k <= keys@.len(),
                key_views(out@) == kv.take(k as int).filter(live),
            decreases keys@.len() - k,
        {
            let state = self.session_state(&keys[k]);
            proof {
                assert(kv.take(k + 1) =~= kv.take(k as int).push(kv[k as int]));
                lemma_filter_push(kv.take(k as int), kv[k as int], live);
            }
            match state {
                Some(false) => {
                    let c = keys[k].clone();
                    proof {
                        assert(key_views(out@.push(c)) =~= key_views(out@).push(key_view(c)));
                    }
                    out.push(c);
                },
                _ => {},
            }
            k += 1;
        }
        proof {
            assert(kv.take(kv.len() as int) =~= kv);
        }
        let ghost before = self.sessions_model();
        proof {
            assert(before == s0);
        }
        self.retain_sessions(&keys, true);
        proof {
            let p1 = dropping(key_views(keys@), true);
            let p2 = |e: (KeyView, bool)| !(e.1 && old(self).keys_of(path@).contains(e.0));
            assert(p1 =~= p2);
            assert(self.sessions_model() == before.filter(p1));
            assert(self.sessions_model() == s0.filter(p2));
        }
        out
    }
}


/// Keeps a key unless it is in `drop`.
pub open spec fn without_keys(drop: Seq<KeyView>) -> spec_fn(KeyView) -> bool {
    |k: KeyView| !drop.contains(k)
}

/// The keys of `ks` not in `drop`, in order.
fn filter_keys(ks: &Vec<SessionKey>, drop: &Vec<SessionKey>) -> (r: Vec<SessionKey>)
    ensures
        key_views(r@) == key_views(ks@).filter(without_keys(key_views(drop@))),
{
    let ghost kv = key_views(ks@);
    let ghost pred = without_keys(key_views(drop@));
    let mut out: Vec<SessionKey> = Vec::new();
    let mut i: usize = 0;
    proof {
        reveal(Seq::filter);
        assert(kv.take(0) =~= Seq::<KeyView>::empty());
        assert(key_views(out@) =~= kv.take(0).filter(pred));
    }
    while i < ks.len()
        invariant
            kv == key_views(ks@),
            pred == without_keys(key_views(drop@)),
            i <= ks@.len(),
            key_views(out@) == kv.take(i as int).filter(pred),
        decreases ks@.len() - i,
    {
        proof {
            assert(kv.take(i + 1) =~= kv.take(i as int).push(kv[i as int]));
            lemma_filter_push(kv.take(i as int), kv[i as int], pred);
        }
        if !keys_contain(drop, &ks[i]) {
            let c = ks[i].clone();
            proof {
                assert(key_views(out@.push(c)) =~= key_views(out@).push(key_view(c)));
            }
            out.push(c);
        }
        i += 1;
    }
    proof {
        assert(kv.take(kv.len() as int) =~= kv);
    }
    out
}

impl SessionTable {
    /// Shuts sessions down: they leave the table and every document's list.
    pub fn shutdown_sessions(&mut self, keys: &Vec<SessionKey>)
        requires
            old(self).wf(),
        ensures
            final(self).wf(),
            final(self).style == old(self).style,
            final(self).sessions_model() == old(self).sessions_model().filter(dropping(key_views(keys@), false)),
            final(self).served_model() == old(self).served_model().map_values(
                |e: (Seq<char>, Seq<KeyView>)| (e.0, e.1.filter(without_keys(key_views(keys@)))),
            ),
    {
        self.retain_sessions(keys, false);
        let ghost d0 = self.served_model();
        let ghost pred = without_keys(key_views(keys@));
        let ghost target = d0.map_values(|e: (Seq<char>, Seq<KeyView>)| (e.0, e.1.filter(pred)));
        let mut j: usize = 0;
        while j < self.served.len()
            invariant
                self.wf(),
                self.style == old(self).style,
                self.sessions_model() == old(self).sessions_model().filter(dropping(key_views(keys@), false)),
                pred == without_keys(key_views(keys@)),
                target == d0.map_values(|e: (Seq<char>, Seq<KeyView>)| (e.0, e.1.filter(pred))),
                self.served_model().len() == d0.len(),
                j <= d0.len(),
                forall|x: int| 0 <= x < j ==> #[trigger] self.served_model()[x] == target[x],
                forall|x: int| j <= x < d0.len() ==> #[trigger] self.served_model()[x] == d0[x],
            decreases d0.len() - j,
        {
            let filtered = filter_keys(&self.served[j].1, keys);
            let path = owned(self.served[j].0.as_str());
            let ghost before = self.served_model();
            proof {
                lemma_filter_sorted(before[j as int].1, pred);
            }
            self.served.set(j, (path, filtered));
            proof {
                let after = self.served_model();
                assert(after =~= before.update(j as int, (before[j as int].0, before[j as int].1.filter(pred))));
                assert forall|a: int, b: int| 0 <= a < b < after.len() implies !same_path(
                    #[trigger] after[a].0,
                    #[trigger] after[b].0,
                    self.style,
                ) by {
                    assert(after[a].0 == before[a].0 && after[b].0 == before[b].0);
                }
                assert forall|x: int| 0 <= x < after.len() implies keys_sorted(#[trigger] after[x].1) by {
                    if x != j {
                        assert(after[x] == before[x]);
                    }
                }
                assert(self.sessions_model() =~= old(self).sessions_model().filter(dropping(key_views(keys@), false)));
            }
            j += 1;
        }
        proof {
            assert(self.served_model() =~= target);
        }
    }
}


/// A session entry of server `server_id`.
pub open spec fn of_server(server_id: Seq<char>, live: bool) -> spec_fn((KeyView, bool)) -> bool {
    |e: (KeyView, bool)| e.0.0 == server_id && e.1 != live
}

/// Keeps an entry unless it is a disconnected session of `server_id`.
pub open spec fn not_stale_of(server_id: Seq<char>) -> spec_fn((KeyView, bool)) -> bool {
    |e: (KeyView, bool)| !(e.0.0 == server_id && e.1)
}

impl SessionTable {
    /// The session a request for `server_id` goes to. With a root: its
    /// session if connected (a disconnected one leaves the table). Without:
    /// the one connected session of that server, none if there is none, an
    /// error if several are; the server's disconnected sessions leave the
    /// table.
    pub fn live_session_for_server(&mut self, server_id: &str, root: Option<&str>) -> (r: Result<
        Option<SessionKey>,
        LspClientError,
    >)
        requires
            old(self).wf(),
        ensures
            final(self).wf(),
            final(self).style == old(self).style,
            final(self).served_model() == old(self).served_model(),
            match root {
                Some(rt) => {
                    let kv = (server_id@, normalize_opt_root_spec(Some(rt@), old(self).style));
                    match old(self).state_of(kv) {
                        Some(true) => r matches Ok(None) && final(self).sessions_model() == old(
                            self,
                        ).sessions_model().filter(dropping(seq![kv], false)),
                        Some(false) => r matches Ok(Some(k)) && key_view(k) == kv && final(self).sessions_model()
                            == old(self).sessions_model(),
                        None => r matches Ok(None) && final(self).sessions_model() == old(self).sessions_model(),
                    }
                },
                None => {
                    let live = old(self).sessions_model().filter(of_server(server_id@, true));
                    final(self).sessions_model() == old(self).sessions_model().filter(not_stale_of(server_id@))
                        && match r {
                        Ok(None) => live.len() == 0,
                        Ok(Some(k)) => live.len() == 1 && key_view(k) == live[0].0,
                        Err(LspClientError::Protocol(m)) => live.len() > 1 && m@ == ambiguous_server_text(server_id@),
                        Err(_) => false,
                    }
                },
            },
    {
        match root {
            Some(rt) => {
                let key = SessionKey {
                    server_id: owned(server_id),
                    root: normalize_session_root_in_style(Some(rt), self.style),
                };
                proof {
                    assert(key_view(key) == (server_id@, normalize_opt_root_spec(Some(rt@), self.style)));
                }
                match self.session_state(&key) {
                    Some(true) => {
                        let mut drop: Vec<SessionKey> = Vec::new();
                        let ghost kv = key_view(key);
                        drop.push(key);
                        proof {
                            assert(key_views(drop@) =~= seq![kv]);
                        }
                        self.retain_sessions(&drop, false);
                        Ok(None)
                    },
                    Some(false) => Ok(Some(key)),
                    None => Ok(None),
                }
            },
            None => {
                let ghost s = self.sessions_model();
                let ghost livep = of_server(server_id@, true);
                let ghost keep = not_stale_of(server_id@);
                let mut live: Vec<SessionKey> = Vec::new();
                let mut kept: Vec<(SessionKey, bool)> = Vec::new();
                let mut i: usize = 0;
                proof {
                    reveal(Seq::filter);
                    assert(s.take(0) =~= Seq::<(KeyView, bool)>::empty());
                    assert(key_views(live@) =~= Seq::<KeyView>::empty());
                    assert(kept@.map_values(|e: (SessionKey, bool)| (key_view(e.0), e.1)) =~= s.take(0).filter(keep));
                }
                while i < self.sessions.len()
                    invariant
                        *self == *old(self),
                        s == self.sessions_model(),
                        s.len() == self.sessions@.len(),
                        i <= self.sessions@.len(),
                        livep == of_server(server_id@, true),
                        keep == not_stale_of(server_id@),
                        key_views(live@) == s.take(i as int).filter(livep).map_values(|e: (KeyView, bool)| e.0),
                        kept@.map_values(|e: (SessionKey, bool)| (key_view(e.0), e.1)) == s.take(i as int).filter(keep),
                    decreases self.sessions@.len() - i,
                {
                    let same_server = str_eq(self.sessions[i].0.server_id.as_str(), server_id);
                    let disconnected = self.sessions[i].1;
                    proof {
                        assert(s.take(i + 1) =~= s.take(i as int).push(s[i as int]));
                        lemma_filter_push(s.take(i as int), s[i as int], livep);
                        lemma_filter_push(s.take(i as int), s[i as int], keep);
                    }
                    if same_server && !disconnected {
                        let c = self.sessions[i].0.clone();
                        proof {
                            assert(key_views(live@.push(c)) =~= key_views(live@).push(key_view(c)));
                            assert(s.take(i as int).filter(livep).push(s[i as int]).map_values(|e: (KeyView, bool)| e.0)
                                =~= s.take(i as int).filter(livep).map_values(|e: (KeyView, bool)| e.0).push(s[i as int].0));
                        }
                        live.push(c);
                    }
                    if !(same_server && disconnected) {
                        let e = (self.sessions[i].0.clone(), disconnected);
                        proof {
                            assert(kept@.push(e).map_values(|e: (SessionKey, bool)| (key_view(e.0), e.1)) =~= kept@.map_values(
                                |e: (SessionKey, bool)| (key_view(e.0), e.1),
                            ).push((key_view(e.0), e.1)));
                        }
                        kept.push(e);
                    }
                    i += 1;
                }
                proof {
                    assert(s.take(s.len() as int) =~= s);
                }
                self.sessions = kept;
                proof {
                    let s2 = self.sessions_model();
                    assert forall|a: int, b: int| 0 <= a < b < s2.len() implies #[trigger] s2[a].0 != #[trigger] s2[b].0 by {
                        lemma_filter_sub(s, keep, a, b);
                    }
                    assert(self.served_model() =~= old(self).served_model());
                    assert(s.filter(livep).len() == key_views(live@).len());
                }
                if live.len() == 0 {
                    Ok(None)
                } else if live.len() == 1 {
                    let ghost lv = live@;
                    proof {
                        assert(key_views(lv)[0] == key_view(lv[0]));
                        assert(s.filter(livep).map_values(|e: (KeyView, bool)| e.0)[0] == s.filter(livep)[0].0);
                    }
                    let k = live.pop();
                    match k {
                        Some(k) => {
                            proof {
                                assert(k == lv[0]);
                            }
                            Ok(Some(k))
                        },
                        None => Ok(None),
                    }
                } else {
                    Err(LspClientError::Protocol(concat3(
                        "multiple live `",
                        server_id,
                        "` sessions matched the request; provide a workspace root",
                    )))
                }
            },
        }
    }
}


pub proof fn lemma_key_order(a: KeyView, b: KeyView, c: KeyView)
    ensures
        !key_lt(a, a),
        key_lt(a, b) || a == b || key_lt(b, a),
        key_lt(a, b) && key_lt(b, c) ==> key_lt(a, c),
{
    lemma_chars_lt_irreflexive(a.0);
    lemma_chars_lt_total(a.0, b.0);
    lemma_opt_chars_lt(a.1, b.1, c.1);
    if chars_lt(a.0, b.0) && chars_lt(b.0, c.0) {
        lemma_chars_lt_transitive(a.0, b.0, c.0);
    }
    if a.0 == b.0 && a.1 == b.1 {
        assert(a == b);
    }
}

fn key_less(a: &SessionKey, b: &SessionKey) -> (r: bool)
    ensures
        r == key_lt(key_view(*a), key_view(*b)),
{
    proof {
        lemma_chars_lt_irreflexive(a.server_id@);
    }
    if str_less(a.server_id.as_str(), b.server_id.as_str()) {
        return true;
    }
    if !str_eq(a.server_id.as_str(), b.server_id.as_str()) {
        return false;
    }
    match (&a.root, &b.root) {
        (None, Some(_)) => true,
        (Some(x), Some(y)) => str_less(x.as_str(), y.as_str()),
        _ => false,
    }
}

proof fn lemma_seq_insert_contains<A>(s: Seq<A>, k: int, e: A, y: A)
    requires
        0 <= k <= s.len(),
    ensures
        s.insert(k, e).contains(y) <==> (s.contains(y) || y == e),
{
    let t = s.insert(k, e);
    if t.contains(y) && y != e {
        let j = choose|j: int| 0 <= j < t.len() && t[j] == y;
        let j0 = if j < k { j } else { j - 1 };
        assert(s[j0] == y);
    }
    if s.contains(y) {
        let j = choose|j: int| 0 <= j < s.len() && s[j] == y;
        let j1 = if j < k { j } else { j + 1 };
        assert(t[j1] == y);
    }
    assert(t[k] == e);
}

/// `ks` with `key` added in its place (unchanged when present).
fn insert_key_sorted(ks: &Vec<SessionKey>, key: &SessionKey) -> (r: Vec<SessionKey>)
    requires
        keys_sorted(key_views(ks@)),
    ensures
        keys_sorted(key_views(r@)),
        forall|k: KeyView| #[trigger] key_views(r@).contains(k) <==> (key_views(ks@).contains(k) || k == key_view(*key)),
{
    let ghost kv = key_views(ks@);
    let ghost x = key_view(*key);
    let mut out: Vec<SessionKey> = Vec::new();
    let mut i: usize = 0;
    while i < ks.len()
        invariant
            kv == key_views(ks@),
            x == key_view(*key),
            i <= ks@.len(),
            out@ == ks@.take(i as int),
            forall|a: int| 0 <= a < i ==> key_lt(#[trigger] kv[a], x),
        ensures
            i < ks@.len() ==> !key_lt(kv[i as int], x),
        decreases ks@.len() - i,
    {
        let less = key_less(&ks[i], key);
        proof {
            assert(kv[i as int] == key_view(ks@[i as int]));
        }
        if !less {
            break;
        }
        proof {
            assert(ks@.take(i + 1) =~= ks@.take(i as int).push(ks@[i as int]));
        }
        out.push(ks[i].clone());
        i += 1;
    }
    proof {
        if i < ks@.len() {
            assert(kv[i as int] == key_view(ks@[i as int]));
        }
    }
    let present = i < ks.len() && ks[i].same_as(key);
    let ghost at = i as int;
    if !present {
        out.push(key.clone());
    }
    let ghost prefix = out@;
    proof {
        assert(ks@.subrange(at, at) =~= Seq::<SessionKey>::empty());
        assert(prefix + ks@.subrange(at, at) =~= prefix);
    }
    while i < ks.len()
        invariant
            kv == key_views(ks@),
            0 <= at <= i <= ks@.len(),
            out@ == prefix + ks@.subrange(at, i as int),
        decreases ks@.len() - i,
    {
        proof {
            let j = i as int;
            assert(ks@.subrange(at, j + 1) =~= ks@.subrange(at, j).push(ks@[j]));
            assert(prefix + ks@.subrange(at, j + 1) =~= (prefix + ks@.subrange(at, j)).push(ks@[j]));
        }
        out.push(ks[i].clone());
        i += 1;
    }
    proof {
        assert(ks@.subrange(at, ks@.len() as int) =~= ks@.skip(at));
        if present {
            assert(prefix + ks@.skip(at) =~= ks@);
        } else {
            assert(prefix == ks@.take(at).push(*key));
        }
    }
    proof {
        let rv = key_views(out@);
        if present {
            assert(rv =~= kv);
            assert(kv[at] == x);
            assert forall|k: KeyView| #[trigger] rv.contains(k) <==> (kv.contains(k) || k == x) by {
                if k == x {
                    assert(kv[at] == k);
                }
            }
        } else {
            assert(out@ =~= ks@.insert(at, *key));
            assert(rv =~= kv.insert(at, x));
            assert forall|k: KeyView| #[trigger] rv.contains(k) <==> (kv.contains(k) || k == x) by {
                lemma_seq_insert_contains(kv, at, x, k);
            }
            if at < kv.len() {
                lemma_key_order(kv[at], x, x);
            }
            assert forall|a: int, b: int| 0 <= a < b < rv.len() implies key_lt(#[trigger] rv[a], #[trigger] rv[b]) by {
                if b == at {
                    assert(rv[a] == kv[a]);
                } else if a == at {
                    assert(rv[b] == kv[b - 1]);
                    if b - 1 > at {
                        lemma_key_order(x, kv[at], kv[b - 1]);
                    }
                } else {
                    let a0 = if a < at { a } else { a - 1 };
                    let b0 = if b < at { b } else { b - 1 };
                    assert(rv[a] == kv[a0] && rv[b] == kv[b0]);
                }
            }
        }
    }
    out
}


impl SessionTable {
    /// Session `key` now tracks document `path`.
    pub fn track_session(&mut self, path: &str, key: &SessionKey)
        requires
            old(self).wf(),
        ensures
            final(self).wf(),
            final(self).style == old(self).style,
            final(self).sessions_model() == old(self).sessions_model(),
            forall|k: KeyView|
                #[trigger] final(self).keys_of(path@).contains(k) <==> (old(self).keys_of(path@).contains(k) || k
                    == key_view(*key)),
            forall|q: Seq<char>|
                !same_path(q, path@, old(self).style) ==> #[trigger] final(self).keys_of(q) == old(self).keys_of(q),
    {
        let ghost d = self.served_model();
        let ghost st = self.style;
        let i = self.find_served(path);
        proof {
            lemma_doc_index_props(d, path@, st);
        }
        if i < self.served.len() {
            proof {
                assert(d[i as int].1 == key_views(self.served@[i as int].1@));
            }
            let keys = insert_key_sorted(&self.served[i].1, key);
            let name = owned(self.served[i].0.as_str());
            let ghost nk = key_views(keys@);
            self.served.set(i, (name, keys));
            proof {
                let d2 = self.served_model();
                assert(d2 =~= d.update(i as int, (d[i as int].0, nk)));
                assert forall|a: int, b: int| 0 <= a < b < d2.len() implies !same_path(
                    #[trigger] d2[a].0,
                    #[trigger] d2[b].0,
                    st,
                ) by {
                    assert(d2[a].0 == d[a].0 && d2[b].0 == d[b].0);
                }
                assert forall|x: int| 0 <= x < d2.len() implies keys_sorted(#[trigger] d2[x].1) by {
                    if x != i {
                        assert(d2[x] == d[x]);
                    }
                }
                lemma_doc_index(d2, path@, st, i as int);
                assert forall|q: Seq<char>| !same_path(q, path@, st) implies #[trigger] doc_text(d2, q, st)
                    == doc_text(d, q, st) by {
                    lemma_doc_index_props(d, q, st);
                    let j = doc_index(d, q, st);
                    lemma_doc_index(d2, q, st, j);
                }
                assert(self.sessions_model() =~= old(self).sessions_model());
            }
        } else {
            let mut keys: Vec<SessionKey> = Vec::new();
            keys.push(key.clone());
            let ghost nk = key_views(keys@);
            proof {
                assert(nk =~= seq![key_view(*key)]);
            }
            self.served.push((owned(path), keys));
            proof {
                let d2 = self.served_model();
                assert(d2 =~= d.push((path@, nk)));
                assert forall|a: int, b: int| 0 <= a < b < d2.len() implies !same_path(
                    #[trigger] d2[a].0,
                    #[trigger] d2[b].0,
                    st,
                ) by {
                    if b == d.len() {
                        assert(!same_path(d[a].0, path@, st));
                    }
                }
                assert forall|x: int| 0 <= x < d2.len() implies keys_sorted(#[trigger] d2[x].1) by {
                    if x < d.len() {
                        assert(d2[x] == d[x]);
                    }
                }
                lemma_doc_index(d2, path@, st, d.len() as int);
                assert forall|q: Seq<char>| !same_path(q, path@, st) implies #[trigger] doc_text(d2, q, st)
                    == doc_text(d, q, st) by {
                    lemma_doc_index_props(d, q, st);
                    let j = doc_index(d, q, st);
                    if j < d.len() {
                        lemma_doc_index(d2, q, st, j);
                    } else {
                        lemma_doc_index(d2, q, st, d2.len() as int);
                    }
                }
                assert forall|k: KeyView| #[trigger] nk.contains(k) <==> k == key_view(*key) by {
                    if k == key_view(*key) {
                        assert(nk[0] == k);
                    }
                }
                assert(self.sessions_model() =~= old(self).sessions_model());
            }
        }
    }

    /// The document `path` closes: it is no longer tracked; returned are
    /// the keys of its sessions the table still knows, in key order.
    pub fn close_buffer(&mut self, path: &str) -> (r: Vec<SessionKey>)
        requires
            old(self).wf(),
        ensures
            final(self).wf(),
            final(self).style == old(self).style,
            final(self).sessions_model() == old(self).sessions_model(),
            key_views(r@) == old(self).keys_of(path@).filter(|k: KeyView| old(self).state_of(k) is Some),
            final(self).keys_of(path@).len() == 0,
            forall|q: Seq<char>|
                !same_path(q, path@, old(self).style) ==> #[trigger] final(self).keys_of(q) == old(self).keys_of(q),
    {
        let ghost d = self.served_model();
        let ghost st = self.style;
        let i = self.find_served(path);
        proof {
            lemma_doc_index_props(d, path@, st);
        }
        if i >= self.served.len() {
            let out: Vec<SessionKey> = Vec::new();
            proof {
                reveal(Seq::filter);
                assert(key_views(out@) =~= Seq::<KeyView>::empty());
                assert(old(self).keys_of(path@) =~= Seq::<KeyView>::empty());
            }
            return out;
        }
        let entry = self.served.remove(i);
        let ghost kv = key_views(entry.1@);
        let ghost known = |k: KeyView| old(self).state_of(k) is Some;
        proof {
            assert(kv == d[i as int].1);
            let d2 = self.served_model();
            assert(d2 =~= d.remove(i as int));
            assert forall|a: int, b: int| 0 <= a < b < d2.len() implies !same_path(
                #[trigger] d2[a].0,
                #[trigger] d2[b].0,
                st,
            ) by {
                let a0 = if a < i { a } else { a + 1 };
                let b0 = if b < i { b } else { b + 1 };
                assert(d2[a] == d[a0] && d2[b] == d[b0]);
            }
            assert forall|x: int| 0 <= x < d2.len() implies keys_sorted(#[trigger] d2[x].1) by {
                let x0 = if x < i { x } else { x + 1 };
                assert(d2[x] == d[x0]);
            }
            assert forall|j: int| 0 <= j < d2.len() implies !same_path(#[trigger] d2[j].0, path@, st) by {
                let j0 = if j < i { j } else { j + 1 };
                assert(d2[j] == d[j0]);
                assert(same_path(d[i as int].0, path@, st));
                if j0 < i {
                } else {
                    assert(!same_path(d[i as int].0, d[j0].0, st));
                }
            }
            lemma_doc_index(d2, path@, st, d2.len() as int);
            assert forall|q: Seq<char>| !same_path(q, path@, st) implies #[trigger] doc_text(d2, q, st)
                == doc_text(d, q, st) by {
                lemma_doc_index_props(d, q, st);
                let j = doc_index(d, q, st);
                if j < i {
                    lemma_doc_index(d2, q, st, j);
                } else if j == i {
                    assert(same_path(d[i as int].0, path@, st));
                    assert(false);
                } else if j < d.len() {
                    lemma_doc_index(d2, q, st, j - 1);
                } else {
                    lemma_doc_index(d2, q, st, d2.len() as int);
                }
            }
        }
        let mut out: Vec<SessionKey> = Vec::new();
        let mut k: usize = 0;
        proof {
            reveal(Seq::filter);
            assert(kv.take(0) =~= Seq::<KeyView>::empty());
            assert(key_views(out@) =~= kv.take(0).filter(known));
        }
        while k < entry.1.len()
            invariant
                kv == key_views(entry.1@),
                known == (|k: KeyView| old(self).state_of(k) is Some),
                self.sessions_model() == old(self).sessions_model(),
                self.style == old(self).style,
                k <= entry.1@.len(),
                key_views(out@) == kv.take(k as int).filter(known),
            decreases entry.1@.len() - k,
        {
            let state = self.session_state(&entry.1[k]);
            proof {
                assert(kv.take(k + 1) =~= kv.take(k as int).push(kv[k as int]));
                lemma_filter_push(kv.take(k as int), kv[k as int], known);
                assert(kv[k as int] == key_view(entry.1@[k as int]));
            }
            if state.is_some() {
                let c = entry.1[k].clone();
                proof {
                    assert(key_views(out@.push(c)) =~= key_views(out@).push(key_view(c)));
                }
                out.push(c);
            }
            k += 1;
        }
        proof {
            assert(kv.take(kv.len() as int) =~= kv);
        }
        out
    }

    /// The documents session `key` tracks, in the table's order.
    pub fn paths_tracking(&self, key: &SessionKey) -> (r: Vec<String>)
        ensures
            views(r@) == self.served_model().filter(
                |e: (Seq<char>, Seq<KeyView>)| e.1.contains(key_view(*key)),
            ).map_values(|e: (Seq<char>, Seq<KeyView>)| e.0),
    {
        let ghost d = self.served_model();
        let ghost pred = |e: (Seq<char>, Seq<KeyView>)| e.1.contains(key_view(*key));
        let mut out: Vec<String> = Vec::new();
        let mut i: usize = 0;
        proof {
            reveal(Seq::filter);
            assert(d.take(0) =~= Seq::<(Seq<char>, Seq<KeyView>)>::empty());
            assert(views(out@) =~= d.take(0).filter(pred).map_values(|e: (Seq<char>, Seq<KeyView>)| e.0));
        }
        while i < self.served.len()
            invariant
                d == self.served_model(),
                d.len() == self.served@.len(),
                pred == (|e: (Seq<char>, Seq<KeyView>)| e.1.contains(key_view(*key))),
                i <= self.served@.len(),
                views(out@) == d.take(i as int).filter(pred).map_values(|e: (Seq<char>, Seq<KeyView>)| e.0),
            decreases self.served@.len() - i,
        {
            proof {
                assert(d.take(i + 1) =~= d.take(i as int).push(d[i as int]));
                lemma_filter_push(d.take(i as int), d[i as int], pred);
                assert(d[i as int].1 == key_views(self.served@[i as int].1@));
            }
            if keys_contain(&self.served[i].1, key) {
                let p = owned(self.served[i].0.as_str());
                proof {
                    assert(views(out@.push(p)) =~= views(out@).push(p@));
                    assert(d.take(i as int).filter(pred).push(d[i as int]).map_values(
                        |e: (Seq<char>, Seq<KeyView>)| e.0,
                    ) =~= d.take(i as int).filter(pred).map_values(|e: (Seq<char>, Seq<KeyView>)| e.0).push(
                        d[i as int].0,
                    ));
                }
                out.push(p);
            }
            i += 1;
        }
        proof {
            assert(d.take(d.len() as int) =~= d);
        }
        out
    }
}

impl SessionTable {
    /// The sessions whose root is `root` once normalized, in the table's
    /// order: the sessions to stop when a workspace root closes.
    pub fn sessions_for_root(&self, root: Option<&str>) -> (r: Vec<SessionKey>)
        ensures
            key_views(r@) == self.sessions_model().filter(
                |e: (KeyView, bool)| e.0.1 == normalize_opt_root_spec(opt_str(root), self.style),
            ).map_values(|e: (KeyView, bool)| e.0),
    {
        let wanted = normalize_session_root_in_style(root, self.style);
        let ghost s = self.sessions_model();
        let ghost want = normalize_opt_root_spec(opt_str(root), self.style);
        let ghost pred = |e: (KeyView, bool)| e.0.1 == want;
        let mut out: Vec<SessionKey> = Vec::new();
        let mut i: usize = 0;
        proof {
            reveal(Seq::filter);
            assert(s.take(0) =~= Seq::<(KeyView, bool)>::empty());
            assert(key_views(out@) =~= s.take(0).filter(pred).map_values(|e: (KeyView, bool)| e.0));
        }
        while i < self.sessions.len()
            invariant
                s == self.sessions_model(),
                s.len() == self.sessions@.len(),
                opt_view(wanted) == want,
                pred == (|e: (KeyView, bool)| e.0.1 == want),
                i <= self.sessions@.len(),
                key_views(out@) == s.take(i as int).filter(pred).map_values(|e: (KeyView, bool)| e.0),
            decreases self.sessions@.len() - i,
        {
            proof {
                assert(s.take(i + 1) =~= s.take(i as int).push(s[i as int]));
                lemma_filter_push(s.take(i as int), s[i as int], pred);
            }
            let same = match (&self.sessions[i].0.root, &wanted) {
                (Some(a), Some(b)) => str_eq(a.as_str(), b.as_str()),
                (None, None) => true,
                _ => false,
            };
            if same {
                let k = self.sessions[i].0.clone();
                proof {
                    assert(key_views(out@.push(k)) =~= key_views(out@).push(key_view(k)));
                    assert(s.take(i as int).filter(pred).push(s[i as int]).map_values(
                        |e: (KeyView, bool)| e.0,
                    ) =~= s.take(i as int).filter(pred).map_values(|e: (KeyView, bool)| e.0).push(s[i as int].0));
                }
                out.push(k);
            }
            i += 1;
        }
        proof {
            assert(s.take(s.len() as int) =~= s);
        }
        out
    }
}


/// After sessions shut down, the table knows none of them and no document
/// lists any of them.
pub proof fn law_shutdown_forgets_sessions(
    sessions: Seq<(KeyView, bool)>,
    keys: Seq<KeyView>,
    tracking: Seq<KeyView>,
    k: KeyView,
)
    requires
        keys.contains(k),
    ensures
        session_state(sessions.filter(dropping(keys, false)), k) is None,
        !tracking.filter(without_keys(keys)).contains(k),
{
    broadcast use vstd::seq_lib::group_filter_ensures;
    let f = sessions.filter(dropping(keys, false));
    assert forall|j: int| 0 <= j < f.len() implies #[trigger] f[j].0 != k by {
        assert(dropping(keys, false)(f[j]));
    }
    lemma_entry_index(f, k, f.len() as int);
    let g = tracking.filter(without_keys(keys));
    if g.contains(k) {
        let j = choose|j: int| 0 <= j < g.len() && g[j] == k;
        assert(without_keys(keys)(g[j]));
    }
}


proof fn lemma_filter_congruent<A>(s: Seq<A>, p1: spec_fn(A) -> bool, p2: spec_fn(A) -> bool)
    requires
        forall|j: int| 0 <= j < s.len() ==> p1(#[trigger] s[j]) == p2(s[j]),
    ensures
        s.filter(p1) == s.filter(p2),
    decreases s.len(),
{
    reveal(Seq::filter);
    if s.len() > 0 {
        lemma_filter_congruent(s.drop_last(), p1, p2);
        assert(p1(s[s.len() - 1]) == p2(s[s.len() - 1]));
    }
}

pub open spec fn live_view(l: LspLiveSession) -> KeyView {
    (l.server_id@, opt_view(l.root))
}

pub open spec fn live_views(s: Seq<LspLiveSession>) -> Seq<KeyView> {
    s.map_values(|l: LspLiveSession| live_view(l))
}

/// The documents session `k` tracks.
pub open spec fn paths_of(served: Seq<(Seq<char>, Seq<KeyView>)>, k: KeyView) -> Seq<Seq<char>> {
    served.filter(|e: (Seq<char>, Seq<KeyView>)| e.1.contains(k)).map_values(|e: (Seq<char>, Seq<KeyView>)| e.0)
}

/// Keeps the connected sessions.
pub open spec fn connected() -> spec_fn((KeyView, bool)) -> bool {
    |e: (KeyView, bool)| !e.1
}

impl SessionTable {
    /// The live sessions in scope of the active workspace, in key order:
    /// those serving an open buffer, or rooted at or under the project
    /// workspace root. Disconnected sessions leave the table.
    pub fn live_sessions_for_workspace(
        &mut self,
        open_buffer_paths: &[String],
        project_workspace_root: Option<&str>,
    ) -> (r: Vec<LspLiveSession>)
        requires
            old(self).wf(),
        ensures
            final(self).wf(),
            final(self).style == old(self).style,
            final(self).served_model() == old(self).served_model(),
            final(self).sessions_model() == old(self).sessions_model().filter(connected()),
            keys_sorted(live_views(r@)),
            forall|k: KeyView|
                #[trigger] live_views(r@).contains(k) <==> (old(self).state_of(k)
                    == Some(false) && in_scope_spec(
                    k.1,
                    paths_of(old(self).served_model(), k),
                    views(open_buffer_paths@),
                    opt_str(project_workspace_root),
                    old(self).style,
                )),
    {
        let ghost s = self.sessions_model();
        let ghost inscope = |k: KeyView| in_scope_spec(
            k.1,
            paths_of(old(self).served_model(), k),
            views(open_buffer_paths@),
            opt_str(project_workspace_root),
            old(self).style,
        );
        let mut found: Vec<SessionKey> = Vec::new();
        let mut stale: Vec<SessionKey> = Vec::new();
        let mut i: usize = 0;
        proof {
            assert(key_views(found@) =~= Seq::<KeyView>::empty());
        }
        while i < self.sessions.len()
            invariant
                *self == *old(self),
                s == self.sessions_model(),
                s.len() == self.sessions@.len(),
                entry_keys_unique(s),
                i <= self.sessions@.len(),
                inscope == (|k: KeyView| in_scope_spec(
                    k.1,
                    paths_of(old(self).served_model(), k),
                    views(open_buffer_paths@),
                    opt_str(project_workspace_root),
                    old(self).style,
                )),
                keys_sorted(key_views(found@)),
                forall|k: KeyView|
                    #[trigger] key_views(found@).contains(k) <==> (exists|j: int|
                        0 <= j < i && s[j].0 == k && !s[j].1 && inscope(k)),
                forall|j: int| 0 <= j < i && s[j].1 ==> #[trigger] key_views(stale@).contains(s[j].0),
                forall|k: KeyView| #[trigger] key_views(stale@).contains(k) ==> (exists|j: int| 0 <= j < s.len() && s[j].0 == k && s[j].1),
            decreases self.sessions@.len() - i,
        {
            let ghost e = s[i as int];
            proof {
                assert(e == (key_view(self.sessions@[i as int].0), self.sessions@[i as int].1));
            }
            if self.sessions[i].1 {
                let c = self.sessions[i].0.clone();
                let ghost sv = key_views(stale@);
                stale.push(c);
                proof {
                    let sv2 = key_views(stale@);
                    assert(sv2 =~= sv.push(e.0));
                    assert(sv2[sv.len() as int] == e.0);
                    assert forall|j: int| 0 <= j < i + 1 && s[j].1 implies #[trigger] sv2.contains(s[j].0) by {
                        if j < i {
                            assert(sv.contains(s[j].0));
                            let x = choose|x: int| 0 <= x < sv.len() && sv[x] == s[j].0;
                            assert(sv2[x] == s[j].0);
                        }
                    }
                    assert forall|k: KeyView| #[trigger] sv2.contains(k) implies (exists|j: int|
                        0 <= j < s.len() && s[j].0 == k && s[j].1) by {
                        let x = choose|x: int| 0 <= x < sv2.len() && sv2[x] == k;
                        if x < sv.len() {
                            assert(sv[x] == k);
                            assert(sv.contains(k));
                        } else {
                            assert(s[i as int].0 == k && s[i as int].1);
                        }
                    }
                }
            } else {
                let key = &self.sessions[i].0;
                let paths = self.paths_tracking(key);
                let root = match &key.root {
                    Some(r) => Some(r.as_str()),
                    None => None,
                };
                proof {
                    assert(opt_str(root) == key_view(*key).1);
                }
                let in_scope = language_server_session_in_workspace_scope_in_style(
                    root,
                    paths.as_slice(),
                    open_buffer_paths,
                    project_workspace_root,
                    self.style,
                );
                if in_scope {
                    let ghost before = key_views(found@);
                    found = insert_key_sorted(&found, key);
                    proof {
                        assert forall|k: KeyView| #[trigger] key_views(found@).contains(k) <==> (exists|j: int|
                            0 <= j < i + 1 && s[j].0 == k && !s[j].1 && inscope(k)) by {
                            if k == e.0 {
                                assert(s[i as int].0 == k && !s[i as int].1 && inscope(k));
                            } else if key_views(found@).contains(k) {
                                assert(before.contains(k));
                            } else if exists|j: int| 0 <= j < i + 1 && s[j].0 == k && !s[j].1 && inscope(k) {
                                let j = choose|j: int| 0 <= j < i + 1 && s[j].0 == k && !s[j].1 && inscope(k);
                                assert(j < i);
                            }
                        }
                    }
                } else {
                    proof {
                        assert forall|k: KeyView| #[trigger] key_views(found@).contains(k) <==> (exists|j: int|
                            0 <= j < i + 1 && s[j].0 == k && !s[j].1 && inscope(k)) by {
                            if exists|j: int| 0 <= j < i + 1 && s[j].0 == k && !s[j].1 && inscope(k) {
                                let j = choose|j: int| 0 <= j < i + 1 && s[j].0 == k && !s[j].1 && inscope(k);
                                if j == i {
                                    assert(!inscope(e.0));
                                }
                            }
                        }
                    }
                }
            }
            i += 1;
        }
        let ghost fk = key_views(found@);
        self.retain_sessions(&stale, true);
        proof {
            lemma_filter_congruent(s, dropping(key_views(stale@), true), connected());
            assert forall|k: KeyView| #[trigger] fk.contains(k) <==> (session_state(s, k) == Some(false) && inscope(k)) by {
                lemma_entry_index_props(s, k);
                if fk.contains(k) {
                    let j = choose|j: int| 0 <= j < s.len() && s[j].0 == k && !s[j].1 && inscope(k);
                    lemma_entry_index(s, k, j);
                }
                if session_state(s, k) == Some(false) && inscope(k) {
                    let j = entry_index(s, k);
                    assert(s[j].0 == k && !s[j].1);
                }
            }
        }
        let mut out: Vec<LspLiveSession> = Vec::new();
        let mut m: usize = 0;
        while m < found.len()
            invariant
                m <= found@.len(),
                fk == key_views(found@),
                live_views(out@) == fk.take(m as int),
            decreases found@.len() - m,
        {
            let l = LspLiveSession {
                server_id: owned(found[m].server_id.as_str()),
                root: match &found[m].root {
                    Some(r) => Some(owned(r.as_str())),
                    None => None,
                },
            };
            proof {
                assert(live_views(out@.push(l)) =~= live_views(out@).push(live_view(l)));
                assert(fk.take(m + 1) =~= fk.take(m as int).push(fk[m as int]));
            }
            out.push(l);
            m += 1;
        }
        proof {
            assert(fk.take(fk.len() as int) =~= fk);
        }
        out
    }
}


/// The value stored for key `k`, if any.
pub open spec fn stored_value(s: Seq<(KeyView, Json)>, k: KeyView) -> Option<Json> {
    let i = entry_index(s, k);
    if i < s.len() {
        Some(s[i].1)
    } else {
        None
    }
}

/// Per-session overrides (of settings, or of initialization options).
pub struct OverrideTable {
    pub entries: Vec<(SessionKey, JsonValue)>,
}

impl OverrideTable {
    pub open spec fn model(&self) -> Seq<(KeyView, Json)> {
        self.entries@.map_values(|e: (SessionKey, JsonValue)| (key_view(e.0), e.1.model()))
    }

    pub open spec fn wf(&self) -> bool {
        entry_keys_unique(self.model())
    }

    pub open spec fn value_of(&self, k: KeyView) -> Option<Json> {
        stored_value(self.model(), k)
    }

    pub fn new() -> (r: Self)
        ensures
            r.wf(),
            r.model().len() == 0,
            forall|k: KeyView| #[trigger] r.value_of(k) is None,
    {
        let r = OverrideTable { entries: Vec::new() };
        proof {
            assert(r.model() =~= Seq::empty());
        }
        r
    }

    fn find(&self, key: &SessionKey) -> (r: usize)
        ensures
            r == entry_index(self.model(), key_view(*key)),
            r <= self.entries@.len(),
    {
        let ghost s = self.model();
        let mut i: usize = 0;
        while i < self.entries.len()
            invariant
                s == self.model(),
                s.len() == self.entries@.len(),
                i <= self.entries@.len(),
                forall|j: int| 0 <= j < i ==> #[trigger] s[j].0 != key_view(*key),
            decreases self.entries@.len() - i,
        {
            if self.entries[i].0.same_as(key) {
                proof {
                    lemma_entry_index(s, key_view(*key), i as int);
                }
                return i;
            }
            i += 1;
        }
        proof {
            lemma_entry_index(s, key_view(*key), i as int);
        }
        i
    }

    /// The override of session `key`.
    pub fn get(&self, key: &SessionKey) -> (r: Option<JsonValue>)
        ensures
            json_opt_model(r) == self.value_of(key_view(*key)),
    {
        let i = self.find(key);
        if i < self.entries.len() {
            Some(self.entries[i].1.clone())
        } else {
            None
        }
    }

    /// Sets (or, with `None`, clears) the override of `key`; says whether
    /// anything changed. Nothing changes when the value is the same.
    pub fn replace(&mut self, key: &SessionKey, updated: Option<JsonValue>) -> (r: bool)
        requires
            old(self).wf(),
        ensures
            final(self).wf(),
            r == (old(self).value_of(key_view(*key)) != json_opt_model(updated)),
            final(self).value_of(key_view(*key)) == json_opt_model(updated),
            forall|k: KeyView| k != key_view(*key) ==> #[trigger] final(self).value_of(k) == old(self).value_of(k),
    {
        let ghost s = self.model();
        let ghost kv = key_view(*key);
        let i = self.find(key);
        proof {
            lemma_entry_index_props(s, kv);
        }
        let same = if i < self.entries.len() {
            match &updated {
                Some(v) => json_equal(&self.entries[i].1, v),
                None => false,
            }
        } else {
            updated.is_none()
        };
        if same {
            return false;
        }
        match updated {
            Some(v) => {
                let ghost vm = v.model();
                if i < self.entries.len() {
                    self.entries.set(i, (key.clone(), v));
                    proof {
                        let s2 = self.model();
                        assert(s2 =~= s.update(i as int, (kv, vm)));
                        lemma_entry_index(s2, kv, i as int);
                        assert forall|k: KeyView| k != kv implies #[trigger] stored_value(s2, k) == stored_value(s, k) by {
                            lemma_entry_index_props(s, k);
                            lemma_entry_index(s2, k, entry_index(s, k));
                        }
                    }
                } else {
                    self.entries.push((key.clone(), v));
                    proof {
                        let s2 = self.model();
                        assert(s2 =~= s.push((kv, vm)));
                        lemma_entry_index(s2, kv, s.len() as int);
                        assert forall|k: KeyView| k != kv implies #[trigger] stored_value(s2, k) == stored_value(s, k) by {
                            lemma_entry_index_props(s, k);
                            let j = entry_index(s, k);
                            if j < s.len() {
                                lemma_entry_index(s2, k, j);
                            } else {
                                lemma_entry_index(s2, k, s2.len() as int);
                            }
                        }
                    }
                }
            },
            None => {
                self.entries.remove(i);
                proof {
                    let s2 = self.model();
                    assert(s2 =~= s.remove(i as int));
                    assert forall|j: int| 0 <= j < s2.len() implies #[trigger] s2[j].0 != kv by {
                        let j0 = if j < i { j } else { j + 1 };
                        assert(s2[j] == s[j0]);
                        if j0 > i {
                            assert(s[i as int].0 != s[j0].0);
                        }
                    }
                    lemma_entry_index(s2, kv, s2.len() as int);
                    assert forall|k: KeyView| k != kv implies #[trigger] stored_value(s2, k) == stored_value(s, k) by {
                        lemma_entry_index_props(s, k);
                        let j = entry_index(s, k);
                        if j < i {
                            lemma_entry_index(s2, k, j);
                        } else if j < s.len() {
                            assert(j != i);
                            lemma_entry_index(s2, k, j - 1);
                        } else {
                            lemma_entry_index(s2, k, s2.len() as int);
                        }
                    }
                }
            },
        }
        proof {
            let s2 = self.model();
            assert forall|a: int, b: int| 0 <= a < b < s2.len() implies #[trigger] s2[a].0 != #[trigger] s2[b].0 by {
                lemma_entry_index_props(s2, s2[a].0);
            }
        }
        true
    }
}


impl OverrideTable {
    /// Whether the settings override of `key`, as the session sees it under
    /// `section`, is an object with member `name`.
    pub fn settings_contain_key(&self, key: &SessionKey, section: Option<&str>, name: &str) -> (r: bool)
        ensures
            r == contains_key_spec(
                normalized_settings_spec(opt_str(section), self.value_of(key_view(*key))),
                name@,
            ),
    {
        let settings = self.get(key);
        let normalized = normalized_workspace_configuration_settings(section, settings);
        let r = match &normalized {
            Some(v) => settings_contains_key(Some(v), name),
            None => settings_contains_key(None, name),
        };
        r
    }
}


/// What the session manager does with one planned session while it
/// ensures sessions for a document.
#[derive(Debug, Clone, Copy, PartialEq, Eq, Structural)]
pub enum EnsureAction {
    /// The session is running (or known): use it.
    Reuse,
    /// Already handled, or its start failed before: leave it.
    Skip,
    /// Start the session, then record the outcome.
    Start,
}

/// The keys without `k`.
pub open spec fn without_key(k: KeyView) -> spec_fn(KeyView) -> bool {
    |x: KeyView| x != k
}

/// Removes every copy of `key`, keeping the order of the rest.
pub fn remove_key(keys: &mut Vec<SessionKey>, key: &SessionKey)
    ensures
        key_views(final(keys)@) == key_views(old(keys)@).filter(without_key(key_view(*key))),
{
    let ghost ks = key_views(keys@);
    let ghost pred = without_key(key_view(*key));
    let mut kept: Vec<SessionKey> = Vec::new();
    let mut i: usize = 0;
    proof {
        reveal(Seq::filter);
        assert(ks.take(0) =~= Seq::<KeyView>::empty());
        assert(key_views(kept@) =~= ks.take(0).filter(pred));
    }
    while i < keys.len()
        invariant
            ks == key_views(keys@),
            ks.len() == keys@.len(),
            pred == without_key(key_view(*key)),
            i <= keys@.len(),
            key_views(kept@) == ks.take(i as int).filter(pred),
        decreases keys@.len() - i,
    {
        proof {
            assert(ks.take(i + 1) =~= ks.take(i as int).push(ks[i as int]));
            lemma_filter_push(ks.take(i as int), ks[i as int], pred);
        }
        if !keys[i].same_as(key) {
            let k = keys[i].clone();
            proof {
                assert(key_views(kept@.push(k)) =~= key_views(kept@).push(key_view(k)));
            }
            kept.push(k);
        }
        i += 1;
    }
    proof {
        assert(ks.take(ks.len() as int) =~= ks);
    }
    *keys = kept;
}

impl SessionTable {
    /// Decides what to do with the planned session `key`. A key already
    /// handled is skipped. With `force_retry`, a recorded start failure of the
    /// key is forgotten and a disconnected session of it is dropped. Then a
    /// known session is reused (and the key counts as handled), a key whose
    /// start failed is skipped, and any other is to be started.
    pub fn ensure_step(
        &mut self,
        failures: &mut Vec<SessionKey>,
        handled: &mut Vec<SessionKey>,
        key: &SessionKey,
        force_retry: bool,
    ) -> (r: EnsureAction)
        requires
            old(self).wf(),
        ensures
            final(self).wf(),
            final(self).style == old(self).style,
            final(self).served_model() == old(self).served_model(),
            key_views(old(handled)@).contains(key_view(*key)) ==> {
                &&& r == EnsureAction::Skip
                &&& final(self).sessions_model() == old(self).sessions_model()
                &&& final(failures)@ == old(failures)@
                &&& final(handled)@ == old(handled)@
            },
            !key_views(old(handled)@).contains(key_view(*key)) ==> {
                &&& final(self).sessions_model() == if force_retry {
                    old(self).sessions_model().filter(dropping(seq![key_view(*key)], true))
                } else {
                    old(self).sessions_model()
                }
                &&& key_views(final(failures)@) == if force_retry {
                    key_views(old(failures)@).filter(without_key(key_view(*key)))
                } else {
                    key_views(old(failures)@)
                }
                &&& r == if final(self).state_of(key_view(*key)) is Some {
                    EnsureAction::Reuse
                } else if key_views(final(failures)@).contains(key_view(*key)) {
                    EnsureAction::Skip
                } else {
                    EnsureAction::Start
                }
                &&& key_views(final(handled)@) == if r == EnsureAction::Reuse {
                    key_views(old(handled)@).push(key_view(*key))
                } else {
                    key_views(old(handled)@)
                }
            },
    {
        if keys_contain(handled, key) {
            return EnsureAction::Skip;
        }
        if force_retry {
            remove_key(failures, key);
            let mut drop: Vec<SessionKey> = Vec::new();
            drop.push(key.clone());
            proof {
                assert(key_views(drop@) =~= seq![key_view(*key)]);
            }
            self.retain_sessions(&drop, true);
        }
        if self.session_state(key).is_some() {
            let k = key.clone();
            proof {
                assert(key_views(handled@.push(k)) =~= key_views(handled@).push(key_view(k)));
            }
            handled.push(k);
            EnsureAction::Reuse
        } else if keys_contain(failures, key) {
            EnsureAction::Skip
        } else {
            EnsureAction::Start
        }
    }

    /// Records how starting the session `key` went: a started session is
    /// known and live and counts as handled; a failed start is remembered
    /// (once). Returns whether the failure ends the request, which it does
    /// when the caller asked for that server in particular.
    pub fn record_start_outcome(
        &mut self,
        failures: &mut Vec<SessionKey>,
        handled: &mut Vec<SessionKey>,
        key: &SessionKey,
        started: bool,
        preferred: bool,
    ) -> (r: bool)
        requires
            old(self).wf(),
        ensures
            final(self).wf(),
            final(self).style == old(self).style,
            final(self).served_model() == old(self).served_model(),
            r == (!started && preferred),
            started ==> {
                &&& final(self).state_of(key_view(*key)) == Some(false)
                &&& forall|k: KeyView| k != key_view(*key) ==> #[trigger] final(self).state_of(k) == old(self).state_of(k)
                &&& key_views(final(handled)@) == key_views(old(handled)@).push(key_view(*key))
                &&& final(failures)@ == old(failures)@
            },
            !started ==> {
                &&& final(self).sessions_model() == old(self).sessions_model()
                &&& final(handled)@ == old(handled)@
                &&& key_views(final(failures)@) == if key_views(old(failures)@).contains(key_view(*key)) {
                    key_views(old(failures)@)
                } else {
                    key_views(old(failures)@).push(key_view(*key))
                }
            },
    {
        if started {
            self.insert_session(key.clone());
            let k = key.clone();
            proof {
                assert(key_views(handled@.push(k)) =~= key_views(handled@).push(key_view(k)));
            }
            handled.push(k);
            false
        } else {
            if !keys_contain(failures, key) {
                let k = key.clone();
                proof {
                    assert(key_views(failures@.push(k)) =~= key_views(failures@).push(key_view(k)));
                }
                failures.push(k);
            }
            preferred
        }
    }
}


/// The server ids of the live sessions tracking document `p`.
pub open spec fn live_server_ids(t: SessionTable, p: Seq<char>) -> Seq<Seq<char>> {
    t.keys_of(p).filter(|k: KeyView| t.state_of(k) == Some(false)).map_values(|k: KeyView| k.0)
}

impl SessionTable {
    /// The labels of the sessions serving `path`: the server ids of its
    /// live sessions, sorted, each once. Disconnected sessions among its
    /// keys are dropped from the table, as `tracked_sessions_for_path` does.
    pub fn session_labels_for_path(&mut self, path: &str) -> (r: Vec<String>)
        requires
            old(self).wf(),
        ensures
            final(self).wf(),
            final(self).style == old(self).style,
            final(self).served_model() == old(self).served_model(),
            final(self).sessions_model() == old(self).sessions_model().filter(
                |e: (KeyView, bool)| !(e.1 && old(self).keys_of(path@).contains(e.0)),
            ),
            strictly_sorted(views(r@)),
            forall|x: Seq<char>| views(r@).contains(x) <==> live_server_ids(*old(self), path@).contains(x),
    {
        let keys = self.tracked_sessions_for_path(path);
        let ghost kv = key_views(keys@);
        let mut ids: Vec<String> = Vec::new();
        let mut i: usize = 0;
        while i < keys.len()
            invariant
                kv == key_views(keys@),
                i <= keys@.len(),
                views(ids@) == kv.take(i as int).map_values(|k: KeyView| k.0),
            decreases keys@.len() - i,
        {
            let id = owned(keys[i].server_id.as_str());
            proof {
                assert(kv.take(i + 1).map_values(|k: KeyView| k.0) =~= kv.take(i as int).map_values(
                    |k: KeyView| k.0,
                ).push(kv[i as int].0));
                assert(views(ids@.push(id)) =~= views(ids@).push(id@));
            }
            ids.push(id);
            i += 1;
        }
        proof {
            assert(kv.take(kv.len() as int) =~= kv);
        }
        sorted_unique_strings(&ids)
    }

    /// Whether a live session serves `path` (dropping the disconnected ones
    /// among its keys, as `tracked_sessions_for_path` does).
    pub fn has_live_sessions_for_path(&mut self, path: &str) -> (r: bool)
        requires
            old(self).wf(),
        ensures
            final(self).wf(),
            final(self).style == old(self).style,
            final(self).served_model() == old(self).served_model(),
            final(self).sessions_model() == old(self).sessions_model().filter(
                |e: (KeyView, bool)| !(e.1 && old(self).keys_of(path@).contains(e.0)),
            ),
            r == (live_server_ids(*old(self), path@).len() > 0),
    {
        let keys = self.tracked_sessions_for_path(path);
        keys.len() > 0
    }
}

} // verus!
