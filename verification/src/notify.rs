//! Notifications derived from server traffic: session lifecycle updates,
//! work-done progress (with the per-token progress tracks it keeps),
//! `window/showMessage` errors, Copilot status errors and `showDocument`
//! browser requests.
use vstd::prelude::*;
use crate::json::{Json, JsonValue, get_opt, str_opt, u64_opt, model_opt};
use crate::logs::{
    ActionModel, LspNotification, LspNotificationAction, LspNotificationEntry, LspNotificationLevel,
    LspNotificationLog, LspNotificationProgress, NotificationModel, keep_last, saturating_inc,
};
use crate::strings::{
    chars_of, concat2, contains_chars, contains_spec, decimal, is_blank, lower_chars,
    lower_spec, owned, push_char, str_eq, string_of, trim_chars, trim_spec, trimmed,
    u64_decimal, starts_with_str, occurs_at,
};
use crate::types::{clone_opt_string, opt_view, views};

verus! {

/// View of an optional string slice.
pub open spec fn opt_str(o: Option<&str>) -> Option<Seq<char>> {
    match o {
        Some(s) => Some(s@),
        None => None,
    }
}

/// The root part of notification keys: the root path, or `global`.
pub open spec fn root_key(root: Option<Seq<char>>) -> Seq<char> {
    match root {
        Some(r) => r,
        None => "global"@,
    }
}

/// Title of every notification from a server.
pub open spec fn title_for(server_id: Seq<char>) -> Seq<char> {
    "LSP · "@ + server_id
}

pub open spec fn session_key_spec(server_id: Seq<char>, root: Option<Seq<char>>) -> Seq<char> {
    "session:"@ + server_id + ":"@ + root_key(root)
}

pub open spec fn progress_key_spec(server_id: Seq<char>, root: Option<Seq<char>>, token: Seq<char>) -> Seq<char> {
    "progress:"@ + server_id + ":"@ + root_key(root) + ":"@ + token
}

pub open spec fn status_key_spec(server_id: Seq<char>, root: Option<Seq<char>>) -> Seq<char> {
    "status:"@ + server_id + ":"@ + root_key(root)
}

/// `lines` followed by the root path, when there is one.
pub open spec fn with_root(lines: Seq<Seq<char>>, root: Option<Seq<char>>) -> Seq<Seq<char>> {
    match root {
        Some(r) => lines.push(r),
        None => lines,
    }
}

pub fn notification_root_key(root: Option<&str>) -> (r: String)
    ensures
        r@ == root_key(opt_str(root)),
{
    match root {
        Some(root) => owned(root),
        None => owned("global"),
    }
}

fn join_key(prefix: &str, parts: &[&str]) -> (r: String)
    ensures
        r@ == prefix@ + join_colon(parts@),
{
    let mut r = owned(prefix);
    let mut i: usize = 0;
    while i < parts.len()
        invariant
            i <= parts@.len(),
            r@ == prefix@ + join_colon(parts@.take(i as int)),
        decreases parts@.len() - i,
    {
        if i > 0 {
            r.append(":");
        }
        r.append(parts[i]);
        proof {
            assert(parts@.take(i + 1).drop_last() =~= parts@.take(i as int));
        }
        i += 1;
    }
    proof {
        assert(parts@.take(parts@.len() as int) =~= parts@);
    }
    r
}

/// The parts joined by `:`.
pub open spec fn join_colon(parts: Seq<&str>) -> Seq<char>
    decreases parts.len(),
{
    if parts.len() == 0 {
        Seq::empty()
    } else if parts.len() == 1 {
        parts[0]@
    } else {
        join_colon(parts.drop_last()) + ":"@ + parts.last()@
    }
}

pub fn session_notification_key(server_id: &str, root: Option<&str>) -> (r: String)
    ensures
        r@ == session_key_spec(server_id@, opt_str(root)),
{
    let root_key = notification_root_key(root);
    let r = join_key("session:", &[server_id, root_key.as_str()]);
    proof {
        reveal_with_fuel(join_colon, 3);
    }
    r
}

pub fn progress_notification_key(server_id: &str, root: Option<&str>, token: &str) -> (r: String)
    ensures
        r@ == progress_key_spec(server_id@, opt_str(root), token@),
{
    let root_key = notification_root_key(root);
    let r = join_key("progress:", &[server_id, root_key.as_str(), token]);
    proof {
        reveal_with_fuel(join_colon, 4);
    }
    r
}

pub fn status_notification_key(server_id: &str, root: Option<&str>) -> (r: String)
    ensures
        r@ == status_key_spec(server_id@, opt_str(root)),
{
    let root_key = notification_root_key(root);
    let r = join_key("status:", &[server_id, root_key.as_str()]);
    proof {
        reveal_with_fuel(join_colon, 3);
    }
    r
}

pub fn notification_title(server_id: &str) -> (r: String)
    ensures
        r@ == title_for(server_id@),
{
    concat2("LSP · ", server_id)
}

/// The lines that are not blank, in order.
pub open spec fn keep_nonblank(s: Seq<Seq<char>>) -> Seq<Seq<char>>
    decreases s.len(),
{
    if s.len() == 0 {
        s
    } else {
        let r = keep_nonblank(s.drop_last());
        if trim_spec(s.last()).len() > 0 {
            r.push(s.last())
        } else {
            r
        }
    }
}

pub proof fn lemma_views_push(v: Seq<String>, x: String)
    ensures
        views(v.push(x)) == views(v).push(x@),
{
    assert(views(v.push(x)) =~= views(v).push(x@));
}

pub proof fn lemma_views_take(v: Seq<String>, i: int)
    requires
        0 <= i < v.len(),
    ensures
        views(v).take(i + 1).drop_last() == views(v).take(i),
        views(v).take(i + 1).last() == v[i]@,
{
    assert(views(v).take(i + 1).drop_last() =~= views(v).take(i));
}

/// The non-blank lines of `lines`.
pub fn nonblank_lines(lines: &Vec<String>) -> (r: Vec<String>)
    ensures
        views(r@) == keep_nonblank(views(lines@)),
{
    let mut r: Vec<String> = Vec::new();
    let mut i: usize = 0;
    while i < lines.len()
        invariant
            i <= lines@.len(),
            views(r@) == keep_nonblank(views(lines@).take(i as int)),
        decreases lines@.len() - i,
    {
        proof {
            lemma_views_take(lines@, i as int);
        }
        if !is_blank(lines[i].as_str()) {
            let line = lines[i].clone();
            proof {
                lemma_views_push(r@, line);
            }
            r.push(line);
        }
        i += 1;
    }
    proof {
        assert(views(lines@).take(lines@.len() as int) =~= views(lines@));
    }
    r
}

/// Appends the root path to `lines` when there is one.
pub fn push_root(lines: &mut Vec<String>, root: Option<&str>)
    ensures
        views(final(lines)@) == with_root(views(old(lines)@), opt_str(root)),
{
    match root {
        Some(root) => {
            let s = owned(root);
            proof {
                lemma_views_push(lines@, s);
            }
            lines.push(s);
        },
        None => {},
    }
}

/// The notification that reports a session's lifecycle.
pub open spec fn lifecycle_spec(
    server_id: Seq<char>,
    root: Option<Seq<char>>,
    level: LspNotificationLevel,
    body_lines: Seq<Seq<char>>,
    active: bool,
) -> NotificationModel {
    NotificationModel {
        key: session_key_spec(server_id, root),
        server_id,
        root,
        level,
        title: title_for(server_id),
        body_lines: with_root(keep_nonblank(body_lines), root),
        progress: None,
        active,
        action: None,
    }
}

/// A session lifecycle notification: the non-blank body lines followed by the
/// root path.
pub fn session_lifecycle_notification(
    server_id: &str,
    root: Option<&str>,
    level: LspNotificationLevel,
    body_lines: Vec<String>,
    active: bool,
) -> (r: LspNotification)
    ensures
        r.model() == lifecycle_spec(server_id@, opt_str(root), level, views(body_lines@), active),
{
    let mut lines = nonblank_lines(&body_lines);
    push_root(&mut lines, root);
    LspNotification {
        key: session_notification_key(server_id, root),
        server_id: owned(server_id),
        root: match root {
            Some(r) => Some(owned(r)),
            None => None,
        },
        level,
        title: notification_title(server_id),
        body_lines: lines,
        progress: None,
        active,
        action: None,
    }
}

// ---------------------------------------------------------------------------
// Work-done progress
// ---------------------------------------------------------------------------

/// Title, message and percentage last reported for one progress token.
#[derive(Debug)]
pub struct ProgressTrack {
    pub title: Option<String>,
    pub message: Option<String>,
    pub percentage: Option<u32>,
}

/// View of a progress track.
pub struct TrackModel {
    pub title: Option<Seq<char>>,
    pub message: Option<Seq<char>>,
    pub percentage: Option<u32>,
}

pub open spec fn empty_track() -> TrackModel {
    TrackModel { title: None, message: None, percentage: None }
}

impl ProgressTrack {
    pub open spec fn model(&self) -> TrackModel {
        TrackModel {
            title: opt_view(self.title),
            message: opt_view(self.message),
            percentage: self.percentage,
        }
    }

    pub fn empty() -> (r: Self)
        ensures
            r.model() == empty_track(),
    {
        ProgressTrack { title: None, message: None, percentage: None }
    }

    pub fn copy(&self) -> (r: Self)
        ensures
            r.model() == self.model(),
    {
        ProgressTrack {
            title: clone_opt_string(&self.title),
            message: clone_opt_string(&self.message),
            percentage: self.percentage,
        }
    }
}

/// Progress tracks by token: an association list with at most one entry per
/// token.
#[derive(Debug)]
pub struct ProgressTracks {
    pub entries: Vec<(String, ProgressTrack)>,
}

/// View of the tracks: tokens and track views, in insertion order.
pub type TracksModel = Seq<(Seq<char>, TrackModel)>;

/// Index of the entry for `token`.
pub open spec fn track_index(m: TracksModel, token: Seq<char>) -> Option<int> {
    if exists|i: int| 0 <= i < m.len() && m[i].0 == token {
        Some(choose|i: int| 0 <= i < m.len() && m[i].0 == token)
    } else {
        None
    }
}

/// Whether each token occurs at most once.
pub open spec fn tokens_unique(m: TracksModel) -> bool {
    forall|i: int, j: int| 0 <= i < j < m.len() ==> m[i].0 != m[j].0
}

/// The track of `token`.
pub open spec fn track_lookup(m: TracksModel, token: Seq<char>) -> Option<TrackModel> {
    match track_index(m, token) {
        Some(i) => Some(m[i].1),
        None => None,
    }
}

/// Sets the track of `token`, in place when it has one.
pub open spec fn track_put(m: TracksModel, token: Seq<char>, t: TrackModel) -> TracksModel {
    match track_index(m, token) {
        Some(i) => m.update(i, (token, t)),
        None => m.push((token, t)),
    }
}

/// Removes the track of `token`.
pub open spec fn track_take(m: TracksModel, token: Seq<char>) -> TracksModel {
    match track_index(m, token) {
        Some(i) => m.remove(i),
        None => m,
    }
}

proof fn lemma_track_index_at(m: TracksModel, token: Seq<char>, i: int)
    requires
        tokens_unique(m),
        0 <= i < m.len(),
        m[i].0 == token,
    ensures
        track_index(m, token) == Some(i),
{
    let c = choose|c: int| 0 <= c < m.len() && m[c].0 == token;
    if c < i {
        assert(m[c].0 != m[i].0);
    } else if c > i {
        assert(m[i].0 != m[c].0);
    }
}

proof fn lemma_track_index_none(m: TracksModel, token: Seq<char>)
    requires
        forall|j: int| 0 <= j < m.len() ==> #[trigger] m[j].0 != token,
    ensures
        track_index(m, token) is None,
{
}

proof fn lemma_not_found(m: TracksModel, token: Seq<char>)
    requires
        track_index(m, token) is None,
    ensures
        forall|j: int| 0 <= j < m.len() ==> #[trigger] m[j].0 != token,
{
    assert forall|j: int| 0 <= j < m.len() implies #[trigger] m[j].0 != token by {
        if m[j].0 == token {
            assert(exists|x: int| 0 <= x < m.len() && m[x].0 == token);
        }
    }
}

proof fn lemma_put_read_back(m: TracksModel, token: Seq<char>, t: TrackModel, other: Seq<char>)
    requires
        tokens_unique(m),
        other != token,
    ensures
        track_lookup(track_put(m, token, t), token) == Some(t),
        track_lookup(track_put(m, token, t), other) == track_lookup(m, other),
{
    let p = track_put(m, token, t);
    match track_index(m, token) {
        Some(i) => {
            assert(m[i].0 == token);
            assert(tokens_unique(p)) by {
                assert forall|a: int, b: int| 0 <= a < b < p.len() implies p[a].0 != p[b].0 by {
                    assert(p[a].0 == m[a].0 && p[b].0 == m[b].0);
                }
            }
            lemma_track_index_at(p, token, i);
        },
        None => {
            lemma_not_found(m, token);
            assert(tokens_unique(p)) by {
                assert forall|a: int, b: int| 0 <= a < b < p.len() implies p[a].0 != p[b].0 by {
                    assert(p[a] == m[a]);
                    if b < m.len() {
                        assert(p[b] == m[b]);
                    }
                }
            }
            lemma_track_index_at(p, token, m.len() as int);
        },
    }
    match track_index(m, other) {
        Some(k) => {
            assert(m[k].0 == other);
            assert(p[k].0 == other);
            lemma_track_index_at(p, other, k);
        },
        None => {
            lemma_not_found(m, other);
            assert forall|j: int| 0 <= j < p.len() implies #[trigger] p[j].0 != other by {
                if j < m.len() {
                    assert(p[j].0 == m[j].0 || p[j].0 == token);
                }
            }
            lemma_track_index_none(p, other);
        },
    }
}

proof fn lemma_take_read_back(m: TracksModel, token: Seq<char>, other: Seq<char>)
    requires
        tokens_unique(m),
        other != token,
    ensures
        track_lookup(track_take(m, token), token) is None,
        track_lookup(track_take(m, token), other) == track_lookup(m, other),
{
    let q = track_take(m, token);
    match track_index(m, token) {
        Some(i) => {
            assert(m[i].0 == token);
            assert(tokens_unique(q)) by {
                assert forall|a: int, b: int| 0 <= a < b < q.len() implies q[a].0 != q[b].0 by {
                    let a0 = if a < i { a } else { a + 1 };
                    let b0 = if b < i { b } else { b + 1 };
                    assert(q[a] == m[a0] && q[b] == m[b0]);
                }
            }
            assert forall|j: int| 0 <= j < q.len() implies #[trigger] q[j].0 != token by {
                let j0 = if j < i { j } else { j + 1 };
                assert(q[j] == m[j0]);
                if j0 < i {
                    assert(m[j0].0 != m[i].0);
                } else {
                    assert(m[i].0 != m[j0].0);
                }
            }
            lemma_track_index_none(q, token);
            match track_index(m, other) {
                Some(k) => {
                    assert(m[k].0 == other);
                    let k0 = if k < i { k } else { k - 1 };
                    assert(q[k0] == m[k]);
                    lemma_track_index_at(q, other, k0);
                },
                None => {
                    lemma_not_found(m, other);
                    assert forall|j: int| 0 <= j < q.len() implies #[trigger] q[j].0 != other by {
                        let j0 = if j < i { j } else { j + 1 };
                        assert(q[j] == m[j0]);
                    }
                    lemma_track_index_none(q, other);
                },
            }
        },
        None => {
            lemma_not_found(m, token);
            lemma_track_index_none(q, token);
        },
    }
}

/// Progress tracks behave as a map from token to track: after a put, the
/// token reads back the track put; after a take, the token has none; other
/// tokens read as before either way.
pub proof fn law_progress_tracks_read_back(m: TracksModel, token: Seq<char>, t: TrackModel, other: Seq<char>)
    requires
        tokens_unique(m),
        other != token,
    ensures
        track_lookup(track_put(m, token, t), token) == Some(t),
        track_lookup(track_put(m, token, t), other) == track_lookup(m, other),
        track_lookup(track_take(m, token), token) is None,
        track_lookup(track_take(m, token), other) == track_lookup(m, other),
{
    lemma_put_read_back(m, token, t, other);
    lemma_take_read_back(m, token, other);
}

impl ProgressTracks {
    pub open spec fn model(&self) -> TracksModel {
        Seq::new(self.entries@.len(), |i: int| (self.entries@[i].0@, self.entries@[i].1.model()))
    }

    pub fn new() -> (r: Self)
        ensures
            r.model().len() == 0,
    {
        ProgressTracks { entries: Vec::new() }
    }

    pub fn len(&self) -> (r: usize)
        ensures
            r == self.model().len(),
    {
        self.entries.len()
    }

    fn find(&self, token: &str) -> (r: Option<usize>)
        ensures
            match r {
                Some(i) => i < self.model().len() && self.model()[i as int].0 == token@
                    && track_index(self.model(), token@) is Some,
                None => track_index(self.model(), token@) is None,
            },
            tokens_unique(self.model()) && r is Some ==> track_index(self.model(), token@) == Some(
                r->0 as int,
            ),
    {
        let ghost m = self.model();
        let mut i: usize = 0;
        while i < self.entries.len()
            invariant
                m == self.model(),
                i <= self.entries@.len(),
                forall|j: int| 0 <= j < i ==> m[j].0 != token@,
            decreases self.entries@.len() - i,
        {
            if str_eq(self.entries[i].0.as_str(), token) {
                proof {
                    assert(m[i as int].0 == token@);
                    if tokens_unique(m) {
                        let k = choose|k: int| 0 <= k < m.len() && m[k].0 == token@;
                        if k != i {
                            if k < i {
                            } else {
                            }
                        }
                    }
                }
                return Some(i);
            }
            i += 1;
        }
        None
    }

    /// The track of `token`, or an empty track.
    pub fn get_or_empty(&self, token: &str) -> (r: ProgressTrack)
        requires
            tokens_unique(self.model()),
        ensures
            r.model() == match track_lookup(self.model(), token@) {
                Some(t) => t,
                None => empty_track(),
            },
    {
        match self.find(token) {
            Some(i) => self.entries[i].1.copy(),
            None => ProgressTrack::empty(),
        }
    }

    /// Sets the track of `token`.
    pub fn put(&mut self, token: &str, track: ProgressTrack)
        requires
            tokens_unique(old(self).model()),
        ensures
            final(self).model() == track_put(old(self).model(), token@, track.model()),
            tokens_unique(final(self).model()),
    {
        let ghost m = self.model();
        let ghost tm = track.model();
        match self.find(token) {
            Some(i) => {
                self.entries.set(i, (owned(token), track));
                proof {
                    assert(self.model() =~= m.update(i as int, (token@, tm)));
                }
            },
            None => {
                self.entries.push((owned(token), track));
                proof {
                    assert(self.model() =~= m.push((token@, tm)));
                    assert forall|a: int, b: int| 0 <= a < b < self.model().len() implies self.model()[a].0
                        != self.model()[b].0 by {
                        if b == m.len() {
                            assert(m[a].0 != token@);
                        }
                    }
                }
            },
        }
    }

    /// Removes the track of `token` and returns it, or an empty track.
    pub fn take(&mut self, token: &str) -> (r: ProgressTrack)
        requires
            tokens_unique(old(self).model()),
        ensures
            final(self).model() == track_take(old(self).model(), token@),
            tokens_unique(final(self).model()),
            r.model() == match track_lookup(old(self).model(), token@) {
                Some(t) => t,
                None => empty_track(),
            },
    {
        let ghost m = self.model();
        match self.find(token) {
            Some(i) => {
                let (_, track) = self.entries.remove(i);
                proof {
                    assert(self.model() =~= m.remove(i as int));
                    assert forall|a: int, b: int| 0 <= a < b < self.model().len() implies self.model()[a].0
                        != self.model()[b].0 by {
                        if a < i && b >= i {
                            assert(self.model()[b] == m[b + 1]);
                        } else if a >= i {
                            assert(self.model()[a] == m[a + 1]);
                            assert(self.model()[b] == m[b + 1]);
                        }
                    }
                }
                track
            },
            None => ProgressTrack::empty(),
        }
    }
}

/// Token key: a string token as is, an unsigned token in decimal.
pub open spec fn token_key(v: Option<Json>) -> Option<Seq<char>> {
    match v {
        Some(Json::Str(s)) => Some(s),
        Some(j) => match j.as_u64() {
            Some(n) => Some(decimal(n as nat)),
            None => None,
        },
        None => None,
    }
}

/// A progress text field: absent stays absent; present becomes its trimmed
/// text when that is a non-empty string, and empty otherwise.
pub open spec fn progress_text(v: Option<Json>) -> Option<Option<Seq<char>>> {
    match v {
        Some(j) => Some(
            match j.as_str() {
                Some(s) => if trim_spec(s).len() > 0 {
                    Some(trim_spec(s))
                } else {
                    None
                },
                None => None,
            },
        ),
        None => None,
    }
}

/// A progress percentage field, capped at 100.
pub open spec fn progress_percentage(v: Option<Json>) -> Option<Option<u32>> {
    match v {
        Some(j) => Some(
            match j.as_u64() {
                Some(p) => Some((if p > 100 {
                    100u64
                } else {
                    p
                }) as u32),
                None => None,
            },
        ),
        None => None,
    }
}

pub open spec fn flatten<A>(o: Option<Option<A>>) -> Option<A> {
    match o {
        Some(Some(a)) => Some(a),
        _ => None,
    }
}

/// Body lines of a progress notification: the title, then the message when it
/// differs from the title, or `Working` when there is neither.
pub open spec fn progress_lines(t: TrackModel) -> Seq<Seq<char>> {
    let l1 = match t.title {
        Some(title) => seq![title],
        None => Seq::empty(),
    };
    let l2 = match t.message {
        Some(m) => if l1.len() == 0 || l1.last() != m {
            l1.push(m)
        } else {
            l1
        },
        None => l1,
    };
    if l2.len() == 0 {
        seq!["Working"@]
    } else {
        l2
    }
}

/// Level of a finished progress: an error when the final message mentions
/// failure or an error, a warning when it mentions a warning, success
/// otherwise.
pub open spec fn completion_level(message: Option<Seq<char>>) -> LspNotificationLevel {
    match message {
        None => LspNotificationLevel::Success,
        Some(m) => {
            let l = lower_spec(m);
            if contains_spec(l, "fail"@) || contains_spec(l, "error"@) {
                LspNotificationLevel::Error
            } else if contains_spec(l, "warn"@) {
                LspNotificationLevel::Warning
            } else {
                LspNotificationLevel::Success
            }
        },
    }
}

pub fn parse_progress_token_key(value: Option<&JsonValue>) -> (r: Option<String>)
    ensures
        opt_view(r) == token_key(model_opt(value)),
{
    let token = match value {
        Some(t) => t,
        None => return None,
    };
    if let Some(s) = token.as_str() {
        return Some(owned(s));
    }
    match token.as_u64() {
        Some(n) => Some(u64_decimal(n)),
        None => None,
    }
}

pub fn parse_optional_progress_text(value: Option<&JsonValue>) -> (r: Option<Option<String>>)
    ensures
        match r {
            Some(inner) => progress_text(model_opt(value)) == Some(opt_view(inner)),
            None => progress_text(model_opt(value)) is None,
        },
{
    match value {
        Some(v) => match v.as_str() {
            Some(s) => {
                let t = trimmed(s);
                if t.as_str().is_empty() {
                    Some(None)
                } else {
                    Some(Some(t))
                }
            },
            None => Some(None),
        },
        None => None,
    }
}

pub fn parse_progress_percentage(value: Option<&JsonValue>) -> (r: Option<Option<u32>>)
    ensures
        r == progress_percentage(model_opt(value)),
{
    match value {
        Some(v) => match v.as_u64() {
            Some(p) => {
                let capped: u64 = if p > 100 {
                    100
                } else {
                    p
                };
                Some(Some(capped as u32))
            },
            None => Some(None),
        },
        None => None,
    }
}

pub fn progress_body_lines(track: &ProgressTrack) -> (r: Vec<String>)
    ensures
        views(r@) == progress_lines(track.model()),
{
    let mut lines: Vec<String> = Vec::new();
    if let Some(title) = &track.title {
        lines.push(title.clone());
    }
    proof {
        assert(views(lines@) =~= match track.model().title {
            Some(title) => seq![title],
            None => Seq::<Seq<char>>::empty(),
        });
    }
    if let Some(message) = &track.message {
        let differs = if lines.len() == 0 {
            true
        } else {
            !str_eq(lines[lines.len() - 1].as_str(), message.as_str())
        };
        if differs {
            let m = message.clone();
            proof {
                lemma_views_push(lines@, m);
            }
            lines.push(m);
        }
    }
    if lines.len() == 0 {
        lines.push(owned("Working"));
        proof {
            assert(views(lines@) =~= seq!["Working"@]);
        }
    }
    lines
}

pub fn completion_level_for_message(message: Option<&str>) -> (r: LspNotificationLevel)
    ensures
        r == completion_level(opt_str(message)),
{
    let message = match message {
        Some(m) => m,
        None => return LspNotificationLevel::Success,
    };
    let normalized = lower_chars(message);
    let fail = chars_of("fail");
    let error = chars_of("error");
    let warn = chars_of("warn");
    if contains_chars(normalized.as_slice(), fail.as_slice()) || contains_chars(
        normalized.as_slice(),
        error.as_slice(),
    ) {
        LspNotificationLevel::Error
    } else if contains_chars(normalized.as_slice(), warn.as_slice()) {
        LspNotificationLevel::Warning
    } else {
        LspNotificationLevel::Success
    }
}

/// Applies an optional text update: present updates replace the field.
pub open spec fn apply_text(current: Option<Seq<char>>, update: Option<Option<Seq<char>>>) -> Option<Seq<char>> {
    match update {
        Some(v) => v,
        None => current,
    }
}

pub open spec fn apply_pct(current: Option<u32>, update: Option<Option<u32>>) -> Option<u32> {
    match update {
        Some(v) => v,
        None => current,
    }
}

/// A progress notification for `token` with the track's lines.
pub open spec fn progress_notification_spec(
    server_id: Seq<char>,
    root: Option<Seq<char>>,
    token: Seq<char>,
    level: LspNotificationLevel,
    t: TrackModel,
    progress: Option<LspNotificationProgress>,
    active: bool,
) -> NotificationModel {
    NotificationModel {
        key: progress_key_spec(server_id, root, token),
        server_id,
        root,
        level,
        title: title_for(server_id),
        body_lines: progress_lines(t),
        progress,
        active,
        action: None,
    }
}

/// The outcome of a `$/progress` message.
pub type ProgressOutcome = (Option<NotificationModel>, TracksModel);

/// `begin`: starts the token's track from the message's fields.
#[verifier::opaque]
pub open spec fn progress_begin(
    server_id: Seq<char>,
    root: Option<Seq<char>>,
    token: Seq<char>,
    value: Json,
    m: TracksModel,
) -> ProgressOutcome {
    let t = TrackModel {
        title: flatten(progress_text(value.get("title"@))),
        message: flatten(progress_text(value.get("message"@))),
        percentage: flatten(progress_percentage(value.get("percentage"@))),
    };
    (
        Some(
            progress_notification_spec(
                server_id,
                root,
                token,
                LspNotificationLevel::Info,
                t,
                Some(LspNotificationProgress { percentage: t.percentage }),
                true,
            ),
        ),
        track_put(m, token, t),
    )
}

/// `report`: updates the token's track (an empty one when it has none) with
/// the fields the message carries.
#[verifier::opaque]
pub open spec fn progress_report(
    server_id: Seq<char>,
    root: Option<Seq<char>>,
    token: Seq<char>,
    value: Json,
    m: TracksModel,
) -> ProgressOutcome {
    let t0 = match track_lookup(m, token) {
        Some(t) => t,
        None => empty_track(),
    };
    let t = TrackModel {
        title: apply_text(t0.title, progress_text(value.get("title"@))),
        message: apply_text(t0.message, progress_text(value.get("message"@))),
        percentage: apply_pct(t0.percentage, progress_percentage(value.get("percentage"@))),
    };
    (
        Some(
            progress_notification_spec(
                server_id,
                root,
                token,
                LspNotificationLevel::Info,
                t,
                Some(LspNotificationProgress { percentage: t.percentage }),
                true,
            ),
        ),
        track_put(m, token, t),
    )
}

/// `end`: removes the token's track and reports its completion level.
#[verifier::opaque]
pub open spec fn progress_end(
    server_id: Seq<char>,
    root: Option<Seq<char>>,
    token: Seq<char>,
    value: Json,
    m: TracksModel,
) -> ProgressOutcome {
    let t0 = match track_lookup(m, token) {
        Some(t) => t,
        None => empty_track(),
    };
    let t = TrackModel {
        title: t0.title,
        message: apply_text(t0.message, progress_text(value.get("message"@))),
        percentage: t0.percentage,
    };
    (
        Some(
            progress_notification_spec(
                server_id,
                root,
                token,
                completion_level(t.message),
                t,
                match t.percentage {
                    Some(p) => Some(LspNotificationProgress { percentage: Some(p) }),
                    None => None,
                },
                false,
            ),
        ),
        track_take(m, token),
    )
}

/// One `$/progress` message: the notification it yields and the tracks
/// after it. `begin` starts a track, `report` updates the token's track,
/// `end` removes it; any other kind, or a message without a token, value or
/// kind, yields nothing and changes no track.
pub open spec fn progress_step(
    server_id: Seq<char>,
    root: Option<Seq<char>>,
    params: Json,
    m: TracksModel,
) -> ProgressOutcome {
    match token_key(params.get("token"@)) {
        None => (None, m),
        Some(token) => match params.get("value"@) {
            None => (None, m),
            Some(value) => match Json::str_opt(value.get("kind"@)) {
                None => (None, m),
                Some(kind) => if kind == "begin"@ {
                    progress_begin(server_id, root, token, value, m)
                } else if kind == "report"@ {
                    progress_report(server_id, root, token, value, m)
                } else if kind == "end"@ {
                    progress_end(server_id, root, token, value, m)
                } else {
                    (None, m)
                },
            },
        },
    }
}

pub open spec fn notification_opt_model(n: Option<LspNotification>) -> Option<NotificationModel> {
    match n {
        Some(x) => Some(x.model()),
        None => None,
    }
}

fn make_progress_notification(
    server_id: &str,
    root: Option<&str>,
    token: &str,
    level: LspNotificationLevel,
    track: &ProgressTrack,
    progress: Option<LspNotificationProgress>,
    active: bool,
) -> (r: LspNotification)
    ensures
        r.model() == progress_notification_spec(
            server_id@,
            opt_str(root),
            token@,
            level,
            track.model(),
            progress,
            active,
        ),
{
    LspNotification {
        key: progress_notification_key(server_id, root, token),
        server_id: owned(server_id),
        root: match root {
            Some(r) => Some(owned(r)),
            None => None,
        },
        level,
        title: notification_title(server_id),
        body_lines: progress_body_lines(track),
        progress,
        active,
        action: None,
    }
}

fn update_text(current: Option<String>, update: Option<Option<String>>) -> (r: Option<String>)
    ensures
        opt_view(r) == apply_text(
            opt_view(current),
            match update {
                Some(v) => Some(opt_view(v)),
                None => None,
            },
        ),
{
    match update {
        Some(v) => v,
        None => current,
    }
}

fn progress_begin_exec(
    server_id: &str,
    root: Option<&str>,
    token: &str,
    value: &JsonValue,
    progress_tracks: &mut ProgressTracks,
) -> (r: LspNotification)
    requires
        tokens_unique(old(progress_tracks).model()),
    ensures
        tokens_unique(final(progress_tracks).model()),
        (Some(r.model()), final(progress_tracks).model()) == progress_begin(
            server_id@,
            opt_str(root),
            token@,
            value.model(),
            old(progress_tracks).model(),
        ),
{
    proof {
        reveal(progress_begin);
    }
    let title = match parse_optional_progress_text(value.get("title")) {
        Some(Some(t)) => Some(t),
        _ => None,
    };
    let message = match parse_optional_progress_text(value.get("message")) {
        Some(Some(t)) => Some(t),
        _ => None,
    };
    let percentage = match parse_progress_percentage(value.get("percentage")) {
        Some(Some(p)) => Some(p),
        _ => None,
    };
    let track = ProgressTrack { title, message, percentage };
    let notification = make_progress_notification(
        server_id,
        root,
        token,
        LspNotificationLevel::Info,
        &track,
        Some(LspNotificationProgress::new(percentage)),
        true,
    );
    progress_tracks.put(token, track);
    notification
}

fn progress_report_exec(
    server_id: &str,
    root: Option<&str>,
    token: &str,
    value: &JsonValue,
    progress_tracks: &mut ProgressTracks,
) -> (r: LspNotification)
    requires
        tokens_unique(old(progress_tracks).model()),
    ensures
        tokens_unique(final(progress_tracks).model()),
        (Some(r.model()), final(progress_tracks).model()) == progress_report(
            server_id@,
            opt_str(root),
            token@,
            value.model(),
            old(progress_tracks).model(),
        ),
{
    proof {
        reveal(progress_report);
    }
    let t0 = progress_tracks.get_or_empty(token);
    let title = update_text(t0.title, parse_optional_progress_text(value.get("title")));
    let message = update_text(t0.message, parse_optional_progress_text(value.get("message")));
    let percentage = match parse_progress_percentage(value.get("percentage")) {
        Some(p) => p,
        None => t0.percentage,
    };
    let track = ProgressTrack { title, message, percentage };
    let notification = make_progress_notification(
        server_id,
        root,
        token,
        LspNotificationLevel::Info,
        &track,
        Some(LspNotificationProgress::new(percentage)),
        true,
    );
    progress_tracks.put(token, track);
    notification
}

fn progress_end_exec(
    server_id: &str,
    root: Option<&str>,
    token: &str,
    value: &JsonValue,
    progress_tracks: &mut ProgressTracks,
) -> (r: LspNotification)
    requires
        tokens_unique(old(progress_tracks).model()),
    ensures
        tokens_unique(final(progress_tracks).model()),
        (Some(r.model()), final(progress_tracks).model()) == progress_end(
            server_id@,
            opt_str(root),
            token@,
            value.model(),
            old(progress_tracks).model(),
        ),
{
    proof {
        reveal(progress_end);
    }
    let t0 = progress_tracks.take(token);
    let message = update_text(t0.message, parse_optional_progress_text(value.get("message")));
    let track = ProgressTrack { title: t0.title, message, percentage: t0.percentage };
    let level = completion_level_for_message(
        match &track.message {
            Some(m) => Some(m.as_str()),
            None => None,
        },
    );
    let progress = match track.percentage {
        Some(p) => Some(LspNotificationProgress::new(Some(p))),
        None => None,
    };
    make_progress_notification(server_id, root, token, level, &track, progress, false)
}

/// Interprets one `$/progress` message and updates the token's track.
pub fn parse_progress_notification(
    server_id: &str,
    root: Option<&str>,
    params: &JsonValue,
    progress_tracks: &mut ProgressTracks,
) -> (r: Option<LspNotification>)
    requires
        tokens_unique(old(progress_tracks).model()),
    ensures
        tokens_unique(final(progress_tracks).model()),
        (notification_opt_model(r), final(progress_tracks).model()) == progress_step(
            server_id@,
            opt_str(root),
            params.model(),
            old(progress_tracks).model(),
        ),
{
    let token = match parse_progress_token_key(params.get("token")) {
        Some(t) => t,
        None => return None,
    };
    let value = match params.get("value") {
        Some(v) => v,
        None => return None,
    };
    let kind = match str_opt(value.get("kind")) {
        Some(k) => k,
        None => return None,
    };
    if str_eq(kind, "begin") {
        Some(progress_begin_exec(server_id, root, token.as_str(), value, progress_tracks))
    } else if str_eq(kind, "report") {
        Some(progress_report_exec(server_id, root, token.as_str(), value, progress_tracks))
    } else if str_eq(kind, "end") {
        Some(progress_end_exec(server_id, root, token.as_str(), value, progress_tracks))
    } else {
        None
    }
}


/// Whether every percentage a track holds is at most 100.
pub open spec fn percentages_bounded(m: TracksModel) -> bool {
    forall|i: int| 0 <= i < m.len() ==> match (#[trigger] m[i]).1.percentage {
        Some(p) => p <= 100,
        None => true,
    }
}

proof fn lemma_put_bounded(m: TracksModel, token: Seq<char>, t: TrackModel)
    requires
        percentages_bounded(m),
        t.percentage matches Some(p) ==> p <= 100,
    ensures
        percentages_bounded(track_put(m, token, t)),
{
    let r = track_put(m, token, t);
    assert forall|i: int| 0 <= i < r.len() implies match (#[trigger] r[i]).1.percentage {
        Some(p) => p <= 100,
        None => true,
    } by {
        match track_index(m, token) {
            Some(j) => {
                if i != j {
                    assert(r[i] == m[i]);
                }
            },
            None => {
                if i < m.len() {
                    assert(r[i] == m[i]);
                }
            },
        }
    }
}

proof fn lemma_lookup_bounded(m: TracksModel, token: Seq<char>)
    requires
        percentages_bounded(m),
    ensures
        track_lookup(m, token) matches Some(t) ==> (t.percentage matches Some(p) ==> p <= 100),
{
    match track_index(m, token) {
        Some(i) => {
            assert(0 <= i < m.len() && m[i].0 == token);
            assert(match m[i].1.percentage { Some(p) => p <= 100, None => true });
        },
        None => {},
    }
}

pub open spec fn outcome_bounded(o: ProgressOutcome) -> bool {
    &&& percentages_bounded(o.1)
    &&& o.0 matches Some(n) ==> (n.progress matches Some(pr) ==> (pr.percentage matches Some(p) ==> p <= 100))
}

proof fn lemma_pct_bounded(v: Option<Json>)
    ensures
        progress_percentage(v) matches Some(Some(p)) ==> p <= 100,
{
}

proof fn lemma_begin_bounded(server_id: Seq<char>, root: Option<Seq<char>>, token: Seq<char>, value: Json, m: TracksModel)
    requires
        percentages_bounded(m),
    ensures
        outcome_bounded(progress_begin(server_id, root, token, value, m)),
{
    reveal(progress_begin);
    lemma_pct_bounded(value.get("percentage"@));
    lemma_put_bounded(m, token, TrackModel {
        title: flatten(progress_text(value.get("title"@))),
        message: flatten(progress_text(value.get("message"@))),
        percentage: flatten(progress_percentage(value.get("percentage"@))),
    });
}

proof fn lemma_report_bounded(server_id: Seq<char>, root: Option<Seq<char>>, token: Seq<char>, value: Json, m: TracksModel)
    requires
        percentages_bounded(m),
    ensures
        outcome_bounded(progress_report(server_id, root, token, value, m)),
{
    reveal(progress_report);
    lemma_pct_bounded(value.get("percentage"@));
    lemma_lookup_bounded(m, token);
    let t0 = match track_lookup(m, token) {
        Some(t) => t,
        None => empty_track(),
    };
    lemma_put_bounded(m, token, TrackModel {
        title: apply_text(t0.title, progress_text(value.get("title"@))),
        message: apply_text(t0.message, progress_text(value.get("message"@))),
        percentage: apply_pct(t0.percentage, progress_percentage(value.get("percentage"@))),
    });
}

proof fn lemma_end_bounded(server_id: Seq<char>, root: Option<Seq<char>>, token: Seq<char>, value: Json, m: TracksModel)
    requires
        percentages_bounded(m),
    ensures
        outcome_bounded(progress_end(server_id, root, token, value, m)),
{
    reveal(progress_end);
    lemma_lookup_bounded(m, token);
    let r = track_take(m, token);
    assert forall|i: int| 0 <= i < r.len() implies match (#[trigger] r[i]).1.percentage {
        Some(p) => p <= 100,
        None => true,
    } by {
        match track_index(m, token) {
            Some(j) => {
                if i < j {
                    assert(r[i] == m[i]);
                } else {
                    assert(r[i] == m[i + 1]);
                }
            },
            None => {},
        }
    }
}

/// Progress percentages never exceed 100: when the tracks hold none above
/// 100, a `$/progress` message leaves them so and reports none above 100.
pub proof fn law_progress_percentages_stay_within_100(
    server_id: Seq<char>,
    root: Option<Seq<char>>,
    params: Json,
    m: TracksModel,
)
    requires
        percentages_bounded(m),
    ensures
        outcome_bounded(progress_step(server_id, root, params, m)),
{
    match token_key(params.get("token"@)) {
        None => {},
        Some(token) => match params.get("value"@) {
            None => {},
            Some(value) => match Json::str_opt(value.get("kind"@)) {
                None => {},
                Some(kind) => {
                    if kind == "begin"@ {
                        lemma_begin_bounded(server_id, root, token, value, m);
                    } else if kind == "report"@ {
                        lemma_report_bounded(server_id, root, token, value, m);
                    } else if kind == "end"@ {
                        lemma_end_bounded(server_id, root, token, value, m);
                    }
                },
            },
        },
    }
}

// ---------------------------------------------------------------------------
// Window messages, Copilot status and browser requests
// ---------------------------------------------------------------------------

/// Identifier of the Copilot language server.
pub open spec fn copilot_server_id() -> Seq<char> {
    "copilot-language-server"@
}

pub fn is_copilot_server(server_id: &str) -> (r: bool)
    ensures
        r == (server_id@ == copilot_server_id()),
{
    str_eq(server_id, "copilot-language-server")
}

/// Level of a `window/showMessage` type: 1 error, 2 warning, others info.
pub open spec fn message_level(t: Option<u64>) -> LspNotificationLevel {
    match t {
        Some(1) => LspNotificationLevel::Error,
        Some(2) => LspNotificationLevel::Warning,
        _ => LspNotificationLevel::Info,
    }
}

/// `window/showMessage` errors with a non-blank message become a
/// notification; every other message is dropped.
pub open spec fn show_message_spec(server_id: Seq<char>, root: Option<Seq<char>>, params: Json) -> Option<NotificationModel> {
    let level = message_level(Json::u64_opt(params.get("type"@)));
    if level != LspNotificationLevel::Error {
        None
    } else {
        match Json::str_opt(params.get("message"@)) {
            None => None,
            Some(raw) => {
                let message = trim_spec(raw);
                if message.len() == 0 {
                    None
                } else {
                    Some(
                        NotificationModel {
                            key: "message:"@ + server_id + ":"@ + root_key(root) + ":"@ + "Error"@
                                + ":"@ + message,
                            server_id,
                            root,
                            level,
                            title: title_for(server_id),
                            body_lines: with_root(seq![message], root),
                            progress: None,
                            active: false,
                            action: None,
                        },
                    )
                }
            },
        }
    }
}

fn root_string(root: Option<&str>) -> (r: Option<String>)
    ensures
        opt_view(r) == opt_str(root),
{
    match root {
        Some(r) => Some(owned(r)),
        None => None,
    }
}

pub fn parse_show_message_notification(server_id: &str, root: Option<&str>, params: &JsonValue) -> (r:
    Option<LspNotification>)
    ensures
        notification_opt_model(r) == show_message_spec(server_id@, opt_str(root), params.model()),
{
    let is_error = match u64_opt(params.get("type")) {
        Some(1) => true,
        _ => false,
    };
    if !is_error {
        return None;
    }
    let raw = match str_opt(params.get("message")) {
        Some(m) => m,
        None => return None,
    };
    let message = trimmed(raw);
    if message.as_str().is_empty() {
        return None;
    }
    let root_key = notification_root_key(root);
    let mut key = owned("message:");
    key.append(server_id);
    key.append(":");
    key.append(root_key.as_str());
    key.append(":");
    key.append("Error");
    key.append(":");
    key.append(message.as_str());
    let mut lines: Vec<String> = Vec::new();
    lines.push(message);
    proof {
        assert(views(lines@) =~= seq![trim_spec(raw@)]);
    }
    push_root(&mut lines, root);
    Some(
        LspNotification {
            key,
            server_id: owned(server_id),
            root: root_string(root),
            level: LspNotificationLevel::Error,
            title: notification_title(server_id),
            body_lines: lines,
            progress: None,
            active: false,
            action: None,
        },
    )
}

/// Only `window/showMessage` reaches the user; `window/logMessage` stays in
/// the transport log.
pub open spec fn window_message_spec(
    method: Seq<char>,
    server_id: Seq<char>,
    root: Option<Seq<char>>,
    params: Json,
) -> Option<NotificationModel> {
    if method != "window/showMessage"@ {
        None
    } else {
        show_message_spec(server_id, root, params)
    }
}

pub fn parse_window_message_notification(
    method: &str,
    server_id: &str,
    root: Option<&str>,
    params: &JsonValue,
) -> (r: Option<LspNotification>)
    ensures
        notification_opt_model(r) == window_message_spec(method@, server_id@, opt_str(root), params.model()),
{
    if !str_eq(method, "window/showMessage") {
        return None;
    }
    parse_show_message_notification(server_id, root, params)
}

/// Copilot `didChangeStatus`: only the `Error` kind becomes a notification;
/// it stays active and, from the Copilot server, offers sign-in.
pub open spec fn copilot_status_spec(server_id: Seq<char>, root: Option<Seq<char>>, params: Json) -> Option<NotificationModel> {
    let kind = match Json::str_opt(params.get("kind"@)) {
        Some(k) => k,
        None => "Normal"@,
    };
    let message = trim_spec(
        match Json::str_opt(params.get("message"@)) {
            Some(m) => m,
            None => Seq::empty(),
        },
    );
    if kind != "Error"@ {
        None
    } else {
        Some(
            NotificationModel {
                key: status_key_spec(server_id, root),
                server_id,
                root,
                level: LspNotificationLevel::Error,
                title: title_for(server_id),
                body_lines: with_root(
                    if message.len() > 0 {
                        seq![kind, message]
                    } else {
                        seq![kind]
                    },
                    root,
                ),
                progress: None,
                active: true,
                action: if server_id == copilot_server_id() {
                    Some(ActionModel::CopilotSignIn)
                } else {
                    None
                },
            },
        )
    }
}

fn status_lines(kind: &str, message: String, root: Option<&str>) -> (r: Vec<String>)
    ensures
        views(r@) == with_root(
            if message@.len() > 0 {
                seq![kind@, message@]
            } else {
                seq![kind@]
            },
            opt_str(root),
        ),
{
    let ghost m = message@;
    let mut lines: Vec<String> = Vec::new();
    lines.push(owned(kind));
    if !message.as_str().is_empty() {
        lines.push(message);
        proof {
            assert(views(lines@) =~= seq![kind@, m]);
        }
    } else {
        proof {
            assert(views(lines@) =~= seq![kind@]);
        }
    }
    push_root(&mut lines, root);
    lines
}

pub fn parse_copilot_status_notification(server_id: &str, root: Option<&str>, params: &JsonValue) -> (r:
    Option<LspNotification>)
    ensures
        notification_opt_model(r) == copilot_status_spec(server_id@, opt_str(root), params.model()),
{
    let kind = match str_opt(params.get("kind")) {
        Some(k) => k,
        None => "Normal",
    };
    let raw_message = match str_opt(params.get("message")) {
        Some(m) => m,
        None => "",
    };
    proof {
        reveal_strlit("");
    }
    let message = trimmed(raw_message);
    if !str_eq(kind, "Error") {
        return None;
    }
    let lines = status_lines(kind, message, root);
    let action = if is_copilot_server(server_id) {
        Some(LspNotificationAction::CopilotSignIn)
    } else {
        None
    };
    let r = LspNotification {
        key: status_notification_key(server_id, root),
        server_id: owned(server_id),
        root: root_string(root),
        level: LspNotificationLevel::Error,
        title: notification_title(server_id),
        body_lines: lines,
        progress: None,
        active: true,
        action,
    };
    Some(r)
}

/// Whether `s` starts with `p`.
pub open spec fn has_prefix(s: Seq<char>, p: Seq<char>) -> bool {
    p.len() <= s.len() && s.take(p.len() as int) == p
}

/// A Copilot `window/showDocument` request for an http(s) URL becomes a
/// notification that opens the URL in a browser popup.
pub open spec fn show_document_spec(server_id: Seq<char>, root: Option<Seq<char>>, params: Option<Json>) -> Option<NotificationModel> {
    if server_id != copilot_server_id() {
        None
    } else {
        match Json::str_opt(Json::get_opt(params, "uri"@)) {
            None => None,
            Some(raw) => {
                let uri = trim_spec(raw);
                if !(has_prefix(uri, "http://"@) || has_prefix(uri, "https://"@)) {
                    None
                } else {
                    Some(
                        NotificationModel {
                            key: "show-document:"@ + server_id + ":"@ + root_key(root) + ":"@ + uri,
                            server_id,
                            root,
                            level: LspNotificationLevel::Info,
                            title: title_for(server_id),
                            body_lines: with_root(seq!["Opening browser popup"@, uri], root),
                            progress: None,
                            active: false,
                            action: Some(ActionModel::OpenBrowserPopup(uri)),
                        },
                    )
                }
            },
        }
    }
}

pub fn show_document_notification(server_id: &str, root: Option<&str>, params: Option<&JsonValue>) -> (r:
    Option<LspNotification>)
    ensures
        notification_opt_model(r) == show_document_spec(server_id@, opt_str(root), model_opt(params)),
{
    if !is_copilot_server(server_id) {
        return None;
    }
    let raw = match str_opt(get_opt(params, "uri")) {
        Some(u) => u,
        None => return None,
    };
    let uri = trimmed(raw);
    if !(starts_with_str(uri.as_str(), "http://") || starts_with_str(uri.as_str(), "https://")) {
        return None;
    }
    let root_key = notification_root_key(root);
    let mut key = owned("show-document:");
    key.append(server_id);
    key.append(":");
    key.append(root_key.as_str());
    key.append(":");
    key.append(uri.as_str());
    let mut lines: Vec<String> = Vec::new();
    lines.push(owned("Opening browser popup"));
    lines.push(uri.clone());
    proof {
        assert(views(lines@) =~= seq!["Opening browser popup"@, trim_spec(raw@)]);
    }
    push_root(&mut lines, root);
    Some(
        LspNotification {
            key,
            server_id: owned(server_id),
            root: root_string(root),
            level: LspNotificationLevel::Info,
            title: notification_title(server_id),
            body_lines: lines,
            progress: None,
            active: false,
            action: Some(LspNotificationAction::OpenBrowserPopup { url: uri }),
        },
    )
}


/// A UI message that a server shows through the client: an informational
/// notification keyed by the server and the message text.
pub open spec fn window_notice_spec(server_id: Seq<char>, message: Seq<char>) -> NotificationModel {
    NotificationModel {
        key: "window:"@ + server_id + ":"@ + message,
        server_id,
        root: None,
        level: LspNotificationLevel::Info,
        title: title_for(server_id),
        body_lines: seq![message],
        progress: None,
        active: false,
        action: None,
    }
}

pub fn window_notice(server_id: &str, message: &str) -> (r: LspNotification)
    ensures
        r.model() == window_notice_spec(server_id@, message@),
{
    let mut key = owned("window:");
    key.append(server_id);
    key.append(":");
    key.append(message);
    let mut lines: Vec<String> = Vec::new();
    lines.push(owned(message));
    proof {
        assert(views(lines@) =~= seq![message@]);
    }
    LspNotification {
        key,
        server_id: owned(server_id),
        root: None,
        level: LspNotificationLevel::Info,
        title: notification_title(server_id),
        body_lines: lines,
        progress: None,
        active: false,
        action: None,
    }
}

/// Records a UI message from `server_id` in the notification log: the log
/// moves to its next revision and its newest entry carries the message.
pub fn record_show_message(log: &mut LspNotificationLog, server_id: &str, message: &str)
    ensures
        final(log).revision == saturating_inc(old(log).revision),
        final(log).max_entries == old(log).max_entries,
        old(log).max_entries == 0 ==> final(log).entries@.len() == 0,
        old(log).max_entries > 0 ==> {
            let last = final(log).entries@.last();
            &&& final(log).entries@ == keep_last(old(log).entries@.push(last), old(log).max_entries as nat)
            &&& last.revision == final(log).revision
            &&& last.notification.model() == window_notice_spec(server_id@, message@)
        },
{
    let notification = window_notice(server_id, message);
    let ghost n = notification;
    log.record(notification);
    proof {
        let s = old(log).entries@.push(LspNotificationEntry { revision: log.revision, notification: n });
        if log.max_entries > 0 {
            assert(log.entries@.last() == s.last());
        }
    }
}


proof fn lemma_failing_text_is_error(t: Seq<char>)
    requires
        contains_spec(lower_spec(t), "fail"@) || contains_spec(lower_spec(t), "error"@),
    ensures
        t.len() > 0,
        completion_level(Some(t)) == LspNotificationLevel::Error,
{
    reveal_strlit("fail");
    reveal_strlit("error");
    assert(lower_spec(t).len() == t.len());
    if contains_spec(lower_spec(t), "fail"@) {
        let i = choose|i: int| occurs_at(lower_spec(t), "fail"@, i);
        assert(t.len() >= 4);
    } else {
        let i = choose|i: int| occurs_at(lower_spec(t), "error"@, i);
        assert(t.len() >= 5);
    }
}

proof fn lemma_end_level(
    server_id: Seq<char>,
    root: Option<Seq<char>>,
    token: Seq<char>,
    value: Json,
    m: TracksModel,
    t: Seq<char>,
)
    requires
        progress_text(value.get("message"@)) == Some(Some(t)),
        completion_level(Some(t)) == LspNotificationLevel::Error,
    ensures
        progress_end(server_id, root, token, value, m).0 matches Some(n) && n.level == LspNotificationLevel::Error,
{
    reveal(progress_end);
}

proof fn lemma_end_dispatch(server_id: Seq<char>, root: Option<Seq<char>>, params: Json, m: TracksModel, value: Json)
    requires
        token_key(params.get("token"@)) is Some,
        params.get("value"@) == Some(value),
        Json::str_opt(value.get("kind"@)) == Some("end"@),
    ensures
        progress_step(server_id, root, params, m) == progress_end(
            server_id,
            root,
            token_key(params.get("token"@))->0,
            value,
            m,
        ),
{
    reveal_strlit("end");
    reveal_strlit("begin");
    reveal_strlit("report");
    assert("end"@.len() == 3);
    assert("begin"@.len() == 5);
    assert("report"@.len() == 6);
}

/// A progress that ends with a message saying it failed (its trimmed text,
/// lower-cased, contains `fail` or `error`) is reported as an error: the end
/// notification's level is `Error`, whatever the token's track held.
pub proof fn law_failed_progress_ends_in_error(
    server_id: Seq<char>,
    root: Option<Seq<char>>,
    params: Json,
    m: TracksModel,
    value: Json,
    message: Seq<char>,
)
    requires
        token_key(params.get("token"@)) is Some,
        params.get("value"@) == Some(value),
        Json::str_opt(value.get("kind"@)) == Some("end"@),
        Json::str_opt(value.get("message"@)) == Some(message),
        contains_spec(lower_spec(trim_spec(message)), "fail"@) || contains_spec(
            lower_spec(trim_spec(message)),
            "error"@,
        ),
    ensures
        progress_step(server_id, root, params, m).0 matches Some(n) && n.level == LspNotificationLevel::Error,
{
    let t = trim_spec(message);
    lemma_failing_text_is_error(t);
    assert(progress_text(value.get("message"@)) == Some(Some(t)));
    lemma_end_level(server_id, root, token_key(params.get("token"@))->0, value, m, t);
    lemma_end_dispatch(server_id, root, params, m, value);
}


/// The level of a progress end follows its final message: an error when the
/// trimmed, lower-cased text contains `fail` or `error`, else a warning when
/// it contains `warn`, else a success; with no message at all, a success.
pub proof fn law_progress_end_level_follows_message(message: Seq<char>)
    ensures
        contains_spec(lower_spec(message), "fail"@) || contains_spec(lower_spec(message), "error"@)
            ==> completion_level(Some(message)) == LspNotificationLevel::Error,
        !contains_spec(lower_spec(message), "fail"@) && !contains_spec(lower_spec(message), "error"@)
            && contains_spec(lower_spec(message), "warn"@) ==> completion_level(Some(message))
            == LspNotificationLevel::Warning,
        !contains_spec(lower_spec(message), "fail"@) && !contains_spec(lower_spec(message), "error"@)
            && !contains_spec(lower_spec(message), "warn"@) ==> completion_level(Some(message))
            == LspNotificationLevel::Success,
        completion_level(None) == LspNotificationLevel::Success,
{
}

/// Only errors reach the user from `window/showMessage`: a message of type
/// 1 with non-blank text becomes an error notification carrying the trimmed
/// text; any other type is dropped.
pub proof fn law_show_message_errors_only(server_id: Seq<char>, root: Option<Seq<char>>, params: Json)
    ensures
        Json::u64_opt(params.get("type"@)) != Some(1u64) ==> show_message_spec(server_id, root, params) is None,
        show_message_spec(server_id, root, params) matches Some(n) ==> (n.level == LspNotificationLevel::Error && (
        Json::str_opt(params.get("message"@)) matches Some(raw) && n.body_lines[0] == trim_spec(raw) && trim_spec(
            raw,
        ).len() > 0)),
{
}

} // verus!
