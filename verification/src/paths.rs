//! File-system paths as the client compares them: component-wise equality
//! and ancestry, the case folding of session roots on Windows, session keys
//! and the workspace scope of live sessions.
use vstd::prelude::*;
use crate::strings::{chars_of, lower_chars, lower_spec, owned, push_char, str_eq, string_of, concat2};
use crate::notify::opt_str;
use crate::types::opt_view;

verus! {

/// How a platform writes paths: Windows also separates with `\` and roots
/// compare without ASCII case.
#[derive(Debug, Clone, Copy, PartialEq, Eq, Structural)]
pub enum PathStyle {
    Posix,
    Windows,
}

/// `std::path::MAIN_SEPARATOR`, the main path separator of the machine the
/// client runs on. Nothing is stated of it: it depends on the machine.
#[verifier::external_body]
fn main_separator() -> char {
    std::path::MAIN_SEPARATOR
}

/// The path style of the machine the client runs on: Windows where the main
/// separator is a backslash.
pub fn host_path_style() -> (r: PathStyle) {
    if main_separator() == '\\' {
        PathStyle::Windows
    } else {
        PathStyle::Posix
    }
}

pub open spec fn is_sep(c: char, style: PathStyle) -> bool {
    c == '/' || (style == PathStyle::Windows && c == '\\')
}

/// Whether the path starts at a root separator.
pub open spec fn is_rooted(p: Seq<char>, style: PathStyle) -> bool {
    p.len() > 0 && is_sep(p[0], style)
}

/// Closes the pending segment `cur`: empty segments vanish, and so does `.`
/// except as the first component of a relative path.
pub open spec fn flush(comps: Seq<Seq<char>>, cur: Seq<char>, rooted: bool) -> Seq<Seq<char>> {
    if cur.len() == 0 {
        comps
    } else if cur == "."@ && !(comps.len() == 0 && !rooted) {
        comps
    } else {
        comps.push(cur)
    }
}

/// Components seen so far and the segment being read.
pub open spec fn split_fold(p: Seq<char>, style: PathStyle, rooted: bool) -> (Seq<Seq<char>>, Seq<char>)
    decreases p.len(),
{
    if p.len() == 0 {
        (Seq::empty(), Seq::empty())
    } else {
        let (cs, cur) = split_fold(p.drop_last(), style, rooted);
        if is_sep(p.last(), style) {
            (flush(cs, cur, rooted), Seq::empty())
        } else {
            (cs, cur.push(p.last()))
        }
    }
}

/// The path's components.
pub open spec fn components(p: Seq<char>, style: PathStyle) -> Seq<Seq<char>> {
    let rooted = is_rooted(p, style);
    let (cs, cur) = split_fold(p, style, rooted);
    flush(cs, cur, rooted)
}

/// Paths that are equal component-wise (as `Path` compares them).
pub open spec fn same_path(a: Seq<char>, b: Seq<char>, style: PathStyle) -> bool {
    is_rooted(a, style) == is_rooted(b, style) && components(a, style) == components(b, style)
}

/// `ancestor` is a component-wise prefix of `path` (as `Path::starts_with`).
pub open spec fn path_starts_with(path: Seq<char>, ancestor: Seq<char>, style: PathStyle) -> bool {
    let pc = components(path, style);
    let ac = components(ancestor, style);
    is_rooted(path, style) == is_rooted(ancestor, style) && ac.len() <= pc.len() && pc.take(
        ac.len() as int,
    ) == ac
}

/// The components of a path and whether it is rooted.
pub fn path_components(p: &str, style: PathStyle) -> (r: (bool, Vec<Vec<char>>))
    ensures
        r.0 == is_rooted(p@, style),
        r.1@.map_values(|c: Vec<char>| c@) == components(p@, style),
{
    let chars = chars_of(p);
    let rooted = chars.len() > 0 && (chars[0] == '/' || (style == PathStyle::Windows && chars[0]
        == '\\'));
    let mut comps: Vec<Vec<char>> = Vec::new();
    let mut cur: Vec<char> = Vec::new();
    let mut i: usize = 0;
    while i < chars.len()
        invariant
            chars@ == p@,
            rooted == is_rooted(p@, style),
            i <= chars@.len(),
            (comps@.map_values(|c: Vec<char>| c@), cur@) == split_fold(
                chars@.take(i as int),
                style,
                rooted,
            ),
        decreases chars@.len() - i,
    {
        let c = chars[i];
        proof {
            assert(chars@.take(i + 1).drop_last() =~= chars@.take(i as int));
        }
        if c == '/' || (style == PathStyle::Windows && c == '\\') {
            flush_exec(&mut comps, cur, rooted);
            cur = Vec::new();
        } else {
            cur.push(c);
        }
        i += 1;
    }
    proof {
        assert(chars@.take(chars@.len() as int) =~= chars@);
    }
    flush_exec(&mut comps, cur, rooted);
    (rooted, comps)
}

fn is_dot(cur: &Vec<char>) -> (r: bool)
    ensures
        r == (cur@ == "."@),
{
    let dot = chars_of(".");
    if cur.len() != dot.len() {
        return false;
    }
    let mut i: usize = 0;
    while i < cur.len()
        invariant
            dot@ == "."@,
            cur@.len() == dot@.len(),
            i <= cur@.len(),
            forall|k: int| 0 <= k < i ==> cur@[k] == dot@[k],
        decreases cur@.len() - i,
    {
        if cur[i] != dot[i] {
            return false;
        }
        i += 1;
    }
    proof {
        assert(cur@ =~= dot@);
    }
    true
}

fn flush_exec(comps: &mut Vec<Vec<char>>, cur: Vec<char>, rooted: bool)
    ensures
        final(comps)@.map_values(|c: Vec<char>| c@) == flush(
            old(comps)@.map_values(|c: Vec<char>| c@),
            cur@,
            rooted,
        ),
{
    let ghost before = comps@;
    if cur.len() == 0 {
        return;
    }
    if is_dot(&cur) && !(comps.len() == 0 && !rooted) {
        return;
    }
    comps.push(cur);
    proof {
        assert(comps@.map_values(|c: Vec<char>| c@) =~= before.map_values(|c: Vec<char>| c@).push(
            comps@.last()@,
        ));
    }
}

fn char_vecs_equal(a: &Vec<char>, b: &Vec<char>) -> (r: bool)
    ensures
        r == (a@ == b@),
{
    if a.len() != b.len() {
        return false;
    }
    let mut i: usize = 0;
    while i < a.len()
        invariant
            a@.len() == b@.len(),
            i <= a@.len(),
            forall|k: int| 0 <= k < i ==> a@[k] == b@[k],
        decreases a@.len() - i,
    {
        if a[i] != b[i] {
            return false;
        }
        i += 1;
    }
    proof {
        assert(a@ =~= b@);
    }
    true
}

/// Whether the first `n` components of `a` and `b` agree.
fn prefix_equal(a: &Vec<Vec<char>>, b: &Vec<Vec<char>>, n: usize) -> (r: bool)
    requires
        n <= a@.len(),
        n <= b@.len(),
    ensures
        r == (a@.map_values(|c: Vec<char>| c@).take(n as int) == b@.map_values(|c: Vec<char>| c@).take(
            n as int,
        )),
{
    let ghost am = a@.map_values(|c: Vec<char>| c@);
    let ghost bm = b@.map_values(|c: Vec<char>| c@);
    let mut i: usize = 0;
    while i < n
        invariant
            am == a@.map_values(|c: Vec<char>| c@),
            bm == b@.map_values(|c: Vec<char>| c@),
            n <= a@.len(),
            n <= b@.len(),
            i <= n,
            forall|k: int| 0 <= k < i ==> am[k] == bm[k],
        decreases n - i,
    {
        if !char_vecs_equal(&a[i], &b[i]) {
            proof {
                assert(am.take(n as int)[i as int] != bm.take(n as int)[i as int]);
            }
            return false;
        }
        i += 1;
    }
    proof {
        assert(am.take(n as int) =~= bm.take(n as int));
    }
    true
}

/// Component-wise path equality.
pub fn paths_equal(a: &str, b: &str, style: PathStyle) -> (r: bool)
    ensures
        r == same_path(a@, b@, style),
{
    let (ra, ca) = path_components(a, style);
    let (rb, cb) = path_components(b, style);
    if ra != rb || ca.len() != cb.len() {
        proof {
            let x = ca@.map_values(|c: Vec<char>| c@);
            let y = cb@.map_values(|c: Vec<char>| c@);
            assert(x.len() == ca@.len() && y.len() == cb@.len());
        }
        return false;
    }
    let r = prefix_equal(&ca, &cb, ca.len());
    proof {
        assert(ca@.map_values(|c: Vec<char>| c@).take(ca@.len() as int) =~= ca@.map_values(
            |c: Vec<char>| c@,
        ));
        assert(cb@.map_values(|c: Vec<char>| c@).take(cb@.len() as int) =~= cb@.map_values(
            |c: Vec<char>| c@,
        ));
    }
    r
}

/// Component-wise `starts_with`.
pub fn path_has_prefix(path: &str, ancestor: &str, style: PathStyle) -> (r: bool)
    ensures
        r == path_starts_with(path@, ancestor@, style),
{
    let (rp, cp) = path_components(path, style);
    let (ra, ca) = path_components(ancestor, style);
    if rp != ra || ca.len() > cp.len() {
        return false;
    }
    let r = prefix_equal(&cp, &ca, ca.len());
    proof {
        assert(ca@.map_values(|c: Vec<char>| c@).take(ca@.len() as int) =~= ca@.map_values(
            |c: Vec<char>| c@,
        ));
    }
    r
}

/// A session root as sessions are keyed: ASCII-lowercased on Windows, as
/// given elsewhere.
pub open spec fn normalize_root_spec(root: Seq<char>, style: PathStyle) -> Seq<char> {
    if style == PathStyle::Windows {
        lower_spec(root)
    } else {
        root
    }
}

pub open spec fn normalize_opt_root_spec(root: Option<Seq<char>>, style: PathStyle) -> Option<Seq<char>> {
    match root {
        Some(r) => Some(normalize_root_spec(r, style)),
        None => None,
    }
}

pub fn normalize_session_root_in_style(root: Option<&str>, style: PathStyle) -> (r: Option<String>)
    ensures
        opt_view(r) == normalize_opt_root_spec(opt_str(root), style),
{
    match root {
        Some(root) => if style == PathStyle::Windows {
            let lowered = lower_chars(root);
            Some(string_of(lowered.as_slice()))
        } else {
            Some(owned(root))
        },
        None => None,
    }
}

/// The session root as the host keys it.
pub fn normalize_session_root(root: Option<&str>) -> (r: Option<String>)
    ensures
        opt_view(r) == normalize_opt_root_spec(opt_str(root), PathStyle::Posix) || opt_view(r)
            == normalize_opt_root_spec(opt_str(root), PathStyle::Windows),
{
    normalize_session_root_in_style(root, host_path_style())
}

pub fn normalize_path_for_compare_in_style(path: &str, style: PathStyle) -> (r: String)
    ensures
        r@ == normalize_root_spec(path@, style),
{
    match normalize_session_root_in_style(Some(path), style) {
        Some(p) => p,
        None => owned(path),
    }
}

/// `path` equals `ancestor` or lies under it, after root normalization.
pub open spec fn equals_or_under_spec(path: Seq<char>, ancestor: Seq<char>, style: PathStyle) -> bool {
    let p = normalize_root_spec(path, style);
    let a = normalize_root_spec(ancestor, style);
    same_path(p, a, style) || path_starts_with(p, a, style)
}

pub fn path_equals_or_under_in_style(path: &str, ancestor: &str, style: PathStyle) -> (r: bool)
    ensures
        r == equals_or_under_spec(path@, ancestor@, style),
{
    let p = normalize_path_for_compare_in_style(path, style);
    let a = normalize_path_for_compare_in_style(ancestor, style);
    paths_equal(p.as_str(), a.as_str(), style) || path_has_prefix(p.as_str(), a.as_str(), style)
}

/// Whether a live session belongs to the active workspace: it serves one of
/// the open buffers, or (in a project workspace) its root equals or lies
/// under the project root.
pub open spec fn in_scope_spec(
    session_root: Option<Seq<char>>,
    served: Seq<Seq<char>>,
    open: Seq<Seq<char>>,
    project_root: Option<Seq<char>>,
    style: PathStyle,
) -> bool {
    ||| exists|i: int, j: int|
        0 <= i < served.len() && 0 <= j < open.len() && same_path(
            normalize_root_spec(served[i], style),
            normalize_root_spec(open[j], style),
            style,
        )
    ||| match (project_root, session_root) {
        (Some(w), Some(s)) => equals_or_under_spec(s, w, style),
        _ => false,
    }
}

pub fn language_server_session_in_workspace_scope_in_style(
    session_root: Option<&str>,
    session_paths: &[String],
    open_buffer_paths: &[String],
    project_workspace_root: Option<&str>,
    style: PathStyle,
) -> (r: bool)
    ensures
        r == in_scope_spec(
            opt_str(session_root),
            crate::types::views(session_paths@),
            crate::types::views(open_buffer_paths@),
            opt_str(project_workspace_root),
            style,
        ),
{
    let ghost tv = crate::types::views(session_paths@);
    let ghost ov = crate::types::views(open_buffer_paths@);
    let mut i: usize = 0;
    while i < session_paths.len()
        invariant
            tv == crate::types::views(session_paths@),
            ov == crate::types::views(open_buffer_paths@),
            i <= session_paths@.len(),
            forall|a: int, b: int|
                0 <= a < i && 0 <= b < ov.len() ==> !same_path(
                    normalize_root_spec(tv[a], style),
                    normalize_root_spec(ov[b], style),
                    style,
                ),
        decreases session_paths@.len() - i,
    {
        let t = normalize_path_for_compare_in_style(session_paths[i].as_str(), style);
        let mut j: usize = 0;
        while j < open_buffer_paths.len()
            invariant
                tv == crate::types::views(session_paths@),
                ov == crate::types::views(open_buffer_paths@),
                i < session_paths@.len(),
                t@ == normalize_root_spec(tv[i as int], style),
                j <= open_buffer_paths@.len(),
                forall|b: int|
                    0 <= b < j ==> !same_path(
                        normalize_root_spec(tv[i as int], style),
                        normalize_root_spec(ov[b], style),
                        style,
                    ),
            decreases open_buffer_paths@.len() - j,
        {
            let o = normalize_path_for_compare_in_style(open_buffer_paths[j].as_str(), style);
            if paths_equal(t.as_str(), o.as_str(), style) {
                proof {
                    assert(same_path(
                        normalize_root_spec(tv[i as int], style),
                        normalize_root_spec(ov[j as int], style),
                        style,
                    ));
                }
                return true;
            }
            j += 1;
        }
        i += 1;
    }
    let workspace_root = match project_workspace_root {
        Some(w) => w,
        None => return false,
    };
    let session_root = match session_root {
        Some(s) => s,
        None => return false,
    };
    path_equals_or_under_in_style(session_root, workspace_root, style)
}

/// Whether a live session belongs to the active workspace, with the host's
/// path rules.
pub fn language_server_session_in_workspace_scope(
    session_root: Option<&str>,
    session_paths: &[String],
    open_buffer_paths: &[String],
    project_workspace_root: Option<&str>,
) -> (r: bool)
    ensures
        r == in_scope_spec(
            opt_str(session_root),
            crate::types::views(session_paths@),
            crate::types::views(open_buffer_paths@),
            opt_str(project_workspace_root),
            PathStyle::Posix,
        ) || r == in_scope_spec(
            opt_str(session_root),
            crate::types::views(session_paths@),
            crate::types::views(open_buffer_paths@),
            opt_str(project_workspace_root),
            PathStyle::Windows,
        ),
{
    language_server_session_in_workspace_scope_in_style(
        session_root,
        session_paths,
        open_buffer_paths,
        project_workspace_root,
        host_path_style(),
    )
}

/// Identity of a session: server id and normalized root.
#[derive(Debug, PartialEq, Eq, PartialOrd, Ord)]
pub struct SessionKey {
    pub server_id: String,
    pub root: Option<String>,
}

impl Clone for SessionKey {
    fn clone(&self) -> (r: Self)
        ensures
            r == *self,
    {
        SessionKey {
            server_id: self.server_id.clone(),
            root: match &self.root {
                Some(r) => Some(r.clone()),
                None => None,
            },
        }
    }
}

impl SessionKey {
    pub fn new_in_style(server_id: &str, root: Option<&str>, style: PathStyle) -> (r: Self)
        ensures
            r.server_id@ == server_id@,
            opt_view(r.root) == normalize_opt_root_spec(opt_str(root), style),
    {
        SessionKey { server_id: owned(server_id), root: normalize_session_root_in_style(root, style) }
    }

    pub fn new(server_id: &str, root: Option<&str>) -> (r: Self)
        ensures
            r.server_id@ == server_id@,
            opt_view(r.root) == normalize_opt_root_spec(opt_str(root), PathStyle::Posix) || opt_view(
                r.root,
            ) == normalize_opt_root_spec(opt_str(root), PathStyle::Windows),
    {
        SessionKey::new_in_style(server_id, root, host_path_style())
    }

    /// Whether two keys name the same session.
    pub fn same_as(&self, other: &SessionKey) -> (r: bool)
        ensures
            r == (self.server_id@ == other.server_id@ && opt_view(self.root) == opt_view(other.root)),
    {
        if !str_eq(self.server_id.as_str(), other.server_id.as_str()) {
            return false;
        }
        match (&self.root, &other.root) {
            (Some(a), Some(b)) => str_eq(a.as_str(), b.as_str()),
            (None, None) => true,
            _ => false,
        }
    }
}

/// Identity of one live session, for the session picker.
#[derive(Debug, Clone, PartialEq, Eq, PartialOrd, Ord)]
pub struct LspLiveSession {
    pub server_id: String,
    pub root: Option<String>,
}

/// Picker label: `server — root`, or `server — (no root)`.
pub open spec fn picker_label_spec(server_id: Seq<char>, root: Option<Seq<char>>) -> Seq<char> {
    match root {
        Some(r) => server_id + " — "@ + r,
        None => server_id + " — (no root)"@,
    }
}

impl LspLiveSession {
    pub fn new_in_style(server_id: &str, root: Option<&str>, style: PathStyle) -> (r: Self)
        ensures
            r.server_id@ == server_id@,
            opt_view(r.root) == normalize_opt_root_spec(opt_str(root), style),
    {
        LspLiveSession {
            server_id: owned(server_id),
            root: normalize_session_root_in_style(root, style),
        }
    }

    /// A live session identity with the root normalized as the host keys it.
    pub fn new(server_id: &str, root: Option<&str>) -> (r: Self)
        ensures
            r.server_id@ == server_id@,
            opt_view(r.root) == normalize_opt_root_spec(opt_str(root), PathStyle::Posix) || opt_view(
                r.root,
            ) == normalize_opt_root_spec(opt_str(root), PathStyle::Windows),
    {
        LspLiveSession::new_in_style(server_id, root, host_path_style())
    }

    pub fn server_id(&self) -> (r: &str)
        ensures
            r@ == self.server_id@,
    {
        self.server_id.as_str()
    }

    pub fn root(&self) -> (r: Option<&str>)
        ensures
            match r {
                Some(s) => opt_view(self.root) == Some(s@),
                None => self.root is None,
            },
    {
        match &self.root {
            Some(r) => Some(r.as_str()),
            None => None,
        }
    }

    pub fn picker_label(&self) -> (r: String)
        ensures
            r@ == picker_label_spec(self.server_id@, opt_view(self.root)),
    {
        match &self.root {
            Some(root) => {
                let mut s = concat2(self.server_id.as_str(), " — ");
                s.append(root.as_str());
                s
            },
            None => concat2(self.server_id.as_str(), " — (no root)"),
        }
    }
}

} // verus!
