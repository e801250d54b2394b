//! Launching language servers on Windows: command-shim candidates from
//! `PATHEXT`, when a failed spawn is worth retrying, and reading the output
//! of Node version managers (`fnm env`, `nvm current`).
use vstd::prelude::*;
use crate::strings::{
    chars_of, string_of, owned, concat2, concat3, str_eq, trim_spec, lower_spec, is_space,
    char_is_space, split_on, split_chars, char_views, index_of_char, find_char, eq_ignore_case,
    eq_ignore_ascii_case, lower_chars, lemma_split_on_nonempty,
};
use crate::paths::{PathStyle, components, path_components};
use crate::types::views;

verus! {

/// The extensions tried when `PATHEXT` names none.
pub open spec fn default_extensions() -> Seq<Seq<char>> {
    seq![".com"@, ".exe"@, ".bat"@, ".cmd"@]
}

/// `PATHEXT` entries: trimmed, non-empty, ASCII-lowercased, in order.
pub open spec fn clean_extensions(parts: Seq<Seq<char>>) -> Seq<Seq<char>>
    decreases parts.len(),
{
    if parts.len() == 0 {
        Seq::empty()
    } else {
        let rest = clean_extensions(parts.drop_last());
        let t = trim_spec(parts.last());
        if t.len() == 0 {
            rest
        } else {
            rest.push(lower_spec(t))
        }
    }
}

/// The command extensions for a `PATHEXT` value (absent when the variable
/// is unset): its entries, or the defaults when it lists none.
pub open spec fn command_extensions_spec(pathext: Option<Seq<char>>) -> Seq<Seq<char>> {
    match pathext {
        Some(v) => {
            let e = clean_extensions(split_on(v, ';'));
            if e.len() > 0 {
                e
            } else {
                default_extensions()
            }
        },
        None => default_extensions(),
    }
}

fn trimmed_lower(cs: &Vec<char>) -> (r: Option<String>)
    ensures
        match r {
            Some(s) => trim_spec(cs@).len() > 0 && s@ == lower_spec(trim_spec(cs@)),
            None => trim_spec(cs@).len() == 0,
        },
{
    let s = string_of(cs.as_slice());
    let t = crate::strings::trim_chars(s.as_str());
    if t.len() == 0 {
        return None;
    }
    let ts = string_of(t.as_slice());
    let l = lower_chars(ts.as_str());
    Some(string_of(l.as_slice()))
}

fn default_extension_list() -> (r: Vec<String>)
    ensures
        views(r@) == default_extensions(),
{
    let mut v: Vec<String> = Vec::new();
    v.push(owned(".com"));
    v.push(owned(".exe"));
    v.push(owned(".bat"));
    v.push(owned(".cmd"));
    proof {
        assert(views(v@) =~= default_extensions());
    }
    v
}

/// The extensions that make a program name a command, from the value of
/// `PATHEXT` (`None` when it is not set).
pub fn windows_command_extensions(pathext: Option<&str>) -> (r: Vec<String>)
    ensures
        views(r@) == command_extensions_spec(crate::notify::opt_str(pathext)),
{
    let value = match pathext {
        Some(v) => v,
        None => return default_extension_list(),
    };
    let parts = split_chars(value, ';');
    let ghost ps = char_views(parts@);
    let mut out: Vec<String> = Vec::new();
    let mut i: usize = 0;
    while i < parts.len()
        invariant
            ps == char_views(parts@),
            ps == split_on(value@, ';'),
            i <= parts@.len(),
            views(out@) == clean_extensions(ps.take(i as int)),
        decreases parts@.len() - i,
    {
        proof {
            assert(ps.take(i + 1).drop_last() =~= ps.take(i as int));
            assert(ps.take(i + 1).last() == parts@[i as int]@);
        }
        match trimmed_lower(&parts[i]) {
            Some(e) => {
                proof {
                    assert(views(out@.push(e)) =~= views(out@).push(e@));
                }
                out.push(e);
            },
            None => {},
        }
        i += 1;
    }
    proof {
        assert(ps.take(ps.len() as int) =~= ps);
    }
    if out.len() == 0 {
        return default_extension_list();
    }
    out
}

/// Whether a path's file name has an extension (`Path::extension`): a dot
/// after its first character, the name `..` excepted.
pub open spec fn has_extension(path: Seq<char>) -> bool {
    let cs = components(path, PathStyle::Windows);
    cs.len() > 0 && cs.last() != "."@ && cs.last() != ".."@ && exists|i: int|
        0 < i < cs.last().len() && cs.last()[i] == '.'
}

fn dot_after_first(name: &Vec<char>) -> (r: bool)
    ensures
        r == exists|i: int| 0 < i < name@.len() && name@[i] == '.',
{
    let mut i: usize = 1;
    while i < name.len()
        invariant
            1 <= i,
            forall|k: int| 0 < k < i && k < name@.len() ==> name@[k] != '.',
        decreases name@.len() - i,
    {
        if name[i] == '.' {
            return true;
        }
        i += 1;
    }
    false
}

fn char_vec_is(v: &Vec<char>, s: &str) -> (r: bool)
    ensures
        r == (v@ == s@),
{
    let t = string_of(v.as_slice());
    str_eq(t.as_str(), s)
}

pub fn path_has_extension(path: &str) -> (r: bool)
    ensures
        r == has_extension(path@),
{
    let (_, comps) = path_components(path, PathStyle::Windows);
    proof {
        assert(comps@.map_values(|c: Vec<char>| c@).len() == comps@.len());
    }
    if comps.len() == 0 {
        return false;
    }
    let last = &comps[comps.len() - 1];
    proof {
        assert(comps@.map_values(|c: Vec<char>| c@).last() == last@);
    }
    if char_vec_is(last, ".") || char_vec_is(last, "..") {
        return false;
    }
    dot_after_first(last)
}

/// Program names with each extension appended, skipping the program itself
/// and repeats.
pub open spec fn extension_candidates(program: Seq<char>, exts: Seq<Seq<char>>) -> Seq<Seq<char>>
    decreases exts.len(),
{
    if exts.len() == 0 {
        Seq::empty()
    } else {
        let acc = extension_candidates(program, exts.drop_last());
        let c = program + exts.last();
        if c == program || acc.contains(c) {
            acc
        } else {
            acc.push(c)
        }
    }
}

/// Launch candidates for a program name: none when it already has an
/// extension, else the name with each command extension.
pub open spec fn launch_candidates_spec(program: Seq<char>, exts: Seq<Seq<char>>) -> Seq<Seq<char>> {
    if has_extension(program) {
        Seq::empty()
    } else {
        extension_candidates(program, exts)
    }
}

fn contains_string(v: &Vec<String>, s: &str) -> (r: bool)
    ensures
        r == views(v@).contains(s@),
{
    let mut i: usize = 0;
    while i < v.len()
        invariant
            i <= v@.len(),
            forall|k: int| 0 <= k < i ==> v@[k]@ != s@,
        decreases v@.len() - i,
    {
        if str_eq(v[i].as_str(), s) {
            proof {
                assert(views(v@)[i as int] == s@);
            }
            return true;
        }
        i += 1;
    }
    proof {
        if views(v@).contains(s@) {
            let k = choose|k: int| 0 <= k < views(v@).len() && views(v@)[k] == s@;
            assert(v@[k]@ == s@);
        }
    }
    false
}

/// The names to try for `program`: with each of `extensions` appended,
/// unless it already has an extension.
pub fn windows_launch_program_candidates(program: &str, extensions: &[String]) -> (r: Vec<String>)
    ensures
        views(r@) == launch_candidates_spec(program@, views(extensions@)),
{
    let mut candidates: Vec<String> = Vec::new();
    if path_has_extension(program) {
        proof {
            assert(views(candidates@) =~= Seq::empty());
        }
        return candidates;
    }
    let ghost es = views(extensions@);
    let mut i: usize = 0;
    while i < extensions.len()
        invariant
            es == views(extensions@),
            i <= extensions@.len(),
            views(candidates@) == extension_candidates(program@, es.take(i as int)),
        decreases extensions@.len() - i,
    {
        proof {
            assert(es.take(i + 1).drop_last() =~= es.take(i as int));
            assert(es.take(i + 1).last() == extensions@[i as int]@);
        }
        let candidate = concat2(program, extensions[i].as_str());
        if !str_eq(candidate.as_str(), program) && !contains_string(&candidates, candidate.as_str()) {
            proof {
                assert(views(candidates@.push(candidate)) =~= views(candidates@).push(candidate@));
            }
            candidates.push(candidate);
        }
        i += 1;
    }
    proof {
        assert(es.take(es.len() as int) =~= es);
    }
    candidates
}

/// Whether a spawn that failed with this error should be tried again with
/// another candidate: the program was not found, or it is not a valid
/// executable (Windows error 193).
pub open spec fn should_retry_spec(not_found: bool, raw_os_error: Option<i32>) -> bool {
    not_found || raw_os_error == Some(193i32)
}

pub fn spawn_error_should_retry(not_found: bool, raw_os_error: Option<i32>) -> (r: bool)
    ensures
        r == should_retry_spec(not_found, raw_os_error),
{
    not_found || raw_os_error == Some(193i32)
}

/// Whether an I/O error's kind is `ErrorKind::NotFound`. Nothing is stated
/// of the result: the kind of an operating-system error depends on the
/// platform.
#[verifier::external_body]
fn io_error_is_not_found(error: &std::io::Error) -> bool {
    error.kind() == std::io::ErrorKind::NotFound
}

/// `std::io::Error::raw_os_error`. Nothing is stated of the result here.
#[verifier::external_body]
fn io_error_raw_os_error(error: &std::io::Error) -> Option<i32> {
    error.raw_os_error()
}

/// Whether a failed spawn should be retried with the next candidate: the
/// rule of `spawn_error_should_retry` applied to the error's kind and raw
/// operating-system code. Nothing is stated of the result, as neither the
/// kind nor the code of an operating-system error is known here.
pub fn windows_should_retry_spawn_error(error: &std::io::Error) -> (r: bool)
{
    let not_found = io_error_is_not_found(error);
    let raw = io_error_raw_os_error(error);
    spawn_error_should_retry(not_found, raw)
}

/// One line of `cmd` environment output: `SET KEY=VALUE` after trimming,
/// with a non-empty key.
pub open spec fn cmd_line_entry(line: Seq<char>) -> Option<(Seq<char>, Seq<char>)> {
    let t = trim_spec(line);
    if t.len() >= 4 && t.take(4) == "SET "@ {
        let rest = t.skip(4);
        let e = index_of_char(rest, '=');
        if e < rest.len() && e > 0 {
            Some((rest.take(e), rest.skip(e + 1)))
        } else {
            None
        }
    } else {
        None
    }
}

pub open spec fn cmd_entries(lines: Seq<Seq<char>>) -> Seq<(Seq<char>, Seq<char>)>
    decreases lines.len(),
{
    if lines.len() == 0 {
        Seq::empty()
    } else {
        let rest = cmd_entries(lines.drop_last());
        match cmd_line_entry(lines.last()) {
            Some(kv) => rest.push(kv),
            None => rest,
        }
    }
}

/// The variables that `cmd`-style `SET` lines assign, in order; none when
/// there are none.
pub open spec fn cmd_environment_spec(output: Seq<char>) -> Option<Seq<(Seq<char>, Seq<char>)>> {
    let vars = cmd_entries(split_on(output, '\n'));
    if vars.len() > 0 {
        Some(vars)
    } else {
        None
    }
}

pub open spec fn pair_views(v: Seq<(String, String)>) -> Seq<(Seq<char>, Seq<char>)> {
    v.map_values(|p: (String, String)| (p.0@, p.1@))
}

fn cmd_line(line: &Vec<char>) -> (r: Option<(String, String)>)
    ensures
        match r {
            Some((k, v)) => cmd_line_entry(line@) == Some((k@, v@)),
            None => cmd_line_entry(line@) is None,
        },
{
    let s = string_of(line.as_slice());
    let t = crate::strings::trim_chars(s.as_str());
    let prefix = chars_of("SET ");
    proof {
        reveal_strlit("SET ");
    }
    if t.len() < 4 || !crate::strings::matches_at(t.as_slice(), prefix.as_slice(), 0) {
        proof {
            if t@.len() >= 4 {
                assert(!(t@.take(4) =~= "SET "@) || crate::strings::occurs_at(t@, prefix@, 0));
            }
        }
        return None;
    }
    proof {
        assert(t@.subrange(0, 4) =~= t@.take(4));
    }
    let rest = vstd::slice::slice_subrange(t.as_slice(), 4, t.len());
    proof {
        assert(rest@ =~= t@.skip(4));
    }
    match find_char(rest, '=') {
        Some(e) => {
            if e == 0 {
                return None;
            }
            let key = vstd::slice::slice_subrange(rest, 0, e);
            let value = vstd::slice::slice_subrange(rest, e + 1, rest.len());
            proof {
                assert(key@ =~= rest@.take(e as int));
                assert(value@ =~= rest@.skip(e + 1));
            }
            Some((string_of(key), string_of(value)))
        },
        None => None,
    }
}

/// The variables of `cmd`-style environment output (`SET KEY=VALUE` lines).
pub fn parse_windows_cmd_environment(output: &str) -> (r: Option<Vec<(String, String)>>)
    ensures
        match r {
            Some(v) => cmd_environment_spec(output@) == Some(pair_views(v@)),
            None => cmd_environment_spec(output@) is None,
        },
{
    let lines = split_chars(output, '\n');
    let ghost ls = char_views(lines@);
    let mut vars: Vec<(String, String)> = Vec::new();
    let mut i: usize = 0;
    while i < lines.len()
        invariant
            ls == char_views(lines@),
            ls == split_on(output@, '\n'),
            i <= lines@.len(),
            pair_views(vars@) == cmd_entries(ls.take(i as int)),
        decreases lines@.len() - i,
    {
        proof {
            assert(ls.take(i + 1).drop_last() =~= ls.take(i as int));
            assert(ls.take(i + 1).last() == lines@[i as int]@);
        }
        match cmd_line(&lines[i]) {
            Some(kv) => {
                proof {
                    assert(pair_views(vars@.push(kv)) =~= pair_views(vars@).push((kv.0@, kv.1@)));
                }
                vars.push(kv);
            },
            None => {},
        }
        i += 1;
    }
    proof {
        assert(ls.take(ls.len() as int) =~= ls);
    }
    if vars.len() == 0 {
        None
    } else {
        Some(vars)
    }
}

/// Whitespace-separated words of a text, completed and pending.
pub open spec fn word_fold(s: Seq<char>) -> (Seq<Seq<char>>, Seq<char>)
    decreases s.len(),
{
    if s.len() == 0 {
        (Seq::empty(), Seq::empty())
    } else {
        let (ws, cur) = word_fold(s.drop_last());
        if is_space(s.last()) {
            (
                if cur.len() > 0 {
                    ws.push(cur)
                } else {
                    ws
                },
                Seq::empty(),
            )
        } else {
            (ws, cur.push(s.last()))
        }
    }
}

/// The words of a text (`str::split_whitespace`).
pub open spec fn words(s: Seq<char>) -> Seq<Seq<char>> {
    let (ws, cur) = word_fold(s);
    if cur.len() > 0 {
        ws.push(cur)
    } else {
        ws
    }
}

fn split_words(s: &str) -> (r: Vec<Vec<char>>)
    ensures
        char_views(r@) == words(s@),
{
    let cs = chars_of(s);
    let mut done: Vec<Vec<char>> = Vec::new();
    let mut cur: Vec<char> = Vec::new();
    let mut i: usize = 0;
    proof {
        assert(cs@.take(0) =~= Seq::<char>::empty());
        assert(char_views(done@) =~= Seq::<Seq<char>>::empty());
    }
    while i < cs.len()
        invariant
            cs@ == s@,
            i <= cs@.len(),
            (char_views(done@), cur@) == word_fold(cs@.take(i as int)),
        decreases cs@.len() - i,
    {
        let c = cs[i];
        proof {
            assert(cs@.take(i + 1).drop_last() =~= cs@.take(i as int));
        }
        if char_is_space(c) {
            if cur.len() > 0 {
                let finished = cur;
                proof {
                    assert(char_views(done@.push(finished)) =~= char_views(done@).push(finished@));
                }
                done.push(finished);
            }
            cur = Vec::new();
        } else {
            cur.push(c);
        }
        i += 1;
    }
    proof {
        assert(cs@.take(cs@.len() as int) =~= cs@);
    }
    if cur.len() > 0 {
        proof {
            assert(char_views(done@.push(cur)) =~= char_views(done@).push(cur@));
        }
        done.push(cur);
    }
    done
}

/// A word that can name an `nvm` version: not `none` or `n/a` (in any ASCII
/// case), starting with `v` or a digit.
pub open spec fn version_token(t: Seq<char>) -> bool {
    &&& t.len() > 0
    &&& !eq_ignore_case(t, "none"@)
    &&& !eq_ignore_case(t, "n/a"@)
    &&& (t[0] == 'v' || ('0' <= t[0] && t[0] <= '9'))
}

pub open spec fn first_version_token(ws: Seq<Seq<char>>) -> Option<Seq<char>>
    decreases ws.len(),
{
    if ws.len() == 0 {
        None
    } else if version_token(ws[0]) {
        Some(ws[0])
    } else {
        first_version_token(ws.skip(1))
    }
}

/// The active version in the output of `nvm current`: the first word that
/// names a version, trimmed.
pub open spec fn nvm_version_spec(output: Seq<char>) -> Option<Seq<char>> {
    match first_version_token(words(output)) {
        Some(t) => Some(trim_spec(t)),
        None => None,
    }
}

fn is_version_token(t: &Vec<char>) -> (r: bool)
    ensures
        r == version_token(t@),
{
    if t.len() == 0 {
        return false;
    }
    let s = string_of(t.as_slice());
    if eq_ignore_ascii_case(s.as_str(), "none") || eq_ignore_ascii_case(s.as_str(), "n/a") {
        return false;
    }
    let c = t[0];
    c == 'v' || ('0' <= c && c <= '9')
}

pub fn parse_windows_nvm_current_version(output: &str) -> (r: Option<String>)
    ensures
        crate::types::opt_view(r) == nvm_version_spec(output@),
{
    let ws = split_words(output);
    let ghost wv = char_views(ws@);
    let mut i: usize = 0;
    proof {
        assert(wv.skip(0) =~= wv);
    }
    while i < ws.len()
        invariant
            wv == char_views(ws@),
            wv == words(output@),
            i <= ws@.len(),
            first_version_token(wv) == first_version_token(wv.skip(i as int)),
        decreases ws@.len() - i,
    {
        proof {
            assert(wv.skip(i as int)[0] == ws@[i as int]@);
            assert(wv.skip(i as int).skip(1) =~= wv.skip(i + 1));
        }
        if is_version_token(&ws[i]) {
            let token = string_of(ws[i].as_slice());
            let trimmed = crate::strings::trimmed(token.as_str());
            return Some(trimmed);
        }
        i += 1;
    }
    None
}

/// The directory names under the `nvm` home to look for a version in: the
/// version as given, then without its `v` (or with one added).
pub open spec fn nvm_dir_candidates_spec(version: Seq<char>) -> Seq<Seq<char>> {
    if version.len() > 0 && version[0] == 'v' {
        seq![version, version.skip(1)]
    } else {
        seq![version, seq!['v'] + version]
    }
}

pub fn windows_nvm_version_dir_candidates(version: &str) -> (r: Vec<String>)
    ensures
        views(r@) == nvm_dir_candidates_spec(version@),
{
    let cs = chars_of(version);
    let mut out: Vec<String> = Vec::new();
    out.push(owned(version));
    if cs.len() > 0 && cs[0] == 'v' {
        let stripped = vstd::slice::slice_subrange(cs.as_slice(), 1, cs.len());
        proof {
            assert(stripped@ =~= version@.skip(1));
        }
        out.push(string_of(stripped));
    } else {
        let mut prefixed: Vec<char> = Vec::new();
        prefixed.push('v');
        let mut i: usize = 0;
        while i < cs.len()
            invariant
                cs@ == version@,
                i <= cs@.len(),
                prefixed@ == seq!['v'] + cs@.take(i as int),
            decreases cs@.len() - i,
        {
            prefixed.push(cs[i]);
            proof {
                assert(seq!['v'] + cs@.take(i + 1) =~= (seq!['v'] + cs@.take(i as int)).push(cs@[i as int]));
            }
            i += 1;
        }
        proof {
            assert(cs@.take(cs@.len() as int) =~= cs@);
        }
        out.push(string_of(prefixed.as_slice()));
    }
    proof {
        assert(views(out@) =~= nvm_dir_candidates_spec(version@));
    }
    out
}

/// Index of the first entry whose key equals `key` ignoring ASCII case.
pub open spec fn env_index(env: Seq<(Seq<char>, Seq<char>)>, key: Seq<char>) -> int
    decreases env.len(),
{
    if env.len() == 0 {
        0
    } else if eq_ignore_case(env[0].0, key) {
        0
    } else {
        1 + env_index(env.skip(1), key)
    }
}

proof fn lemma_env_index(env: Seq<(Seq<char>, Seq<char>)>, key: Seq<char>, i: int)
    requires
        0 <= i <= env.len(),
        forall|k: int| 0 <= k < i ==> !eq_ignore_case(#[trigger] env[k].0, key),
        i < env.len() ==> eq_ignore_case(env[i].0, key),
    ensures
        env_index(env, key) == i,
    decreases i,
{
    if i > 0 {
        lemma_env_index(env.skip(1), key, i - 1);
    }
}

/// The value an explicit environment list gives a variable (the first entry
/// whose name matches ignoring ASCII case).
pub open spec fn env_value_spec(env: Seq<(Seq<char>, Seq<char>)>, key: Seq<char>) -> Option<Seq<char>> {
    let i = env_index(env, key);
    if i < env.len() {
        Some(env[i].1)
    } else {
        None
    }
}

pub fn explicit_windows_env_value<'a>(env: &'a [(String, String)], key: &str) -> (r: Option<&'a String>)
    ensures
        match r {
            Some(v) => env_value_spec(pair_views(env@), key@) == Some(v@),
            None => env_value_spec(pair_views(env@), key@) is None,
        },
{
    let ghost ev = pair_views(env@);
    let mut i: usize = 0;
    while i < env.len()
        invariant
            ev == pair_views(env@),
            i <= env@.len(),
            forall|k: int| 0 <= k < i ==> !eq_ignore_case(#[trigger] ev[k].0, key@),
        decreases env@.len() - i,
    {
        if eq_ignore_ascii_case(env[i].0.as_str(), key) {
            proof {
                lemma_env_index(ev, key@, i as int);
            }
            return Some(&env[i].1);
        }
        i += 1;
    }
    proof {
        lemma_env_index(ev, key@, i as int);
    }
    None
}

/// The environment a runtime-managed launch sets, in the order it is
/// applied: the runtime variables (its `PATH` put in front of an explicit
/// `PATH`), then the explicit variables other than `PATH`, then the explicit
/// `PATH` if the runtime set none.
pub open spec fn runtime_env_fold(runtime: Seq<(Seq<char>, Seq<char>)>, explicit_path: Option<Seq<char>>) -> (
    Seq<(Seq<char>, Seq<char>)>,
    bool,
)
    decreases runtime.len(),
{
    if runtime.len() == 0 {
        (Seq::empty(), false)
    } else {
        let (acc, applied) = runtime_env_fold(runtime.drop_last(), explicit_path);
        let (k, v) = runtime.last();
        if eq_ignore_case(k, "PATH"@) {
            (
                acc.push(
                    (
                        k,
                        match explicit_path {
                            Some(p) => v + ";"@ + p,
                            None => v,
                        },
                    ),
                ),
                true,
            )
        } else {
            (acc.push((k, v)), applied)
        }
    }
}

pub open spec fn non_path_entries(env: Seq<(Seq<char>, Seq<char>)>) -> Seq<(Seq<char>, Seq<char>)>
    decreases env.len(),
{
    if env.len() == 0 {
        Seq::empty()
    } else {
        let rest = non_path_entries(env.drop_last());
        if eq_ignore_case(env.last().0, "PATH"@) {
            rest
        } else {
            rest.push(env.last())
        }
    }
}

pub open spec fn runtime_environment_spec(env: Seq<(Seq<char>, Seq<char>)>, runtime: Seq<(Seq<char>, Seq<char>)>) -> Seq<
    (Seq<char>, Seq<char>),
> {
    let explicit_path = env_value_spec(env, "PATH"@);
    let (first, applied) = runtime_env_fold(runtime, explicit_path);
    let tail = if !applied && explicit_path is Some {
        seq![("PATH"@, explicit_path->0)]
    } else {
        Seq::empty()
    };
    first + non_path_entries(env) + tail
}

/// The variable assignments, in order, that launching under a runtime
/// environment applies to the command.
pub fn windows_runtime_environment(env: &[(String, String)], runtime_env: &[(String, String)]) -> (r: Vec<
    (String, String),
>)
    ensures
        pair_views(r@) == runtime_environment_spec(pair_views(env@), pair_views(runtime_env@)),
{
    let explicit_path = explicit_windows_env_value(env, "PATH");
    let ghost ep: Option<Seq<char>> = match explicit_path {
        Some(p) => Some(p@),
        None => None,
    };
    let ghost rv = pair_views(runtime_env@);
    let mut out: Vec<(String, String)> = Vec::new();
    let mut applied = false;
    let mut i: usize = 0;
    proof {
        assert(rv.take(0) =~= Seq::<(Seq<char>, Seq<char>)>::empty());
        assert(pair_views(out@) =~= Seq::empty());
    }
    while i < runtime_env.len()
        invariant
            rv == pair_views(runtime_env@),
            ep == env_value_spec(pair_views(env@), "PATH"@),
            ep == match explicit_path {
                Some(p) => Some(p@),
                None => None::<Seq<char>>,
            },
            i <= runtime_env@.len(),
            (pair_views(out@), applied) == runtime_env_fold(rv.take(i as int), ep),
        decreases runtime_env@.len() - i,
    {
        proof {
            assert(rv.take(i + 1).drop_last() =~= rv.take(i as int));
            assert(rv.take(i + 1).last() == (runtime_env@[i as int].0@, runtime_env@[i as int].1@));
        }
        let key = runtime_env[i].0.as_str();
        let value = runtime_env[i].1.as_str();
        let entry = if eq_ignore_ascii_case(key, "PATH") {
            applied = true;
            match explicit_path {
                Some(p) => (owned(key), concat3(value, ";", p.as_str())),
                None => (owned(key), owned(value)),
            }
        } else {
            (owned(key), owned(value))
        };
        proof {
            assert(pair_views(out@.push(entry)) =~= pair_views(out@).push((entry.0@, entry.1@)));
        }
        out.push(entry);
        i += 1;
    }
    proof {
        assert(rv.take(rv.len() as int) =~= rv);
    }
    let ghost first = pair_views(out@);
    let ghost ev = pair_views(env@);
    let mut j: usize = 0;
    proof {
        assert(ev.take(0) =~= Seq::<(Seq<char>, Seq<char>)>::empty());
        assert(first + non_path_entries(ev.take(0)) =~= first);
    }
    while j < env.len()
        invariant
            ev == pair_views(env@),
            j <= env@.len(),
            pair_views(out@) == first + non_path_entries(ev.take(j as int)),
        decreases env@.len() - j,
    {
        proof {
            assert(ev.take(j + 1).drop_last() =~= ev.take(j as int));
            assert(ev.take(j + 1).last() == (env@[j as int].0@, env@[j as int].1@));
        }
        if !eq_ignore_ascii_case(env[j].0.as_str(), "PATH") {
            let entry = (owned(env[j].0.as_str()), owned(env[j].1.as_str()));
            proof {
                assert(pair_views(out@.push(entry)) =~= pair_views(out@).push((entry.0@, entry.1@)));
            }
            out.push(entry);
        }
        j += 1;
    }
    proof {
        assert(ev.take(ev.len() as int) =~= ev);
    }
    let ghost middle = pair_views(out@);
    if !applied {
        match explicit_path {
            Some(p) => {
                let entry = (owned("PATH"), owned(p.as_str()));
                proof {
                    assert(pair_views(out@.push(entry)) =~= pair_views(out@).push((entry.0@, entry.1@)));
                }
                out.push(entry);
            },
            None => {},
        }
    }
    proof {
        assert(pair_views(out@) =~= runtime_environment_spec(ev, rv));
    }
    out
}

/// Entries of a `PATH` value: the `;`-separated directories, trimmed, empty
/// ones skipped.
pub open spec fn path_entries_spec(parts: Seq<Seq<char>>) -> Seq<Seq<char>>
    decreases parts.len(),
{
    if parts.len() == 0 {
        Seq::empty()
    } else {
        let rest = path_entries_spec(parts.drop_last());
        let t = trim_spec(parts.last());
        if t.len() == 0 {
            rest
        } else {
            rest.push(t)
        }
    }
}

pub fn windows_path_entries(path_value: &str) -> (r: Vec<String>)
    ensures
        views(r@) == path_entries_spec(split_on(path_value@, ';')),
{
    let parts = split_chars(path_value, ';');
    let ghost ps = char_views(parts@);
    let mut out: Vec<String> = Vec::new();
    let mut i: usize = 0;
    while i < parts.len()
        invariant
            ps == char_views(parts@),
            i <= parts@.len(),
            views(out@) == path_entries_spec(ps.take(i as int)),
        decreases parts@.len() - i,
    {
        proof {
            assert(ps.take(i + 1).drop_last() =~= ps.take(i as int));
            assert(ps.take(i + 1).last() == parts@[i as int]@);
        }
        let s = string_of(parts[i].as_slice());
        let t = crate::strings::trim_chars(s.as_str());
        if t.len() > 0 {
            let e = string_of(t.as_slice());
            proof {
                assert(views(out@.push(e)) =~= views(out@).push(e@));
            }
            out.push(e);
        }
        i += 1;
    }
    proof {
        assert(ps.take(ps.len() as int) =~= ps);
    }
    out
}

/// The file names to look for in each runtime `PATH` directory: none unless
/// the program is a single path component; else its launch candidates, then
/// the program itself.
pub open spec fn runtime_names_spec(program: Seq<char>, exts: Seq<Seq<char>>) -> Seq<Seq<char>> {
    if components(program, PathStyle::Windows).len() != 1 {
        Seq::empty()
    } else {
        launch_candidates_spec(program, exts).push(program)
    }
}

pub fn windows_runtime_program_names(program: &str, extensions: &[String]) -> (r: Vec<String>)
    ensures
        views(r@) == runtime_names_spec(program@, views(extensions@)),
{
    let (_, comps) = path_components(program, PathStyle::Windows);
    proof {
        assert(comps@.map_values(|c: Vec<char>| c@).len() == comps@.len());
    }
    if comps.len() != 1 {
        let empty: Vec<String> = Vec::new();
        proof {
            assert(views(empty@) =~= Seq::empty());
        }
        return empty;
    }
    let mut names = windows_launch_program_candidates(program, extensions);
    let p = owned(program);
    proof {
        assert(views(names@.push(p)) =~= views(names@).push(p@));
    }
    names.push(p);
    names
}

/// Whether a Windows path is a bare drive such as `C:`.
pub open spec fn is_bare_drive(dir: Seq<char>) -> bool {
    dir.len() == 2 && dir[1] == ':' && (('a' <= dir[0] && dir[0] <= 'z') || ('A' <= dir[0] && dir[0] <= 'Z'))
}

/// `Path::join` of a file name onto a Windows directory: a `\` goes
/// between them unless the directory is empty, is a bare drive or already
/// ends in a separator.
pub open spec fn windows_join_spec(dir: Seq<char>, name: Seq<char>) -> Seq<char> {
    if dir.len() == 0 || is_bare_drive(dir) || dir.last() == '\\' || dir.last() == '/' {
        dir + name
    } else {
        dir + "\\"@ + name
    }
}

/// Every name joined onto every directory, directory by directory.
pub open spec fn joined_paths_spec(dirs: Seq<Seq<char>>, names: Seq<Seq<char>>) -> Seq<Seq<char>>
    decreases dirs.len(),
{
    if dirs.len() == 0 {
        Seq::empty()
    } else {
        joined_paths_spec(dirs.drop_last(), names) + names.map_values(|n: Seq<char>| windows_join_spec(dirs.last(), n))
    }
}

/// The first occurrence of each value, in order.
pub open spec fn first_occurrences(s: Seq<Seq<char>>) -> Seq<Seq<char>>
    decreases s.len(),
{
    if s.len() == 0 {
        Seq::empty()
    } else {
        let r = first_occurrences(s.drop_last());
        if r.contains(s.last()) {
            r
        } else {
            r.push(s.last())
        }
    }
}

fn windows_join(dir: &str, name: &str) -> (r: String)
    ensures
        r@ == windows_join_spec(dir@, name@),
{
    let cs = chars_of(dir);
    let bare_drive = cs.len() == 2 && cs[1] == ':' && (('a' <= cs[0] && cs[0] <= 'z') || ('A' <= cs[0]
        && cs[0] <= 'Z'));
    if cs.len() == 0 || bare_drive || cs[cs.len() - 1] == '\\' || cs[cs.len() - 1] == '/' {
        concat2(dir, name)
    } else {
        concat3(dir, "\\", name)
    }
}

/// The paths where a runtime's program may lie: each name joined onto each
/// `PATH` directory of the runtime, each path once. The caller keeps those
/// that are files.
pub fn windows_runtime_candidate_paths(names: &[String], directories: &[String]) -> (r: Vec<String>)
    ensures
        views(r@) == first_occurrences(joined_paths_spec(views(directories@), views(names@))),
{
    let ghost nv = views(names@);
    let ghost dv = views(directories@);
    let mut out: Vec<String> = Vec::new();
    let ghost mut done: Seq<Seq<char>> = Seq::empty();
    let mut d: usize = 0;
    proof {
        assert(dv.take(0) =~= Seq::<Seq<char>>::empty());
    }
    while d < directories.len()
        invariant
            nv == views(names@),
            dv == views(directories@),
            d <= directories@.len(),
            done == joined_paths_spec(dv.take(d as int), nv),
            views(out@) == first_occurrences(done),
        decreases directories@.len() - d,
    {
        let ghost row = nv.map_values(|n: Seq<char>| windows_join_spec(dv[d as int], n));
        let mut k: usize = 0;
        proof {
            assert(done + row.take(0) =~= done);
        }
        while k < names.len()
            invariant
                nv == views(names@),
                dv == views(directories@),
                d < directories@.len(),
                k <= names@.len(),
                row == nv.map_values(|n: Seq<char>| windows_join_spec(dv[d as int], n)),
                views(out@) == first_occurrences(done + row.take(k as int)),
            decreases names@.len() - k,
        {
            let c = windows_join(directories[d].as_str(), names[k].as_str());
            proof {
                assert((done + row.take(k + 1)).drop_last() =~= done + row.take(k as int));
                assert((done + row.take(k + 1)).last() == c@);
            }
            if !contains_string(&out, c.as_str()) {
                proof {
                    assert(views(out@.push(c)) =~= views(out@).push(c@));
                }
                out.push(c);
            }
            k += 1;
        }
        proof {
            assert(row.take(row.len() as int) =~= row);
            assert(dv.take(d + 1).drop_last() =~= dv.take(d as int));
            assert(dv.take(d + 1).last() == dv[d as int]);
            done = done + row;
        }
        d += 1;
    }
    proof {
        assert(dv.take(dv.len() as int) =~= dv);
    }
    out
}


/// Where `nvm` lives: `NVM_HOME` when set, else `nvm` under `APPDATA`.
/// Each argument is the variable's effective value.
pub open spec fn nvm_home_spec(nvm_home: Option<Seq<char>>, appdata: Option<Seq<char>>) -> Option<Seq<char>> {
    match nvm_home {
        Some(h) => Some(h),
        None => match appdata {
            Some(a) => Some(windows_join_spec(a, "nvm"@)),
            None => None,
        },
    }
}

pub fn windows_nvm_home(nvm_home: Option<&str>, appdata: Option<&str>) -> (r: Option<String>)
    ensures
        crate::types::opt_view(r) == nvm_home_spec(
            crate::notify::opt_str(nvm_home),
            crate::notify::opt_str(appdata),
        ),
{
    match nvm_home {
        Some(h) => Some(owned(h)),
        None => match appdata {
            Some(a) => Some(windows_join(a, "nvm")),
            None => None,
        },
    }
}

/// The directories under the `nvm` home where the current version may be
/// installed, in the order they are tried.
pub fn windows_nvm_node_dir_candidates(nvm_home: &str, version: &str) -> (r: Vec<String>)
    ensures
        views(r@) == nvm_dir_candidates_spec(version@).map_values(|c: Seq<char>| windows_join_spec(nvm_home@, c)),
{
    let names = windows_nvm_version_dir_candidates(version);
    proof {
        assert(views(names@).len() == names@.len());
        assert(nvm_dir_candidates_spec(version@).len() == 2);
    }
    let first = windows_join(nvm_home, names[0].as_str());
    let second = windows_join(nvm_home, names[1].as_str());
    let mut out: Vec<String> = Vec::new();
    out.push(first);
    out.push(second);
    proof {
        assert(views(out@) =~= nvm_dir_candidates_spec(version@).map_values(
            |c: Seq<char>| windows_join_spec(nvm_home@, c),
        ));
    }
    out
}

/// The environment an `nvm`-managed launch adds: the version's directory as
/// `PATH`, the `nvm` home, and `NVM_SYMLINK` when it has a value.
pub open spec fn nvm_environment_spec(
    node_dir: Seq<char>,
    nvm_home: Seq<char>,
    nvm_symlink: Option<Seq<char>>,
) -> Seq<(Seq<char>, Seq<char>)> {
    let base = seq![("PATH"@, node_dir), ("NVM_HOME"@, nvm_home)];
    match nvm_symlink {
        Some(l) => base.push(("NVM_SYMLINK"@, l)),
        None => base,
    }
}

pub fn windows_nvm_environment(node_dir: &str, nvm_home: &str, nvm_symlink: Option<&str>) -> (r: Vec<
    (String, String),
>)
    ensures
        pair_views(r@) == nvm_environment_spec(node_dir@, nvm_home@, crate::notify::opt_str(nvm_symlink)),
{
    let mut out: Vec<(String, String)> = Vec::new();
    out.push((owned("PATH"), owned(node_dir)));
    out.push((owned("NVM_HOME"), owned(nvm_home)));
    match nvm_symlink {
        Some(l) => out.push((owned("NVM_SYMLINK"), owned(l))),
        None => {},
    }
    proof {
        assert(pair_views(out@) =~= nvm_environment_spec(node_dir@, nvm_home@, crate::notify::opt_str(nvm_symlink)));
    }
    out
}

} // verus!
