//! Resolve and verify the child binary `stowe run` is about to execute.
//!
//! Verification gates, in order:
//!   1. Resolve via `/usr/bin/which` (or accept paths containing `/`).
//!   2. Reject if the resolved path is inside an excluded build directory
//!      (`node_modules/`, `.venv/`, `venv/`, `target/`, `build/`, `dist/`, `.next/`).
//!   3. Reject if `policy.allowed_binaries` is non-empty and the basename is
//!      not in the list.
//!   4. Reject an unsigned binary unless `policy.allow_unsigned`.
use vstd::prelude::*;
use vstd::string::*;

use crate::manifest::Policy;
use crate::text::{
    chars_of, contains_char, debug_str, debug_strings, str_debug_text, str_eq, string_of,
    strings_debug_text, trim, trimmed, views,
};

verus! {

/// `p` cut at every `/`, empty pieces included.
pub open spec fn split_slash(p: Seq<char>) -> Seq<Seq<char>>
    decreases p.len(),
{
    if p.len() == 0 {
        seq![Seq::<char>::empty()]
    } else {
        let rest = split_slash(p.drop_last());
        if p.last() == '/' {
            rest.push(Seq::<char>::empty())
        } else {
            rest.update(rest.len() - 1, rest.last().push(p.last()))
        }
    }
}

proof fn lemma_split_slash_nonempty(p: Seq<char>)
    ensures
        split_slash(p).len() > 0,
    decreases p.len(),
{
    if p.len() > 0 {
        lemma_split_slash_nonempty(p.drop_last());
    }
}

/// Whether a piece of a path is a named component (not empty, not `.`).
pub open spec fn is_named(s: Seq<char>) -> bool {
    s.len() > 0 && s != seq!['.']
}

/// The named components of a Unix path, as `Path::components` yields them
/// once the root, `.` and repeated separators are set aside.
pub open spec fn components(p: Seq<char>) -> Seq<Seq<char>> {
    split_slash(p).filter(|s: Seq<char>| is_named(s))
}

/// The build directories a binary must not be run from.
pub open spec fn is_excluded_dir(s: Seq<char>) -> bool {
    s == "node_modules"@ || s == ".venv"@ || s == "venv"@ || s == "target"@ || s == "build"@ || s
        == "dist"@ || s == ".next"@
}

/// The first component of `comps` that is an excluded directory.
pub open spec fn first_excluded(comps: Seq<Seq<char>>) -> Option<Seq<char>>
    decreases comps.len(),
{
    if comps.len() == 0 {
        None
    } else if is_excluded_dir(comps[0]) {
        Some(comps[0])
    } else {
        first_excluded(comps.drop_first())
    }
}

/// The file name of a path (`Path::file_name`), or empty when it has none
/// (no named component, or a last component of `..`).
pub open spec fn basename(p: Seq<char>) -> Seq<char> {
    let c = components(p);
    if c.len() == 0 || c.last() == ".."@ {
        Seq::empty()
    } else {
        c.last()
    }
}

/// The named components of `path`.
pub fn path_components(path: &str) -> (c: Vec<String>)
    ensures
        views(c@) == components(path@),
{
    let v = chars_of(path);
    // pieces cut at '/', the last still growing
    let mut done: Vec<String> = Vec::new();
    let mut cur: Vec<char> = Vec::new();
    let ghost pred = |s: Seq<char>| is_named(s);
    let mut i: usize = 0;
    proof {
        lemma_split_slash_nonempty(v@.take(0));
    }
    assert(v@.take(0) =~= Seq::<char>::empty());
    assert(split_slash(v@.take(0)).drop_last() =~= Seq::<Seq<char>>::empty());
    assert(Seq::<Seq<char>>::empty().filter(pred) =~= Seq::<Seq<char>>::empty()) by {
        reveal(Seq::filter);
    }
    while i < v.len()
        invariant
            i <= v@.len(),
            v@ == path@,
            pred == (|s: Seq<char>| is_named(s)),
            split_slash(v@.take(i as int)).len() > 0,
            split_slash(v@.take(i as int)).last() == cur@,
            views(done@) == split_slash(v@.take(i as int)).drop_last().filter(pred),
        decreases v.len() - i,
    {
        let ghost prev = split_slash(v@.take(i as int));
        assert(v@.take(i + 1).drop_last() =~= v@.take(i as int));
        assert(v@.take(i + 1).last() == v@[i as int]);
        if v[i] == '/' {
            let piece = string_of(&cur);
            let ghost before = views(done@);
            assert(prev.push(Seq::<char>::empty()).drop_last() =~= prev);
            assert(prev =~= prev.drop_last().push(cur@));
            assert(prev.filter(pred) == if pred(cur@) {
                before.push(cur@)
            } else {
                before
            }) by {
                reveal(Seq::filter);
            }
            if cur.len() > 0 && !(cur.len() == 1 && cur[0] == '.') {
                done.push(piece);
                assert(views(done@) =~= before.push(cur@));
            } else {
                assert(!pred(cur@)) by {
                    if cur@.len() == 1 && cur@[0] == '.' {
                        assert(cur@ =~= seq!['.']);
                    }
                }
            }
            cur = Vec::new();
            assert(split_slash(v@.take(i + 1)) == prev.push(Seq::<char>::empty()));
        } else {
            let c = v[i];
            cur.push(c);
            assert(split_slash(v@.take(i + 1)) == prev.update(prev.len() - 1, prev.last().push(c)));
            assert(prev.update(prev.len() - 1, prev.last().push(c)).drop_last() =~= prev.drop_last());
        }
        i = i + 1;
    }
    assert(v@.take(v@.len() as int) =~= v@);
    let ghost all = split_slash(v@);
    let ghost before = views(done@);
    assert(all =~= all.drop_last().push(cur@));
    assert(all.filter(pred) == if pred(cur@) {
        before.push(cur@)
    } else {
        before
    }) by {
        reveal(Seq::filter);
    }
    if cur.len() > 0 && !(cur.len() == 1 && cur[0] == '.') {
        let piece = string_of(&cur);
        done.push(piece);
        assert(views(done@) =~= before.push(cur@));
    } else {
        assert(!pred(cur@)) by {
            if cur@.len() == 1 && cur@[0] == '.' {
                assert(cur@ =~= seq!['.']);
            }
        }
    }
    done
}

/// The excluded directory named `s`, if `s` names one.
fn excluded_name(s: &str) -> (r: Option<&'static str>)
    ensures
        r matches Some(d) ==> d@ == s@ && is_excluded_dir(s@),
        r is None ==> !is_excluded_dir(s@),
{
    if str_eq(s, "node_modules") {
        Some("node_modules")
    } else if str_eq(s, ".venv") {
        Some(".venv")
    } else if str_eq(s, "venv") {
        Some("venv")
    } else if str_eq(s, "target") {
        Some("target")
    } else if str_eq(s, "build") {
        Some("build")
    } else if str_eq(s, "dist") {
        Some("dist")
    } else if str_eq(s, ".next") {
        Some(".next")
    } else {
        None
    }
}

/// The named components of the directories holding `p`: every component but
/// the file name.
pub open spec fn dir_components(p: Seq<char>) -> Seq<Seq<char>> {
    let c = components(p);
    if c.len() == 0 {
        c
    } else {
        c.drop_last()
    }
}

/// Returns the first path component, in path order and the file name
/// included, that is an excluded build directory's name.
pub fn excluded_path_component(path: &str) -> (r: Option<&'static str>)
    ensures
        match first_excluded(components(path@)) {
            Some(d) => r matches Some(x) && x@ == d,
            None => r is None,
        },
{
    let comps = path_components(path);
    assert(views(comps@).take(comps@.len() as int) =~= views(comps@));
    first_excluded_of(&comps, comps.len())
}

/// Returns the first directory the path lies inside that is an excluded build
/// directory: the file name is left out, so a binary merely named like one
/// (`build`) is not inside one.
pub fn excluded_dir_component(path: &str) -> (r: Option<&'static str>)
    ensures
        match first_excluded(dir_components(path@)) {
            Some(d) => r matches Some(x) && x@ == d,
            None => r is None,
        },
{
    let comps = path_components(path);
    let n: usize = if comps.len() == 0 {
        0
    } else {
        comps.len() - 1
    };
    assert(dir_components(path@) =~= views(comps@).take(n as int));
    first_excluded_of(&comps, n)
}

/// The first of the first `n` of `comps` that is an excluded directory's name.
fn first_excluded_of(comps: &Vec<String>, n: usize) -> (r: Option<&'static str>)
    requires
        n <= comps@.len(),
    ensures
        match first_excluded(views(comps@).take(n as int)) {
            Some(d) => r matches Some(x) && x@ == d,
            None => r is None,
        },
{
    let ghost ds = views(comps@).take(n as int);
    let mut i: usize = 0;
    assert(ds.skip(0) =~= ds);
    while i < n
        invariant
            i <= n,
            n <= comps@.len(),
            ds == views(comps@).take(n as int),
            first_excluded(ds) == first_excluded(ds.skip(i as int)),
        decreases n - i,
    {
        assert(ds.skip(i as int)[0] == comps@[i as int]@);
        assert(ds.skip(i as int).drop_first() =~= ds.skip(i + 1));
        match excluded_name(comps[i].as_str()) {
            Some(d) => {
                return Some(d);
            },
            None => {},
        }
        i = i + 1;
    }
    assert(ds.skip(n as int) =~= Seq::<Seq<char>>::empty());
    None
}

/// The file name of `path`, or empty when it has none.
pub fn file_name(path: &str) -> (b: String)
    ensures
        b@ == basename(path@),
{
    let comps = path_components(path);
    if comps.len() == 0 {
        return String::new();
    }
    let last = comps[comps.len() - 1].clone();
    if str_eq(last.as_str(), "..") {
        return String::new();
    }
    assert(views(comps@).last() == last@);
    last
}

#[derive(Debug)]
pub struct VerifiedBinary {
    pub resolved_path: String,
    pub args: Vec<String>,
}

#[derive(Debug)]
pub enum DenialReason {
    /// Path is inside a build dir like `node_modules/`.
    ExcludedPath { path: String, dir: String },
    /// `policy.allowed_binaries` is non-empty and the basename isn't in it.
    NotInAllowlist { basename: String, allowlist: Vec<String> },
    /// Binary is unsigned and `policy.allow_unsigned` is false.
    Unsigned { path: String },
}

impl DenialReason {
    /// The explanation shown to the user and written to the audit log.
    pub open spec fn message_text(&self) -> Seq<char> {
        match self {
            DenialReason::ExcludedPath { path, dir } => "binary path "@ + str_debug_text(path@)
                + " is inside excluded build directory "@ + dir@ + "/"@,
            DenialReason::NotInAllowlist { basename, allowlist } => "binary "@ + str_debug_text(
                basename@,
            ) + " not in allowed_binaries "@ + strings_debug_text(views(allowlist@)),
            DenialReason::Unsigned { path } => "binary "@ + str_debug_text(path@)
                + " is not codesigned (set policy.allow_unsigned=true to override)"@,
        }
    }

    pub fn human_message(&self) -> (m: String)
        ensures
            m@ == self.message_text(),
    {
        let mut m = String::new();
        match self {
            DenialReason::ExcludedPath { path, dir } => {
                m.append("binary path ");
                let d = debug_str(path.as_str());
                m.append(d.as_str());
                m.append(" is inside excluded build directory ");
                m.append(dir.as_str());
                m.append("/");
            },
            DenialReason::NotInAllowlist { basename, allowlist } => {
                m.append("binary ");
                let d = debug_str(basename.as_str());
                m.append(d.as_str());
                m.append(" not in allowed_binaries ");
                let l = debug_strings(allowlist);
                m.append(l.as_str());
            },
            DenialReason::Unsigned { path } => {
                m.append("binary ");
                let d = debug_str(path.as_str());
                m.append(d.as_str());
                m.append(" is not codesigned (set policy.allow_unsigned=true to override)");
            },
        }
        m
    }

    /// The path the audit log records for this denial.
    pub fn audited_binary(&self) -> (b: String)
        ensures
            b@ == match self {
                DenialReason::ExcludedPath { path, .. } => path@,
                DenialReason::NotInAllowlist { basename, .. } => basename@,
                DenialReason::Unsigned { path } => path@,
            },
    {
        match self {
            DenialReason::ExcludedPath { path, .. } => path.clone(),
            DenialReason::NotInAllowlist { basename, .. } => basename.clone(),
            DenialReason::Unsigned { path } => path.clone(),
        }
    }
}

/// A copy of a list of strings.
pub fn clone_strings(v: &Vec<String>) -> (c: Vec<String>)
    ensures
        c@ == v@,
{
    let mut c: Vec<String> = Vec::new();
    let mut i: usize = 0;
    while i < v.len()
        invariant
            i <= v@.len(),
            c@ == v@.take(i as int),
        decreases v.len() - i,
    {
        c.push(v[i].clone());
        assert(c@ =~= v@.take(i + 1));
        i = i + 1;
    }
    assert(v@.take(v@.len() as int) =~= v@);
    c
}

/// Where verification of a binary stands.
#[derive(Debug)]
pub enum Verdict {
    /// The binary may run.
    Verified(VerifiedBinary),
    /// The binary is refused.
    Denied(DenialReason),
    /// The policy asks for a signature and none was supplied: run `codesign`
    /// and verify again with its answer.
    NeedsCodesign,
}

/// `s` is one of `list`.
pub open spec fn listed(list: Seq<Seq<char>>, s: Seq<char>) -> bool {
    exists|i: int| 0 <= i < list.len() && list[i] == s
}

fn is_listed(list: &Vec<String>, s: &str) -> (b: bool)
    ensures
        b == listed(views(list@), s@),
{
    let mut i: usize = 0;
    while i < list.len()
        invariant
            i <= list@.len(),
            forall|j: int| 0 <= j < i ==> list@[j]@ != s@,
        decreases list.len() - i,
    {
        if str_eq(list[i].as_str(), s) {
            assert(views(list@)[i as int] == s@);
            return true;
        }
        i = i + 1;
    }
    assert forall|j: int| 0 <= j < list@.len() implies views(list@)[j] != s@ by {
        assert(views(list@)[j] == list@[j]@);
    }
    false
}

/// Verify a resolved binary against `policy`. `signed` is what `codesign` said
/// of the binary, when it has been asked; it is consulted only when the policy
/// refuses unsigned binaries and the path and allowlist checks have passed.
pub fn verify(resolved_path: String, args: Vec<String>, policy: &Policy, signed: Option<bool>) -> (v:
    Verdict)
    ensures
        first_excluded(dir_components(resolved_path@)) matches Some(d) ==> v matches Verdict::Denied(
            DenialReason::ExcludedPath { path, dir },
        ) && path@ == resolved_path@ && dir@ == d,
        first_excluded(dir_components(resolved_path@)) is None && policy.allowed_binaries@.len() > 0
            && !listed(views(policy.allowed_binaries@), basename(resolved_path@)) ==> (v matches Verdict::Denied(
            DenialReason::NotInAllowlist { basename: b, allowlist },
        ) && b@ == basename(resolved_path@) && allowlist@ == policy.allowed_binaries@),
        first_excluded(dir_components(resolved_path@)) is None && (policy.allowed_binaries@.len() == 0
            || listed(views(policy.allowed_binaries@), basename(resolved_path@))) ==> (if policy.allow_unsigned
            || signed == Some(true) {
            v matches Verdict::Verified(b) && b.resolved_path@ == resolved_path@ && b.args@ == args@
        } else if signed == Some(false) {
            v matches Verdict::Denied(DenialReason::Unsigned { path }) && path@ == resolved_path@
        } else {
            v is NeedsCodesign
        }),
{
    match excluded_dir_component(resolved_path.as_str()) {
        Some(dir) => {
            return Verdict::Denied(
                DenialReason::ExcludedPath { path: resolved_path, dir: dir.to_owned() },
            );
        },
        None => {},
    }
    if policy.allowed_binaries.len() > 0 {
        let base = file_name(resolved_path.as_str());
        if !is_listed(&policy.allowed_binaries, base.as_str()) {
            let allowlist = clone_strings(&policy.allowed_binaries);
            return Verdict::Denied(DenialReason::NotInAllowlist { basename: base, allowlist });
        }
    }
    if !policy.allow_unsigned {
        match signed {
            None => {
                return Verdict::NeedsCodesign;
            },
            Some(false) => {
                return Verdict::Denied(DenialReason::Unsigned { path: resolved_path });
            },
            Some(true) => {},
        }
    }
    Verdict::Verified(VerifiedBinary { resolved_path, args })
}

/// Why a binary name could not be resolved.
#[derive(Debug)]
pub enum ResolveError {
    /// `which` did not find it.
    NotInPath { name: String },
    /// `which` printed a path that is not UTF-8.
    NonUtf8Path { name: String },
    /// `which` printed nothing but whitespace.
    EmptyPath { name: String },
}

impl ResolveError {
    pub open spec fn message_text(&self) -> Seq<char> {
        match self {
            ResolveError::NotInPath { name } => "binary not found in PATH: "@ + name@,
            ResolveError::NonUtf8Path { name } => "non-UTF-8 path for `"@ + name@ + "`"@,
            ResolveError::EmptyPath { name } => "which returned empty path for "@ + name@,
        }
    }

    pub fn message(&self) -> (m: String)
        ensures
            m@ == self.message_text(),
    {
        let mut m = String::new();
        match self {
            ResolveError::NotInPath { name } => {
                m.append("binary not found in PATH: ");
                m.append(name.as_str());
            },
            ResolveError::NonUtf8Path { name } => {
                m.append("non-UTF-8 path for `");
                m.append(name.as_str());
                m.append("`");
            },
            ResolveError::EmptyPath { name } => {
                m.append("which returned empty path for ");
                m.append(name.as_str());
            },
        }
        m
    }
}

/// A name holding `/` is a path already and is used as written; any other
/// name must be looked up with `which`.
pub fn resolve_direct(name: &str) -> (r: Option<String>)
    ensures
        name@.contains('/') <==> r is Some,
        r matches Some(p) ==> p@ == name@,
{
    if contains_char(name, '/') {
        Some(name.to_owned())
    } else {
        None
    }
}

/// The path `which name` reported: `succeeded` is whether it exited with
/// success, `stdout` its output when that is UTF-8.
pub fn resolve_from_which(name: &str, succeeded: bool, stdout: Option<String>) -> (r: Result<
    String,
    ResolveError,
>)
    ensures
        !succeeded ==> (r matches Err(ResolveError::NotInPath { name: n }) && n@ == name@),
        succeeded && stdout is None ==> (r matches Err(ResolveError::NonUtf8Path { name: n }) && n@
            == name@),
        succeeded ==> (stdout matches Some(out) ==> if trimmed(out@).len() == 0 {
            r matches Err(ResolveError::EmptyPath { name: n }) && n@ == name@
        } else {
            r matches Ok(p) && p@ == trimmed(out@)
        }),
{
    if !succeeded {
        return Err(ResolveError::NotInPath { name: name.to_owned() });
    }
    match stdout {
        None => Err(ResolveError::NonUtf8Path { name: name.to_owned() }),
        Some(out) => {
            let t = trim(out.as_str());
            if t.as_str().is_empty() {
                Err(ResolveError::EmptyPath { name: name.to_owned() })
            } else {
                Ok(t)
            }
        },
    }
}

} // verus!
