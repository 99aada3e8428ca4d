//! The per-project manifest (`stowe.toml`): namespace, declared variables and
//! run policy, and the places a manifest is searched for.
use vstd::prelude::*;
use vstd::string::*;

use crate::error::{Error, Result};
use crate::text::{chars_of, str_eq, string_of};

verus! {

/// The file name of a manifest.
pub open spec fn manifest_filename() -> Seq<char> {
    seq!['s', 't', 'o', 'w', 'e', '.', 't', 'o', 'm', 'l']
}

#[derive(Debug, Clone)]
pub struct VarSpec {
    pub required: bool,
    pub description: Option<String>,
}

impl VarSpec {
    pub fn default() -> (v: Self)
        ensures
            !v.required,
            v.description is None,
    {
        VarSpec { required: false, description: None }
    }
}

/// Whether reading a secret asks for Touch ID (or the device passcode) each time.
#[derive(Clone, Copy, Debug, PartialEq, Eq, Structural)]
pub enum BiometricMode {
    Always,
    Never,
}

impl BiometricMode {
    /// The mode named `text`: `always` or `never`.
    pub fn parse(text: &str) -> (m: Option<BiometricMode>)
        ensures
            text@ == "always"@ <==> m == Some(BiometricMode::Always),
            text@ == "never"@ <==> m == Some(BiometricMode::Never),
            m is None <==> text@ != "always"@ && text@ != "never"@,
    {
        proof {
            reveal_strlit("always");
            reveal_strlit("never");
            assert("always"@ != "never"@) by {
                assert("always"@[0] != "never"@[0]);
            }
        }
        if str_eq(text, "always") {
            Some(BiometricMode::Always)
        } else if str_eq(text, "never") {
            Some(BiometricMode::Never)
        } else {
            None
        }
    }
}

/// Allowlists for the optional `sandbox-exec` profile.
#[derive(Debug, Clone)]
pub struct SandboxPolicy {
    pub enabled: bool,
    pub network_allow: Vec<String>,
    pub fs_write_allow: Vec<String>,
}

impl SandboxPolicy {
    /// Sandbox off, nothing allowed beyond the baseline.
    pub fn default() -> (p: Self)
        ensures
            !p.enabled,
            p.network_allow@.len() == 0,
            p.fs_write_allow@.len() == 0,
    {
        SandboxPolicy { enabled: false, network_allow: Vec::new(), fs_write_allow: Vec::new() }
    }
}

/// Which binaries may receive a project's secrets, and how.
#[derive(Debug, Clone)]
pub struct Policy {
    pub biometric: BiometricMode,
    /// Basenames allowed to run; empty means any.
    pub allowed_binaries: Vec<String>,
    pub allow_unsigned: bool,
    pub sandbox: SandboxPolicy,
}

impl Policy {
    /// No Touch ID, any basename, signed binaries only, sandbox off.
    pub fn default() -> (p: Self)
        ensures
            p.biometric == BiometricMode::Never,
            p.allowed_binaries@.len() == 0,
            !p.allow_unsigned,
            !p.sandbox.enabled,
            p.sandbox.network_allow@.len() == 0,
            p.sandbox.fs_write_allow@.len() == 0,
    {
        Policy {
            biometric: BiometricMode::Never,
            allowed_binaries: Vec::new(),
            allow_unsigned: false,
            sandbox: SandboxPolicy::default(),
        }
    }
}

/// Per-project manifest. `vars` are the declared variables in the order
/// the manifest declares them.
#[derive(Debug, Clone)]
pub struct Manifest {
    pub namespace: String,
    pub vars: Vec<(String, VarSpec)>,
    pub policy: Policy,
}

/// Names of the variables marked required, in declaration order.
pub open spec fn required_names(vars: Seq<(String, VarSpec)>) -> Seq<Seq<char>>
    decreases vars.len(),
{
    if vars.len() == 0 {
        Seq::empty()
    } else {
        let rest = required_names(vars.drop_last());
        if vars.last().1.required {
            rest.push(vars.last().0@)
        } else {
            rest
        }
    }
}

/// The names of the declared variables, in order.
pub open spec fn var_names(vars: Seq<(String, VarSpec)>) -> Seq<Seq<char>> {
    vars.map_values(|v: (String, VarSpec)| v.0@)
}

/// Whether no name is declared twice.
fn names_unique(vars: &Vec<(String, VarSpec)>) -> (b: bool)
    ensures
        b == distinct_names(var_names(vars@)),
{
    let ghost ns = var_names(vars@);
    let mut j: usize = 0;
    while j < vars.len()
        invariant
            j <= vars@.len(),
            ns == var_names(vars@),
            forall|a: int, b: int| 0 <= a < b < j ==> #[trigger] ns[a] != #[trigger] ns[b],
        decreases vars.len() - j,
    {
        let mut i: usize = 0;
        while i < j
            invariant
                i <= j < vars@.len(),
                ns == var_names(vars@),
                forall|a: int, b: int| 0 <= a < b < j ==> #[trigger] ns[a] != #[trigger] ns[b],
                forall|a: int| 0 <= a < i ==> #[trigger] ns[a] != ns[j as int],
            decreases j - i,
        {
            assert(ns[i as int] == vars@[i as int].0@);
            assert(ns[j as int] == vars@[j as int].0@);
            if str_eq(vars[i].0.as_str(), vars[j].0.as_str()) {
                assert(!distinct_names(ns)) by {
                    assert(ns[i as int] == ns[j as int]);
                }
                return false;
            }
            i = i + 1;
        }
        j = j + 1;
    }
    true
}

/// No name occurs twice in `names`.
pub open spec fn distinct_names(names: Seq<Seq<char>>) -> bool {
    forall|a: int, b: int| 0 <= a < b < names.len() ==> #[trigger] names[a] != #[trigger] names[b]
}

/// The message for a manifest declaring a variable twice.
pub open spec fn repeated_vars_text() -> Seq<char> {
    "manifest vars must be unique by name"@
}

/// The message for a manifest whose namespace is empty.
pub open spec fn empty_namespace_text() -> Seq<char> {
    "manifest namespace must be non-empty"@
}

impl Manifest {
    /// Each variable is declared once: what a manifest read from a file,
    /// whose variables form a table keyed by name, always satisfies.
    pub open spec fn vars_unique(&self) -> bool {
        distinct_names(var_names(self.vars@))
    }

    /// A manifest as read from a file: refused if its namespace is empty, or
    /// if a variable is declared twice. The variables keep their order.
    pub fn validated(self) -> (r: Result<Self>)
        ensures
            r is Ok <==> self.namespace@.len() > 0 && self.vars_unique(),
            r matches Ok(m) ==> m == self,
            self.namespace@.len() == 0 ==> (r matches Err(Error::Invalid(msg)) && msg@
                == empty_namespace_text()),
            self.namespace@.len() > 0 && !self.vars_unique() ==> (r matches Err(
                Error::Invalid(msg),
            ) && msg@ == repeated_vars_text()),
    {
        if self.namespace.as_str().is_empty() {
            let mut msg = String::new();
            msg.append("manifest namespace must be non-empty");
            return Err(Error::Invalid(msg));
        }
        if !names_unique(&self.vars) {
            let mut msg = String::new();
            msg.append("manifest vars must be unique by name");
            return Err(Error::Invalid(msg));
        }
        Ok(self)
    }

    /// Names of all variables marked `required = true`.
    pub fn required_vars(&self) -> (names: Vec<&str>)
        ensures
            names@.map_values(|s: &str| s@) == required_names(self.vars@),
    {
        let mut out: Vec<&str> = Vec::new();
        let mut i: usize = 0;
        while i < self.vars.len()
            invariant
                i <= self.vars@.len(),
                out@.map_values(|s: &str| s@) == required_names(self.vars@.take(i as int)),
            decreases self.vars.len() - i,
        {
            assert(self.vars@.take(i + 1).drop_last() =~= self.vars@.take(i as int));
            if self.vars[i].1.required {
                out.push(self.vars[i].0.as_str());
            }
            assert(out@.map_values(|s: &str| s@) =~= required_names(self.vars@.take(i + 1)));
            i = i + 1;
        }
        assert(self.vars@.take(self.vars@.len() as int) =~= self.vars@);
        out
    }
}

/// `p` is an absolute path in the form `canonicalize` gives: it starts with
/// `/`, has no empty component and no trailing `/` (but for `/` itself).
pub open spec fn is_canonical(p: Seq<char>) -> bool {
    &&& p.len() > 0
    &&& p[0] == '/'
    &&& p.len() > 1 ==> p.last() != '/'
    &&& forall|i: int| 0 <= i < p.len() - 1 && #[trigger] p[i] == '/' ==> p[i + 1] != '/'
}

/// The parent directory of a canonical path, as `Path::parent` gives it.
pub open spec fn parent_of(p: Seq<char>) -> Option<Seq<char>> {
    if p.len() <= 1 {
        None
    } else {
        let k = choose|k: int|
            0 <= k < p.len() && p[k] == '/' && forall|m: int| k < m < p.len() ==> p[m] != '/';
        if k == 0 {
            Some(seq!['/'])
        } else {
            Some(p.take(k))
        }
    }
}

/// Where a manifest in directory `dir` would be (`dir.join("stowe.toml")`).
pub open spec fn manifest_path_in(dir: Seq<char>) -> Seq<char> {
    if dir == seq!['/'] {
        dir + manifest_filename()
    } else {
        dir + seq!['/'] + manifest_filename()
    }
}

/// The manifest locations searched from `dir`: its own, then each ancestor's
/// up to the root.
pub open spec fn search_path(dir: Seq<char>) -> Seq<Seq<char>>
    decreases dir.len(),
{
    if dir.len() <= 1 {
        seq![manifest_path_in(dir)]
    } else {
        match parent_of(dir) {
            Some(q) => if q.len() < dir.len() {
                seq![manifest_path_in(dir)] + search_path(q)
            } else {
                seq![manifest_path_in(dir)]
            },
            None => seq![manifest_path_in(dir)],
        }
    }
}

/// Position of the last `/` in `v`, which starts with one.
fn last_slash(v: &Vec<char>) -> (k: usize)
    requires
        v@.len() > 0,
        v@[0] == '/',
    ensures
        k < v@.len(),
        v@[k as int] == '/',
        forall|m: int| k < m < v@.len() ==> v@[m] != '/',
{
    let mut k: usize = v.len() - 1;
    while v[k] != '/'
        invariant
            k < v@.len(),
            v@[0] == '/',
            forall|m: int| k < m < v@.len() ==> v@[m] != '/',
        decreases k,
    {
        k = k - 1;
    }
    k
}

impl Manifest {
    /// The places, in search order, where `find_from` looks for a manifest
    /// when starting from the canonical directory `start`: `start/stowe.toml`,
    /// then the same in each ancestor, ending with `/stowe.toml`.
    pub fn search_candidates(start: &str) -> (c: Vec<String>)
        requires
            is_canonical(start@),
        ensures
            crate::text::views(c@) == search_path(start@),
    {
        let mut dir = chars_of(start);
        let mut out: Vec<String> = Vec::new();
        let ghost first = start@;
        loop
            invariant
                dir@.len() > 0,
                dir@[0] == '/',
                first == start@,
                crate::text::views(out@) + search_path(dir@) == search_path(first),
            decreases dir@.len(),
        {
            let mut path = string_of(&dir);
            if dir.len() == 1 {
                path.append("stowe.toml");
                assert(path@ == manifest_path_in(dir@)) by {
                    assert(dir@ =~= seq!['/']);
                    reveal_strlit("stowe.toml");
                }
            } else {
                path.append("/stowe.toml");
                assert(path@ == manifest_path_in(dir@)) by {
                    reveal_strlit("/stowe.toml");
                    assert(dir@ != seq!['/']);
                    assert(path@ =~= dir@ + seq!['/'] + manifest_filename());
                }
            }
            let ghost before = crate::text::views(out@);
            out.push(path);
            assert(crate::text::views(out@) =~= before.push(manifest_path_in(dir@)));
            if dir.len() == 1 {
                assert(search_path(dir@) == seq![manifest_path_in(dir@)]);
                assert(crate::text::views(out@) =~= before + search_path(dir@));
                return out;
            }
            let k = last_slash(&dir);
            let ghost kk = choose|k: int|
                0 <= k < dir@.len() && dir@[k] == '/' && forall|m: int|
                    k < m < dir@.len() ==> dir@[m] != '/';
            assert(kk == k as int) by {
                if kk < k {
                    assert(dir@[k as int] != '/');
                } else if kk > k {
                    assert(dir@[kk] != '/');
                }
            }
            let ghost old_dir = dir@;
            if k == 0 {
                let mut root: Vec<char> = Vec::new();
                root.push('/');
                dir = root;
                assert(parent_of(old_dir) == Some(dir@));
            } else {
                dir.truncate(k);
                assert(dir@ =~= old_dir.take(k as int));
                assert(parent_of(old_dir) == Some(dir@));
            }
            assert(search_path(old_dir) == seq![manifest_path_in(old_dir)] + search_path(dir@));
            assert(crate::text::views(out@) + search_path(dir@) =~= before + search_path(old_dir));
        }
    }
}

/// The next move of the upward search for a manifest.
#[derive(Debug)]
pub enum FindStep {
    /// Ask whether this path is a file.
    Probe(String),
    /// A manifest is at this path: load it.
    Found(String),
    /// No candidate up to the root is a file.
    Absent,
}

/// The first position of `probed` that holds `true`.
pub open spec fn first_true(probed: Seq<bool>) -> Option<int>
    decreases probed.len(),
{
    if probed.len() == 0 {
        None
    } else {
        match first_true(probed.drop_last()) {
            Some(k) => Some(k),
            None => if probed.last() {
                Some(probed.len() - 1)
            } else {
                None
            },
        }
    }
}

/// The search's next move when the candidates `cands` have been probed in
/// order with the answers `probed` (whether each is a file).
pub open spec fn find_step(cands: Seq<Seq<char>>, probed: Seq<bool>) -> FindStepModel {
    match first_true(probed) {
        Some(k) => if k < cands.len() {
            FindStepModel::Found(cands[k])
        } else {
            FindStepModel::Absent
        },
        None => if probed.len() < cands.len() {
            FindStepModel::Probe(cands[probed.len() as int])
        } else {
            FindStepModel::Absent
        },
    }
}

/// `FindStep` with its paths as character sequences.
pub enum FindStepModel {
    Probe(Seq<char>),
    Found(Seq<char>),
    Absent,
}

impl FindStep {
    pub open spec fn model(&self) -> FindStepModel {
        match self {
            FindStep::Probe(p) => FindStepModel::Probe(p@),
            FindStep::Found(p) => FindStepModel::Found(p@),
            FindStep::Absent => FindStepModel::Absent,
        }
    }
}

impl Manifest {
    /// One move of the walk from the canonical directory `start` upward
    /// looking for a `stowe.toml` file: `probed` holds the answers so far,
    /// in search order, to "is this candidate a file?". The first candidate
    /// that is a file is found; otherwise the next unprobed candidate is
    /// probed; when every candidate up to `/stowe.toml` was probed, there is none.
    pub fn find_from(start: &str, probed: &Vec<bool>) -> (s: FindStep)
        requires
            is_canonical(start@),
        ensures
            s.model() == find_step(search_path(start@), probed@),
    {
        let cands = Self::search_candidates(start);
        let ghost cs = crate::text::views(cands@);
        let mut i: usize = 0;
        while i < probed.len()
            invariant
                i <= probed@.len(),
                first_true(probed@.take(i as int)) is None,
                cs == crate::text::views(cands@),
                cs == search_path(start@),
            decreases probed.len() - i,
        {
            assert(probed@.take(i + 1).drop_last() =~= probed@.take(i as int));
            if probed[i] {
                assert(first_true(probed@.take(i + 1)) == Some(i as int));
                proof {
                    lemma_first_true_prefix(probed@, i + 1);
                }
                if i < cands.len() {
                    assert(cs[i as int] == cands@[i as int]@);
                    return FindStep::Found(cands[i].clone());
                } else {
                    return FindStep::Absent;
                }
            }
            i = i + 1;
        }
        assert(probed@.take(probed@.len() as int) =~= probed@);
        if probed.len() < cands.len() {
            assert(cs[probed@.len() as int] == cands@[probed@.len() as int]@);
            FindStep::Probe(cands[probed.len()].clone())
        } else {
            FindStep::Absent
        }
    }

    /// Like `find_from`, but the absence of any manifest is the error
    /// `ManifestNotFound` naming `start` as the caller gave it (`canonical` is
    /// its canonical form, from which the walk goes).
    pub fn find_from_or_err(start: &str, canonical: &str, probed: &Vec<bool>) -> (r: Result<FindStep>)
        requires
            is_canonical(canonical@),
        ensures
            find_step(search_path(canonical@), probed@) is Absent ==> (r matches Err(
                Error::ManifestNotFound { start: s },
            ) && s@ == start@),
            !(find_step(search_path(canonical@), probed@) is Absent) ==> (r matches Ok(st)
                && st.model() == find_step(search_path(canonical@), probed@)),
    {
        match Self::find_from(canonical, probed) {
            FindStep::Absent => Err(Error::ManifestNotFound { start: start.to_owned() }),
            st => Ok(st),
        }
    }
}

/// A `true` found in a prefix is the first `true` of the whole sequence.
proof fn lemma_first_true_prefix(probed: Seq<bool>, n: int)
    requires
        0 <= n <= probed.len(),
        first_true(probed.take(n)) is Some,
    ensures
        first_true(probed) == first_true(probed.take(n)),
    decreases probed.len() - n,
{
    if n < probed.len() {
        assert(probed.take(n + 1).drop_last() =~= probed.take(n));
        lemma_first_true_prefix(probed, n + 1);
    } else {
        assert(probed.take(n) =~= probed);
    }
}

/// The `[vars]` lines declaring each of `vars` required.
pub open spec fn required_lines(vars: Seq<Seq<char>>) -> Seq<char>
    decreases vars.len(),
{
    if vars.len() == 0 {
        Seq::empty()
    } else {
        required_lines(vars.drop_last()) + vars.last() + " = { required = true }\n"@
    }
}

/// The text of a new manifest for `namespace` declaring `vars` required.
pub open spec fn init_text(namespace: Seq<char>, vars: Seq<Seq<char>>) -> Seq<char> {
    "namespace = \""@ + namespace + "\"\n"@ + if vars.len() == 0 {
        Seq::empty()
    } else {
        "\n[vars]\n"@ + required_lines(vars)
    }
}

/// The body `stowe init` writes: the namespace, then a `[vars]` table marking
/// each entered variable required (no table when none was entered).
pub fn init_manifest_body(namespace: &str, vars: &Vec<String>) -> (body: String)
    ensures
        body@ == init_text(namespace@, crate::text::views(vars@)),
{
    let mut body = String::new();
    body.append("namespace = \"");
    body.append(namespace);
    body.append("\"\n");
    if vars.len() == 0 {
        assert(body@ =~= init_text(namespace@, crate::text::views(vars@)));
        return body;
    }
    let ghost head = body@;
    body.append("\n[vars]\n");
    let ghost table = body@;
    let mut i: usize = 0;
    assert(crate::text::views(vars@).take(0) =~= Seq::<Seq<char>>::empty());
    while i < vars.len()
        invariant
            i <= vars@.len(),
            body@ == table + required_lines(crate::text::views(vars@).take(i as int)),
        decreases vars.len() - i,
    {
        body.append(vars[i].as_str());
        body.append(" = { required = true }\n");
        let ghost vs = crate::text::views(vars@);
        assert(vs.take(i + 1).drop_last() =~= vs.take(i as int));
        assert(vs.take(i + 1).last() == vars@[i as int]@);
        assert(body@ =~= table + required_lines(vs.take(i + 1)));
        i = i + 1;
    }
    assert(crate::text::views(vars@).take(vars@.len() as int) =~= crate::text::views(vars@));
    assert(body@ =~= init_text(namespace@, crate::text::views(vars@)));
    body
}

/// The last `/` of `p` at or before `j`, when none follows `j`.
proof fn lemma_last_slash(p: Seq<char>, j: int) -> (k: int)
    requires
        0 <= j < p.len(),
        p[0] == '/',
        forall|m: int| j < m < p.len() ==> p[m] != '/',
    ensures
        0 <= k <= j,
        p[k] == '/',
        forall|m: int| k < m < p.len() ==> p[m] != '/',
    decreases j,
{
    if p[j] == '/' {
        j
    } else {
        lemma_last_slash(p, j - 1)
    }
}

/// The parent of a canonical path other than `/` is canonical and shorter.
proof fn lemma_parent_canonical(p: Seq<char>)
    requires
        is_canonical(p),
        p.len() > 1,
    ensures
        parent_of(p) matches Some(q) && is_canonical(q) && q.len() < p.len(),
{
    assert(p[0] == '/');
    let k = choose|k: int|
        0 <= k < p.len() && p[k] == '/' && forall|m: int| k < m < p.len() ==> p[m] != '/';
    let w = lemma_last_slash(p, p.len() - 1);
    assert(0 <= w < p.len() && p[w] == '/' && forall|m: int| w < m < p.len() ==> p[m] != '/');
    if k > 0 {
        let q = p.take(k);
        assert(q.len() > 0 && q[0] == '/');
        if q.len() > 1 {
            assert(p[k - 1] != '/') by {
                if p[k - 1] == '/' {
                    assert(0 <= k - 1 < p.len() - 1 && p[k - 1] == '/');
                }
            }
        }
        assert forall|i: int| 0 <= i < q.len() - 1 && #[trigger] q[i] == '/' implies q[i + 1] != '/' by {
            assert(p[i] == '/');
        }
    }
}

/// The search for a manifest starts in the directory itself and, going up
/// one parent at a time, ends with `/stowe.toml` at the root.
pub proof fn law_search_starts_here_ends_at_root(start: Seq<char>)
    requires
        is_canonical(start),
    ensures
        search_path(start).len() > 0,
        search_path(start)[0] == manifest_path_in(start),
        search_path(start).last() == manifest_path_in(seq!['/']),
    decreases start.len(),
{
    if start.len() <= 1 {
        assert(start =~= seq!['/']);
    } else {
        lemma_parent_canonical(start);
        let q = parent_of(start)->Some_0;
        law_search_starts_here_ends_at_root(q);
        assert(search_path(start) == seq![manifest_path_in(start)] + search_path(q));
    }
}

/// The walk's outcomes, which `find_from` returns and `find_from_or_err`
/// passes on (reporting `Absent` as `ManifestNotFound`): the first candidate
/// probed as a file is found; with none found yet, the next candidate is
/// probed; once every candidate up to the root was probed without a file,
/// there is no manifest.
pub proof fn law_walk_outcomes(start: Seq<char>, probed: Seq<bool>)
    requires
        is_canonical(start),
    ensures
        first_true(probed) matches Some(k) ==> (k < search_path(start).len() ==> find_step(
            search_path(start),
            probed,
        ) == FindStepModel::Found(search_path(start)[k])),
        first_true(probed) is None && probed.len() < search_path(start).len() ==> find_step(
            search_path(start),
            probed,
        ) == FindStepModel::Probe(search_path(start)[probed.len() as int]),
        first_true(probed) is None && probed.len() >= search_path(start).len() ==> find_step(
            search_path(start),
            probed,
        ) is Absent,
{
}

} // verus!
