//! Generate `sandbox-exec` profiles from a `SandboxPolicy`.
//!
//! The profile is `(deny default)` followed by `(allow ...)` rules. Entries from
//! the manifest pass through tight character-class checks first, so that
//! nothing in them can close a string or a form of the profile.
use vstd::prelude::*;
use vstd::string::*;

use crate::error::{Error, Result};
use crate::manifest::SandboxPolicy;
use crate::text::{chars_of, contains_char, debug_str, str_debug_text, string_of, views};

verus! {

pub open spec fn is_ascii_alnum(c: char) -> bool {
    ('a' <= c && c <= 'z') || ('A' <= c && c <= 'Z') || ('0' <= c && c <= '9')
}

/// Characters allowed in a `network_allow` entry.
pub open spec fn host_char(c: char) -> bool {
    is_ascii_alnum(c) || c == '.' || c == '-' || c == '*' || c == ':'
}

/// Characters allowed in an `fs_write_allow` entry.
pub open spec fn path_char(c: char) -> bool {
    is_ascii_alnum(c) || c == '.' || c == '/' || c == '-' || c == '_' || c == '~'
}

pub open spec fn valid_hostname(h: Seq<char>) -> bool {
    h.len() > 0 && forall|i: int| 0 <= i < h.len() ==> host_char(#[trigger] h[i])
}

pub open spec fn valid_path_entry(p: Seq<char>) -> bool {
    p.len() > 0 && forall|i: int| 0 <= i < p.len() ==> path_char(#[trigger] p[i])
}

/// A Unix path is absolute when it starts at the root.
pub open spec fn is_absolute(p: Seq<char>) -> bool {
    p.len() > 0 && p[0] == '/'
}

/// `base.join(rest)` for Unix paths: an absolute `rest` replaces `base`;
/// otherwise a separator is put between them unless `base` is empty or ends with one.
pub open spec fn join_path(base: Seq<char>, rest: Seq<char>) -> Seq<char> {
    if is_absolute(rest) {
        rest
    } else if base.len() > 0 && base.last() != '/' {
        base + seq!['/'] + rest
    } else {
        base + rest
    }
}

/// `~/x` becomes `home/x`, `~` becomes `home`, anything else stays as written.
pub open spec fn expanded_path(entry: Seq<char>, home: Seq<char>) -> Seq<char> {
    if entry.len() >= 2 && entry[0] == '~' && entry[1] == '/' {
        join_path(home, entry.skip(2))
    } else if entry == seq!['~'] {
        home
    } else {
        entry
    }
}

/// Why an `fs_write_allow` entry is refused, if it is.
pub open spec fn expand_error(entry: Seq<char>, home: Seq<char>) -> Option<Seq<char>> {
    if !valid_path_entry(entry) {
        Some("fs_write_allow entry contains disallowed characters: "@ + str_debug_text(entry))
    } else if !is_absolute(expanded_path(entry, home)) {
        Some("fs_write_allow entry must resolve to absolute path: "@ + str_debug_text(entry))
    } else {
        None
    }
}

/// Why a `network_allow` entry is refused.
pub open spec fn host_error(host: Seq<char>) -> Seq<char> {
    "network_allow entry contains disallowed characters: "@ + str_debug_text(host)
}

/// The rule admitting outbound TCP to `host` (port 443 unless it names one).
pub open spec fn remote_clause(host: Seq<char>) -> Seq<char> {
    if host.contains(':') {
        "(remote tcp \""@ + host + "\")"@
    } else {
        "(remote tcp \""@ + host + ":443\")"@
    }
}

/// The fixed start of every profile, up to the writable subpaths.
pub open spec fn profile_head(root: Seq<char>) -> Seq<char> {
    "(version 1)\n"@ + "(deny default)\n\n"@ + "(allow process-fork)\n"@ + "(allow process-exec)\n"@
        + "(allow signal (target self))\n"@ + "(allow mach-lookup)\n"@ + "(allow sysctl-read)\n\n"@
        + "(allow file-read*)\n\n"@ + "(allow file-write*\n"@ + "  (subpath \""@ + root + "\")\n"@
        + "  (subpath \"/private/tmp\")\n"@ + "  (subpath \"/private/var/folders\")\n"@
}

/// One writable-subpath line per path.
pub open spec fn subpath_lines(paths: Seq<Seq<char>>) -> Seq<char>
    decreases paths.len(),
{
    if paths.len() == 0 {
        Seq::empty()
    } else {
        subpath_lines(paths.drop_last()) + "  (subpath \""@ + paths.last() + "\")\n"@
    }
}

/// One outbound rule line per host.
pub open spec fn remote_lines(hosts: Seq<Seq<char>>) -> Seq<char>
    decreases hosts.len(),
{
    if hosts.len() == 0 {
        Seq::empty()
    } else {
        remote_lines(hosts.drop_last()) + "  "@ + remote_clause(hosts.last()) + "\n"@
    }
}

/// The network part of a profile.
pub open spec fn network_section(hosts: Seq<Seq<char>>) -> Seq<char> {
    if hosts.len() == 0 {
        ";; no network allowlist; default-deny applies\n"@
    } else {
        "(allow network-outbound\n"@ + remote_lines(hosts) + ")\n"@ + "(allow network-outbound\n"@
            + "  (remote udp \"*:53\"))\n"@
    }
}

/// The whole profile for a project at `root` whose extra writable paths are
/// `paths` (already expanded) and whose allowed hosts are `hosts`.
pub open spec fn profile_text(root: Seq<char>, paths: Seq<Seq<char>>, hosts: Seq<Seq<char>>) -> Seq<
    char,
> {
    profile_head(root) + subpath_lines(paths) + ")\n\n"@ + network_section(hosts)
}

/// The `fs_write_allow` entries, expanded against `home`.
pub open spec fn expanded_paths(entries: Seq<Seq<char>>, home: Seq<char>) -> Seq<Seq<char>> {
    entries.map_values(|e: Seq<char>| expanded_path(e, home))
}

fn all_chars_host(v: &Vec<char>) -> (b: bool)
    ensures
        b == forall|i: int| 0 <= i < v@.len() ==> host_char(#[trigger] v@[i]),
{
    let mut i: usize = 0;
    while i < v.len()
        invariant
            i <= v@.len(),
            forall|j: int| 0 <= j < i ==> host_char(#[trigger] v@[j]),
        decreases v.len() - i,
    {
        let c = v[i];
        if !((c >= 'a' && c <= 'z') || (c >= 'A' && c <= 'Z') || (c >= '0' && c <= '9') || c == '.'
            || c == '-' || c == '*' || c == ':') {
            return false;
        }
        i = i + 1;
    }
    true
}

fn all_chars_path(v: &Vec<char>) -> (b: bool)
    ensures
        b == forall|i: int| 0 <= i < v@.len() ==> path_char(#[trigger] v@[i]),
{
    let mut i: usize = 0;
    while i < v.len()
        invariant
            i <= v@.len(),
            forall|j: int| 0 <= j < i ==> path_char(#[trigger] v@[j]),
        decreases v.len() - i,
    {
        let c = v[i];
        if !((c >= 'a' && c <= 'z') || (c >= 'A' && c <= 'Z') || (c >= '0' && c <= '9') || c == '.'
            || c == '/' || c == '-' || c == '_' || c == '~') {
            return false;
        }
        i = i + 1;
    }
    true
}

/// Hostnames may hold ASCII letters and digits, `.`, `-`, `*` and `:`, and
/// must not be empty.
pub fn is_valid_hostname(host: &str) -> (b: bool)
    ensures
        b == valid_hostname(host@),
{
    let v = chars_of(host);
    v.len() > 0 && all_chars_host(&v)
}

/// Path entries may hold ASCII letters and digits, `.`, `/`, `-`, `_` and
/// `~`, and must not be empty.
pub fn is_valid_path_entry(p: &str) -> (b: bool)
    ensures
        b == valid_path_entry(p@),
{
    let v = chars_of(p);
    v.len() > 0 && all_chars_path(&v)
}

/// The characters of `v` from position `start` on.
fn string_from(v: &Vec<char>, start: usize) -> (s: String)
    requires
        start <= v@.len(),
    ensures
        s@ == v@.skip(start as int),
{
    let mut w: Vec<char> = Vec::new();
    let mut i: usize = start;
    while i < v.len()
        invariant
            start <= i <= v@.len(),
            w@ == v@.subrange(start as int, i as int),
        decreases v.len() - i,
    {
        w.push(v[i]);
        assert(w@ =~= v@.subrange(start as int, i + 1));
        i = i + 1;
    }
    assert(w@ =~= v@.skip(start as int));
    string_of(&w)
}

/// `base.join(rest)` for Unix paths.
pub fn join(base: &str, rest: &str) -> (p: String)
    ensures
        p@ == join_path(base@, rest@),
{
    let r = chars_of(rest);
    if r.len() > 0 && r[0] == '/' {
        return rest.to_owned();
    }
    let b = chars_of(base);
    let mut out = base.to_owned();
    if b.len() > 0 && b[b.len() - 1] != '/' {
        crate::text::push_char(&mut out, '/');
    }
    out.append(rest);
    out
}

/// Expand one `fs_write_allow` entry against `home_dir`, refusing entries with
/// disallowed characters or that do not end up absolute.
pub fn expand_path(entry: &str, home_dir: &str) -> (r: Result<String>)
    ensures
        match expand_error(entry@, home_dir@) {
            Some(m) => r matches Err(Error::Invalid(x)) && x@ == m,
            None => r matches Ok(p) && p@ == expanded_path(entry@, home_dir@),
        },
{
    if !is_valid_path_entry(entry) {
        let mut m = String::new();
        m.append("fs_write_allow entry contains disallowed characters: ");
        let d = debug_str(entry);
        m.append(d.as_str());
        return Err(Error::Invalid(m));
    }
    let v = chars_of(entry);
    let expanded = if v.len() >= 2 && v[0] == '~' && v[1] == '/' {
        let rest = string_from(&v, 2);
        join(home_dir, rest.as_str())
    } else if v.len() == 1 && v[0] == '~' {
        assert(entry@ =~= seq!['~']);
        home_dir.to_owned()
    } else {
        assert(entry@ != seq!['~']) by {
            if entry@ == seq!['~'] {
                assert(v@.len() == 1 && v@[0] == '~');
            }
        }
        entry.to_owned()
    };
    let e = chars_of(expanded.as_str());
    if !(e.len() > 0 && e[0] == '/') {
        let mut m = String::new();
        m.append("fs_write_allow entry must resolve to absolute path: ");
        let d = debug_str(entry);
        m.append(d.as_str());
        return Err(Error::Invalid(m));
    }
    Ok(expanded)
}

/// The outbound rule for `host`: port 443 unless the host names a port.
pub fn host_to_remote_clause(host: &str) -> (c: String)
    ensures
        c@ == remote_clause(host@),
{
    let mut c = String::new();
    c.append("(remote tcp \"");
    c.append(host);
    if contains_char(host, ':') {
        c.append("\")");
    } else {
        c.append(":443\")");
    }
    c
}

/// The first refused `network_allow` entry's message, if any entry is refused.
pub open spec fn first_host_error(hosts: Seq<Seq<char>>) -> Option<Seq<char>>
    decreases hosts.len(),
{
    if hosts.len() == 0 {
        None
    } else if !valid_hostname(hosts[0]) {
        Some(host_error(hosts[0]))
    } else {
        first_host_error(hosts.drop_first())
    }
}

/// The first refused `fs_write_allow` entry's message, if any entry is refused.
pub open spec fn first_expand_error(entries: Seq<Seq<char>>, home: Seq<char>) -> Option<Seq<char>>
    decreases entries.len(),
{
    if entries.len() == 0 {
        None
    } else if expand_error(entries[0], home) is Some {
        expand_error(entries[0], home)
    } else {
        first_expand_error(entries.drop_first(), home)
    }
}

/// What `generate_profile` gives: the profile text, or the message of the
/// `Invalid` error it refuses with. The root is checked first, then every
/// host, then the writable paths in order.
pub open spec fn profile_outcome(
    root: Seq<char>,
    hosts: Seq<Seq<char>>,
    entries: Seq<Seq<char>>,
    home: Seq<char>,
) -> core::result::Result<Seq<char>, Seq<char>> {
    if !is_absolute(root) {
        Err("project_root must be absolute"@)
    } else {
        match first_host_error(hosts) {
            Some(m) => Err(m),
            None => match first_expand_error(entries, home) {
                Some(m) => Err(m),
                None => Ok(profile_text(root, expanded_paths(entries, home), hosts)),
            },
        }
    }
}

/// Generate a sandbox-exec profile from `policy`.
///
/// `project_root` must be absolute (typically the directory holding
/// `stowe.toml`). `home_dir` is used to expand `~/...` entries.
pub fn generate_profile(policy: &SandboxPolicy, project_root: &str, home_dir: &str) -> (r: Result<
    String,
>)
    ensures
        match profile_outcome(
            project_root@,
            views(policy.network_allow@),
            views(policy.fs_write_allow@),
            home_dir@,
        ) {
            Ok(t) => r matches Ok(s) && s@ == t,
            Err(m) => r matches Err(Error::Invalid(x)) && x@ == m,
        },
        r matches Ok(s) ==> s@.take(opening_rules(project_root@).len() as int) == opening_rules(
            project_root@,
        ),
{
    let root = chars_of(project_root);
    if !(root.len() > 0 && root[0] == '/') {
        let mut m = String::new();
        m.append("project_root must be absolute");
        return Err(Error::Invalid(m));
    }
    let hosts = &policy.network_allow;
    let ghost hv = views(hosts@);
    let mut i: usize = 0;
    assert(hv.skip(0) =~= hv);
    while i < hosts.len()
        invariant
            i <= hosts@.len(),
            hv == views(hosts@),
            hosts == &policy.network_allow,
            is_absolute(project_root@),
            first_host_error(hv) == first_host_error(hv.skip(i as int)),
        decreases hosts.len() - i,
    {
        assert(hv.skip(i as int)[0] == hosts@[i as int]@);
        assert(hv.skip(i as int).drop_first() =~= hv.skip(i + 1));
        if !is_valid_hostname(hosts[i].as_str()) {
            let mut m = String::new();
            m.append("network_allow entry contains disallowed characters: ");
            let d = debug_str(hosts[i].as_str());
            m.append(d.as_str());
            assert(m@ =~= host_error(hv[i as int]));
            assert(first_host_error(hv.skip(i as int)) == Some(host_error(hv[i as int])));
            return Err(Error::Invalid(m));
        }
        i = i + 1;
    }
    assert(hv.skip(hosts@.len() as int) =~= Seq::<Seq<char>>::empty());
    let mut out = String::new();
    out.append("(version 1)\n");
    out.append("(deny default)\n\n");
    out.append("(allow process-fork)\n");
    out.append("(allow process-exec)\n");
    out.append("(allow signal (target self))\n");
    out.append("(allow mach-lookup)\n");
    out.append("(allow sysctl-read)\n\n");
    out.append("(allow file-read*)\n\n");
    out.append("(allow file-write*\n");
    out.append("  (subpath \"");
    out.append(project_root);
    out.append("\")\n");
    out.append("  (subpath \"/private/tmp\")\n");
    out.append("  (subpath \"/private/var/folders\")\n");
    assert(out@ == profile_head(project_root@));
    let entries = &policy.fs_write_allow;
    let ghost head = out@;
    let ghost home = home_dir@;
    let ghost ents = views(entries@);
    let mut k: usize = 0;
    assert(ents.skip(0) =~= ents);
    while k < entries.len()
        invariant
            k <= entries@.len(),
            ents == views(entries@),
            entries == &policy.fs_write_allow,
            home == home_dir@,
            is_absolute(project_root@),
            first_host_error(views(policy.network_allow@)) is None,
            first_expand_error(ents, home) == first_expand_error(ents.skip(k as int), home),
            out@ == head + subpath_lines(expanded_paths(ents.take(k as int), home)),
        decreases entries.len() - k,
    {
        assert(ents.skip(k as int)[0] == entries@[k as int]@);
        assert(ents.skip(k as int).drop_first() =~= ents.skip(k + 1));
        let p = expand_path(entries[k].as_str(), home_dir);
        match p {
            Err(e) => {
                assert(expand_error(ents[k as int], home) is Some);
                assert(first_expand_error(ents.skip(k as int), home) == expand_error(
                    ents[k as int],
                    home,
                ));
                return Err(e);
            },
            Ok(p) => {
                let ghost before = out@;
                out.append("  (subpath \"");
                out.append(p.as_str());
                out.append("\")\n");
                let ghost xs = expanded_paths(ents.take(k + 1), home);
                assert(xs.drop_last() =~= expanded_paths(ents.take(k as int), home));
                assert(xs.last() == p@);
                assert(out@ =~= head + subpath_lines(xs));
            },
        }
        k = k + 1;
    }
    assert(ents.take(entries@.len() as int) =~= ents);
    assert(ents.skip(entries@.len() as int) =~= Seq::<Seq<char>>::empty());
    out.append(")\n\n");
    let ghost body = out@;
    if hosts.len() == 0 {
        out.append(";; no network allowlist; default-deny applies\n");
        assert(views(hosts@) =~= Seq::<Seq<char>>::empty());
    } else {
        out.append("(allow network-outbound\n");
        let ghost mid = out@;
        let ghost hs = views(hosts@);
        let mut h: usize = 0;
        while h < hosts.len()
            invariant
                h <= hosts@.len(),
                hs == views(hosts@),
                out@ == mid + remote_lines(hs.take(h as int)),
            decreases hosts.len() - h,
        {
            out.append("  ");
            let clause = host_to_remote_clause(hosts[h].as_str());
            out.append(clause.as_str());
            out.append("\n");
            assert(hs.take(h + 1).drop_last() =~= hs.take(h as int));
            assert(out@ =~= mid + remote_lines(hs.take(h + 1)));
            h = h + 1;
        }
        assert(hs.take(hosts@.len() as int) =~= hs);
        out.append(")\n");
        out.append("(allow network-outbound\n");
        out.append("  (remote udp \"*:53\"))\n");
    }
    assert(out@ =~= profile_text(
        project_root@,
        expanded_paths(views(policy.fs_write_allow@), home_dir@),
        views(policy.network_allow@),
    ));
    proof {
        law_profile_lets_the_child_run(
            project_root@,
            expanded_paths(views(policy.fs_write_allow@), home_dir@),
            views(policy.network_allow@),
        );
    }
    Ok(out)
}

} // verus!

verus! {

/// A character that could end a string or a form of the profile, or start a comment.
pub open spec fn profile_metachar(c: char) -> bool {
    c == '"' || c == '(' || c == ')' || c == ';' || c == '\\' || c == ' ' || c == '\n' || c == '\t'
}

/// The profile a run uses: none when the policy's sandbox is off, else the
/// profile generated for the project at `project_root`.
pub fn profile_for_run(policy: &SandboxPolicy, project_root: &str, home_dir: &str) -> (r: Result<
    Option<String>,
>)
    ensures
        !policy.enabled ==> r matches Ok(None),
        policy.enabled ==> match profile_outcome(
            project_root@,
            views(policy.network_allow@),
            views(policy.fs_write_allow@),
            home_dir@,
        ) {
            Ok(t) => r matches Ok(Some(s)) && s@ == t,
            Err(m) => r matches Err(Error::Invalid(x)) && x@ == m,
        },
{
    if !policy.enabled {
        return Ok(None);
    }
    let profile = generate_profile(policy, project_root, home_dir)?;
    Ok(Some(profile))
}

/// No accepted `network_allow` entry holds a character that could break out
/// of the quoted string it is written into.
pub proof fn law_valid_host_has_no_metachar(h: Seq<char>)
    requires
        valid_hostname(h),
    ensures
        forall|i: int| 0 <= i < h.len() ==> !profile_metachar(#[trigger] h[i]),
{
    assert forall|i: int| 0 <= i < h.len() implies !profile_metachar(#[trigger] h[i]) by {
        assert(host_char(h[i]));
    }
}

/// No accepted `fs_write_allow` entry holds a character that could break out
/// of the quoted string it is written into.
pub proof fn law_valid_path_has_no_metachar(p: Seq<char>)
    requires
        valid_path_entry(p),
    ensures
        forall|i: int| 0 <= i < p.len() ==> !profile_metachar(#[trigger] p[i]),
{
    assert forall|i: int| 0 <= i < p.len() implies !profile_metachar(#[trigger] p[i]) by {
        assert(path_char(p[i]));
    }
}

/// The rules every profile opens with: deny everything, then let the child
/// be forked and executed, signal itself, look up Mach services, read sysctls
/// and files, and write under the project root `root`.
pub open spec fn opening_rules(root: Seq<char>) -> Seq<char> {
    "(version 1)\n(deny default)\n\n"@ + "(allow process-fork)\n(allow process-exec)\n"@
        + "(allow signal (target self))\n(allow mach-lookup)\n(allow sysctl-read)\n\n"@
        + "(allow file-read*)\n\n(allow file-write*\n  (subpath \""@ + root + "\")\n"@
}

/// Every profile opens with `opening_rules`: after denying everything it
/// allows the child to be forked and executed, whatever the writable paths
/// and hosts.
pub proof fn law_profile_lets_the_child_run(
    root: Seq<char>,
    paths: Seq<Seq<char>>,
    hosts: Seq<Seq<char>>,
)
    ensures
        profile_text(root, paths, hosts).take(opening_rules(root).len() as int) == opening_rules(
            root,
        ),
{
    reveal_strlit("(version 1)\n(deny default)\n\n");
    reveal_strlit("(allow process-fork)\n(allow process-exec)\n");
    reveal_strlit("(allow signal (target self))\n(allow mach-lookup)\n(allow sysctl-read)\n\n");
    reveal_strlit("(allow file-read*)\n\n(allow file-write*\n  (subpath \"");
    reveal_strlit("\")\n");
    reveal_strlit("(version 1)\n");
    reveal_strlit("(deny default)\n\n");
    reveal_strlit("(allow process-fork)\n");
    reveal_strlit("(allow process-exec)\n");
    reveal_strlit("(allow signal (target self))\n");
    reveal_strlit("(allow mach-lookup)\n");
    reveal_strlit("(allow sysctl-read)\n\n");
    reveal_strlit("(allow file-read*)\n\n");
    reveal_strlit("(allow file-write*\n");
    reveal_strlit("  (subpath \"");
    let o = opening_rules(root);
    let t = profile_text(root, paths, hosts);
    assert(profile_head(root) =~= o + "  (subpath \"/private/tmp\")\n"@
        + "  (subpath \"/private/var/folders\")\n"@);
    assert(t =~= o + t.skip(o.len() as int));
    assert(t.take(o.len() as int) =~= o);
}

/// Every generated profile starts by denying everything.
pub proof fn law_profile_denies_by_default(
    root: Seq<char>,
    paths: Seq<Seq<char>>,
    hosts: Seq<Seq<char>>,
)
    ensures
        profile_text(root, paths, hosts).take(("(version 1)\n"@ + "(deny default)\n\n"@).len() as int)
            == "(version 1)\n"@ + "(deny default)\n\n"@,
{
    let p = "(version 1)\n"@ + "(deny default)\n\n"@;
    let t = profile_text(root, paths, hosts);
    assert(t =~= p + (t.skip(p.len() as int)));
    assert(t.take(p.len() as int) =~= p);
}

} // verus!
