//! What `codesign -dvvv` reports of a binary: reading its output.
//!
//! The tool itself is run by the application; this module decides what its
//! exit status and diagnostic output (stderr) say.
use vstd::prelude::*;
use vstd::string::*;

use crate::text::{
    chars_of, contains_str, has_substring, split_on, split_pieces, str_eq, string_of, trim, trimmed,
};

verus! {

#[derive(Debug)]
pub struct CodesignInfo {
    /// True if `codesign -dvvv` reports a valid signature.
    pub signed: bool,
    /// Apple Team ID (e.g. `EQHXZ8M8AV`), if signed by a developer.
    pub team_id: Option<String>,
    /// Bundle identifier reported by `codesign` (e.g. `com.apple.git`).
    pub identifier: Option<String>,
}

/// `s` without a final `\r`.
pub open spec fn strip_cr(s: Seq<char>) -> Seq<char> {
    if s.len() > 0 && s.last() == '\r' {
        s.drop_last()
    } else {
        s
    }
}

/// The lines of `text`, as `str::lines` yields them: split at `\n`, a `\r`
/// before the `\n` dropped, and no empty line after a final `\n`.
pub open spec fn lines_of(text: Seq<char>) -> Seq<Seq<char>> {
    let ps = split_on(text, '\n');
    let body = ps.drop_last().map_values(|p: Seq<char>| strip_cr(p));
    if ps.last().len() > 0 {
        body.push(ps.last())
    } else {
        body
    }
}

/// The first of `lines` starting with `prefix`: what follows the prefix, trimmed.
pub open spec fn first_field(lines: Seq<Seq<char>>, prefix: Seq<char>) -> Option<Seq<char>>
    decreases lines.len(),
{
    if lines.len() == 0 {
        None
    } else if prefix.len() <= lines[0].len() && lines[0].take(prefix.len() as int) == prefix {
        Some(trimmed(lines[0].skip(prefix.len() as int)))
    } else {
        first_field(lines.drop_first(), prefix)
    }
}

fn starts_with(v: &Vec<char>, p: &Vec<char>) -> (b: bool)
    ensures
        b == (p@.len() <= v@.len() && v@.take(p@.len() as int) == p@),
{
    if p.len() > v.len() {
        return false;
    }
    let mut i: usize = 0;
    while i < p.len()
        invariant
            p@.len() <= v@.len(),
            i <= p@.len(),
            forall|k: int| 0 <= k < i ==> v@[k] == p@[k],
        decreases p.len() - i,
    {
        if v[i] != p[i] {
            assert(v@.take(p@.len() as int)[i as int] != p@[i as int]);
            return false;
        }
        i = i + 1;
    }
    assert(v@.take(p@.len() as int) =~= p@);
    true
}

fn vec_from(v: &Vec<char>, start: usize) -> (w: Vec<char>)
    requires
        start <= v@.len(),
    ensures
        w@ == v@.skip(start as int),
{
    let mut w: Vec<char> = Vec::new();
    let mut i: usize = start;
    while i < v.len()
        invariant
            start <= i <= v@.len(),
            w@ == v@.subrange(start as int, i as int),
        decreases v.len() - i,
    {
        w.push(v[i]);
        assert(w@ =~= v@.subrange(start as int, i + 1));
        i = i + 1;
    }
    assert(w@ =~= v@.skip(start as int));
    w
}

/// The value of the first line of `text` that starts with `prefix`, trimmed.
pub fn parse_field(text: &str, prefix: &str) -> (r: Option<String>)
    ensures
        match first_field(lines_of(text@), prefix@) {
            Some(f) => r matches Some(s) && s@ == f,
            None => r is None,
        },
{
    let pieces = split_pieces(text, '\n');
    let pre = chars_of(prefix);
    let ghost ps = split_on(text@, '\n');
    let ghost lines = lines_of(text@);
    let n = pieces.len();
    // number of lines: every piece but the last, and the last when non-empty
    let count: usize = if pieces[n - 1].len() > 0 {
        n
    } else {
        n - 1
    };
    assert(lines.len() == count);
    let mut i: usize = 0;
    assert(lines.skip(0) =~= lines);
    while i < count
        invariant
            n == pieces@.len(),
            n == ps.len(),
            n > 0,
            ps == split_on(text@, '\n'),
            lines == lines_of(text@),
            forall|k: int| 0 <= k < n ==> #[trigger] pieces@[k]@ == ps[k],
            count == lines.len(),
            count <= n,
            pre@ == prefix@,
            i <= count,
            first_field(lines, prefix@) == first_field(lines.skip(i as int), prefix@),
        decreases count - i,
    {
        // the line: the piece, without a final '\r' unless it is the last piece
        let piece = &pieces[i];
        let line: Vec<char> = if i < n - 1 && piece.len() > 0 && piece[piece.len() - 1] == '\r' {
            let mut l: Vec<char> = Vec::new();
            let mut k: usize = 0;
            while k < piece.len() - 1
                invariant
                    piece@.len() > 0,
                    k <= piece@.len() - 1,
                    l@ == piece@.take(k as int),
                decreases piece.len() - 1 - k,
            {
                l.push(piece[k]);
                assert(l@ =~= piece@.take(k + 1));
                k = k + 1;
            }
            assert(l@ =~= piece@.drop_last());
            l
        } else {
            vec_from(piece, 0)
        };
        assert(line@ == lines[i as int]) by {
            assert(piece@.skip(0) =~= piece@);
            if i < n - 1 {
                assert(lines[i as int] == strip_cr(ps[i as int]));
            } else {
                assert(lines[i as int] == ps.last());
            }
        }
        assert(lines.skip(i as int)[0] == lines[i as int]);
        assert(lines.skip(i as int).drop_first() =~= lines.skip(i + 1));
        if starts_with(&line, &pre) {
            let rest = vec_from(&line, pre.len());
            let rest_s = string_of(&rest);
            let t = trim(rest_s.as_str());
            return Some(t);
        }
        i = i + 1;
    }
    assert(lines.skip(count as int) =~= Seq::<Seq<char>>::empty());
    None
}

/// What `codesign -dvvv` reported: unsigned if its diagnostics say the code
/// is "not signed at all" or it exited with failure; otherwise signed, with
/// the `TeamIdentifier=` (unless it is `not set`) and `Identifier=` fields.
pub fn interpret(stderr: &str, succeeded: bool) -> (info: CodesignInfo)
    ensures
        info.signed == (succeeded && !has_substring(stderr@, "not signed at all"@)),
        !info.signed ==> info.team_id is None && info.identifier is None,
        info.signed ==> match first_field(lines_of(stderr@), "TeamIdentifier="@) {
            Some(t) => if t == "not set"@ {
                info.team_id is None
            } else {
                info.team_id matches Some(x) && x@ == t
            },
            None => info.team_id is None,
        },
        info.signed ==> match first_field(lines_of(stderr@), "Identifier="@) {
            Some(t) => info.identifier matches Some(x) && x@ == t,
            None => info.identifier is None,
        },
{
    if contains_str(stderr, "not signed at all") || !succeeded {
        return CodesignInfo { signed: false, team_id: None, identifier: None };
    }
    let team = parse_field(stderr, "TeamIdentifier=");
    let identifier = parse_field(stderr, "Identifier=");
    let team_id = match team {
        Some(t) => if str_eq(t.as_str(), "not set") {
            None
        } else {
            Some(t)
        },
        None => None,
    };
    CodesignInfo { signed: true, team_id, identifier }
}

} // verus!
