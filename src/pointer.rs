use vstd::prelude::*;

use crate::version::{
    VersionId, version_of, normalize_spec, normalize_version, prefix_spec, lemma_normalize_round_trip,
};

verus! {

/// Whether `s` ends in a slash, or in a `.` component after a slash.
pub open spec fn ends_in_skippable(s: Seq<char>) -> bool {
    (s.len() > 0 && s.last() == '/') || (s.len() >= 2 && s.last() == '.' && s[s.len() - 2] == '/')
}

/// `s` without its trailing slashes and trailing `.` components.
pub open spec fn trim_slashes(s: Seq<char>) -> Seq<char>
    decreases s.len(),
{
    if ends_in_skippable(s) {
        trim_slashes(s.drop_last())
    } else {
        s
    }
}

/// Index just after the last `/` of `s`, or zero where it has none.
pub open spec fn after_last_slash(s: Seq<char>) -> nat
    decreases s.len(),
{
    if s.len() == 0 {
        0
    } else if s.last() == '/' {
        s.len()
    } else {
        after_last_slash(s.drop_last())
    }
}

/// The final component of a path: the text after its last `/`, trailing
/// slashes and `.` components aside; none where that text is empty, `..`,
/// or the path is `.` alone.
pub open spec fn final_component(path: Seq<char>) -> Option<Seq<char>> {
    let t = trim_slashes(path);
    let c = t.subrange(after_last_slash(t) as int, t.len() as int);
    if c.len() == 0 || c == seq!['.'] || c == seq!['.', '.'] {
        None
    } else {
        Some(c)
    }
}

/// Path of the entry for a version inside the bin directory.
pub open spec fn entry_path_spec(bin_dir: Seq<char>, version: Seq<char>) -> Seq<char> {
    bin_dir + seq!['/'] + normalize_spec(version)
}

/// What the pointer designates, given the target of the pointer entry
/// when that entry is a link (`None` where it is absent or no link).
pub open spec fn current_spec(link_target: Option<Seq<char>>) -> Option<VersionId> {
    match link_target {
        None => None,
        Some(t) => match final_component(t) {
            None => None,
            Some(c) => Some(version_of(c)),
        },
    }
}

pub open spec fn has_no_slash(s: Seq<char>) -> bool {
    forall|i: int| 0 <= i < s.len() ==> s[i] != '/'
}

/// Path of the entry for `version` (with or without the prefix) inside
/// `bin_dir`: what the pointer is made to point at.
pub fn entry_path(bin_dir: &str, version: &str) -> (r: String)
    ensures
        r@ == entry_path_spec(bin_dir@, version@),
{
    let name = normalize_version(version);
    let dir = bin_dir.to_owned();
    proof {
        reveal_strlit("/");
    }
    let with_slash = dir.concat("/");
    let r = with_slash.concat(name.as_str());
    assert(r@ =~= entry_path_spec(bin_dir@, version@));
    r
}

/// The final component of a path, as `final_component` states it.
pub fn link_target_name(path: &str) -> (r: Option<String>)
    ensures
        r matches Some(c) ==> final_component(path@) == Some(c@),
        r is None ==> final_component(path@) is None,
{
    let n = path.unicode_len();
    let mut e: usize = n;
    assert(path@.subrange(0, n as int) =~= path@);
    while e > 0 && (path.get_char(e - 1) == '/' || (e >= 2 && path.get_char(e - 1) == '.'
        && path.get_char(e - 2) == '/'))
        invariant
            e <= n,
            n == path@.len(),
            trim_slashes(path@) == trim_slashes(path@.subrange(0, e as int)),
        decreases e,
    {
        assert(path@.subrange(0, e as int).drop_last() =~= path@.subrange(0, e - 1));
        e = e - 1;
    }
    let ghost t = path@.subrange(0, e as int);
    assert(trim_slashes(t) == t);
    let mut b: usize = e;
    assert(t.subrange(0, e as int) =~= t);
    while b > 0 && path.get_char(b - 1) != '/'
        invariant
            b <= e <= n,
            n == path@.len(),
            t == path@.subrange(0, e as int),
            after_last_slash(t) == after_last_slash(t.subrange(0, b as int)),
        decreases b,
    {
        assert(t.subrange(0, b as int).drop_last() =~= t.subrange(0, b - 1));
        b = b - 1;
    }
    assert(after_last_slash(t.subrange(0, b as int)) == b);
    let c = path.substring_char(b, e);
    assert(c@ =~= t.subrange(b as int, t.len() as int));
    let len = c.unicode_len();
    if len == 0 {
        return None;
    }
    let dot_or_dots = (len == 1 && c.get_char(0) == '.') || (len == 2 && c.get_char(0) == '.'
        && c.get_char(1) == '.');
    assert(dot_or_dots == (c@ == seq!['.'] || c@ == seq!['.', '.'])) by {
        if len == 1 {
            if c@[0] == '.' {
                assert(c@ =~= seq!['.']);
            }
        }
        if len == 2 {
            if c@[0] == '.' && c@[1] == '.' {
                assert(c@ =~= seq!['.', '.']);
            }
        }
    }
    if dot_or_dots {
        None
    } else {
        Some(c.to_owned())
    }
}

/// The version the pointer designates, given the target of the pointer
/// entry when that entry is a link. No link, or a target whose final
/// component is no name, means that no version is active.
pub fn current_version(link_target: Option<String>) -> (r: Option<VersionId>)
    ensures
        r == current_spec(
            match link_target {
                Some(t) => Some(t@),
                None => None,
            },
        ),
{
    match link_target {
        None => None,
        Some(t) => match link_target_name(t.as_str()) {
            None => None,
            Some(c) => Some(VersionId::parse(c.as_str())),
        },
    }
}

proof fn lemma_after_last_slash_at(s: Seq<char>, p: int)
    requires
        0 < p <= s.len(),
        s[p - 1] == '/',
        forall|i: int| p <= i < s.len() ==> s[i] != '/',
    ensures
        after_last_slash(s) == p,
    decreases s.len(),
{
    if s.len() > p {
        let t = s.drop_last();
        assert forall|i: int| p <= i < t.len() implies t[i] != '/' by {
            assert(t[i] == s[i]);
        }
        lemma_after_last_slash_at(t, p);
    }
}

/// Once the pointer has been made to point at the entry of `version`,
/// reading it back gives that version.
pub proof fn lemma_activate_then_current(bin_dir: Seq<char>, version: Seq<char>)
    requires
        has_no_slash(version),
    ensures
        final_component(entry_path_spec(bin_dir, version)) == Some(normalize_spec(version)),
        current_spec(Some(entry_path_spec(bin_dir, version))) == Some(version_of(version)),
{
    let name = normalize_spec(version);
    let p = entry_path_spec(bin_dir, version);
    let k: int = bin_dir.len() as int + 1;
    lemma_normalize_round_trip(version);
    assert(name.len() >= 2 && name[0] == 'g') by {
        if !(version.len() >= 2 && version.subrange(0, 2) == prefix_spec()) {
            assert(name[0] == prefix_spec()[0]);
        } else {
            assert(version[0] == version.subrange(0, 2)[0]);
        }
    }
    assert(has_no_slash(name)) by {
        assert forall|i: int| 0 <= i < name.len() implies name[i] != '/' by {
            if !(version.len() >= 2 && version.subrange(0, 2) == prefix_spec()) {
                if i >= 2 {
                    assert(name[i] == version[i - 2]);
                }
            }
        }
    }
    assert(p[p.len() - 1] == name[name.len() - 1]);
    assert(p[p.len() - 2] == name[name.len() - 2]);
    assert(trim_slashes(p) == p);
    assert forall|i: int| k <= i < p.len() implies p[i] != '/' by {
        assert(p[i] == name[i - k]);
    }
    lemma_after_last_slash_at(p, k);
    assert(p.subrange(k, p.len() as int) =~= name);
    assert(name != seq!['.']) by {
        assert(name[0] != seq!['.'][0]);
    }
    assert(name != seq!['.', '.']) by {
        assert(name[0] != seq!['.', '.'][0]);
    }
    assert(version_of(name) == version_of(version));
}

} // verus!
