use vstd::prelude::*;

use crate::sort::{VersionKeyed, sort_by_version, sorted_by_version};
use crate::version::{triple_spec, bare_spec, parse_triple, extract_version_number};

verus! {

broadcast use vstd::seq_lib::group_to_multiset_ensures;

/// How many catalog entries are shown.
pub const SHOWN: usize = 30;

/// One entry of the remote catalog.
pub struct Release {
    pub version: String,
    pub stable: bool,
}

/// A catalog entry is keyed by its version read as a bare number.
impl VersionKeyed for Release {
    open spec fn key(&self) -> (u32, u32, u32) {
        triple_spec(self.version@)
    }

    fn version_key(&self) -> (r: (u32, u32, u32)) {
        parse_triple(self.version.as_str())
    }
}

/// One shown line of the catalog.
pub struct CatalogRow {
    pub version: String,
    pub stable: bool,
    pub installed: bool,
}

/// The shown lines, and how many distinct entries the catalog had.
pub struct Catalog {
    pub rows: Vec<CatalogRow>,
    pub total: usize,
}

/// The catalog with each version stripped to its bare number.
pub open spec fn bare_releases_spec(s: Seq<Release>) -> Seq<(Seq<char>, bool)> {
    Seq::new(s.len(), |i: int| (bare_spec(s[i].version@), s[i].stable))
}

/// `s` without the entries whose version equals the one just before.
pub open spec fn dedup_spec(s: Seq<(Seq<char>, bool)>) -> Seq<(Seq<char>, bool)>
    decreases s.len(),
{
    if s.len() == 0 {
        s
    } else if s.len() >= 2 && s[s.len() - 1].0 == s[s.len() - 2].0 {
        dedup_spec(s.drop_last())
    } else {
        dedup_spec(s.drop_last()).push(s.last())
    }
}

pub open spec fn release_view(r: Release) -> (Seq<char>, bool) {
    (r.version@, r.stable)
}

pub open spec fn releases_view(s: Seq<Release>) -> Seq<(Seq<char>, bool)> {
    Seq::new(s.len(), |i: int| release_view(s[i]))
}

/// The bare numbers of the installed entries.
pub open spec fn installed_nums(installed: Seq<String>) -> Seq<Seq<char>> {
    Seq::new(installed.len(), |i: int| bare_spec(installed[i]@))
}

fn str_eq(a: &str, b: &str) -> (r: bool)
    ensures
        r == (a@ == b@),
{
    let n = a.unicode_len();
    if n != b.unicode_len() {
        return false;
    }
    let mut i: usize = 0;
    while i < n
        invariant
            i <= n,
            n == a@.len(),
            n == b@.len(),
            forall|j: int| 0 <= j < i ==> a@[j] == b@[j],
        decreases n - i,
    {
        if a.get_char(i) != b.get_char(i) {
            return false;
        }
        i = i + 1;
    }
    assert(a@ =~= b@);
    true
}

/// Strips each catalog version to its bare number and drops each entry
/// whose bare number equals the one just before it.
pub fn dedup_releases(releases: Vec<Release>) -> (r: Vec<Release>)
    ensures
        releases_view(r@) == dedup_spec(bare_releases_spec(releases@)),
{
    let ghost src = bare_releases_spec(releases@);
    let n = releases.len();
    let mut out: Vec<Release> = Vec::new();
    let mut last: Option<String> = None;
    let mut i: usize = 0;
    while i < n
        invariant
            i <= n,
            n == releases@.len(),
            src == bare_releases_spec(releases@),
            releases_view(out@) == dedup_spec(src.subrange(0, i as int)),
            i == 0 <==> last is None,
            last matches Some(l) ==> i > 0 && l@ == src[i - 1].0,
        decreases n - i,
    {
        let bare = extract_version_number(releases[i].version.as_str());
        let dup = match &last {
            Some(l) => str_eq(l.as_str(), bare.as_str()),
            None => false,
        };
        let ghost pre = src.subrange(0, i as int);
        let ghost next = src.subrange(0, i + 1);
        assert(next.drop_last() =~= pre);
        assert(next.last() == src[i as int]);
        if !dup {
            let ghost before = out@;
            out.push(Release { version: bare.clone(), stable: releases[i].stable });
            assert(releases_view(out@) =~= releases_view(before).push(src[i as int]));
        }
        last = Some(bare);
        i = i + 1;
    }
    assert(src.subrange(0, n as int) =~= src);
    out
}

/// Whether `version` is the bare number of one of the installed entries.
fn is_installed_num(version: &str, installed: &Vec<String>) -> (r: bool)
    ensures
        r == installed_nums(installed@).contains(version@),
{
    let mut i: usize = 0;
    while i < installed.len()
        invariant
            i <= installed@.len(),
            forall|j: int| 0 <= j < i ==> bare_spec(installed@[j]@) != version@,
        decreases installed@.len() - i,
    {
        let bare = extract_version_number(installed[i].as_str());
        if str_eq(bare.as_str(), version) {
            assert(installed_nums(installed@)[i as int] == version@);
            return true;
        }
        i = i + 1;
    }
    assert forall|j: int| 0 <= j < installed_nums(installed@).len() implies installed_nums(
        installed@,
    )[j] != version@ by {
        assert(bare_spec(installed@[j]@) != version@);
    }
    false
}

/// The first `limit` entries of `sorted`, each marked stable as it was and
/// installed where its version is among the installed entries.
pub fn catalog_rows(sorted: Vec<Release>, installed: &Vec<String>, limit: usize) -> (r: Vec<CatalogRow>)
    ensures
        r@.len() == if sorted@.len() < limit {
            sorted@.len()
        } else {
            limit as nat
        },
        forall|i: int|
            0 <= i < r@.len() ==> (#[trigger] r@[i]).version@ == sorted@[i].version@
                && r@[i].stable == sorted@[i].stable && r@[i].installed == installed_nums(
                installed@,
            ).contains(sorted@[i].version@),
{
    let n = if sorted.len() < limit {
        sorted.len()
    } else {
        limit
    };
    let mut rows: Vec<CatalogRow> = Vec::new();
    let mut i: usize = 0;
    while i < n
        invariant
            i <= n <= sorted@.len(),
            n == if sorted@.len() < limit {
                sorted@.len()
            } else {
                limit as nat
            },
            rows@.len() == i,
            forall|j: int|
                0 <= j < i ==> (#[trigger] rows@[j]).version@ == sorted@[j].version@
                    && rows@[j].stable == sorted@[j].stable && rows@[j].installed
                    == installed_nums(installed@).contains(sorted@[j].version@),
        decreases n - i,
    {
        let installed_here = is_installed_num(sorted[i].version.as_str(), installed);
        rows.push(
            CatalogRow {
                version: sorted[i].version.clone(),
                stable: sorted[i].stable,
                installed: installed_here,
            },
        );
        i = i + 1;
    }
    rows
}

/// The catalog as shown: bare numbers, an entry equal to the one before it
/// dropped, newest first, the first `SHOWN` of them marked as installed or
/// not, and the count of entries after dropping.
pub fn catalog_view(releases: Vec<Release>, installed: &Vec<String>) -> (r: Catalog)
    ensures
        r.total == dedup_spec(bare_releases_spec(releases@)).len(),
        r.rows@.len() == if r.total < SHOWN {
            r.total as nat
        } else {
            SHOWN as nat
        },
        exists|sorted: Seq<Release>|
            {
                &&& sorted.len() == r.total
                &&& releases_view(sorted).to_multiset() == dedup_spec(
                    bare_releases_spec(releases@),
                ).to_multiset()
                &&& sorted_by_version(sorted, true)
                &&& forall|i: int|
                    0 <= i < r.rows@.len() ==> (#[trigger] r.rows@[i]).version@ == sorted[i].version@
                        && r.rows@[i].stable == sorted[i].stable && r.rows@[i].installed
                        == installed_nums(installed@).contains(sorted[i].version@)
            },
{
    let unique = dedup_releases(releases);
    let total = unique.len();
    let ghost u = unique@;
    let sorted = sort_by_version(unique, true);
    proof {
        lemma_view_multiset(sorted@, u);
    }
    let ghost s = sorted@;
    proof {
        assert(releases_view(u).len() == u.len());
        assert(s.len() == u.len()) by {
            assert(s.to_multiset().len() == u.to_multiset().len());
        }
    }
    let rows = catalog_rows(sorted, installed, SHOWN);
    let r = Catalog { rows, total };
    assert(releases_view(s).to_multiset() == dedup_spec(bare_releases_spec(releases@)).to_multiset()
        && sorted_by_version(s, true) && s.len() == r.total);
    r
}

/// Equal multisets of releases give equal multisets of their views.
proof fn lemma_view_multiset(a: Seq<Release>, b: Seq<Release>)
    requires
        a.to_multiset() == b.to_multiset(),
    ensures
        releases_view(a).to_multiset() == releases_view(b).to_multiset(),
    decreases a.len(),
{
    if a.len() > 0 {
        let x = a.last();
        assert(a.contains(x)) by {
            assert(a[a.len() - 1] == x);
        }
        assert(a.to_multiset().count(x) > 0);
        assert(b.to_multiset().count(x) > 0);
        assert(b.contains(x));
        let j = choose|j: int| 0 <= j < b.len() && b[j] == x;
        let a1 = a.drop_last();
        let b1 = b.remove(j);
        assert(a =~= a1.push(x));
        assert(a1.to_multiset() == b1.to_multiset()) by {
            assert(a.to_multiset() == a1.to_multiset().insert(x));
            assert(b1.to_multiset() == b.to_multiset().remove(x));
            assert(a1.to_multiset() =~= a.to_multiset().remove(x));
        }
        lemma_view_multiset(a1, b1);
        assert(releases_view(a) =~= releases_view(a1).push(release_view(x)));
        assert(releases_view(b1) =~= releases_view(b).remove(j));
        assert(releases_view(b)[j] == release_view(x));
    } else {
        assert(b.len() == 0) by {
            assert(b.to_multiset().len() == 0);
        }
        assert(releases_view(a) =~= releases_view(b));
    }
}

} // verus!
