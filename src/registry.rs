use vstd::prelude::*;

use crate::sort::{sort_by_version, sorted_by_version};
use crate::version::{VersionId, bare_spec, extract_version_number, prefix_spec, version_of};

verus! {

broadcast use {vstd::seq_lib::group_to_multiset_ensures, vstd::seq_lib::group_filter_ensures};

/// The text that every installed-version entry name starts with.
pub open spec fn entry_marker() -> Seq<char> {
    seq!['g', 'o', '1', '.']
}

/// Whether a name in the bin directory is an installed-version entry:
/// the prefix, then `1.`, then anything.
pub open spec fn is_entry_spec(name: Seq<char>) -> bool {
    name.len() >= 4 && name.subrange(0, 4) == entry_marker()
}

/// The names among `entries` that are installed-version entries, in order.
pub open spec fn entries_of(entries: Seq<String>) -> Seq<String> {
    entries.filter(entry_pred())
}

pub open spec fn entry_pred() -> spec_fn(String) -> bool {
    |s: String| is_entry_spec(s@)
}

/// Tells an installed-version entry from anything else in the bin directory.
pub fn is_version_entry(name: &str) -> (r: bool)
    ensures
        r == is_entry_spec(name@),
{
    let n = name.unicode_len();
    if n < 4 {
        return false;
    }
    let a = name.get_char(0);
    let b = name.get_char(1);
    let c = name.get_char(2);
    let d = name.get_char(3);
    assert(name@.subrange(0, 4) =~= seq![name@[0], name@[1], name@[2], name@[3]]);
    a == 'g' && b == 'o' && c == '1' && d == '.'
}

/// The reserved pointer name is never an installed-version entry.
pub proof fn lemma_pointer_name_is_not_entry()
    ensures
        !is_entry_spec(prefix_spec()),
{
}

/// The installed versions, given the names found in the bin directory
/// (`None` where that directory does not exist): the version entries
/// among them, ascending by version.
pub fn list_installed_versions(entries: Option<Vec<String>>) -> (r: Vec<String>)
    ensures
        entries is None ==> r@.len() == 0,
        entries matches Some(names) ==> r@.to_multiset() == entries_of(names@).to_multiset(),
        sorted_by_version(r@, false),
        forall|i: int| 0 <= i < r@.len() ==> is_entry_spec(#[trigger] r@[i]@),
        forall|i: int| 0 <= i < r@.len() ==> r@[i]@ != prefix_spec(),
{
    match entries {
        None => Vec::new(),
        Some(names) => {
            let ghost orig = names@;
            let mut rest = names;
            let mut kept: Vec<String> = Vec::new();
            let ghost k: int = 0;
            while rest.len() > 0
                invariant
                    0 <= k <= orig.len(),
                    rest@ == orig.subrange(k, orig.len() as int),
                    kept@ == entries_of(orig.subrange(0, k)),
                decreases rest@.len(),
            {
                let name = rest.remove(0);
                let keep = is_version_entry(name.as_str());
                proof {
                    let pre = orig.subrange(0, k);
                    assert(orig.subrange(0, k + 1) =~= pre.push(name));
                    pre.lemma_filter_push(name, entry_pred());
                    assert(rest@ =~= orig.subrange(k + 1, orig.len() as int));
                    k = k + 1;
                }
                if keep {
                    kept.push(name);
                }
            }
            assert(orig.subrange(0, k) =~= orig);
            proof {
                assert forall|i: int| 0 <= i < kept@.len() implies is_entry_spec(#[trigger] kept@[i]@) by {
                    assert(entry_pred()(kept@[i]));
                }
            }
            let sorted = sort_by_version(kept, false);
            proof {
                assert forall|i: int| 0 <= i < sorted@.len() implies is_entry_spec(#[trigger] sorted@[i]@) by {
                    let x = sorted@[i];
                    assert(sorted@.contains(x));
                    assert(kept@.to_multiset().count(x) > 0);
                    assert(kept@.contains(x));
                    let j = choose|j: int| 0 <= j < kept@.len() && kept@[j] == x;
                    assert(is_entry_spec(kept@[j]@));
                }
                assert forall|i: int| 0 <= i < sorted@.len() implies sorted@[i]@ != prefix_spec() by {
                    assert(is_entry_spec(sorted@[i]@));
                }
            }
            sorted
        },
    }
}

/// One line of the installed listing.
pub struct Listed {
    pub version_num: String,
    pub is_current: bool,
}

/// The installed entries as listed: each with its bare number, marked
/// current where its version is the active one.
pub fn listing(installed: &Vec<String>, current: Option<VersionId>) -> (r: Vec<Listed>)
    ensures
        r@.len() == installed@.len(),
        forall|i: int|
            0 <= i < r@.len() ==> (#[trigger] r@[i]).version_num@ == bare_spec(installed@[i]@)
                && r@[i].is_current == (current == Some(version_of(installed@[i]@))),
{
    let mut out: Vec<Listed> = Vec::new();
    let mut i: usize = 0;
    while i < installed.len()
        invariant
            i <= installed@.len(),
            out@.len() == i,
            forall|j: int|
                0 <= j < i ==> (#[trigger] out@[j]).version_num@ == bare_spec(installed@[j]@)
                    && out@[j].is_current == (current == Some(version_of(installed@[j]@))),
        decreases installed@.len() - i,
    {
        let name = installed[i].as_str();
        let v = VersionId::parse(name);
        let is_current = match current {
            Some(c) => c == v,
            None => false,
        };
        out.push(Listed { version_num: extract_version_number(name), is_current });
        i = i + 1;
    }
    out
}

} // verus!
