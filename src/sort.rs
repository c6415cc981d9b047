use vstd::prelude::*;

use crate::version::{triple_lt, triple_spec, bare_spec, parse_triple, extract_version_number};

verus! {

broadcast use vstd::seq_lib::group_to_multiset_ensures;

/// An item that carries a version triple to be ordered by.
pub trait VersionKeyed {
    spec fn key(&self) -> (u32, u32, u32);

    fn version_key(&self) -> (r: (u32, u32, u32))
        ensures
            r == self.key(),
    ;
}

/// An entry name such as `go1.21.5` is keyed by its bare number.
impl VersionKeyed for String {
    open spec fn key(&self) -> (u32, u32, u32) {
        triple_spec(bare_spec(self@))
    }

    fn version_key(&self) -> (r: (u32, u32, u32)) {
        let bare = extract_version_number(self.as_str());
        parse_triple(bare.as_str())
    }
}

/// Whether key `a` must come before key `b` in the requested direction.
pub open spec fn precedes(a: (u32, u32, u32), b: (u32, u32, u32), descending: bool) -> bool {
    if descending {
        triple_lt(b, a)
    } else {
        triple_lt(a, b)
    }
}

/// No item is placed after one that it must precede.
pub open spec fn sorted_by_version<T: VersionKeyed>(s: Seq<T>, descending: bool) -> bool {
    forall|i: int, j: int|
        0 <= i < j < s.len() ==> !precedes(#[trigger] s[j].key(), #[trigger] s[i].key(), descending)
}

/// Holds of the items whose key is `k`.
pub open spec fn key_is<T: VersionKeyed>(k: (u32, u32, u32)) -> spec_fn(T) -> bool {
    |x: T| x.key() == k
}

/// Inserting an item before every item that passes `p` appends it to
/// the items that pass `p`, where it passes itself.
proof fn lemma_filter_insert<T>(s: Seq<T>, pos: int, x: T, p: spec_fn(T) -> bool)
    requires
        0 <= pos <= s.len(),
        p(x) ==> forall|j: int| pos <= j < s.len() ==> !p(#[trigger] s[j]),
    ensures
        s.insert(pos, x).filter(p) == if p(x) {
            s.filter(p).push(x)
        } else {
            s.filter(p)
        },
{
    let s0 = s.subrange(0, pos);
    let s1 = s.subrange(pos, s.len() as int);
    assert(s =~= s0 + s1);
    assert(s.insert(pos, x) =~= s0 + (seq![x] + s1));
    Seq::filter_distributes_over_add(s0, s1, p);
    Seq::filter_distributes_over_add(s0, seq![x] + s1, p);
    Seq::filter_distributes_over_add(seq![x], s1, p);
    assert(seq![x] =~= Seq::<T>::empty().push(x));
    Seq::<T>::empty().lemma_filter_push(x, p);
    assert(Seq::<T>::empty().filter(p) =~= Seq::<T>::empty()) by {
        reveal(Seq::filter);
    }
    if p(x) {
        assert(s1.filter(p) =~= Seq::<T>::empty()) by {
            if s1.filter(p).len() > 0 {
                let e = s1.filter(p)[0];
                assert(s1.filter(p).contains(e));
                s1.lemma_filter_contains_rev(p, e);
                let j = choose|j: int| 0 <= j < s1.len() && s1[j] == e;
                assert(s1[j] == s[pos + j]);
                s1.lemma_filter_pred(p, 0);
            }
        }
        assert(s.insert(pos, x).filter(p) =~= s0.filter(p) + seq![x]);
        assert(s.filter(p) =~= s0.filter(p));
    } else {
        assert(s.insert(pos, x).filter(p) =~= s0.filter(p) + s1.filter(p));
    }
}

fn key_precedes(a: (u32, u32, u32), b: (u32, u32, u32), descending: bool) -> (r: bool)
    ensures
        r == precedes(a, b, descending),
{
    let (x, y) = if descending {
        (b, a)
    } else {
        (a, b)
    };
    x.0 < y.0 || (x.0 == y.0 && (x.1 < y.1 || (x.1 == y.1 && x.2 < y.2)))
}

/// Insertion sort by version, ascending or descending: the result holds
/// the same items, no item comes after one that it must precede, and the
/// items of each key keep their order.
pub fn sort_by_version<T: VersionKeyed>(items: Vec<T>, descending: bool) -> (r: Vec<T>)
    ensures
        r@.to_multiset() == items@.to_multiset(),
        sorted_by_version(r@, descending),
        forall|k: (u32, u32, u32)| #[trigger] r@.filter(key_is(k)) == items@.filter(key_is(k)),
{
    let ghost orig = items@;
    let mut rest = items;
    let mut out: Vec<T> = Vec::new();
    let ghost k: int = 0;
    while rest.len() > 0
        invariant
            0 <= k <= orig.len(),
            rest@ == orig.subrange(k, orig.len() as int),
            out@.to_multiset() == orig.subrange(0, k).to_multiset(),
            sorted_by_version(out@, descending),
            forall|kk: (u32, u32, u32)| #[trigger] out@.filter(key_is(kk)) == orig.subrange(0, k).filter(key_is(kk)),
        decreases rest@.len(),
    {
        let x = rest.remove(0);
        let xk = x.version_key();
        let mut pos: usize = out.len();
        while pos > 0 && key_precedes(xk, out[pos - 1].version_key(), descending)
            invariant
                pos <= out@.len(),
                forall|j: int| pos <= j < out@.len() ==> precedes(xk, #[trigger] out@[j].key(), descending),
            decreases pos,
        {
            pos = pos - 1;
        }
        let ghost before = out@;
        proof {
            assert forall|i: int| 0 <= i < pos implies !precedes(xk, #[trigger] before[i].key(), descending) by {
                if i < pos - 1 {
                    assert(!precedes(before[pos - 1].key(), before[i].key(), descending));
                }
            }
        }
        out.insert(pos, x);
        proof {
            assert(orig.subrange(0, k + 1) =~= orig.subrange(0, k).push(orig[k]));
            assert forall|kk: (u32, u32, u32)| #[trigger] out@.filter(key_is(kk)) == orig.subrange(0, k + 1).filter(key_is(kk)) by {
                let p = key_is::<T>(kk);
                assert forall|j: int| pos <= j < before.len() implies !p(#[trigger] before[j]) || !p(x) by {
                    assert(precedes(xk, before[j].key(), descending));
                }
                lemma_filter_insert(before, pos as int, x, p);
                orig.subrange(0, k).lemma_filter_push(x, p);
            }
            assert(rest@ =~= orig.subrange(k + 1, orig.len() as int));
            assert forall|i: int, j: int| 0 <= i < j < out@.len() implies !precedes(
                #[trigger] out@[j].key(),
                #[trigger] out@[i].key(),
                descending,
            ) by {
                if j < pos {
                    assert(out@[i] == before[i] && out@[j] == before[j]);
                } else if j == pos {
                    assert(out@[i] == before[i]);
                } else if i == pos {
                    assert(out@[j] == before[j - 1]);
                } else if i < pos {
                    assert(out@[i] == before[i] && out@[j] == before[j - 1]);
                } else {
                    assert(out@[i] == before[i - 1] && out@[j] == before[j - 1]);
                }
            }
            k = k + 1;
        }
    }
    assert(orig.subrange(0, k) =~= orig);
    out
}

} // verus!
