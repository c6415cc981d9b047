use vstd::prelude::*;

verus! {

/// The name prefix that every toolchain entry carries.
pub open spec fn prefix_spec() -> Seq<char> {
    seq!['g', 'o']
}

pub open spec fn has_prefix(s: Seq<char>) -> bool {
    s.len() >= 2 && s.subrange(0, 2) == prefix_spec()
}

/// Canonical prefixed form of a version string.
pub open spec fn normalize_spec(s: Seq<char>) -> Seq<char> {
    if has_prefix(s) {
        s
    } else {
        prefix_spec() + s
    }
}

/// The numeric-dotted part: the text after the prefix, or the whole text.
pub open spec fn bare_spec(s: Seq<char>) -> Seq<char> {
    if has_prefix(s) {
        s.subrange(2, s.len() as int)
    } else {
        s
    }
}

pub open spec fn is_digit(c: char) -> bool {
    '0' <= c <= '9'
}

pub open spec fn all_digits(s: Seq<char>) -> bool {
    forall|i: int| 0 <= i < s.len() ==> is_digit(#[trigger] s[i])
}

/// Decimal value of a string of digits.
pub open spec fn digits_value(s: Seq<char>) -> nat
    decreases s.len(),
{
    if s.len() == 0 {
        0
    } else {
        digits_value(s.drop_last()) * 10 + (s.last() as nat - '0' as nat) as nat
    }
}

/// The digits of an unsigned decimal, after an optional leading `+`.
pub open spec fn unsigned_digits(s: Seq<char>) -> Seq<char> {
    if s.len() > 0 && s[0] == '+' {
        s.drop_first()
    } else {
        s
    }
}

/// Whether `s` is an unsigned decimal that fits in `u32`.
pub open spec fn parses_u32(s: Seq<char>) -> bool {
    let d = unsigned_digits(s);
    d.len() > 0 && all_digits(d) && digits_value(d) <= u32::MAX
}

/// Lenient value of one version component: zero where it does not parse.
pub open spec fn component_value(s: Seq<char>) -> u32 {
    if parses_u32(s) {
        digits_value(unsigned_digits(s)) as u32
    } else {
        0
    }
}

/// Index of the first `.` in `s`, or its length where there is none.
pub open spec fn first_dot(s: Seq<char>) -> nat
    decreases s.len(),
{
    if s.len() == 0 {
        0
    } else if s[0] == '.' {
        0
    } else {
        1 + first_dot(s.drop_first())
    }
}

/// The `k`-th field of `s` split on `.`; `None` where `s` has fewer fields.
pub open spec fn field(s: Seq<char>, k: nat) -> Option<Seq<char>>
    decreases k,
{
    let d = first_dot(s) as int;
    if k == 0 {
        Some(s.subrange(0, d))
    } else if d < s.len() {
        field(s.subrange(d + 1, s.len() as int), (k - 1) as nat)
    } else {
        None
    }
}

/// Lenient value of the `k`-th field: zero where it is missing or does not parse.
pub open spec fn component(s: Seq<char>, k: nat) -> u32 {
    match field(s, k) {
        Some(f) => component_value(f),
        None => 0,
    }
}

pub open spec fn triple_spec(s: Seq<char>) -> (u32, u32, u32) {
    (component(s, 0), component(s, 1), component(s, 2))
}

/// Lexicographic order on triples.
pub open spec fn triple_lt(a: (u32, u32, u32), b: (u32, u32, u32)) -> bool {
    a.0 < b.0 || (a.0 == b.0 && (a.1 < b.1 || (a.1 == b.1 && a.2 < b.2)))
}

pub open spec fn triple_le(a: (u32, u32, u32), b: (u32, u32, u32)) -> bool {
    triple_lt(a, b) || a == b
}

pub open spec fn triple_cmp(a: (u32, u32, u32), b: (u32, u32, u32)) -> core::cmp::Ordering {
    if triple_lt(a, b) {
        core::cmp::Ordering::Less
    } else if a == b {
        core::cmp::Ordering::Equal
    } else {
        core::cmp::Ordering::Greater
    }
}

proof fn lemma_first_dot_bound(s: Seq<char>)
    ensures
        first_dot(s) <= s.len(),
        first_dot(s) < s.len() ==> s[first_dot(s) as int] == '.',
        forall|i: int| 0 <= i < first_dot(s) ==> s[i] != '.',
    decreases s.len(),
{
    if s.len() > 0 && s[0] != '.' {
        lemma_first_dot_bound(s.drop_first());
        assert forall|i: int| 0 <= i < first_dot(s) implies s[i] != '.' by {
            if i > 0 {
                assert(s[i] == s.drop_first()[i - 1]);
            }
        }
    }
}

proof fn lemma_first_dot_at(s: Seq<char>, i: int)
    requires
        0 <= i <= s.len(),
        i == s.len() || s[i] == '.',
        forall|j: int| 0 <= j < i ==> s[j] != '.',
    ensures
        first_dot(s) == i,
    decreases i,
{
    if i > 0 {
        let t = s.drop_first();
        assert forall|j: int| 0 <= j < i - 1 implies t[j] != '.' by {
            assert(t[j] == s[j + 1]);
        }
        lemma_first_dot_at(t, i - 1);
    }
}

fn starts_with_prefix(s: &str) -> (r: bool)
    ensures
        r == has_prefix(s@),
{
    let n = s.unicode_len();
    if n < 2 {
        return false;
    }
    let a = s.get_char(0);
    let b = s.get_char(1);
    assert(s@.subrange(0, 2) =~= seq![s@[0], s@[1]]);
    a == 'g' && b == 'o'
}

/// Gives the canonical prefixed form: the input itself when it already
/// carries the prefix, otherwise the prefix followed by the input.
pub fn normalize_version(version: &str) -> (r: String)
    ensures
        r@ == normalize_spec(version@),
{
    if starts_with_prefix(version) {
        version.to_owned()
    } else {
        let p = String::from_str("go");
        proof {
            reveal_strlit("go");
        }
        let r = p.concat(version);
        assert(r@ =~= prefix_spec() + version@);
        r
    }
}

/// Strips the prefix; a string without it is returned unchanged.
pub fn extract_version_number(version: &str) -> (r: String)
    ensures
        r@ == bare_spec(version@),
{
    if starts_with_prefix(version) {
        let n = version.unicode_len();
        version.substring_char(2, n).to_owned()
    } else {
        version.to_owned()
    }
}

/// Lenient decimal reading of one component: an optional `+` and then
/// digits whose value fits in `u32`; anything else reads as zero.
pub fn parse_component(s: &str) -> (r: u32)
    ensures
        r == component_value(s@),
{
    match read_component(s) {
        Some(v) => v,
        None => 0,
    }
}

/// Decimal reading of one component: an optional `+` and then digits
/// whose value fits in `u32`; anything else reads as nothing.
pub fn read_component(s: &str) -> (r: Option<u32>)
    ensures
        r == if parses_u32(s@) {
            Some(component_value(s@))
        } else {
            None
        },
{
    let n = s.unicode_len();
    let mut start: usize = 0;
    if n > 0 && s.get_char(0) == '+' {
        start = 1;
    }
    let ghost d = unsigned_digits(s@);
    assert(d =~= s@.subrange(start as int, n as int));
    if start == n {
        return None;
    }
    let limit: u64 = 0x1_0000_0000;
    let mut acc: u64 = 0;
    let mut i: usize = start;
    while i < n
        invariant
            start <= i <= n,
            n == s@.len(),
            d == s@.subrange(start as int, n as int),
            d == unsigned_digits(s@),
            limit == 0x1_0000_0000u64,
            all_digits(d.subrange(0, i - start)),
            acc <= limit,
            acc == if digits_value(d.subrange(0, i - start)) >= limit {
                limit as nat
            } else {
                digits_value(d.subrange(0, i - start))
            },
        decreases n - i,
    {
        let c = s.get_char(i);
        if !('0' <= c && c <= '9') {
            assert(!all_digits(d)) by {
                assert(d[i - start] == c);
                assert(!is_digit(d[i - start]));
            }
            assert(!parses_u32(s@));
            return None;
        }
        let ghost pre = d.subrange(0, i - start);
        let ghost next = d.subrange(0, i + 1 - start);
        assert(next.drop_last() =~= pre);
        assert(next.last() == c);
        assert(all_digits(next)) by {
            assert forall|j: int| 0 <= j < next.len() implies is_digit(#[trigger] next[j]) by {
                if j < pre.len() {
                    assert(next[j] == pre[j]);
                }
            }
        }
        let v: u64 = (c as u64) - ('0' as u64);
        assert(acc * 10 <= 0x1_0000_0000u64 * 10) by (nonlinear_arith)
            requires
                acc <= 0x1_0000_0000u64,
        ;
        let grown: u64 = acc * 10 + v;
        assert(digits_value(next) == digits_value(pre) * 10 + v);
        if grown >= limit {
            acc = limit;
        } else {
            acc = grown;
        }
        i = i + 1;
    }
    assert(d.subrange(0, n - start) =~= d);
    if acc >= limit {
        None
    } else {
        Some(acc as u32)
    }
}

/// Position of the first `.` in `s`, or its length.
fn find_dot(s: &str) -> (r: usize)
    ensures
        r == first_dot(s@),
{
    let n = s.unicode_len();
    let mut i: usize = 0;
    while i < n
        invariant
            i <= n,
            n == s@.len(),
            forall|j: int| 0 <= j < i ==> s@[j] != '.',
        decreases n - i,
    {
        if s.get_char(i) == '.' {
            proof {
                lemma_first_dot_at(s@, i as int);
            }
            return i;
        }
        i = i + 1;
    }
    proof {
        lemma_first_dot_at(s@, i as int);
    }
    i
}

/// The first field of `s`, and the text after its dot, if any.
fn next_field_text<'a>(s: &'a str) -> (r: (&'a str, Option<&'a str>))
    ensures
        field(s@, 0) == Some(r.0@),
        r.1 == None::<&str> <==> field(s@, 1) == None::<Seq<char>>,
        forall|k: nat|
            #![trigger field(s@, k + 1)]
            r.1 matches Some(rest) ==> field(s@, k + 1) == field(rest@, k),
        forall|k: nat|
            #![trigger field(s@, k + 1)]
            r.1 == None::<&str> ==> field(s@, k + 1) == None::<Seq<char>>,
{
    let n = s.unicode_len();
    let d = find_dot(s);
    proof {
        lemma_first_dot_bound(s@);
    }
    let first = s.substring_char(0, d);
    if d < n {
        let rest = s.substring_char(d + 1, n);
        assert(field(s@, 1) == field(rest@, 0));
        (first, Some(rest))
    } else {
        (first, None)
    }
}

/// Reads the first field of `s` and hands back the text after its dot, if any.
fn next_field<'a>(s: &'a str) -> (r: (u32, Option<&'a str>))
    ensures
        r.0 == component(s@, 0),
        r.1 == None::<&str> <==> field(s@, 1) == None::<Seq<char>>,
        forall|k: nat|
            #![trigger field(s@, k + 1)]
            r.1 matches Some(rest) ==> field(s@, k + 1) == field(rest@, k),
        forall|k: nat|
            #![trigger field(s@, k + 1)]
            r.1 == None::<&str> ==> field(s@, k + 1) == None::<Seq<char>>,
{
    let (first, rest) = next_field_text(s);
    (parse_component(first), rest)
}

/// Reads `(major, minor, patch)` from a dotted string. Each component
/// that is missing or does not parse reads as zero.
pub fn parse_triple(bare: &str) -> (r: (u32, u32, u32))
    ensures
        r == triple_spec(bare@),
{
    let (major, rest) = next_field(bare);
    match rest {
        None => {
            assert(field(bare@, 0 + 1) == None::<Seq<char>>);
            assert(field(bare@, 1 + 1) == None::<Seq<char>>);
            (major, 0, 0)
        },
        Some(rest1) => {
            let (minor, rest2) = next_field(rest1);
            assert(field(bare@, 0 + 1) == field(rest1@, 0));
            assert(field(bare@, 1 + 1) == field(rest1@, 1));
            match rest2 {
                None => {
                    assert(field(rest1@, 0 + 1) == None::<Seq<char>>);
                    (major, minor, 0)
                },
                Some(rest3) => {
                    let (patch, _) = next_field(rest3);
                    assert(field(rest1@, 0 + 1) == field(rest3@, 0));
                    (major, minor, patch)
                },
            }
        },
    }
}

/// Whether each of the first three components that is present parses.
pub open spec fn strictly_readable(s: Seq<char>) -> bool {
    forall|k: nat|
        k < 3 ==> (#[trigger] field(s, k) matches Some(f) ==> parses_u32(f))
}

/// Reads `(major, minor, patch)` from a dotted string, leniently or
/// strictly. Leniently, as `parse_triple`. Strictly, a component that is
/// present and does not parse makes the whole reading fail; a missing one
/// still reads as zero.
pub fn parse_triple_with(bare: &str, strict_version_parsing: bool) -> (r: Option<(u32, u32, u32)>)
    ensures
        !strict_version_parsing ==> r == Some(triple_spec(bare@)),
        strict_version_parsing ==> (r is Some <==> strictly_readable(bare@)),
        r matches Some(t) ==> t == triple_spec(bare@),
{
    let t = parse_triple(bare);
    if !strict_version_parsing {
        return Some(t);
    }
    let (f0, rest) = next_field_text(bare);
    let mut ok = read_component(f0).is_some();
    assert(field(bare@, 0) == Some(f0@));
    match rest {
        None => {
            assert(field(bare@, 0 + 1) == None::<Seq<char>>);
            assert(field(bare@, 1 + 1) == None::<Seq<char>>);
        },
        Some(rest1) => {
            let (f1, rest2) = next_field_text(rest1);
            ok = ok && read_component(f1).is_some();
            assert(field(bare@, 0 + 1) == field(rest1@, 0));
            assert(field(bare@, 1 + 1) == field(rest1@, 1));
            match rest2 {
                None => {
                    assert(field(rest1@, 0 + 1) == None::<Seq<char>>);
                },
                Some(rest3) => {
                    let (f2, _) = next_field_text(rest3);
                    ok = ok && read_component(f2).is_some();
                    assert(field(rest1@, 0 + 1) == field(rest3@, 0));
                },
            }
        },
    }
    assert(ok == strictly_readable(bare@)) by {
        if ok {
            assert forall|k: nat| k < 3 implies (#[trigger] field(bare@, k) matches Some(f)
                ==> parses_u32(f)) by {
                if k == 0 {
                } else if k == 1 {
                    assert(field(bare@, 0 + 1) == field(bare@, k));
                } else {
                    assert(field(bare@, 1 + 1) == field(bare@, k));
                }
            }
        } else {
            assert(!(field(bare@, 0) matches Some(f) ==> parses_u32(f)) || !(field(bare@, 1) matches Some(f)
                ==> parses_u32(f)) || !(field(bare@, 2) matches Some(f) ==> parses_u32(f))) by {
                assert(field(bare@, 0 + 1) == field(bare@, 1));
                assert(field(bare@, 1 + 1) == field(bare@, 2));
            }
        }
    }
    if ok {
        Some(t)
    } else {
        None
    }
}

/// Orders two bare version strings by their numeric triples.
pub fn version_compare(a: &str, b: &str) -> (r: core::cmp::Ordering)
    ensures
        r == triple_cmp(triple_spec(a@), triple_spec(b@)),
{
    let x = parse_triple(a);
    let y = parse_triple(b);
    if x.0 < y.0 || (x.0 == y.0 && (x.1 < y.1 || (x.1 == y.1 && x.2 < y.2))) {
        core::cmp::Ordering::Less
    } else if x.0 == y.0 && x.1 == y.1 && x.2 == y.2 {
        core::cmp::Ordering::Equal
    } else {
        core::cmp::Ordering::Greater
    }
}

/// A toolchain version as its numeric triple. Two versions are equal
/// exactly when their triples are, whatever text they were read from.
#[derive(Clone, Copy, Debug, PartialEq, Eq, Structural)]
pub struct VersionId {
    pub major: u32,
    pub minor: u32,
    pub patch: u32,
}

pub open spec fn id_of_triple(t: (u32, u32, u32)) -> VersionId {
    VersionId { major: t.0, minor: t.1, patch: t.2 }
}

/// The version that any user or catalog text stands for.
pub open spec fn version_of(s: Seq<char>) -> VersionId {
    id_of_triple(triple_spec(bare_spec(normalize_spec(s))))
}

impl VersionId {
    pub open spec fn triple(self) -> (u32, u32, u32) {
        (self.major, self.minor, self.patch)
    }

    /// Reads a version from text, with or without the prefix.
    pub fn parse(input: &str) -> (r: VersionId)
        ensures
            r == version_of(input@),
    {
        let canonical = normalize_version(input);
        let bare = extract_version_number(canonical.as_str());
        let t = parse_triple(bare.as_str());
        VersionId { major: t.0, minor: t.1, patch: t.2 }
    }

    /// Orders two versions by their numeric triples.
    pub fn compare(&self, other: &VersionId) -> (r: core::cmp::Ordering)
        ensures
            r == triple_cmp(self.triple(), other.triple()),
    {
        if self.major < other.major || (self.major == other.major && (self.minor < other.minor
            || (self.minor == other.minor && self.patch < other.patch))) {
            core::cmp::Ordering::Less
        } else if self.major == other.major && self.minor == other.minor && self.patch
            == other.patch {
            core::cmp::Ordering::Equal
        } else {
            core::cmp::Ordering::Greater
        }
    }
}

/// Normalizing first does not change the bare number, so it does not
/// change the triple that is read from it; and normalizing twice is
/// normalizing once.
pub proof fn lemma_normalize_round_trip(s: Seq<char>)
    ensures
        bare_spec(normalize_spec(s)) == bare_spec(s),
        triple_spec(bare_spec(normalize_spec(s))) == triple_spec(bare_spec(s)),
        normalize_spec(normalize_spec(s)) == normalize_spec(s),
        version_of(s) == id_of_triple(triple_spec(bare_spec(s))),
{
    if !has_prefix(s) {
        let n = prefix_spec() + s;
        assert(n.subrange(0, 2) =~= prefix_spec());
        assert(n.subrange(2, n.len() as int) =~= s);
    }
}

/// A string with no third field reads with patch zero; one with no
/// second field reads with minor zero as well.
pub proof fn lemma_missing_component_is_zero(s: Seq<char>)
    ensures
        field(s, 2) == None::<Seq<char>> ==> triple_spec(s).2 == 0,
        field(s, 1) == None::<Seq<char>> ==> triple_spec(s).1 == 0 && triple_spec(s).2 == 0,
{
    reveal_with_fuel(field, 2);

}

proof fn lemma_first_dot_concat(s: Seq<char>, u: Seq<char>)
    ensures
        first_dot(s) < s.len() ==> first_dot(s + u) == first_dot(s),
        first_dot(s) == s.len() ==> first_dot(s + u) == s.len() + first_dot(u),
{
    lemma_first_dot_bound(s);
    lemma_first_dot_bound(u);
    let su = s + u;
    let d = first_dot(s) as int;
    if d < s.len() {
        assert forall|j: int| 0 <= j < d implies su[j] != '.' by {
            assert(su[j] == s[j]);
        }
        lemma_first_dot_at(su, d);
    } else {
        let e: int = s.len() as int + first_dot(u) as int;
        assert forall|j: int| 0 <= j < e implies su[j] != '.' by {
            if j >= s.len() {
                assert(su[j] == u[j - s.len()]);
            } else {
                assert(su[j] == s[j]);
            }
        }
        if e < su.len() {
            assert(su[e] == u[first_dot(u) as int]);
        }
        lemma_first_dot_at(su, e);
    }
}

pub open spec fn has_no_dot(s: Seq<char>) -> bool {
    forall|i: int| 0 <= i < s.len() ==> s[i] != '.'
}

/// A version with exactly two components reads patch zero: it reads as
/// the same version with `.t` appended, a third component `t`, but for
/// the patch, which is that of `t`. So it equals the version with `.0`
/// appended and comes before the version with any patch above zero.
pub proof fn lemma_missing_patch_reads_zero(s: Seq<char>, t: Seq<char>)
    requires
        field(s, 1) is Some,
        field(s, 2) is None,
        has_no_dot(t),
    ensures
        triple_spec(s).2 == 0,
        triple_spec(s + seq!['.'] + t) == (triple_spec(s).0, triple_spec(s).1, component_value(t)),
        component_value(t) == 0 ==> triple_cmp(triple_spec(s), triple_spec(s + seq!['.'] + t))
            == core::cmp::Ordering::Equal,
        component_value(t) > 0 ==> triple_cmp(triple_spec(s), triple_spec(s + seq!['.'] + t))
            == core::cmp::Ordering::Less,
{
    lemma_missing_component_is_zero(s);
    let u = seq!['.'] + t;
    let big = s + seq!['.'] + t;
    assert(big =~= s + u);
    lemma_first_dot_bound(s);
    let d0 = first_dot(s) as int;
    assert(d0 < s.len());
    let r1 = s.subrange(d0 + 1, s.len() as int);
    assert(field(s, 1) == field(r1, 0));
    assert(field(s, 2) == field(r1, 1));
    lemma_first_dot_bound(r1);
    if first_dot(r1) < r1.len() {
        let r2 = r1.subrange(first_dot(r1) as int + 1, r1.len() as int);
        assert(field(r1, 1) == field(r2, 0));
    }
    assert(first_dot(r1) == r1.len());
    lemma_first_dot_concat(s, u);
    assert(first_dot(big) == d0);
    assert(big.subrange(0, d0) =~= s.subrange(0, d0));
    let big1 = big.subrange(d0 + 1, big.len() as int);
    assert(big1 =~= r1 + u);
    lemma_first_dot_concat(r1, u);
    assert(first_dot(u) == 0);
    assert(first_dot(big1) == r1.len());
    assert(big1.subrange(0, r1.len() as int) =~= r1);
    assert(r1.subrange(0, r1.len() as int) =~= r1);
    let big2 = big1.subrange(r1.len() as int + 1, big1.len() as int);
    assert(big2 =~= t);
    lemma_first_dot_at(t, t.len() as int);
    assert(t.subrange(0, t.len() as int) =~= t);
    assert(field(big, 1) == field(big1, 0));
    assert(field(big, 2) == field(big1, 1));
    assert(field(big1, 1) == field(big2, 0));
    assert(field(big2, 0) == Some(t));
}

/// The order on triples is total and strict: exactly one of less, equal
/// and greater holds, and swapping the arguments swaps less and greater.
pub proof fn lemma_compare_antisymmetric(a: (u32, u32, u32), b: (u32, u32, u32))
    ensures
        triple_cmp(a, b) == core::cmp::Ordering::Equal <==> a == b,
        triple_cmp(a, b) == core::cmp::Ordering::Less <==> triple_cmp(b, a)
            == core::cmp::Ordering::Greater,
        !(triple_lt(a, b) && triple_lt(b, a)),
        !triple_lt(a, a),
{
}

/// The order on triples is transitive.
pub proof fn lemma_compare_transitive(a: (u32, u32, u32), b: (u32, u32, u32), c: (u32, u32, u32))
    ensures
        triple_cmp(a, b) == core::cmp::Ordering::Less && triple_cmp(b, c)
            == core::cmp::Ordering::Less ==> triple_cmp(a, c) == core::cmp::Ordering::Less,
        triple_le(a, b) && triple_le(b, c) ==> triple_le(a, c),
{
}

/// The order on triples is the order on the single number that weighs
/// major over minor over patch, never an order on text.
pub proof fn lemma_compare_numeric(a: (u32, u32, u32), b: (u32, u32, u32))
    ensures
        triple_lt(a, b) <==> weight(a) < weight(b),
{
    let k: int = 0x1_0000_0000;
    assert(weight(a) < weight(b) ==> triple_lt(a, b)) by (nonlinear_arith)
        requires
            k == 0x1_0000_0000,
            weight(a) == a.0 * k * k + a.1 * k + a.2,
            weight(b) == b.0 * k * k + b.1 * k + b.2,
            0 <= a.1 < k, 0 <= a.2 < k, 0 <= b.1 < k, 0 <= b.2 < k,
    ;
    assert(triple_lt(a, b) ==> weight(a) < weight(b)) by (nonlinear_arith)
        requires
            k == 0x1_0000_0000,
            weight(a) == a.0 * k * k + a.1 * k + a.2,
            weight(b) == b.0 * k * k + b.1 * k + b.2,
            0 <= a.1 < k, 0 <= a.2 < k, 0 <= b.1 < k, 0 <= b.2 < k,
    ;
}

/// A triple as one number, major weighing most.
pub open spec fn weight(t: (u32, u32, u32)) -> int {
    t.0 * 0x1_0000_0000 * 0x1_0000_0000 + t.1 * 0x1_0000_0000 + t.2
}

} // verus!
