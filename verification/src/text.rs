//! Byte-string primitives for query matching: ASCII lower-casing,
//! substring containment, and the lexicographic order used to break ties.

use vstd::prelude::*;

verus! {

/// ASCII lower-casing of a single byte; bytes outside `A`..`Z` are unchanged.
pub open spec fn lower_byte(b: u8) -> u8 {
    if 65 <= b <= 90 {
        (b + 32) as u8
    } else {
        b
    }
}

/// ASCII lower-casing of a byte string.
pub open spec fn lower(s: Seq<u8>) -> Seq<u8> {
    s.map_values(|b: u8| lower_byte(b))
}

/// Lower-cases a byte string, so that query matching is case-insensitive.
pub fn to_lower(s: &Vec<u8>) -> (r: Vec<u8>)
    ensures
        r@ == lower(s@),
{
    let mut r: Vec<u8> = Vec::new();
    let mut i: usize = 0;
    while i < s.len()
        invariant
            i <= s@.len(),
            r@ == lower(s@.take(i as int)),
        decreases s@.len() - i,
    {
        let b = s[i];
        if 65 <= b && b <= 90 {
            r.push(b + 32);
        } else {
            r.push(b);
        }
        proof {
            assert(lower(s@.take(i + 1)) =~= lower(s@.take(i as int)).push(lower_byte(s@[i as int])));
        }
        i += 1;
    }
    proof {
        assert(s@.take(s@.len() as int) =~= s@);
    }
    r
}

/// `needle` occurs in `hay` starting at position `i`.
pub open spec fn contains_at(hay: Seq<u8>, needle: Seq<u8>, i: int) -> bool {
    &&& 0 <= i
    &&& i + needle.len() <= hay.len()
    &&& forall|k: int| 0 <= k < needle.len() ==> hay[i + k] == needle[k]
}

/// `needle` occurs somewhere in `hay`.  The empty string occurs in every string.
pub open spec fn contains_sub(hay: Seq<u8>, needle: Seq<u8>) -> bool {
    exists|i: int| contains_at(hay, needle, i)
}

/// Whether `needle` occurs in `hay` starting at position `i`.
fn matches_at(hay: &Vec<u8>, needle: &Vec<u8>, i: usize) -> (r: bool)
    requires
        i + needle@.len() <= hay@.len(),
    ensures
        r == contains_at(hay@, needle@, i as int),
{
    let hay_len = hay.len();
    let mut j: usize = 0;
    while j < needle.len()
        invariant
            j <= needle@.len(),
            i + needle@.len() <= hay@.len(),
            hay_len == hay@.len(),
            forall|k: int| 0 <= k < j ==> hay@[i + k] == needle@[k],
        decreases needle@.len() - j,
    {
        if hay[i + j] != needle[j] {
            return false;
        }
        j += 1;
    }
    true
}

/// Substring search: whether `needle` occurs anywhere in `hay`.
pub fn contains_subslice(hay: &Vec<u8>, needle: &Vec<u8>) -> (r: bool)
    ensures
        r == contains_sub(hay@, needle@),
{
    if needle.len() > hay.len() {
        return false;
    }
    if needle.len() == 0 {
        proof {
            assert(contains_at(hay@, needle@, 0));
        }
        return true;
    }
    let bound = hay.len() - needle.len();
    let mut i: usize = 0;
    while i <= bound
        invariant
            needle@.len() >= 1,
            bound == hay@.len() - needle@.len(),
            i <= bound + 1,
            forall|p: int| 0 <= p < i ==> !contains_at(hay@, needle@, p),
        decreases bound + 1 - i,
    {
        if matches_at(hay, needle, i) {
            return true;
        }
        if i == bound {
            return false;
        }
        i += 1;
    }
    false
}

/// A single query term matches a project when the lower-cased term occurs in
/// the lower-cased display name or in the lower-cased path.
pub open spec fn term_matches(name: Seq<u8>, path: Seq<u8>, term: Seq<u8>) -> bool {
    ||| contains_sub(lower(name), lower(term))
    ||| contains_sub(lower(path), lower(term))
}

/// A query matches a project when every term matches it (logical AND).
/// An empty term list therefore matches every project.
pub open spec fn all_terms_match(name: Seq<u8>, path: Seq<u8>, terms: Seq<Seq<u8>>) -> bool {
    forall|t: int| 0 <= t < terms.len() ==> term_matches(name, path, #[trigger] terms[t])
}

/// Whether every query term matches the given name or path.
pub fn matches_all_terms(name: &Vec<u8>, path: &Vec<u8>, terms: &Vec<Vec<u8>>) -> (r: bool)
    ensures
        r == all_terms_match(name@, path@, terms.deep_view()),
{
    let lname = to_lower(name);
    let lpath = to_lower(path);
    let mut t: usize = 0;
    while t < terms.len()
        invariant
            t <= terms@.len(),
            lname@ == lower(name@),
            lpath@ == lower(path@),
            forall|k: int| 0 <= k < t ==> term_matches(name@, path@, #[trigger] terms.deep_view()[k]),
        decreases terms@.len() - t,
    {
        let lterm = to_lower(&terms[t]);
        let in_name = contains_subslice(&lname, &lterm);
        let in_path = contains_subslice(&lpath, &lterm);
        if !in_name && !in_path {
            proof {
                assert(terms.deep_view()[t as int] == terms@[t as int]@);
            }
            return false;
        }
        proof {
            assert(terms.deep_view()[t as int] == terms@[t as int]@);
        }
        t += 1;
    }
    true
}

/// Copies a byte string.  Used where a query answer hands out a field of the
/// index without giving up ownership.
pub fn clone_bytes(s: &Vec<u8>) -> (r: Vec<u8>)
    ensures
        r@ == s@,
{
    let mut r: Vec<u8> = Vec::new();
    let mut i: usize = 0;
    while i < s.len()
        invariant
            i <= s@.len(),
            r@ == s@.take(i as int),
        decreases s@.len() - i,
    {
        r.push(s[i]);
        proof {
            assert(s@.take(i + 1) =~= s@.take(i as int).push(s@[i as int]));
        }
        i += 1;
    }
    proof {
        assert(s@.take(s@.len() as int) =~= s@);
    }
    r
}

/// Whether two byte strings hold the same bytes.
pub fn bytes_eq(a: &Vec<u8>, b: &Vec<u8>) -> (r: bool)
    ensures
        r == (a@ == b@),
{
    if a.len() != b.len() {
        return false;
    }
    let mut i: usize = 0;
    while i < a.len()
        invariant
            a@.len() == b@.len(),
            i <= a@.len(),
            forall|k: int| 0 <= k < i ==> a@[k] == b@[k],
        decreases a@.len() - i,
    {
        if a[i] != b[i] {
            return false;
        }
        i += 1;
    }
    proof {
        assert(a@ =~= b@);
    }
    true
}

/// Lexicographic order on byte strings; a prefix comes before its extensions.
pub open spec fn bytes_le(a: Seq<u8>, b: Seq<u8>) -> bool
    decreases a.len(),
{
    if a.len() == 0 {
        true
    } else if b.len() == 0 {
        false
    } else if a[0] < b[0] {
        true
    } else if a[0] > b[0] {
        false
    } else {
        bytes_le(a.drop_first(), b.drop_first())
    }
}

/// The lexicographic order is total: of any two byte strings one comes first.
pub proof fn lemma_bytes_le_total(a: Seq<u8>, b: Seq<u8>)
    ensures
        bytes_le(a, b) || bytes_le(b, a),
    decreases a.len(),
{
    if a.len() == 0 || b.len() == 0 {
    } else if a[0] == b[0] {
        lemma_bytes_le_total(a.drop_first(), b.drop_first());
    }
}

/// The lexicographic order is transitive.
pub proof fn lemma_bytes_le_trans(a: Seq<u8>, b: Seq<u8>, c: Seq<u8>)
    requires
        bytes_le(a, b),
        bytes_le(b, c),
    ensures
        bytes_le(a, c),
    decreases a.len(),
{
    if a.len() == 0 {
    } else {
        if b.len() == 0 {
        } else if c.len() == 0 {
        } else {
            if a[0] == b[0] && b[0] == c[0] {
                lemma_bytes_le_trans(a.drop_first(), b.drop_first(), c.drop_first());
            }
        }
    }
}

/// A sequence of byte strings is sorted lexicographically.
pub open spec fn sorted_byte_strings(s: Seq<Vec<u8>>) -> bool {
    forall|i: int, j: int| 0 <= i < j < s.len() ==> bytes_le(#[trigger] s[i]@, #[trigger] s[j]@)
}

/// Inserting a byte string between its lower and upper neighbours keeps a
/// sequence sorted.
proof fn lemma_sorted_bytes_insert(p: Seq<Vec<u8>>, j: int, x: Vec<u8>)
    requires
        sorted_byte_strings(p),
        0 <= j <= p.len(),
        forall|k: int| 0 <= k < j ==> bytes_le(#[trigger] p[k]@, x@),
        j < p.len() ==> bytes_le(x@, p[j]@),
    ensures
        sorted_byte_strings(p.insert(j, x)),
{
    let u = p.insert(j, x);
    assert forall|a: int, b: int| 0 <= a < b < u.len() implies bytes_le(
        #[trigger] u[a]@,
        #[trigger] u[b]@,
    ) by {
        if a < j && b == j {
            assert(u[a] == p[a]);
        } else if a < j && b > j {
            assert(u[a] == p[a] && u[b] == p[b - 1]);
        } else if a == j && b > j {
            assert(u[b] == p[b - 1]);
            if j < b - 1 {
                lemma_bytes_le_trans(x@, p[j]@, p[b - 1]@);
            }
        } else if a > j {
            assert(u[a] == p[a - 1] && u[b] == p[b - 1]);
        }
    }
}

/// Sorts byte strings lexicographically: used to present the provider
/// catalog in a stable order.  The result holds exactly the given strings.
pub fn sort_byte_strings(v: &mut Vec<Vec<u8>>)
    ensures
        sorted_byte_strings(final(v)@),
        final(v)@.to_multiset() == old(v)@.to_multiset(),
        final(v)@.len() == old(v)@.len(),
{
    let n = v.len();
    if n < 2 {
        return;
    }
    let mut i: usize = 1;
    while i < n
        invariant
            1 <= i <= n,
            n == v@.len(),
            sorted_byte_strings(v@.take(i as int)),
            v@.to_multiset() == old(v)@.to_multiset(),
        decreases n - i,
    {
        let ghost s = v@;
        let x = v.remove(i);
        proof {
            assert(v@.take(i as int) =~= s.take(i as int));
        }
        let mut j: usize = 0;
        while j < i
            invariant
                j <= i,
                i < n,
                v@ == s.remove(i as int),
                v@.len() == n - 1,
                forall|k: int| 0 <= k < j ==> bytes_le(#[trigger] v@[k]@, x@),
            ensures
                j <= i,
                v@ == s.remove(i as int),
                forall|k: int| 0 <= k < j ==> bytes_le(#[trigger] v@[k]@, x@),
                j < i ==> bytes_le(x@, v@[j as int]@),
            decreases i - j,
        {
            if !bytes_le_exec(&v[j], &x) {
                proof {
                    lemma_bytes_le_total(v@[j as int]@, x@);
                }
                break;
            }
            j += 1;
        }
        let ghost t = v@;
        let ghost p = s.take(i as int);
        v.insert(j, x);
        proof {
            assert forall|k: int| 0 <= k < j implies bytes_le(#[trigger] p[k]@, x@) by {
                assert(p[k] == t[k]);
            }
            if (j as int) < p.len() {
                assert(p[j as int] == t[j as int]);
            }
            lemma_sorted_bytes_insert(p, j as int, x);
            assert(v@.take(i + 1) =~= p.insert(j as int, x));
            // the removed element went back in: the contents are unchanged
            broadcast use vstd::seq_lib::group_to_multiset_ensures;
            broadcast use vstd::seq_lib::to_multiset_insert;

            assert(s[i as int] == x);
            assert(s.contains(x));
            assert(t.to_multiset() =~= s.to_multiset().remove(x));
            assert(v@.to_multiset() =~= t.to_multiset().insert(x));
            assert(s.to_multiset().count(x) > 0);
            assert(s.to_multiset().remove(x).insert(x) =~= s.to_multiset());
        }
        i += 1;
    }
    proof {
        assert(v@.take(n as int) =~= v@);
    }
}

/// Lexicographic comparison of two byte strings.
pub fn bytes_le_exec(a: &Vec<u8>, b: &Vec<u8>) -> (r: bool)
    ensures
        r == bytes_le(a@, b@),
{
    let mut i: usize = 0;
    proof {
        assert(a@.skip(0) =~= a@);
        assert(b@.skip(0) =~= b@);
    }
    while i < a.len() && i < b.len()
        invariant
            i <= a@.len(),
            i <= b@.len(),
            bytes_le(a@, b@) == bytes_le(a@.skip(i as int), b@.skip(i as int)),
        decreases a@.len() - i,
    {
        let x = a[i];
        let y = b[i];
        if x < y {
            return true;
        }
        if x > y {
            return false;
        }
        proof {
            assert(a@.skip(i as int).drop_first() =~= a@.skip(i + 1));
            assert(b@.skip(i as int).drop_first() =~= b@.skip(i + 1));
        }
        i += 1;
    }
    proof {
        if i >= a@.len() {
            assert(a@.skip(i as int).len() == 0);
        } else {
            assert(b@.skip(i as int).len() == 0);
            assert(a@.skip(i as int).len() > 0);
        }
    }
    i >= a.len()
}

} // verus!
