//! The per-application project index: recently used project records,
//! ordered by last use (most recent first) with ties broken by project id,
//! and the query evaluation against it.

use vstd::prelude::*;
use crate::text::{
    all_terms_match, bytes_le, bytes_le_exec, clone_bytes, bytes_eq, lemma_bytes_le_total,
    lemma_bytes_le_trans, matches_all_terms,
};

verus! {

/// One recently used project of an application, as the on-disk reader
/// yields it: a stable id, a display name, the project path, and the
/// time of last use (larger means more recent).
#[derive(Debug, Clone, PartialEq, Eq)]
pub struct ProjectRecord {
    pub id: Vec<u8>,
    pub name: Vec<u8>,
    pub path: Vec<u8>,
    pub last_used: u64,
}

/// Index order: more recently used projects first; among equally recent
/// projects, the lexicographically smaller id first.
pub open spec fn rec_le(a: ProjectRecord, b: ProjectRecord) -> bool {
    if a.last_used != b.last_used {
        a.last_used > b.last_used
    } else {
        bytes_le(a.id@, b.id@)
    }
}

/// The index order is total.
pub proof fn lemma_rec_le_total(a: ProjectRecord, b: ProjectRecord)
    ensures
        rec_le(a, b) || rec_le(b, a),
{
    lemma_bytes_le_total(a.id@, b.id@);
}

/// The index order is transitive.
pub proof fn lemma_rec_le_trans(a: ProjectRecord, b: ProjectRecord, c: ProjectRecord)
    requires
        rec_le(a, b),
        rec_le(b, c),
    ensures
        rec_le(a, c),
{
    if a.last_used == b.last_used && b.last_used == c.last_used {
        lemma_bytes_le_trans(a.id@, b.id@, c.id@);
    }
}

/// Compares two records in index order.
pub fn rec_le_exec(a: &ProjectRecord, b: &ProjectRecord) -> (r: bool)
    ensures
        r == rec_le(*a, *b),
{
    if a.last_used != b.last_used {
        a.last_used > b.last_used
    } else {
        bytes_le_exec(&a.id, &b.id)
    }
}

/// A record sequence is sorted in index order.
pub open spec fn sorted_recs(s: Seq<ProjectRecord>) -> bool {
    forall|i: int, j: int| 0 <= i < j < s.len() ==> rec_le(#[trigger] s[i], #[trigger] s[j])
}

/// Inserting an element between its lower and upper neighbours keeps a
/// sequence sorted in index order.
proof fn lemma_sorted_insert(p: Seq<ProjectRecord>, j: int, x: ProjectRecord)
    requires
        sorted_recs(p),
        0 <= j <= p.len(),
        forall|k: int| 0 <= k < j ==> rec_le(#[trigger] p[k], x),
        j < p.len() ==> rec_le(x, p[j]),
    ensures
        sorted_recs(p.insert(j, x)),
{
    let u = p.insert(j, x);
    assert forall|a: int, b: int| 0 <= a < b < u.len() implies rec_le(#[trigger] u[a], #[trigger] u[b]) by {
        if a < j && b < j {
        } else if a < j && b == j {
            assert(u[a] == p[a]);
        } else if a < j && b > j {
            assert(u[a] == p[a] && u[b] == p[b - 1]);
        } else if a == j && b > j {
            assert(u[b] == p[b - 1]);
            if j < b - 1 {
                lemma_rec_le_trans(x, p[j], p[b - 1]);
            }
        } else {
            assert(u[a] == p[a - 1] && u[b] == p[b - 1]);
        }
    }
}

/// Sorts records into index order.  The result holds exactly the records
/// that were given (as a multiset), sorted by last use, most recent first,
/// ties broken by ascending id.
pub fn sort_records(v: &mut Vec<ProjectRecord>)
    ensures
        sorted_recs(final(v)@),
        final(v)@.to_multiset() == old(v)@.to_multiset(),
        final(v)@.len() == old(v)@.len(),
{
    let n = v.len();
    if n < 2 {
        return;
    }
    let mut i: usize = 1;
    while i < n
        invariant
            1 <= i <= n,
            n == v@.len(),
            sorted_recs(v@.take(i as int)),
            v@.to_multiset() == old(v)@.to_multiset(),
        decreases n - i,
    {
        let ghost s = v@;
        let x = v.remove(i);
        proof {
            assert(v@.take(i as int) =~= s.take(i as int));
        }
        let mut j: usize = 0;
        while j < i
            invariant
                j <= i,
                i < n,
                v@ == s.remove(i as int),
                v@.len() == n - 1,
                forall|k: int| 0 <= k < j ==> rec_le(#[trigger] v@[k], x),
            ensures
                j <= i,
                v@ == s.remove(i as int),
                forall|k: int| 0 <= k < j ==> rec_le(#[trigger] v@[k], x),
                j < i ==> rec_le(x, v@[j as int]),
            decreases i - j,
        {
            if !rec_le_exec(&v[j], &x) {
                proof {
                    lemma_rec_le_total(v@[j as int], x);
                }
                break;
            }
            j += 1;
        }
        let ghost t = v@;
        let ghost p = s.take(i as int);
        v.insert(j, x);
        proof {
            assert forall|k: int| 0 <= k < j implies rec_le(#[trigger] p[k], x) by {
                assert(p[k] == t[k]);
            }
            if (j as int) < p.len() {
                assert(p[j as int] == t[j as int]);
            }
            lemma_sorted_insert(p, j as int, x);
            assert(v@.take(i + 1) =~= p.insert(j as int, x));
            // the removed element went back in: the contents are unchanged
            broadcast use vstd::seq_lib::group_to_multiset_ensures;
            broadcast use vstd::seq_lib::to_multiset_insert;

            assert(s[i as int] == x);
            assert(s.contains(x));
            assert(t.to_multiset() =~= s.to_multiset().remove(x));
            assert(v@.to_multiset() =~= t.to_multiset().insert(x));
            assert(s.to_multiset().count(x) > 0);
            assert(s.to_multiset().remove(x).insert(x) =~= s.to_multiset());
        }
        i += 1;
    }
    proof {
        assert(v@.take(n as int) =~= v@);
    }
}

/// Position of the first record with the given id, or `-1` when no record
/// has it.
pub open spec fn find_id(s: Seq<ProjectRecord>, id: Seq<u8>) -> int
    decreases s.len(),
{
    if s.len() == 0 {
        -1
    } else if s[0].id@ == id {
        0
    } else {
        let r = find_id(s.drop_first(), id);
        if r < 0 {
            -1
        } else {
            r + 1
        }
    }
}

/// What `find_id` returns: `-1` exactly when the id is absent, and
/// otherwise the position of the first record carrying the id.
pub proof fn lemma_find_id(s: Seq<ProjectRecord>, id: Seq<u8>)
    ensures
        find_id(s, id) == -1 <==> (forall|k: int| 0 <= k < s.len() ==> (#[trigger] s[k].id@) != id),
        find_id(s, id) != -1 ==> {
            let r = find_id(s, id);
            &&& 0 <= r < s.len()
            &&& s[r].id@ == id
            &&& forall|k: int| 0 <= k < r ==> (#[trigger] s[k].id@) != id
        },
    decreases s.len(),
{
    if s.len() == 0 {
    } else if s[0].id@ == id {
    } else {
        let d = s.drop_first();
        lemma_find_id(d, id);
        if find_id(s, id) == -1 {
            assert forall|k: int| 0 <= k < s.len() implies (#[trigger] s[k].id@) != id by {
                if k > 0 {
                    assert(d[k - 1] == s[k]);
                    assert(d[k - 1].id@ != id);
                }
            }
        } else {
            let r = find_id(s, id);
            assert(s[r] == d[r - 1]);
            assert forall|k: int| 0 <= k < r implies (#[trigger] s[k].id@) != id by {
                if k > 0 {
                    assert(d[k - 1] == s[k]);
                    assert(d[k - 1].id@ != id);
                }
            }
        }
    }
}

/// Whether a query matches a record: every term occurs, case-insensitively,
/// in the record's display name or path.
pub open spec fn rec_matches(r: ProjectRecord, terms: Seq<Seq<u8>>) -> bool {
    all_terms_match(r.name@, r.path@, terms)
}

/// The ids of the records matched by a query, in index order.
pub open spec fn matching_ids(s: Seq<ProjectRecord>, terms: Seq<Seq<u8>>) -> Seq<Seq<u8>>
    decreases s.len(),
{
    if s.len() == 0 {
        Seq::empty()
    } else {
        let rest = matching_ids(s.drop_last(), terms);
        if rec_matches(s.last(), terms) {
            rest.push(s.last().id@)
        } else {
            rest
        }
    }
}

/// The project index of one application: its records sorted in index
/// order.  Rebuilt wholesale on refresh, never patched in place.
pub struct ProjectIndex {
    pub records: Vec<ProjectRecord>,
}

impl ProjectIndex {
    /// The index invariant: records are sorted in index order.
    pub open spec fn wf(self) -> bool {
        sorted_recs(self.records@)
    }

    /// The empty index an actor starts with, before the first refresh.
    pub fn empty() -> (r: Self)
        ensures
            r.records@.len() == 0,
            r.wf(),
    {
        ProjectIndex { records: Vec::new() }
    }

    /// Builds an index from freshly read records: exactly the given
    /// records, sorted into index order.
    pub fn from_records(list: Vec<ProjectRecord>) -> (r: Self)
        ensures
            r.wf(),
            r.records@.to_multiset() == list@.to_multiset(),
            r.records@.len() == list@.len(),
    {
        let mut v = list;
        sort_records(&mut v);
        ProjectIndex { records: v }
    }

    /// Position of the first record with the given id, if any.
    pub fn find(&self, id: &Vec<u8>) -> (r: Option<usize>)
        ensures
            match r {
                Some(k) => k as int == find_id(self.records@, id@),
                None => find_id(self.records@, id@) == -1,
            },
    {
        let ghost s = self.records@;
        proof {
            lemma_find_id(s, id@);
        }
        let mut i: usize = 0;
        while i < self.records.len()
            invariant
                i <= s.len(),
                s == self.records@,
                forall|k: int| 0 <= k < i ==> (#[trigger] s[k].id@) != id@,
            decreases s.len() - i,
        {
            if bytes_eq(&self.records[i].id, id) {
                proof {
                    lemma_find_id(s, id@);
                    assert(s[i as int].id@ == id@);
                    let r = find_id(s, id@);
                    if r == -1 {
                        assert(s[i as int].id@ != id@);
                    } else {
                        if r < i as int {
                            assert(s[r].id@ != id@);
                        }
                        if r > i as int {
                            assert(s[i as int].id@ != id@);
                        }
                    }
                }
                return Some(i);
            }
            i += 1;
        }
        None
    }

    /// Collects, in index order, the ids of all records the query matches.
    pub fn matching_ids(&self, terms: &Vec<Vec<u8>>) -> (r: Vec<Vec<u8>>)
        ensures
            r.deep_view() == matching_ids(self.records@, terms.deep_view()),
    {
        let ghost s = self.records@;
        let ghost tv = terms.deep_view();
        let mut out: Vec<Vec<u8>> = Vec::new();
        let mut i: usize = 0;
        proof {
            assert(s.take(0) =~= Seq::<ProjectRecord>::empty());
            assert(out.deep_view() =~= matching_ids(s.take(0), tv));
        }
        while i < self.records.len()
            invariant
                i <= s.len(),
                s == self.records@,
                tv == terms.deep_view(),
                out.deep_view() == matching_ids(s.take(i as int), tv),
            decreases s.len() - i,
        {
            let rec = &self.records[i];
            let ghost pre = out.deep_view();
            if matches_all_terms(&rec.name, &rec.path, terms) {
                let idc = clone_bytes(&rec.id);
                out.push(idc);
                proof {
                    assert(out.deep_view() =~~= pre.push(s[i as int].id@));
                }
            }
            proof {
                lemma_matching_step(s, tv, i as int);
            }
            i += 1;
        }
        proof {
            assert(s.take(s.len() as int) =~= s);
        }
        out
    }
}

/// Extending the scanned prefix by one record extends the match list by
/// that record's id exactly when the query matches it.
proof fn lemma_matching_step(s: Seq<ProjectRecord>, terms: Seq<Seq<u8>>, i: int)
    requires
        0 <= i < s.len(),
    ensures
        rec_matches(s[i], terms) ==> matching_ids(s.take(i + 1), terms) == matching_ids(
            s.take(i),
            terms,
        ).push(s[i].id@),
        !rec_matches(s[i], terms) ==> matching_ids(s.take(i + 1), terms) == matching_ids(
            s.take(i),
            terms,
        ),
{
    let p = s.take(i);
    let q = s.take(i + 1);
    assert(q.drop_last() =~= p);
    assert(q.last() == s[i]);
    assert(q.len() == i + 1);
}

} // verus!
