//! The search-provider actor for one application: it owns that
//! application's project index, applies refresh outcomes to it, and answers
//! the search-protocol queries.  Messages reach it one at a time through its
//! mailbox; the blocking read of the on-disk records happens outside and its
//! outcome is handed in as a value.

use vstd::prelude::*;
use crate::index::{
    find_id, lemma_find_id, matching_ids, rec_matches, ProjectIndex, ProjectRecord,
};
use crate::text::{clone_bytes, matches_all_terms};

verus! {

/// Upper bound on the number of ids one search reply carries, protecting
/// the protocol reply size.
pub const MAX_RESULTS: usize = 32;

/// A match list capped at `MAX_RESULTS` entries.
pub open spec fn capped(m: Seq<Seq<u8>>) -> Seq<Seq<u8>> {
    if m.len() <= MAX_RESULTS {
        m
    } else {
        m.take(MAX_RESULTS as int)
    }
}

/// Whether the id names a record of the index that the query matches.
pub open spec fn id_matches(s: Seq<ProjectRecord>, id: Seq<u8>, terms: Seq<Seq<u8>>) -> bool {
    let r = find_id(s, id);
    r != -1 && rec_matches(s[r], terms)
}

/// The ids among `prev` whose records the query matches, in the order of
/// `prev`: a subsearch looks only within an earlier result set.
pub open spec fn subsearch_ids(s: Seq<ProjectRecord>, prev: Seq<Seq<u8>>, terms: Seq<Seq<u8>>) -> Seq<
    Seq<u8>,
>
    decreases prev.len(),
{
    if prev.len() == 0 {
        Seq::empty()
    } else {
        let rest = subsearch_ids(s, prev.drop_last(), terms);
        if id_matches(s, prev.last(), terms) {
            rest.push(prev.last())
        } else {
            rest
        }
    }
}

/// One metadata reply entry, handed back to the shell for display.
#[derive(Debug, Clone, PartialEq, Eq)]
pub struct ResultMeta {
    pub id: Vec<u8>,
    pub name: Vec<u8>,
    pub description: Vec<u8>,
    pub icon: Vec<u8>,
}

/// The mathematical content of a metadata entry.
pub struct ResultMetaView {
    pub id: Seq<u8>,
    pub name: Seq<u8>,
    pub description: Seq<u8>,
    pub icon: Seq<u8>,
}

impl View for ResultMeta {
    type V = ResultMetaView;

    open spec fn view(&self) -> ResultMetaView {
        ResultMetaView {
            id: self.id@,
            name: self.name@,
            description: self.description@,
            icon: self.icon@,
        }
    }
}

impl DeepView for ResultMeta {
    type V = ResultMetaView;

    open spec fn deep_view(&self) -> ResultMetaView {
        self.view()
    }
}

/// The metadata entry for one id of the index: the record's display name,
/// its path as the description, and the application's icon.
pub open spec fn meta_of(s: Seq<ProjectRecord>, icon: Seq<u8>, id: Seq<u8>) -> ResultMetaView {
    let r = find_id(s, id);
    ResultMetaView { id: id, name: s[r].name@, description: s[r].path@, icon: icon }
}

/// The metadata entries for a list of ids, in the order given; ids absent
/// from the index are silently omitted.
pub open spec fn metas(s: Seq<ProjectRecord>, icon: Seq<u8>, ids: Seq<Seq<u8>>) -> Seq<
    ResultMetaView,
>
    decreases ids.len(),
{
    if ids.len() == 0 {
        Seq::empty()
    } else {
        let rest = metas(s, icon, ids.drop_last());
        if find_id(s, ids.last()) != -1 {
            rest.push(meta_of(s, icon, ids.last()))
        } else {
            rest
        }
    }
}

/// What a refresh handed back: the freshly read records, or a read failure.
pub enum RefreshOutcome {
    Loaded(Vec<ProjectRecord>),
    ReadFailed,
}

/// How the actor answered a refresh: the index was replaced wholesale, or
/// the previous index was kept because the read failed (recoverable, never
/// fatal to the actor).
#[derive(Debug, Clone, Copy, PartialEq, Eq, Structural)]
pub enum RefreshReport {
    Replaced,
    KeptPrevious,
}

/// The actor state for one application: its project index and the icon its
/// metadata replies carry.
pub struct SearchProviderActor {
    pub index: ProjectIndex,
    pub icon: Vec<u8>,
}

impl SearchProviderActor {
    /// A fresh actor starts with an empty index; the first refresh fills it.
    pub fn new(icon: Vec<u8>) -> (r: Self)
        ensures
            r.index.records@.len() == 0,
            r.index.wf(),
            r.icon == icon,
    {
        SearchProviderActor { index: ProjectIndex::empty(), icon }
    }

    /// Applies a refresh outcome: a successful read replaces the index
    /// wholesale with the read records, sorted into index order; a failed
    /// read keeps the previous index intact and reports it.
    pub fn apply_refresh(&mut self, outcome: RefreshOutcome) -> (r: RefreshReport)
        requires
            old(self).index.wf(),
        ensures
            final(self).index.wf(),
            final(self).icon == old(self).icon,
            (outcome matches RefreshOutcome::Loaded(list) ==> {
                &&& final(self).index.records@.to_multiset() == list@.to_multiset()
                &&& final(self).index.records@.len() == list@.len()
                &&& r == RefreshReport::Replaced
            }),
            (outcome matches RefreshOutcome::ReadFailed ==> {
                &&& final(self).index == old(self).index
                &&& r == RefreshReport::KeptPrevious
            }),
    {
        match outcome {
            RefreshOutcome::Loaded(list) => {
                self.index = ProjectIndex::from_records(list);
                RefreshReport::Replaced
            },
            RefreshOutcome::ReadFailed => RefreshReport::KeptPrevious,
        }
    }

    /// Answers an initial search.  A disabled application answers with the
    /// empty list no matter what the terms or the index hold; otherwise the
    /// reply lists, in index order and capped at `MAX_RESULTS`, the ids of
    /// the records every term matches.  An empty term list matches every
    /// record.
    pub fn initial_search(&self, disabled: bool, terms: &Vec<Vec<u8>>) -> (r: Vec<Vec<u8>>)
        ensures
            disabled ==> r.deep_view() == Seq::<Seq<u8>>::empty(),
            !disabled ==> r.deep_view() == capped(
                matching_ids(self.index.records@, terms.deep_view()),
            ),
            r.deep_view().len() <= MAX_RESULTS,
    {
        if disabled {
            let r: Vec<Vec<u8>> = Vec::new();
            proof {
                assert(r.deep_view() =~~= Seq::<Seq<u8>>::empty());
            }
            r
        } else {
            let mut ids = self.index.matching_ids(terms);
            let ghost m = matching_ids(self.index.records@, terms.deep_view());
            if ids.len() > MAX_RESULTS {
                ids.truncate(MAX_RESULTS);
                proof {
                    assert(ids.deep_view() =~~= m.take(MAX_RESULTS as int));
                }
            }
            ids
        }
    }

    /// Answers a subsearch: re-filters only within the previously returned
    /// ids, with the same matching rule and the same disabled gating.
    pub fn subsearch(&self, disabled: bool, previous: &Vec<Vec<u8>>, terms: &Vec<Vec<u8>>) -> (r:
        Vec<Vec<u8>>)
        ensures
            disabled ==> r.deep_view() == Seq::<Seq<u8>>::empty(),
            !disabled ==> r.deep_view() == subsearch_ids(
                self.index.records@,
                previous.deep_view(),
                terms.deep_view(),
            ),
    {
        let ghost s = self.index.records@;
        let ghost pv = previous.deep_view();
        let ghost tv = terms.deep_view();
        let mut out: Vec<Vec<u8>> = Vec::new();
        if disabled {
            proof {
                assert(out.deep_view() =~~= Seq::<Seq<u8>>::empty());
            }
            return out;
        }
        let mut t: usize = 0;
        proof {
            assert(pv.take(0) =~= Seq::<Seq<u8>>::empty());
            assert(out.deep_view() =~~= subsearch_ids(s, pv.take(0), tv));
        }
        while t < previous.len()
            invariant
                t <= pv.len(),
                s == self.index.records@,
                pv == previous.deep_view(),
                tv == terms.deep_view(),
                out.deep_view() == subsearch_ids(s, pv.take(t as int), tv),
            decreases pv.len() - t,
        {
            let ghost pre = out.deep_view();
            let id = &previous[t];
            proof {
                assert(pv[t as int] == previous@[t as int]@);
            }
            match self.index.find(id) {
                Some(k) => {
                    proof {
                        lemma_find_id(s, pv[t as int]);
                    }
                    let rec = &self.index.records[k];
                    if matches_all_terms(&rec.name, &rec.path, terms) {
                        out.push(clone_bytes(id));
                        proof {
                            assert(out.deep_view() =~~= pre.push(pv[t as int]));
                        }
                    }
                },
                None => {},
            }
            proof {
                lemma_subsearch_step(s, pv, tv, t as int);
            }
            t += 1;
        }
        proof {
            assert(pv.take(pv.len() as int) =~= pv);
        }
        out
    }

    /// Answers a metadata request: for each id, in the order given, the
    /// first index record carrying it; ids absent from the index are
    /// silently omitted, never an error.
    pub fn result_metadata(&self, ids: &Vec<Vec<u8>>) -> (r: Vec<ResultMeta>)
        ensures
            r.deep_view() == metas(self.index.records@, self.icon@, ids.deep_view()),
    {
        let ghost s = self.index.records@;
        let ghost iv = ids.deep_view();
        let mut out: Vec<ResultMeta> = Vec::new();
        let mut t: usize = 0;
        proof {
            assert(iv.take(0) =~= Seq::<Seq<u8>>::empty());
            assert(out.deep_view() =~= metas(s, self.icon@, iv.take(0)));
        }
        while t < ids.len()
            invariant
                t <= iv.len(),
                s == self.index.records@,
                iv == ids.deep_view(),
                out.deep_view() == metas(s, self.icon@, iv.take(t as int)),
            decreases iv.len() - t,
        {
            let ghost pre = out.deep_view();
            let id = &ids[t];
            proof {
                assert(iv[t as int] == ids@[t as int]@);
            }
            match self.index.find(id) {
                Some(k) => {
                    proof {
                        lemma_find_id(s, iv[t as int]);
                    }
                    let rec = &self.index.records[k];
                    let entry = ResultMeta {
                        id: clone_bytes(id),
                        name: clone_bytes(&rec.name),
                        description: clone_bytes(&rec.path),
                        icon: clone_bytes(&self.icon),
                    };
                    out.push(entry);
                    proof {
                        assert(out.deep_view() =~= pre.push(meta_of(s, self.icon@, iv[t as int])));
                    }
                },
                None => {},
            }
            proof {
                lemma_metas_step(s, self.icon@, iv, t as int);
            }
            t += 1;
        }
        proof {
            assert(iv.take(iv.len() as int) =~= iv);
        }
        out
    }

    /// Resolves an activation: the project path the launch service shall
    /// start the application with, or nothing when the id is unknown.
    /// Activation never mutates the actor.
    pub fn activate(&self, id: &Vec<u8>) -> (r: Option<Vec<u8>>)
        ensures
            match r {
                Some(p) => {
                    &&& find_id(self.index.records@, id@) != -1
                    &&& p@ == self.index.records@[find_id(self.index.records@, id@)].path@
                },
                None => find_id(self.index.records@, id@) == -1,
            },
    {
        match self.index.find(id) {
            Some(k) => {
                proof {
                    lemma_find_id(self.index.records@, id@);
                }
                Some(clone_bytes(&self.index.records[k].path))
            },
            None => None,
        }
    }
}

/// One message of an actor's mailbox: a refresh outcome or one protocol
/// request, with the values it carries.
pub enum SearchMessage {
    Refresh(RefreshOutcome),
    InitialSearch(Vec<Vec<u8>>),
    Subsearch(Vec<Vec<u8>>, Vec<Vec<u8>>),
    Metadata(Vec<Vec<u8>>),
    Activate(Vec<u8>),
}

/// The actor's answer to one message.
#[derive(Debug, PartialEq, Eq)]
pub enum SearchReply {
    Refreshed(RefreshReport),
    Ids(Vec<Vec<u8>>),
    Metas(Vec<ResultMeta>),
    Launch(Option<Vec<u8>>),
}

impl SearchProviderActor {
    /// Processes one mailbox message in full: the one entry point of the
    /// sequential message loop.  Only a refresh changes the actor; every
    /// query is answered from the index as it stands, under the enable
    /// gate's current reading.
    pub fn handle_message(&mut self, disabled: bool, msg: SearchMessage) -> (r: SearchReply)
        requires
            old(self).index.wf(),
        ensures
            final(self).index.wf(),
            final(self).icon == old(self).icon,
            !(msg matches SearchMessage::Refresh(_)) ==> *final(self) == *old(self),
            (msg matches SearchMessage::Refresh(o) ==> {
                &&& (o matches RefreshOutcome::Loaded(list) ==> {
                    &&& final(self).index.records@.to_multiset() == list@.to_multiset()
                    &&& final(self).index.records@.len() == list@.len()
                    &&& r == SearchReply::Refreshed(RefreshReport::Replaced)
                })
                &&& (o matches RefreshOutcome::ReadFailed ==> {
                    &&& final(self).index == old(self).index
                    &&& r == SearchReply::Refreshed(RefreshReport::KeptPrevious)
                })
            }),
            (msg matches SearchMessage::InitialSearch(terms) ==> r matches SearchReply::Ids(ids)
                && (disabled ==> ids.deep_view() == Seq::<Seq<u8>>::empty()) && (!disabled
                ==> ids.deep_view() == capped(
                matching_ids(old(self).index.records@, terms.deep_view()),
            ))),
            (msg matches SearchMessage::Subsearch(previous, terms) ==> r matches SearchReply::Ids(
                ids,
            ) && (disabled ==> ids.deep_view() == Seq::<Seq<u8>>::empty()) && (!disabled
                ==> ids.deep_view() == subsearch_ids(
                old(self).index.records@,
                previous.deep_view(),
                terms.deep_view(),
            ))),
            (msg matches SearchMessage::Metadata(ids) ==> r matches SearchReply::Metas(ms)
                && ms.deep_view() == metas(
                old(self).index.records@,
                old(self).icon@,
                ids.deep_view(),
            )),
            (msg matches SearchMessage::Activate(id) ==> r matches SearchReply::Launch(path)
                && (match path {
                Some(p) => find_id(old(self).index.records@, id@) != -1 && p@ == old(
                    self,
                ).index.records@[find_id(old(self).index.records@, id@)].path@,
                None => find_id(old(self).index.records@, id@) == -1,
            })),
    {
        match msg {
            SearchMessage::Refresh(outcome) => SearchReply::Refreshed(self.apply_refresh(outcome)),
            SearchMessage::InitialSearch(terms) => SearchReply::Ids(
                self.initial_search(disabled, &terms),
            ),
            SearchMessage::Subsearch(previous, terms) => SearchReply::Ids(
                self.subsearch(disabled, &previous, &terms),
            ),
            SearchMessage::Metadata(ids) => SearchReply::Metas(self.result_metadata(&ids)),
            SearchMessage::Activate(id) => SearchReply::Launch(self.activate(&id)),
        }
    }
}

/// Scanning one more id of `prev` extends the subsearch answer by that id
/// exactly when its record is present and matched.
proof fn lemma_subsearch_step(s: Seq<ProjectRecord>, prev: Seq<Seq<u8>>, terms: Seq<Seq<u8>>, t: int)
    requires
        0 <= t < prev.len(),
    ensures
        id_matches(s, prev[t], terms) ==> subsearch_ids(s, prev.take(t + 1), terms)
            == subsearch_ids(s, prev.take(t), terms).push(prev[t]),
        !id_matches(s, prev[t], terms) ==> subsearch_ids(s, prev.take(t + 1), terms)
            == subsearch_ids(s, prev.take(t), terms),
{
    let q = prev.take(t + 1);
    assert(q.drop_last() =~= prev.take(t));
    assert(q.last() == prev[t]);
    assert(q.len() == t + 1);
}

/// Scanning one more requested id extends the metadata answer by that id's
/// entry exactly when the index holds the id.
proof fn lemma_metas_step(s: Seq<ProjectRecord>, icon: Seq<u8>, ids: Seq<Seq<u8>>, t: int)
    requires
        0 <= t < ids.len(),
    ensures
        find_id(s, ids[t]) != -1 ==> metas(s, icon, ids.take(t + 1)) == metas(
            s,
            icon,
            ids.take(t),
        ).push(meta_of(s, icon, ids[t])),
        find_id(s, ids[t]) == -1 ==> metas(s, icon, ids.take(t + 1)) == metas(s, icon, ids.take(t)),
{
    let q = ids.take(t + 1);
    assert(q.drop_last() =~= ids.take(t));
    assert(q.last() == ids[t]);
    assert(q.len() == t + 1);
}

/// A subsearch narrows: whatever the index and the terms, its answer is a
/// subset of the previous result list and no longer than it.
pub proof fn lemma_subsearch_narrows(s: Seq<ProjectRecord>, prev: Seq<Seq<u8>>, terms: Seq<Seq<u8>>)
    ensures
        subsearch_ids(s, prev, terms).len() <= prev.len(),
        forall|x: Seq<u8>| #[trigger] subsearch_ids(s, prev, terms).contains(x) ==> prev.contains(x),
    decreases prev.len(),
{
    if prev.len() == 0 {
    } else {
        let d = prev.drop_last();
        lemma_subsearch_narrows(s, d, terms);
        let rest = subsearch_ids(s, d, terms);
        let whole = subsearch_ids(s, prev, terms);
        assert forall|x: Seq<u8>| #[trigger] whole.contains(x) implies prev.contains(x) by {
            if rest.contains(x) {
                assert(d.contains(x));
                let w = choose|w: int| 0 <= w < d.len() && d[w] == x;
                assert(prev[w] == x);
            } else {
                assert(x == prev.last());
                assert(prev[prev.len() - 1] == x);
            }
        }
    }
}

/// Two metadata requests with the same ids against the same index give
/// identical answers: the reply is a function of the index, the icon and
/// the ids alone, so without an intervening refresh it cannot change.
pub proof fn lemma_result_metadata_idempotent(
    s: Seq<ProjectRecord>,
    icon: Seq<u8>,
    ids: Seq<Seq<u8>>,
    r1: Seq<ResultMetaView>,
    r2: Seq<ResultMetaView>,
)
    requires
        r1 == metas(s, icon, ids),
        r2 == metas(s, icon, ids),
    ensures
        r1 == r2,
{
}

/// An empty query matches every record: against a well-formed index it
/// lists every project id, in index order, that is, by last use (most
/// recent first) with ties broken by ascending id.  After a successful
/// refresh the index holds exactly the records the reader yielded, so an
/// empty initial search (capped at `MAX_RESULTS`) walks all current ids.
pub proof fn lemma_empty_query_lists_index(s: Seq<ProjectRecord>)
    ensures
        matching_ids(s, Seq::<Seq<u8>>::empty()).len() == s.len(),
        forall|k: int| 0 <= k < s.len() ==> #[trigger] matching_ids(s, Seq::<Seq<u8>>::empty())[k]
            == s[k].id@,
    decreases s.len(),
{
    if s.len() == 0 {
    } else {
        let d = s.drop_last();
        lemma_empty_query_lists_index(d);
        assert(rec_matches(s.last(), Seq::<Seq<u8>>::empty()));
        let whole = matching_ids(s, Seq::<Seq<u8>>::empty());
        let rest = matching_ids(d, Seq::<Seq<u8>>::empty());
        assert(whole == rest.push(s.last().id@));
        assert forall|k: int| 0 <= k < s.len() implies #[trigger] whole[k] == s[k].id@ by {
            if k < s.len() - 1 {
                assert(whole[k] == rest[k]);
                assert(d[k] == s[k]);
            }
        }
    }
}

} // verus!
