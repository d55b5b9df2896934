//! The upsert contract, and a model of a document collection to state it
//! against.
//!
//! An upsert issues one update-or-insert: documents matching the filter on
//! every populated filter field are selected; the first match has its fields
//! replaced wholly by the new document (the store-assigned identifier is
//! kept); if nothing matches, the new document is inserted.

use vstd::prelude::*;
use crate::binding::{bytes_eq, key_of, Binding, BindingView};
use crate::doc::{clone_doc, copy_bytes, doc_of, to_doc, BindingDoc, BindingDocView};

verus! {

/// Outcome of a store operation, as the caller sees it: success, or an
/// error carrying a descriptive message. No distinction is made between
/// "matched and updated" and "no match, inserted".
#[derive(Debug)]
pub enum MongoDBResult {
    SUCCESS,
    ERROR(String),
}

/// Filter matching as the store applies it: every field present in the
/// filter must be present in the document with an equal value; a field the
/// filter omits constrains nothing.
pub open spec fn doc_matches(q: BindingDocView, d: BindingDocView) -> bool {
    &&& (q.id is Some ==> d.id == q.id)
    &&& (q.thing_id is Some ==> d.thing_id == q.thing_id)
    &&& (q.location is Some ==> d.location == q.location)
    &&& (q.version is Some ==> d.version == q.version)
}

/// Decide whether document `d` matches filter `q`.
pub fn filter_matches(q: &BindingDoc, d: &BindingDoc) -> (r: bool)
    ensures
        r == doc_matches(q@, d@),
{
    let id_ok = match (&q.id, &d.id) {
        (Some(a), Some(b)) => bytes_eq(a, b),
        (Some(_), None) => false,
        (None, _) => true,
    };
    let thing_ok = match (&q.thing_id, &d.thing_id) {
        (Some(a), Some(b)) => *a == *b,
        (Some(_), None) => false,
        (None, _) => true,
    };
    let location_ok = match (&q.location, &d.location) {
        (Some(a), Some(b)) => *a == *b,
        (Some(_), None) => false,
        (None, _) => true,
    };
    let version_ok = match (&q.version, &d.version) {
        (Some(a), Some(b)) => *a == *b,
        (Some(_), None) => false,
        (None, _) => true,
    };
    id_ok && thing_ok && location_ok && version_ok
}

/// Index of the first document in `s` matching filter `q`, or a negative
/// value when nothing matches.
pub open spec fn first_match(s: Seq<BindingDocView>, q: BindingDocView) -> int
    decreases s.len(),
{
    if s.len() == 0 {
        -1
    } else if doc_matches(q, s[0]) {
        0
    } else {
        let r = first_match(s.drop_first(), q);
        if r < 0 {
            -1
        } else {
            r + 1
        }
    }
}

/// What `first_match` returns: a negative value means nothing matches, a
/// non-negative value is the first matching index.
pub proof fn lemma_first_match_props(s: Seq<BindingDocView>, q: BindingDocView)
    ensures
        first_match(s, q) < 0 ==> forall|j: int| 0 <= j < s.len() ==> !doc_matches(q, s[j]),
        first_match(s, q) >= 0 ==> {
            &&& first_match(s, q) < s.len()
            &&& doc_matches(q, s[first_match(s, q)])
            &&& forall|j: int| 0 <= j < first_match(s, q) ==> !doc_matches(q, s[j])
        },
    decreases s.len(),
{
    if s.len() == 0 {
    } else if doc_matches(q, s[0]) {
    } else {
        let t = s.drop_first();
        lemma_first_match_props(t, q);
        let r = first_match(t, q);
        if r >= 0 {
            assert(first_match(s, q) == r + 1);
            assert(doc_matches(q, s[r + 1])) by {
                assert(t[r] == s[r + 1]);
            }
            assert forall|j: int| 0 <= j < r + 1 implies !doc_matches(q, s[j]) by {
                if j > 0 {
                    assert(t[j - 1] == s[j]);
                }
            }
        } else {
            assert forall|j: int| 0 <= j < s.len() implies !doc_matches(q, s[j]) by {
                if j > 0 {
                    assert(t[j - 1] == s[j]);
                }
            }
        }
    }
}

/// `first_match` is pinned by its characterisation: a match at `i` with no
/// match before it puts the first match exactly at `i`.
pub proof fn lemma_first_match_is(s: Seq<BindingDocView>, q: BindingDocView, i: int)
    requires
        0 <= i < s.len(),
        doc_matches(q, s[i]),
        forall|j: int| 0 <= j < i ==> !doc_matches(q, s[j]),
    ensures
        first_match(s, q) == i,
    decreases s.len(),
{
    if i == 0 {
    } else {
        assert(forall|j: int| 0 <= j < s.drop_first().len() ==> s.drop_first()[j] == s[j + 1]);
        lemma_first_match_is(s.drop_first(), q, i - 1);
    }
}

/// When no document matches, `first_match` reports so.
pub proof fn lemma_first_match_none(s: Seq<BindingDocView>, q: BindingDocView)
    requires
        forall|j: int| 0 <= j < s.len() ==> !doc_matches(q, s[j]),
    ensures
        first_match(s, q) == -1,
    decreases s.len(),
{
    if s.len() == 0 {
    } else {
        assert(forall|j: int| 0 <= j < s.drop_first().len() ==> s.drop_first()[j] == s[j + 1]);
        lemma_first_match_none(s.drop_first(), q);
    }
}

/// What replacing a matched document stores: the new document's fields under
/// the matched document's store-assigned identifier.
pub open spec fn replace_doc(existing: BindingDocView, d: BindingDocView) -> BindingDocView {
    BindingDocView { id: existing.id, thing_id: d.thing_id, location: d.location, version: d.version }
}

/// One update-or-insert: the first document matching `q` is replaced wholly
/// by `d` (keeping its store-assigned identifier); if nothing matches, `d`
/// is appended.
pub open spec fn store_upsert(
    s: Seq<BindingDocView>,
    q: BindingDocView,
    d: BindingDocView,
) -> Seq<BindingDocView> {
    let i = first_match(s, q);
    if i >= 0 {
        s.update(i, replace_doc(s[i], d))
    } else {
        s.push(d)
    }
}

/// How many documents in `s` match filter `q`.
pub open spec fn matching_count(s: Seq<BindingDocView>, q: BindingDocView) -> nat
    decreases s.len(),
{
    if s.len() == 0 {
        0
    } else {
        matching_count(s.drop_last(), q) + if doc_matches(q, s.last()) {
            1nat
        } else {
            0nat
        }
    }
}

/// An in-memory document collection with the store's update-or-insert
/// semantics; a stand-in for one collection of the document store.
pub struct MemStore {
    docs: Vec<BindingDoc>,
}

impl View for MemStore {
    type V = Seq<BindingDocView>;

    closed spec fn view(&self) -> Seq<BindingDocView> {
        Seq::new(self.docs@.len(), |i: int| self.docs@[i]@)
    }
}

impl MemStore {
    /// An empty collection.
    pub fn new() -> (s: Self)
        ensures
            s@ == Seq::<BindingDocView>::empty(),
    {
        let s = MemStore { docs: Vec::new() };
        proof {
            assert(s@ =~= Seq::<BindingDocView>::empty());
        }
        s
    }

    /// How many documents the collection holds.
    pub fn len(&self) -> (n: usize)
        ensures
            n == self@.len(),
    {
        self.docs.len()
    }

    /// The stored document at position `i`.
    pub fn get(&self, i: usize) -> (r: &BindingDoc)
        requires
            i < self@.len(),
        ensures
            r@ == self@[i as int],
    {
        &self.docs[i]
    }

    /// Index of the first document matching `q`, if any matches.
    fn find_match(&self, q: &BindingDoc) -> (r: Option<usize>)
        ensures
            match r {
                Some(i) => first_match(self@, q@) == i,
                None => first_match(self@, q@) == -1,
            },
    {
        let mut i: usize = 0;
        while i < self.docs.len()
            invariant
                i <= self.docs@.len(),
                self@.len() == self.docs@.len(),
                forall|j: int| 0 <= j < i ==> !doc_matches(q@, self@[j]),
            decreases self.docs@.len() - i,
        {
            if filter_matches(q, &self.docs[i]) {
                proof {
                    assert(self@[i as int] == self.docs@[i as int]@);
                    lemma_first_match_is(self@, q@, i as int);
                }
                return Some(i);
            }
            proof {
                assert(self@[i as int] == self.docs@[i as int]@);
            }
            i = i + 1;
        }
        proof {
            lemma_first_match_none(self@, q@);
        }
        None
    }

    /// Issue one update-or-insert against the collection: replace the first
    /// document matching `q` wholly with `d`, keeping its store-assigned
    /// identifier, or insert `d` when nothing matches.
    pub fn upsert_doc(&mut self, q: &BindingDoc, d: &BindingDoc)
        ensures
            final(self)@ == store_upsert(old(self)@, q@, d@),
    {
        match self.find_match(q) {
            Some(i) => {
                proof {
                    lemma_first_match_props(old(self)@, q@);
                }
                let existing_id = match &self.docs[i].id {
                    Some(bytes) => Some(copy_bytes(bytes)),
                    None => None,
                };
                let mut nd = clone_doc(d);
                nd.id = existing_id;
                proof {
                    lemma_first_match_props(old(self)@, q@);
                    assert(nd@ =~= replace_doc(old(self)@[i as int], d@));
                }
                self.docs.set(i, nd);
                proof {
                    assert(self@ =~= old(self)@.update(
                        i as int,
                        replace_doc(old(self)@[i as int], d@),
                    ));
                }
            },
            None => {
                self.docs.push(clone_doc(d));
                proof {
                    assert(self@ =~= old(self)@.push(d@));
                }
            },
        }
    }

    /// How many stored documents match filter `q`.
    pub fn count_matching(&self, q: &BindingDoc) -> (r: usize)
        ensures
            r == matching_count(self@, q@),
    {
        let mut r: usize = 0;
        let mut i: usize = 0;
        while i < self.docs.len()
            invariant
                i <= self.docs@.len(),
                self@.len() == self.docs@.len(),
                r <= i,
                r == matching_count(self@.subrange(0, i as int), q@),
            decreases self.docs@.len() - i,
        {
            proof {
                assert(self@[i as int] == self.docs@[i as int]@);
                assert(self@.subrange(0, i + 1).drop_last() =~= self@.subrange(0, i as int));
                assert(self@.subrange(0, i + 1).last() == self@[i as int]);
            }
            if filter_matches(q, &self.docs[i]) {
                r = r + 1;
            }
            i = i + 1;
        }
        proof {
            assert(self@.subrange(0, self@.len() as int) =~= self@);
        }
        r
    }
}

/// Build the two documents one upsert call sends to the store: the filter
/// derived from the record's key, and the record's full document.
pub fn prepare_upsert(item: &Binding) -> (r: (BindingDoc, BindingDoc))
    ensures
        r.0@ == doc_of(key_of(item@)),
        r.1@ == doc_of(item@),
{
    let key = Binding::get_key(item);
    (to_doc(&key), to_doc(item))
}

impl MemStore {
    /// Issue one upsert of a record, exactly as the upsert routine sends it
    /// to the store: matched by the filter derived from the record's key,
    /// replaced or inserted as the record's full document. The in-memory
    /// store never fails.
    pub fn upsert(&mut self, item: &Binding) -> (r: MongoDBResult)
        ensures
            final(self)@ == store_upsert(old(self)@, doc_of(key_of(item@)), doc_of(item@)),
            r is SUCCESS,
    {
        let (q, d) = prepare_upsert(item);
        self.upsert_doc(&q, &d);
        MongoDBResult::SUCCESS
    }
}

/// A record's full document always matches the filter derived from the
/// record's own key.
pub proof fn lemma_doc_matches_own_key(b: BindingView)
    ensures
        doc_matches(doc_of(key_of(b)), doc_of(b)),
{
}

/// Upsert idempotence: once a document that matches the filter is upserted,
/// upserting it again under the same filter leaves the collection unchanged.
pub proof fn lemma_upsert_idempotent(
    s: Seq<BindingDocView>,
    q: BindingDocView,
    d: BindingDocView,
)
    requires
        doc_matches(q, d),
    ensures
        store_upsert(store_upsert(s, q, d), q, d) == store_upsert(s, q, d),
{
    lemma_first_match_props(s, q);
    let i = first_match(s, q);
    if i >= 0 {
        let s1 = s.update(i, replace_doc(s[i], d));
        assert(doc_matches(q, s1[i]));
        lemma_first_match_is(s1, q, i);
        assert(replace_doc(s1[i], d) =~= s1[i]);
        assert(store_upsert(s1, q, d) =~= s1);
    } else {
        let s1 = s.push(d);
        let n = s.len() as int;
        lemma_first_match_is(s1, q, n);
        assert(replace_doc(s1[n], d) =~= d);
        assert(store_upsert(s1, q, d) =~= s1);
    }
}

/// Overwrite under one filter: upserting `d1` and then `d2` under the same
/// filter stores exactly what upserting `d2` alone stores; the second write
/// replaces the first's document.
pub proof fn lemma_upsert_overwrite(
    s: Seq<BindingDocView>,
    q: BindingDocView,
    d1: BindingDocView,
    d2: BindingDocView,
)
    requires
        doc_matches(q, d1),
        d1.id == d2.id,
    ensures
        store_upsert(store_upsert(s, q, d1), q, d2) == store_upsert(s, q, d2),
{
    lemma_first_match_props(s, q);
    let i = first_match(s, q);
    if i >= 0 {
        let s1 = s.update(i, replace_doc(s[i], d1));
        assert(doc_matches(q, s1[i]));
        lemma_first_match_is(s1, q, i);
        assert(replace_doc(s1[i], d2) =~= replace_doc(s[i], d2));
        assert(store_upsert(s1, q, d2) =~= store_upsert(s, q, d2));
    } else {
        let s1 = s.push(d1);
        let n = s.len() as int;
        lemma_first_match_is(s1, q, n);
        assert(replace_doc(s1[n], d2) =~= d2);
        assert(store_upsert(s1, q, d2) =~= s1.update(n, d2));
        assert(s1.update(n, d2) =~= s.push(d2));
    }
}

/// Upserting the same record twice in sequence stores exactly what one
/// upsert stores: the second call updates rather than duplicates.
pub proof fn lemma_upsert_entity_idempotent(s: Seq<BindingDocView>, b: BindingView)
    ensures
        store_upsert(store_upsert(s, doc_of(key_of(b)), doc_of(b)), doc_of(key_of(b)), doc_of(b))
            == store_upsert(s, doc_of(key_of(b)), doc_of(b)),
{
    lemma_doc_matches_own_key(b);
    lemma_upsert_idempotent(s, doc_of(key_of(b)), doc_of(b));
}

/// Filter scoping: the derived filter matches on the thing-identifier alone,
/// so upserting two records that share a thing-identifier (and fabricate no
/// persisted identifier of their own) leaves only the second one's document;
/// the second upsert overwrites the first's document wholly.
pub proof fn lemma_upsert_filter_scoping(
    s: Seq<BindingDocView>,
    b1: BindingView,
    b2: BindingView,
)
    requires
        b1.thing_id == b2.thing_id,
        b1.id == b2.id,
    ensures
        store_upsert(
            store_upsert(s, doc_of(key_of(b1)), doc_of(b1)),
            doc_of(key_of(b2)),
            doc_of(b2),
        ) == store_upsert(s, doc_of(key_of(b2)), doc_of(b2)),
{
    assert(key_of(b1) =~= key_of(b2));
    lemma_doc_matches_own_key(b1);
    lemma_upsert_overwrite(s, doc_of(key_of(b2)), doc_of(b1), doc_of(b2));
}

/// Upsert idempotence, from an empty collection: upserting one record twice
/// leaves exactly one document, it is the record's document, and it is the
/// only one matching the record's derived filter.
pub proof fn lemma_upsert_twice_exactly_one(b: BindingView)
    ensures
        ({
            let q = doc_of(key_of(b));
            let d = doc_of(b);
            let s = store_upsert(store_upsert(Seq::empty(), q, d), q, d);
            &&& s.len() == 1
            &&& s[0] == d
            &&& matching_count(s, q) == 1
        }),
{
    let q = doc_of(key_of(b));
    let d = doc_of(b);
    lemma_upsert_entity_idempotent(Seq::empty(), b);
    let s1 = store_upsert(Seq::<BindingDocView>::empty(), q, d);
    assert(first_match(Seq::<BindingDocView>::empty(), q) == -1);
    assert(s1 =~= Seq::empty().push(d));
    lemma_doc_matches_own_key(b);
    assert(s1.drop_last() =~= Seq::<BindingDocView>::empty());
    assert(s1.last() == d);
    assert(matching_count(Seq::<BindingDocView>::empty(), q) == 0);
    assert(matching_count(s1, q) == matching_count(s1.drop_last(), q) + 1);
}

/// Filter scoping, from an empty collection: upserting two records that
/// share a thing-identifier (and fabricate no persisted identifier) leaves
/// exactly one document, the second record's.
pub proof fn lemma_filter_scoping_exactly_one(b1: BindingView, b2: BindingView)
    requires
        b1.thing_id == b2.thing_id,
        b1.id == b2.id,
    ensures
        ({
            let s = store_upsert(
                store_upsert(Seq::empty(), doc_of(key_of(b1)), doc_of(b1)),
                doc_of(key_of(b2)),
                doc_of(b2),
            );
            &&& s.len() == 1
            &&& s[0] == doc_of(b2)
        }),
{
    lemma_upsert_filter_scoping(Seq::empty(), b1, b2);
    let q2 = doc_of(key_of(b2));
    assert(first_match(Seq::<BindingDocView>::empty(), q2) == -1);
    assert(store_upsert(Seq::<BindingDocView>::empty(), q2, doc_of(b2)) =~= Seq::empty().push(
        doc_of(b2),
    ));
}

} // verus!
