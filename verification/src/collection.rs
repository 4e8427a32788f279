//! A named collection of documents, each stored under its identifier, with
//! the index planning of the collection and its queries.
use vstd::prelude::*;
use vstd::string::*;
use dashmap::DashMap;
use crate::document::{Document, DocumentView, document_views};
use crate::errors::{DbError, DbResult, IndexError, spec_index_error_message};
use crate::index::IndexManager;
use crate::json::JsonValue;
use crate::query::{Query, matches_query, spec_matches_query, sort_documents, spec_sort_documents, page_documents, spec_page};
use crate::dashmaps::{stored_documents, lists_documents, lists_all_documents, documents_new, documents_len, documents_insert, documents_get, documents_remove, documents_entries};

verus! {

/// A collection of documents.
pub struct Collection {
    /// The name of the collection.
    name: String,
    /// The documents, each under its identifier.
    documents: DashMap<String, Document>,
    /// Index planning for this collection.
    index_manager: IndexManager,
}

/// What a collection holds: its name and its documents by identifier.
pub struct CollectionView {
    pub name: Seq<char>,
    pub documents: Map<Seq<char>, DocumentView>,
}

/// Every document is stored under its own identifier.
pub open spec fn keyed_by_id(m: Map<Seq<char>, DocumentView>) -> bool {
    forall|k: Seq<char>| #[trigger] m.contains_key(k) ==> m[k].id == k
}

impl View for Collection {
    type V = CollectionView;

    closed spec fn view(&self) -> CollectionView {
        CollectionView { name: self.name@, documents: stored_documents(self.documents) }
    }
}

/// The outcome of looking up `id` in a collection holding `c`.
pub open spec fn get_outcome(c: CollectionView, id: Seq<char>, r: DbResult<Document>) -> bool {
    match r {
        Ok(d) => c.documents.contains_key(id) && d@ == c.documents[id],
        Err(e) => !c.documents.contains_key(id) && (e matches DbError::DocumentNotFound(s) && s@ == id),
    }
}

/// A collection holds finitely many documents, each under its own
/// identifier.
pub open spec fn collection_well_formed(c: CollectionView) -> bool {
    keyed_by_id(c.documents) && c.documents.dom().finite()
}

/// Whether `r` is the error that an index failure `e` is reported as.
pub open spec fn is_index_failure(r: DbError, e: IndexError) -> bool {
    r matches DbError::IndexError(m) && m@ == spec_index_error_message(e)
}

/// The documents of `m` that satisfy the conditions.
pub open spec fn matching_documents(m: Map<Seq<char>, DocumentView>, conditions: Seq<crate::query::QueryCondition>) -> Map<
    Seq<char>,
    DocumentView,
> {
    Map::new(|k: Seq<char>| m.contains_key(k) && spec_matches_query(m[k].data, conditions), |k: Seq<char>| m[k])
}

/// The documents named by `ids` that `m` holds, in the order of `ids`.
pub open spec fn documents_by_ids(m: Map<Seq<char>, DocumentView>, ids: Seq<Seq<char>>) -> Seq<DocumentView>
    decreases ids.len(),
{
    if ids.len() == 0 {
        Seq::empty()
    } else {
        let prev = documents_by_ids(m, ids.drop_last());
        if m.contains_key(ids.last()) {
            prev.push(m[ids.last()])
        } else {
            prev
        }
    }
}

/// Sorting (when the query asks for it) and paging of candidates.
pub open spec fn arrange_results(candidates: Seq<DocumentView>, query: Query) -> Seq<DocumentView> {
    let sorted = match query.sort_by {
        Some((field, ascending)) => spec_sort_documents(candidates, field@, ascending),
        None => candidates,
    };
    spec_page(sorted, query.skip, query.limit)
}

/// Whether `r` is a possible answer to `query` over the documents `m` when
/// the indexes named the documents `ids`: when they named any, the named
/// documents that satisfy every condition, in the order named; otherwise
/// the documents satisfying every condition (listed in some order); then
/// sorted and paged as the query asks.
pub open spec fn query_outcome(m: Map<Seq<char>, DocumentView>, query: Query, ids: Seq<Seq<char>>, r: Seq<DocumentView>) -> bool {
    if ids.len() > 0 {
        r == arrange_results(documents_by_ids(matching_documents(m, query.conditions@), ids), query)
    } else {
        exists|candidates: Seq<DocumentView>, keys: Seq<Seq<char>>|
            lists_documents(candidates, keys, matching_documents(m, query.conditions@)) && r == arrange_results(
                candidates,
                query,
            )
    }
}

/// The entries (keys and documents, position by position) whose documents
/// satisfy every condition of `query`, in their order, with the positions
/// they were taken from.
fn filter_matching(keys: &Vec<String>, docs: &Vec<Document>, query: &Query) -> (r: (
    Vec<String>,
    Vec<Document>,
    Ghost<Seq<int>>,
))
    requires
        keys.len() == docs.len(),
    ensures
        r.0@.len() == r.2@.len(),
        r.1@.len() == r.2@.len(),
        forall|a: int| 0 <= a < r.2@.len() ==> 0 <= #[trigger] r.2@[a] < keys.len(),
        forall|a: int, b: int| 0 <= a < b < r.2@.len() ==> r.2@[a] < r.2@[b],
        forall|a: int|
            0 <= a < r.2@.len() ==> #[trigger] r.0@[a]@ == keys@[r.2@[a]]@ && r.1@[a]@ == docs@[r.2@[a]]@
                && spec_matches_query(docs@[r.2@[a]]@.data, query.conditions@),
        forall|j: int|
            0 <= j < keys.len() && spec_matches_query(#[trigger] docs@[j]@.data, query.conditions@) ==> r.2@.contains(j),
{
    let mut ckeys: Vec<String> = Vec::new();
    let mut chosen: Vec<Document> = Vec::new();
    let ghost mut idx: Seq<int> = Seq::empty();
    let mut i: usize = 0;
    while i < docs.len()
        invariant
            i <= docs.len(),
            keys.len() == docs.len(),
            ckeys@.len() == idx.len(),
            chosen@.len() == idx.len(),
            forall|a: int| 0 <= a < idx.len() ==> 0 <= #[trigger] idx[a] < i,
            forall|a: int, b: int| 0 <= a < b < idx.len() ==> idx[a] < idx[b],
            forall|a: int|
                0 <= a < idx.len() ==> #[trigger] ckeys@[a]@ == keys@[idx[a]]@ && chosen@[a]@ == docs@[idx[a]]@
                    && spec_matches_query(docs@[idx[a]]@.data, query.conditions@),
            forall|j: int| 0 <= j < i && spec_matches_query(#[trigger] docs@[j]@.data, query.conditions@) ==> idx.contains(j),
        decreases docs.len() - i,
    {
        if matches_query(&docs[i], query) {
            let ghost old_idx = idx;
            let ghost old_ckeys = ckeys@;
            let ghost old_chosen = chosen@;
            ckeys.push(keys[i].clone());
            chosen.push(docs[i].duplicate());
            proof {
                idx = idx.push(i as int);
                assert(idx[idx.len() - 1] == i);
                assert(idx.contains(i as int));
                assert forall|j: int| old_idx.contains(j) implies idx.contains(j) by {
                    let a = choose|a: int| 0 <= a < old_idx.len() && old_idx[a] == j;
                    assert(idx[a] == j);
                }
                assert forall|a: int| 0 <= a < idx.len() implies #[trigger] ckeys@[a]@ == keys@[idx[a]]@
                    && chosen@[a]@ == docs@[idx[a]]@ && spec_matches_query(docs@[idx[a]]@.data, query.conditions@) by {
                    if a < old_idx.len() {
                        assert(ckeys@[a] == old_ckeys[a]);
                        assert(chosen@[a] == old_chosen[a]);
                        assert(idx[a] == old_idx[a]);
                    }
                }
            }
        }
        i = i + 1;
    }
    (ckeys, chosen, Ghost(idx))
}

impl Collection {
    #[verifier::type_invariant]
    spec fn well_formed(self) -> bool {
        &&& keyed_by_id(stored_documents(self.documents))
        &&& stored_documents(self.documents).dom().finite()
        &&& self.index_manager.collection_name@ == self.name@
    }

    /// An empty collection named `name`.
    pub fn new(name: String) -> (r: Self)
        ensures
            r@.name == name@,
            r@.documents == Map::<Seq<char>, DocumentView>::empty(),
            collection_well_formed(r@),
    {
        let index_manager = IndexManager::new(name.clone());
        Collection { name, documents: documents_new(), index_manager }
    }

    /// The name of the collection.
    pub fn name(&self) -> (r: &str)
        ensures
            r@ == self@.name,
    {
        self.name.as_str()
    }

    /// The number of documents in the collection.
    pub fn count(&self) -> (r: usize)
        ensures
            r == self@.documents.len(),
            collection_well_formed(self@),
    {
        proof {
            use_type_invariant(self);
        }
        documents_len(&self.documents)
    }

    /// Index planning of this collection.
    pub fn index_manager(&self) -> (r: &IndexManager)
        ensures
            r.collection_name@ == self@.name,
    {
        proof {
            use_type_invariant(self);
        }
        &self.index_manager
    }

    /// Stores `document` under its identifier once indexing it has
    /// succeeded; an indexing failure is reported as an index error and
    /// nothing is stored.
    pub fn insert(&mut self, document: Document, indexing: Result<(), IndexError>) -> (r: DbResult<String>)
        ensures
            final(self)@.name == old(self)@.name,
            collection_well_formed(final(self)@),
            match indexing {
                Err(e) => r matches Err(err) && is_index_failure(err, e) && final(self)@ == old(self)@,
                Ok(()) => r matches Ok(id) && id@ == document.id@ && final(self)@.documents == old(
                    self,
                )@.documents.insert(document.id@, document@),
            },
    {
        proof {
            use_type_invariant(&*self);
        }
        match indexing {
            Err(e) => Err(DbError::IndexError(e.message())),
            Ok(()) => {
                let id = document.id.clone();
                let mut docs = documents_new();
                std::mem::swap(&mut docs, &mut self.documents);
                documents_insert(&mut docs, id.clone(), document);
                self.documents = docs;
                Ok(id)
            },
        }
    }

    /// A copy of the document with identifier `id`.
    pub fn get(&self, id: &str) -> (r: DbResult<Document>)
        ensures
            get_outcome(self@, id@, r),
            r matches Ok(d) ==> d.id@ == id@,
            collection_well_formed(self@),
    {
        proof {
            use_type_invariant(self);
        }
        match documents_get(&self.documents, id) {
            Some(d) => Ok(d),
            None => Err(DbError::DocumentNotFound(String::from_str(id))),
        }
    }

    /// Replaces the data of the document `id` once its index entries were
    /// updated: the stored document keeps its identifier and creation time,
    /// takes `data` and the current time as its update time, and a copy is
    /// returned.  A missing document is reported first; an indexing failure
    /// leaves the document unchanged.
    pub fn update(&mut self, id: &str, data: JsonValue, indexing: Result<(), IndexError>) -> (r: DbResult<Document>)
        ensures
            final(self)@.name == old(self)@.name,
            collection_well_formed(final(self)@),
            !old(self)@.documents.contains_key(id@) ==> final(self)@ == old(self)@ && (r matches Err(
                DbError::DocumentNotFound(s),
            ) && s@ == id@),
            old(self)@.documents.contains_key(id@) ==> match indexing {
                Err(e) => r matches Err(err) && is_index_failure(err, e) && final(self)@ == old(self)@,
                Ok(()) => r matches Ok(d) && d.id@ == id@ && d@.data == data@ && d.created_at == old(
                    self,
                )@.documents[id@].created_at && final(self)@.documents == old(self)@.documents.insert(id@, d@),
            },
    {
        proof {
            use_type_invariant(&*self);
        }
        let mut entry = match documents_get(&self.documents, id) {
            Some(d) => d,
            None => {
                return Err(DbError::DocumentNotFound(String::from_str(id)));
            },
        };
        match indexing {
            Err(e) => Err(DbError::IndexError(e.message())),
            Ok(()) => {
                entry.update(data);
                let key = entry.id.clone();
                let result = entry.duplicate();
                let mut docs = documents_new();
                std::mem::swap(&mut docs, &mut self.documents);
                documents_insert(&mut docs, key, entry);
                self.documents = docs;
                Ok(result)
            },
        }
    }

    /// Removes the document `id` once its index entries were removed, and
    /// returns it.  A missing document is reported first; an indexing
    /// failure leaves the collection unchanged.
    pub fn delete(&mut self, id: &str, indexing: Result<(), IndexError>) -> (r: DbResult<Document>)
        ensures
            final(self)@.name == old(self)@.name,
            collection_well_formed(final(self)@),
            !old(self)@.documents.contains_key(id@) ==> final(self)@ == old(self)@ && (r matches Err(
                DbError::DocumentNotFound(s),
            ) && s@ == id@),
            old(self)@.documents.contains_key(id@) ==> match indexing {
                Err(e) => r matches Err(err) && is_index_failure(err, e) && final(self)@ == old(self)@,
                Ok(()) => r matches Ok(d) && d@ == old(self)@.documents[id@] && final(self)@.documents == old(
                    self,
                )@.documents.remove(id@),
            },
    {
        proof {
            use_type_invariant(&*self);
        }
        let document = self.get(id)?;
        match indexing {
            Err(e) => Err(DbError::IndexError(e.message())),
            Ok(()) => {
                let mut docs = documents_new();
                std::mem::swap(&mut docs, &mut self.documents);
                let removed = documents_remove(&mut docs, id);
                self.documents = docs;
                match removed {
                    Some(d) => Ok(d),
                    None => Err(DbError::DocumentNotFound(String::from_str(id))),
                }
            },
        }
    }

    /// Copies of all documents, in the map's own order.
    pub fn get_all(&self) -> (r: Vec<Document>)
        ensures
            lists_all_documents(document_views(r@), self@.documents),
            collection_well_formed(self@),
    {
        proof {
            use_type_invariant(self);
        }
        let (keys, docs) = documents_entries(&self.documents);
        proof {
            assert(docs@.map_values(|d: Document| d@) =~= document_views(docs@));
            assert(lists_documents(document_views(docs@), keys@.map_values(|k: String| k@), self@.documents));
        }
        docs
    }

    /// The answer to `query` given the identifiers `doc_ids` that the
    /// indexes named: when there are any, those of the named documents that
    /// satisfy all conditions; otherwise every document that satisfies all
    /// conditions; then sorted and paged as the query asks (see
    /// [`query_outcome`]).
    pub fn query_results(&self, query: &Query, doc_ids: Vec<String>) -> (r: Vec<Document>)
        ensures
            query_outcome(self@.documents, *query, doc_ids@.map_values(|k: String| k@), document_views(r@)),
            collection_well_formed(self@),
    {
        let ghost m = self@.documents;
        let ghost ids = doc_ids@.map_values(|k: String| k@);
        let mut candidates: Vec<Document> = Vec::new();
        if doc_ids.len() > 0 {
            let mut i: usize = 0;
            assert(ids.take(0) =~= Seq::<Seq<char>>::empty());
            while i < doc_ids.len()
                invariant
                    i <= doc_ids.len(),
                    m == self@.documents,
                    ids == doc_ids@.map_values(|k: String| k@),
                    document_views(candidates@) == documents_by_ids(
                        matching_documents(m, query.conditions@),
                        ids.take(i as int),
                    ),
                decreases doc_ids.len() - i,
            {
                assert(ids.take(i + 1).drop_last() =~= ids.take(i as int));
                assert(ids.take(i + 1).last() == doc_ids@[i as int]@);
                let ghost before = document_views(candidates@);
                match documents_get(&self.documents, doc_ids[i].as_str()) {
                    Some(d) => {
                        if matches_query(&d, query) {
                            candidates.push(d);
                            assert(document_views(candidates@) =~= before.push(d@));
                        }
                    },
                    None => {},
                }
                i = i + 1;
            }
            assert(ids.take(doc_ids.len() as int) =~= ids);
        } else {
            let (keys, docs) = documents_entries(&self.documents);
            let ghost kv = keys@.map_values(|k: String| k@);
            let ghost dv = docs@.map_values(|d: Document| d@);
            let ghost mm = matching_documents(m, query.conditions@);
            assert(lists_documents(dv, kv, m));
            let (ckeys, chosen, Ghost(idx)) = filter_matching(&keys, &docs, query);
            candidates = chosen;
            proof {
                let cv = document_views(candidates@);
                let ck = ckeys@.map_values(|k: String| k@);
                assert forall|x: int| 0 <= x < ck.len() implies #[trigger] mm.contains_key(ck[x]) && mm[ck[x]]
                    == cv[x] by {
                    assert(ckeys@[x]@ == keys@[idx[x]]@);
                    let j = idx[x];
                    assert(0 <= j < kv.len());
                    assert(kv[j] == keys@[j]@ && dv[j] == docs@[j]@);
                    assert(ck[x] == kv[j]);
                    assert(cv[x] == candidates@[x]@);
                    assert(m.contains_key(kv[j]) && m[kv[j]] == dv[j]);
                }
                assert forall|k: Seq<char>| #[trigger] mm.contains_key(k) implies ck.contains(k) by {
                    assert(m.contains_key(k));
                    assert(kv.contains(k));
                    let j = choose|j: int| 0 <= j < kv.len() && kv[j] == k;
                    assert(m.contains_key(kv[j]) && m[kv[j]] == dv[j]);
                    assert(dv[j] == docs@[j]@);
                    assert(idx.contains(j));
                    let a = choose|a: int| 0 <= a < idx.len() && idx[a] == j;
                    assert(ckeys@[a]@ == keys@[idx[a]]@);
                    assert(ck[a] == k);
                }
                assert forall|x: int, y: int| 0 <= x < y < ck.len() implies ck[x] != ck[y] by {
                    assert(ckeys@[x]@ == keys@[idx[x]]@);
                    assert(ckeys@[y]@ == keys@[idx[y]]@);
                    assert(idx[x] < idx[y]);
                    assert(0 <= idx[x] < kv.len() && 0 <= idx[y] < kv.len());
                    assert(kv[idx[x]] != kv[idx[y]]);
                    assert(ck[x] == ckeys@[x]@ && ck[y] == ckeys@[y]@);
                }
                assert(ck.no_duplicates());
                assert(lists_documents(cv, ck, mm));
            }
        }
        let sorted = match &query.sort_by {
            Some((field, ascending)) => sort_documents(candidates, field.as_str(), *ascending),
            None => candidates,
        };
        let r = page_documents(sorted, query.skip, query.limit);
        proof {
            use_type_invariant(self);
        }
        r
    }

    /// Answers `query` from what the indexes found: an index failure is
    /// reported as an invalid query; otherwise the answer is as
    /// [`Collection::query_results`] gives it.
    pub fn query(&self, query: Query, index_ids: Result<Vec<String>, IndexError>) -> (r: DbResult<Vec<Document>>)
        ensures
            match index_ids {
                Err(e) => r matches Err(DbError::InvalidQuery(m)) && m@ == spec_index_error_message(e),
                Ok(ids) => r matches Ok(v) && query_outcome(
                    self@.documents,
                    query,
                    ids@.map_values(|k: String| k@),
                    document_views(v@),
                ),
            },
            collection_well_formed(self@),
    {
        proof {
            use_type_invariant(self);
        }
        match index_ids {
            Err(e) => Err(DbError::InvalidQuery(e.message())),
            Ok(ids) => Ok(self.query_results(&query, ids)),
        }
    }
}

} // verus!
