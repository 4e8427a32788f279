//! A database: named collections of documents.
use vstd::prelude::*;
use vstd::string::*;
use dashmap::DashMap;
use crate::collection::{Collection, CollectionView, get_outcome, is_index_failure, query_outcome, collection_well_formed};
use crate::document::{Document, DocumentView, document_views};
use crate::dashmaps::{stored_collections, lists_all_documents, collections_new, collections_contains, collections_insert, collections_remove, collections_names, collections_view};
use crate::errors::{DbError, DbResult, IndexError, spec_index_error_message};
use crate::json::JsonValue;
use crate::query::Query;

verus! {

/// The database: a name and its collections.
pub struct Database {
    /// Name of the database.
    name: String,
    /// The collections, by name.
    collections: DashMap<String, Collection>,
}

/// What a database holds.
pub struct DatabaseView {
    pub name: Seq<char>,
    pub collections: Map<Seq<char>, CollectionView>,
}

impl View for Database {
    type V = DatabaseView;

    closed spec fn view(&self) -> DatabaseView {
        DatabaseView { name: self.name@, collections: stored_collections(self.collections) }
    }
}

/// A collection's name and its number of documents.
pub struct CollectionInfo {
    pub name: String,
    pub document_count: usize,
}

impl CollectionInfo {
    /// The collection's name.
    pub fn name(&self) -> (r: &str)
        ensures
            r@ == self.name@,
    {
        self.name.as_str()
    }

    /// The collection's number of documents.
    pub fn count(&self) -> (r: usize)
        ensures
            r == self.document_count,
    {
        self.document_count
    }
}

/// Whether `e` reports that the collection `name` does not exist.
pub open spec fn is_collection_not_found(e: DbError, name: Seq<char>) -> bool {
    e matches DbError::CollectionNotFound(s) && s@ == name
}

/// Every collection is stored under its own name and is well formed.
pub open spec fn named_by_key(m: Map<Seq<char>, CollectionView>) -> bool {
    forall|k: Seq<char>| #[trigger] m.contains_key(k) ==> m[k].name == k && collection_well_formed(m[k])
}

impl DatabaseView {
    /// The database with an empty collection `name` in place of any
    /// collection of that name.
    pub open spec fn with_collection(self, name: Seq<char>) -> DatabaseView {
        DatabaseView {
            name: self.name,
            collections: self.collections.insert(name, CollectionView { name, documents: Map::empty() }),
        }
    }

    /// The database without the collection `name`.
    pub open spec fn without_collection(self, name: Seq<char>) -> DatabaseView {
        DatabaseView { name: self.name, collections: self.collections.remove(name) }
    }

    /// The database with `d` stored under its identifier in the collection
    /// `c`.
    pub open spec fn with_document(self, c: Seq<char>, d: DocumentView) -> DatabaseView {
        DatabaseView {
            name: self.name,
            collections: self.collections.insert(
                c,
                CollectionView { name: c, documents: self.collections[c].documents.insert(d.id, d) },
            ),
        }
    }

    /// The database without the document `id` of the collection `c`.
    pub open spec fn without_document(self, c: Seq<char>, id: Seq<char>) -> DatabaseView {
        DatabaseView {
            name: self.name,
            collections: self.collections.insert(
                c,
                CollectionView { name: c, documents: self.collections[c].documents.remove(id) },
            ),
        }
    }

    /// Whether the collection `c` holds a document `id`.
    pub open spec fn has_document(self, c: Seq<char>, id: Seq<char>) -> bool {
        self.collections.contains_key(c) && self.collections[c].documents.contains_key(id)
    }

    /// The document `id` of the collection `c`.
    pub open spec fn document(self, c: Seq<char>, id: Seq<char>) -> DocumentView {
        self.collections[c].documents[id]
    }
}

impl Database {
    #[verifier::type_invariant]
    spec fn well_formed(self) -> bool {
        named_by_key(stored_collections(self.collections))
    }

    /// An empty database named `name`.
    pub fn new(name: String) -> (r: Self)
        ensures
            r@.name == name@,
            r@.collections == Map::<Seq<char>, CollectionView>::empty(),
    {
        Database { name, collections: collections_new() }
    }

    /// The name of the database.
    pub fn name(&self) -> (r: &str)
        ensures
            r@ == self@.name,
    {
        self.name.as_str()
    }

    /// Creates the empty collection `name`; an existing collection of that
    /// name is an error.
    pub fn create_collection(&mut self, name: &str) -> (r: DbResult<CollectionInfo>)
        ensures
            final(self)@.name == old(self)@.name,
            old(self)@.collections.contains_key(name@) ==> final(self)@ == old(self)@ && (r matches Err(
                DbError::CollectionExists(s),
            ) && s@ == name@),
            !old(self)@.collections.contains_key(name@) ==> (r matches Ok(info) && info.name@ == name@
                && info.document_count == 0) && final(self)@ == old(self)@.with_collection(name@),
    {
        proof {
            use_type_invariant(&*self);
        }
        if collections_contains(&self.collections, name) {
            return Err(DbError::CollectionExists(String::from_str(name)));
        }
        let collection = Collection::new(String::from_str(name));
        let mut cols = collections_new();
        std::mem::swap(&mut cols, &mut self.collections);
        collections_insert(&mut cols, String::from_str(name), collection);
        self.collections = cols;
        Ok(CollectionInfo { name: String::from_str(name), document_count: 0 })
    }

    /// Replaces the collection `name`, if any, by an empty one (the first
    /// step of loading a stored collection).
    pub fn register_collection(&mut self, name: &str)
        ensures
            final(self)@ == old(self)@.with_collection(name@),
    {
        proof {
            use_type_invariant(&*self);
        }
        let collection = Collection::new(String::from_str(name));
        let mut cols = collections_new();
        std::mem::swap(&mut cols, &mut self.collections);
        collections_insert(&mut cols, String::from_str(name), collection);
        self.collections = cols;
    }

    /// The name and size of the collection `name`.
    pub fn get_collection(&self, name: &str) -> (r: DbResult<CollectionInfo>)
        ensures
            match r {
                Ok(info) => self@.collections.contains_key(name@) && info.name@ == name@ && info.document_count
                    == self@.collections[name@].documents.len(),
                Err(e) => !self@.collections.contains_key(name@) && is_collection_not_found(e, name@),
            },
            named_by_key(self@.collections),
    {
        proof {
            use_type_invariant(self);
        }
        let info_of = |c: &Collection| -> (r: CollectionInfo)
            ensures
                r.name@ == c@.name,
                r.document_count == c@.documents.len(),
            {
                let info = CollectionInfo { name: String::from_str(c.name()), document_count: c.count() };
                info
            };
        let found = collections_view(&self.collections, name, info_of);
        match found {
            Some(info) => Ok(info),
            None => Err(DbError::CollectionNotFound(String::from_str(name))),
        }
    }

    /// Deletes the collection `name`; a missing collection is an error.
    pub fn delete_collection(&mut self, name: &str) -> (r: DbResult<()>)
        ensures
            final(self)@.name == old(self)@.name,
            old(self)@.collections.contains_key(name@) ==> r is Ok && final(self)@ == old(
                self,
            )@.without_collection(name@),
            !old(self)@.collections.contains_key(name@) ==> final(self)@ == old(self)@ && (r matches Err(e)
                && is_collection_not_found(e, name@)),
    {
        proof {
            use_type_invariant(&*self);
        }
        if !collections_contains(&self.collections, name) {
            return Err(DbError::CollectionNotFound(String::from_str(name)));
        }
        let mut cols = collections_new();
        std::mem::swap(&mut cols, &mut self.collections);
        let _removed = collections_remove(&mut cols, name);
        self.collections = cols;
        Ok(())
    }

    /// The names of all collections, each once, in the map's own order.
    pub fn list_collections(&self) -> (r: Vec<String>)
        ensures
            r@.map_values(|k: String| k@).no_duplicates(),
            r@.map_values(|k: String| k@).to_set() == self@.collections.dom(),
            named_by_key(self@.collections),
    {
        proof {
            use_type_invariant(self);
        }
        collections_names(&self.collections)
    }

    /// Inserts `document` into the collection `collection_name` once
    /// indexing it has succeeded (see [`Collection::insert`]); a missing
    /// collection is reported first.
    pub fn insert_document(&mut self, collection_name: &str, document: Document, indexing: Result<(), IndexError>) -> (r:
        DbResult<String>)
        ensures
            final(self)@.name == old(self)@.name,
            !old(self)@.collections.contains_key(collection_name@) ==> final(self)@ == old(self)@ && (r matches Err(e)
                && is_collection_not_found(e, collection_name@)),
            old(self)@.collections.contains_key(collection_name@) ==> match indexing {
                Err(e) => (r matches Err(err) && is_index_failure(err, e)) && final(self)@ == old(self)@,
                Ok(()) => (r matches Ok(id) && id@ == document.id@) && final(self)@ == old(self)@.with_document(
                    collection_name@,
                    document@,
                ),
            },
    {
        proof {
            use_type_invariant(&*self);
        }
        let mut cols = collections_new();
        std::mem::swap(&mut cols, &mut self.collections);
        let taken = collections_remove(&mut cols, collection_name);
        match taken {
            None => {
                self.collections = cols;
                proof {
                    assert(stored_collections(self.collections) =~= stored_collections(old(self).collections));
                }
                Err(DbError::CollectionNotFound(String::from_str(collection_name)))
            },
            Some(mut collection) => {
                let ghost before = collection@;
                let r = collection.insert(document, indexing);
                let ghost after = collection@;
                collections_insert(&mut cols, String::from_str(collection_name), collection);
                self.collections = cols;
                proof {
                    assert(stored_collections(self.collections) =~= stored_collections(old(self).collections).insert(
                        collection_name@,
                        after,
                    ));
                    if indexing is Err {
                        assert(stored_collections(self.collections) =~= stored_collections(old(self).collections));
                    }
                }
                r
            },
        }
    }

    /// Replaces the data of the document `id` of the collection
    /// `collection_name` (see [`Collection::update`]); a missing collection
    /// is reported first.
    pub fn update_document(
        &mut self,
        collection_name: &str,
        id: &str,
        data: JsonValue,
        indexing: Result<(), IndexError>,
    ) -> (r: DbResult<Document>)
        ensures
            final(self)@.name == old(self)@.name,
            !old(self)@.collections.contains_key(collection_name@) ==> final(self)@ == old(self)@ && (r matches Err(e)
                && is_collection_not_found(e, collection_name@)),
            old(self)@.collections.contains_key(collection_name@) ==> {
                let c = old(self)@.collections[collection_name@];
                &&& !c.documents.contains_key(id@) ==> final(self)@ == old(self)@ && (r matches Err(
                    DbError::DocumentNotFound(s),
                ) && s@ == id@)
                &&& c.documents.contains_key(id@) ==> match indexing {
                    Err(e) => (r matches Err(err) && is_index_failure(err, e)) && final(self)@ == old(self)@,
                    Ok(()) => (r matches Ok(d) && d.id@ == id@ && d@.data == data@ && d.created_at
                        == c.documents[id@].created_at && final(self)@ == old(self)@.with_document(
                        collection_name@,
                        d@,
                    )),
                }
            },
    {
        proof {
            use_type_invariant(&*self);
        }
        let mut cols = collections_new();
        std::mem::swap(&mut cols, &mut self.collections);
        let taken = collections_remove(&mut cols, collection_name);
        match taken {
            None => {
                self.collections = cols;
                proof {
                    assert(stored_collections(self.collections) =~= stored_collections(old(self).collections));
                }
                Err(DbError::CollectionNotFound(String::from_str(collection_name)))
            },
            Some(mut collection) => {
                let ghost before = collection@;
                let r = collection.update(id, data, indexing);
                let ghost after = collection@;
                collections_insert(&mut cols, String::from_str(collection_name), collection);
                self.collections = cols;
                proof {
                    assert(stored_collections(self.collections) =~= stored_collections(old(self).collections).insert(
                        collection_name@,
                        after,
                    ));
                    if !before.documents.contains_key(id@) || indexing is Err {
                        assert(stored_collections(self.collections) =~= stored_collections(old(self).collections));
                    }
                }
                r
            },
        }
    }

    /// Removes the document `id` from the collection `collection_name` and
    /// returns it (see [`Collection::delete`]); a missing collection is
    /// reported first.
    pub fn delete_document(&mut self, collection_name: &str, id: &str, indexing: Result<(), IndexError>) -> (r: DbResult<
        Document,
    >)
        ensures
            final(self)@.name == old(self)@.name,
            !old(self)@.collections.contains_key(collection_name@) ==> final(self)@ == old(self)@ && (r matches Err(e)
                && is_collection_not_found(e, collection_name@)),
            old(self)@.collections.contains_key(collection_name@) ==> {
                let c = old(self)@.collections[collection_name@];
                &&& !c.documents.contains_key(id@) ==> final(self)@ == old(self)@ && (r matches Err(
                    DbError::DocumentNotFound(s),
                ) && s@ == id@)
                &&& c.documents.contains_key(id@) ==> match indexing {
                    Err(e) => (r matches Err(err) && is_index_failure(err, e)) && final(self)@ == old(self)@,
                    Ok(()) => (r matches Ok(d) && d@ == c.documents[id@]) && final(self)@ == old(
                        self,
                    )@.without_document(collection_name@, id@),
                }
            },
    {
        proof {
            use_type_invariant(&*self);
        }
        let mut cols = collections_new();
        std::mem::swap(&mut cols, &mut self.collections);
        let taken = collections_remove(&mut cols, collection_name);
        match taken {
            None => {
                self.collections = cols;
                proof {
                    assert(stored_collections(self.collections) =~= stored_collections(old(self).collections));
                }
                Err(DbError::CollectionNotFound(String::from_str(collection_name)))
            },
            Some(mut collection) => {
                let ghost before = collection@;
                let r = collection.delete(id, indexing);
                let ghost after = collection@;
                collections_insert(&mut cols, String::from_str(collection_name), collection);
                self.collections = cols;
                proof {
                    assert(stored_collections(self.collections) =~= stored_collections(old(self).collections).insert(
                        collection_name@,
                        after,
                    ));
                    if !before.documents.contains_key(id@) || indexing is Err {
                        assert(stored_collections(self.collections) =~= stored_collections(old(self).collections));
                    }
                }
                r
            },
        }
    }

    /// A copy of the document `id` of the collection `collection_name`.
    pub fn get_document(&self, collection_name: &str, id: &str) -> (r: DbResult<Document>)
        ensures
            !self@.collections.contains_key(collection_name@) ==> (r matches Err(e) && is_collection_not_found(
                e,
                collection_name@,
            )),
            self@.collections.contains_key(collection_name@) ==> get_outcome(
                self@.collections[collection_name@],
                id@,
                r,
            ),
            named_by_key(self@.collections),
    {
        proof {
            use_type_invariant(self);
        }
        let lookup = |c: &Collection| -> (r: DbResult<Document>)
            ensures
                get_outcome(c@, id@, r),
            { c.get(id) };
        match collections_view(&self.collections, collection_name, lookup) {
            Some(r) => r,
            None => Err(DbError::CollectionNotFound(String::from_str(collection_name))),
        }
    }

    /// Copies of all documents of the collection `collection_name`, in the
    /// map's own order.
    pub fn get_all_documents(&self, collection_name: &str) -> (r: DbResult<Vec<Document>>)
        ensures
            !self@.collections.contains_key(collection_name@) ==> (r matches Err(e) && is_collection_not_found(
                e,
                collection_name@,
            )),
            self@.collections.contains_key(collection_name@) ==> (r matches Ok(v) && lists_all_documents(
                document_views(v@),
                self@.collections[collection_name@].documents,
            )),
            named_by_key(self@.collections),
    {
        proof {
            use_type_invariant(self);
        }
        let all = |c: &Collection| -> (r: Vec<Document>)
            ensures
                lists_all_documents(document_views(r@), c@.documents),
            { c.get_all() };
        match collections_view(&self.collections, collection_name, all) {
            Some(v) => {
                proof {
                    let c = choose|c: &Collection|
                        c@ == stored_collections(self.collections)[collection_name@] && #[trigger] call_ensures(
                            all,
                            (c,),
                            v,
                        );
                    assert(c@.documents == self@.collections[collection_name@].documents);
                }
                Ok(v)
            },
            None => Err(DbError::CollectionNotFound(String::from_str(collection_name))),
        }
    }

    /// Answers `query` over the collection `collection_name` from what its
    /// indexes found (see [`Collection::query`]).
    pub fn query_documents(
        &self,
        collection_name: &str,
        query: Query,
        index_ids: Result<Vec<String>, IndexError>,
    ) -> (r: DbResult<Vec<Document>>)
        ensures
            !self@.collections.contains_key(collection_name@) ==> (r matches Err(e) && is_collection_not_found(
                e,
                collection_name@,
            )),
            self@.collections.contains_key(collection_name@) ==> match index_ids {
                Err(e) => r matches Err(DbError::InvalidQuery(m)) && m@ == spec_index_error_message(e),
                Ok(ids) => r matches Ok(v) && query_outcome(
                    self@.collections[collection_name@].documents,
                    query,
                    ids@.map_values(|k: String| k@),
                    document_views(v@),
                ),
            },
            named_by_key(self@.collections),
    {
        proof {
            use_type_invariant(self);
        }
        let ghost q = query;
        let ghost ids_in = index_ids;
        let answer = move |c: &Collection| -> (r: DbResult<Vec<Document>>)
            ensures
                match ids_in {
                    Err(e) => r matches Err(DbError::InvalidQuery(m)) && m@ == spec_index_error_message(e),
                    Ok(ids) => r matches Ok(v) && query_outcome(
                        c@.documents,
                        q,
                        ids@.map_values(|k: String| k@),
                        document_views(v@),
                    ),
                },
            { c.query(query, index_ids) };
        match collections_view(&self.collections, collection_name, answer) {
            Some(r) => r,
            None => Err(DbError::CollectionNotFound(String::from_str(collection_name))),
        }
    }

    /// Shuts the database down; nothing is left to do in memory.
    pub fn shutdown(&self) -> (r: DbResult<()>)
        ensures
            r is Ok,
    {
        Ok(())
    }
}

} // verus!
