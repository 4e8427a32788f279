//! The concurrent maps that hold a database's collections and each
//! collection's documents (`dashmap::DashMap`), seen through the contents
//! they hold.
use vstd::prelude::*;
use dashmap::DashMap;
use crate::document::{Document, DocumentView};
use crate::collection::{Collection, CollectionView};

verus! {

#[verifier::external_type_specification]
#[verifier::external_body]
#[verifier::reject_recursive_types(K)]
#[verifier::reject_recursive_types(V)]
#[verifier::reject_recursive_types(S)]
pub struct ExDashMap<K, V, S>(DashMap<K, V, S>);

/// The documents that a document map holds, by key.
pub uninterp spec fn stored_documents(m: DashMap<String, Document>) -> Map<Seq<char>, DocumentView>;

/// The collections that a collection map holds, by name.
pub uninterp spec fn stored_collections(m: DashMap<String, Collection>) -> Map<Seq<char>, CollectionView>;

/// Whether `s` lists the entries of `m`: each element once, all of them.
pub open spec fn lists_documents(s: Seq<DocumentView>, keys: Seq<Seq<char>>, m: Map<Seq<char>, DocumentView>) -> bool {
    &&& s.len() == keys.len()
    &&& keys.no_duplicates()
    &&& forall|i: int| 0 <= i < keys.len() ==> #[trigger] m.contains_key(keys[i]) && m[keys[i]] == s[i]
    &&& forall|k: Seq<char>| #[trigger] m.contains_key(k) ==> keys.contains(k)
}

/// Whether `s` lists the documents of `m`, in some order.
pub open spec fn lists_all_documents(s: Seq<DocumentView>, m: Map<Seq<char>, DocumentView>) -> bool {
    exists|keys: Seq<Seq<char>>| lists_documents(s, keys, m)
}

/// No documents at all.
pub open spec fn no_documents() -> Map<Seq<char>, DocumentView> {
    Map::empty()
}

/// No collections at all.
pub open spec fn no_collections() -> Map<Seq<char>, CollectionView> {
    Map::empty()
}

/// `DashMap::new`: an empty document map.
#[verifier::external_body]
pub(crate) fn documents_new() -> (r: DashMap<String, Document>)
    ensures
        stored_documents(r) == no_documents(),
        stored_documents(r).dom().finite(),
{
    DashMap::new()
}

/// `DashMap::len`: the number of documents held.
#[verifier::external_body]
pub(crate) fn documents_len(m: &DashMap<String, Document>) -> (r: usize)
    ensures
        r == stored_documents(*m).len(),
{
    m.len()
}

/// `DashMap::insert`: stores `value` under `key`, replacing what was there.
#[verifier::external_body]
pub(crate) fn documents_insert(m: &mut DashMap<String, Document>, key: String, value: Document)
    ensures
        stored_documents(*final(m)) == stored_documents(*old(m)).insert(key@, value@),
        stored_documents(*final(m)).dom().finite(),
{
    m.insert(key, value);
}

/// `DashMap::get`: a copy of the document stored under `key`.
#[verifier::external_body]
pub(crate) fn documents_get(m: &DashMap<String, Document>, key: &str) -> (r: Option<Document>)
    ensures
        r is Some <==> stored_documents(*m).contains_key(key@),
        r matches Some(d) ==> d@ == stored_documents(*m)[key@],
{
    m.get(key).map(|entry| entry.value().duplicate())
}

/// `DashMap::remove`: takes out the document stored under `key`.
#[verifier::external_body]
pub(crate) fn documents_remove(m: &mut DashMap<String, Document>, key: &str) -> (r: Option<Document>)
    ensures
        stored_documents(*final(m)) == stored_documents(*old(m)).remove(key@),
        stored_documents(*final(m)).dom().finite(),
        r is Some <==> stored_documents(*old(m)).contains_key(key@),
        r matches Some(d) ==> d@ == stored_documents(*old(m))[key@],
{
    m.remove(key).map(|entry| entry.1)
}

/// `DashMap::iter`: copies of all stored documents with their keys, in the
/// map's own (unspecified) order.
#[verifier::external_body]
pub(crate) fn documents_entries(m: &DashMap<String, Document>) -> (r: (Vec<String>, Vec<Document>))
    ensures
        lists_documents(r.1@.map_values(|d: Document| d@), r.0@.map_values(|k: String| k@), stored_documents(*m)),
{
    let mut keys = Vec::new();
    let mut docs = Vec::new();
    for entry in m.iter() {
        keys.push(entry.key().clone());
        docs.push(entry.value().duplicate());
    }
    (keys, docs)
}

/// `DashMap::new`: an empty collection map.
#[verifier::external_body]
pub(crate) fn collections_new() -> (r: DashMap<String, Collection>)
    ensures
        stored_collections(r) == no_collections(),
{
    DashMap::new()
}

/// `DashMap::contains_key` on the collection map.
#[verifier::external_body]
pub(crate) fn collections_contains(m: &DashMap<String, Collection>, key: &str) -> (r: bool)
    ensures
        r == stored_collections(*m).contains_key(key@),
{
    m.contains_key(key)
}

/// `DashMap::insert` on the collection map.
#[verifier::external_body]
pub(crate) fn collections_insert(m: &mut DashMap<String, Collection>, key: String, value: Collection)
    ensures
        stored_collections(*final(m)) == stored_collections(*old(m)).insert(key@, value@),
{
    m.insert(key, value);
}

/// `DashMap::remove` on the collection map.
#[verifier::external_body]
pub(crate) fn collections_remove(m: &mut DashMap<String, Collection>, key: &str) -> (r: Option<Collection>)
    ensures
        stored_collections(*final(m)) == stored_collections(*old(m)).remove(key@),
        r is Some <==> stored_collections(*old(m)).contains_key(key@),
        r matches Some(c) ==> c@ == stored_collections(*old(m))[key@],
{
    m.remove(key).map(|entry| entry.1)
}

/// `DashMap::iter` on the collection map: the names it holds, in the map's
/// own (unspecified) order.
#[verifier::external_body]
pub(crate) fn collections_names(m: &DashMap<String, Collection>) -> (r: Vec<String>)
    ensures
        r@.map_values(|k: String| k@).no_duplicates(),
        r@.map_values(|k: String| k@).to_set() == stored_collections(*m).dom(),
{
    let mut names = Vec::new();
    for entry in m.iter() {
        names.push(entry.key().clone());
    }
    names
}

/// `DashMap::view` on the collection map: the outcome of `f` on the
/// collection stored under `key`, if there is one.
#[verifier::external_body]
pub(crate) fn collections_view<R, F: FnOnce(&Collection) -> R>(m: &DashMap<String, Collection>, key: &str, f: F) -> (r:
    Option<R>)
    requires
        forall|c: &Collection| c@ == stored_collections(*m)[key@] ==> call_requires(f, (c,)),
    ensures
        r is Some <==> stored_collections(*m).contains_key(key@),
        r matches Some(x) ==> exists|c: &Collection|
            c@ == stored_collections(*m)[key@] && #[trigger] call_ensures(f, (c,), x),
{
    m.view(key, |_, c| f(c))
}

} // verus!
