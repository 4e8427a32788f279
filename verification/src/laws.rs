//! Laws of the library: what a read gives back after a write, what
//! creating and deleting a collection does to the listing, how counts move,
//! and what every answer to a query satisfies.
use vstd::prelude::*;
use crate::collection::{CollectionView, collection_well_formed, keyed_by_id, query_outcome, arrange_results, matching_documents, documents_by_ids};
use crate::database::DatabaseView;
use crate::dashmaps::{lists_documents, lists_all_documents};
use crate::document::DocumentView;
use crate::query::{Query, spec_document_order, spec_compare_values, spec_insert_sorted, spec_sort_documents, spec_page, spec_matches_query, sign};
use crate::text::{lemma_text_order_antisymmetric, lemma_split_on_join};
use crate::query::{spec_extract, lemma_path_value_append};
use crate::json::{JsonView, NumberRepr, spec_number_key};
use crate::number::{two53, lemma_double_bits_strictly_increasing};
use crate::query::{spec_value_order, spec_condition_holds, QueryOperator};
use crate::number::{two63, double_order_key, double_scaled_value, lemma_magnitude_strictly_increasing, lemma_magnitude_zero};
use crate::text::seq_contains_text;
use crate::api::{Endpoint, spec_error_status};
use crate::errors::DbError;

verus! {

/// A document written into a collection is read back as written, and no
/// other document of the database changes.
pub proof fn law_read_after_write(db: DatabaseView, c: Seq<char>, d: DocumentView)
    requires
        db.collections.contains_key(c),
    ensures
        db.with_document(c, d).has_document(c, d.id),
        db.with_document(c, d).document(c, d.id) == d,
        forall|c2: Seq<char>, id: Seq<char>|
            (c2 != c || id != d.id) ==> (#[trigger] db.with_document(c, d).has_document(c2, id) == db.has_document(c2, id)
                && (db.has_document(c2, id) ==> db.with_document(c, d).document(c2, id) == db.document(c2, id))),
{
}

/// A deleted document is no longer found, and no other document of the
/// database changes.
pub proof fn law_read_after_delete(db: DatabaseView, c: Seq<char>, id: Seq<char>)
    requires
        db.collections.contains_key(c),
    ensures
        !db.without_document(c, id).has_document(c, id),
        db.without_document(c, id).collections.contains_key(c),
        forall|c2: Seq<char>, id2: Seq<char>|
            (c2 != c || id2 != id) ==> (#[trigger] db.without_document(c, id).has_document(c2, id2) == db.has_document(c2, id2)
                && (db.has_document(c2, id2) ==> db.without_document(c, id).document(c2, id2) == db.document(c2, id2))),
{
}

/// A created collection is listed and empty; a deleted collection is no
/// longer listed; other collections stay as they were.
pub proof fn law_collection_lifecycle(db: DatabaseView, name: Seq<char>)
    ensures
        db.with_collection(name).collections.contains_key(name),
        db.with_collection(name).collections[name].documents.len() == 0,
        db.with_collection(name).collections.dom() == db.collections.dom().insert(name),
        !db.without_collection(name).collections.contains_key(name),
        db.without_collection(name).collections.dom() == db.collections.dom().remove(name),
        forall|other: Seq<char>| other != name && db.collections.contains_key(other) ==> #[trigger] db.with_collection(
            name,
        ).collections[other] == db.collections[other] && db.without_collection(name).collections[other]
            == db.collections[other],
{
    assert(db.with_collection(name).collections[name].documents =~= Map::<Seq<char>, DocumentView>::empty());
    assert(db.with_collection(name).collections.dom() =~= db.collections.dom().insert(name));
    assert(db.without_collection(name).collections.dom() =~= db.collections.dom().remove(name));
}

/// Storing a document under a new identifier adds one to the count;
/// storing it under an existing one keeps the count; deleting an existing
/// document takes one off.
pub proof fn law_document_count(c: CollectionView, d: DocumentView)
    requires
        collection_well_formed(c),
    ensures
        !c.documents.contains_key(d.id) ==> c.documents.insert(d.id, d).len() == c.documents.len() + 1,
        c.documents.contains_key(d.id) ==> c.documents.insert(d.id, d).len() == c.documents.len(),
        c.documents.contains_key(d.id) ==> c.documents.remove(d.id).len() == c.documents.len() - 1,
{
    if c.documents.contains_key(d.id) {
        assert(c.documents.insert(d.id, d).dom() =~= c.documents.dom());
    }
}

// ---------------------------------------------------------------------------
// Sorting and paging keep the documents they are given

proof fn lemma_compare_values_antisymmetric(a: JsonView, b: JsonView)
    ensures
        spec_compare_values(a, b) == -spec_compare_values(b, a),
{
    match (a, b) {
        (JsonView::Str(x), JsonView::Str(y)) => {
            lemma_text_order_antisymmetric(x, y);
        },
        _ => {},
    }
}

/// Comparing two documents the other way round gives the opposite answer.
pub proof fn lemma_document_order_antisymmetric(a: DocumentView, b: DocumentView, field: Seq<char>, ascending: bool)
    ensures
        spec_document_order(a, b, field, ascending) == -spec_document_order(b, a, field, ascending),
{
    match (crate::query::spec_field(a.data, field), crate::query::spec_field(b.data, field)) {
        (Some(x), Some(y)) => {
            lemma_compare_values_antisymmetric(x, y);
        },
        _ => {},
    }
}

/// Inserting keeps the elements and adds one.
proof fn lemma_insert_sorted_elements(t: Seq<DocumentView>, x: DocumentView, field: Seq<char>, ascending: bool)
    ensures
        spec_insert_sorted(t, x, field, ascending).len() == t.len() + 1,
        spec_insert_sorted(t, x, field, ascending).to_multiset() == t.to_multiset().insert(x),
    decreases t.len(),
{
    broadcast use vstd::seq_lib::group_to_multiset_ensures;
    if t.len() > 0 && spec_document_order(t.last(), x, field, ascending) == 1 {
        lemma_insert_sorted_elements(t.drop_last(), x, field, ascending);
        assert(t =~= t.drop_last().push(t.last()));
        assert(t.to_multiset() =~= t.drop_last().to_multiset().insert(t.last()));
        assert(spec_insert_sorted(t, x, field, ascending).to_multiset() =~= t.to_multiset().insert(x));
    }
}

/// Sorting keeps the documents (as a multiset).
pub proof fn lemma_sort_elements(s: Seq<DocumentView>, field: Seq<char>, ascending: bool)
    ensures
        spec_sort_documents(s, field, ascending).len() == s.len(),
        spec_sort_documents(s, field, ascending).to_multiset() == s.to_multiset(),
    decreases s.len(),
{
    broadcast use vstd::seq_lib::group_to_multiset_ensures;
    if s.len() > 0 {
        lemma_sort_elements(s.drop_last(), field, ascending);
        lemma_insert_sorted_elements(spec_sort_documents(s.drop_last(), field, ascending), s.last(), field, ascending);
        assert(s =~= s.drop_last().push(s.last()));
        assert(s.to_multiset() =~= s.drop_last().to_multiset().insert(s.last()));
    }
}

/// Inserting into a list whose neighbours are in order keeps neighbours in
/// order.
proof fn lemma_insert_sorted_adjacent(t: Seq<DocumentView>, x: DocumentView, field: Seq<char>, ascending: bool)
    requires
        forall|i: int| 0 <= i < t.len() - 1 ==> spec_document_order(#[trigger] t[i], t[i + 1], field, ascending) != 1,
    ensures
        forall|i: int|
            0 <= i < spec_insert_sorted(t, x, field, ascending).len() - 1 ==> spec_document_order(
                #[trigger] spec_insert_sorted(t, x, field, ascending)[i],
                spec_insert_sorted(t, x, field, ascending)[i + 1],
                field,
                ascending,
            ) != 1,
    decreases t.len(),
{
    lemma_insert_sorted_elements(t, x, field, ascending);
    if t.len() > 0 && spec_document_order(t.last(), x, field, ascending) == 1 {
        let u = t.drop_last();
        assert forall|i: int| 0 <= i < u.len() - 1 implies spec_document_order(#[trigger] u[i], u[i + 1], field, ascending) != 1 by {
            assert(u[i] == t[i] && u[i + 1] == t[i + 1]);
        }
        lemma_insert_sorted_adjacent(u, x, field, ascending);
        lemma_insert_sorted_elements(u, x, field, ascending);
        let v = spec_insert_sorted(u, x, field, ascending);
        let w = spec_insert_sorted(t, x, field, ascending);
        assert(w == v.push(t.last()));
        // the new last neighbours: v.last() and t.last()
        lemma_document_order_antisymmetric(t.last(), x, field, ascending);
        if u.len() == 0 {
            assert(v =~= seq![x]);
        } else {
            let ul = u.last();
            if spec_document_order(ul, x, field, ascending) == 1 {
                // x went further in; v.last() == ul
                lemma_last_of_insert(u, x, field, ascending);
                assert(v.last() == ul);
                assert(ul == t[t.len() - 2]);
            } else {
                assert(v == u.push(x));
            }
        }
        assert forall|i: int| 0 <= i < w.len() - 1 implies spec_document_order(#[trigger] w[i], w[i + 1], field, ascending) != 1 by {
            if i < v.len() - 1 {
                assert(w[i] == v[i] && w[i + 1] == v[i + 1]);
            }
        }
    } else if t.len() > 0 {
        let w = spec_insert_sorted(t, x, field, ascending);
        assert(w == t.push(x));
        assert forall|i: int| 0 <= i < w.len() - 1 implies spec_document_order(#[trigger] w[i], w[i + 1], field, ascending) != 1 by {
            if i < t.len() - 1 {
                assert(w[i] == t[i] && w[i + 1] == t[i + 1]);
            }
        }
    }
}

/// When the last element moves past `x`, the insertion ends with it.
proof fn lemma_last_of_insert(u: Seq<DocumentView>, x: DocumentView, field: Seq<char>, ascending: bool)
    requires
        u.len() > 0,
        spec_document_order(u.last(), x, field, ascending) == 1,
    ensures
        spec_insert_sorted(u, x, field, ascending).last() == u.last(),
{
}

/// Sorted output: no document comes after its right neighbour.
pub proof fn lemma_sort_adjacent(s: Seq<DocumentView>, field: Seq<char>, ascending: bool)
    ensures
        forall|i: int|
            0 <= i < spec_sort_documents(s, field, ascending).len() - 1 ==> spec_document_order(
                #[trigger] spec_sort_documents(s, field, ascending)[i],
                spec_sort_documents(s, field, ascending)[i + 1],
                field,
                ascending,
            ) != 1,
    decreases s.len(),
{
    if s.len() > 0 {
        lemma_sort_adjacent(s.drop_last(), field, ascending);
        lemma_insert_sorted_adjacent(spec_sort_documents(s.drop_last(), field, ascending), s.last(), field, ascending);
    }
}

// ---------------------------------------------------------------------------
// Answers to queries

/// Where a page starts in the list it is taken from.
pub open spec fn page_offset(n: nat, skip: Option<usize>) -> int {
    match skip {
        Some(k) => if k < n {
            k as int
        } else {
            n as int
        },
        None => 0,
    }
}

/// A page is a contiguous run of the list, no longer than the limit.
pub proof fn lemma_page_is_run<T>(s: Seq<T>, skip: Option<usize>, limit: Option<usize>)
    ensures
        page_offset(s.len(), skip) + spec_page(s, skip, limit).len() <= s.len(),
        forall|i: int|
            0 <= i < spec_page(s, skip, limit).len() ==> #[trigger] spec_page(s, skip, limit)[i] == s[page_offset(
                s.len(),
                skip,
            ) + i],
        limit matches Some(l) ==> spec_page(s, skip, limit).len() <= l,
        limit is None ==> spec_page(s, skip, limit).len() == s.len() - page_offset(s.len(), skip),
{
}

/// The arranged answer holds only documents from the candidates, in an
/// order where (when sorting was asked for) no document comes after its
/// right neighbour, and no more of them than the limit.
pub proof fn lemma_arranged_from_candidates(c: Seq<DocumentView>, q: Query)
    ensures
        forall|i: int| 0 <= i < arrange_results(c, q).len() ==> c.contains(#[trigger] arrange_results(c, q)[i]),
        q.limit matches Some(l) ==> arrange_results(c, q).len() <= l,
        q.sort_by matches Some((f, asc)) ==> forall|i: int|
            0 <= i < arrange_results(c, q).len() - 1 ==> spec_document_order(
                #[trigger] arrange_results(c, q)[i],
                arrange_results(c, q)[i + 1],
                f@,
                asc,
            ) != 1,
        q.limit is None && q.skip is None ==> arrange_results(c, q).to_multiset() == c.to_multiset(),
{
    broadcast use vstd::seq_lib::group_to_multiset_ensures;
    let sorted = match q.sort_by {
        Some((field, ascending)) => spec_sort_documents(c, field@, ascending),
        None => c,
    };
    match q.sort_by {
        Some((field, ascending)) => {
            lemma_sort_elements(c, field@, ascending);
            lemma_sort_adjacent(c, field@, ascending);
        },
        None => {},
    }
    lemma_page_is_run(sorted, q.skip, q.limit);
    let r = arrange_results(c, q);
    let off = page_offset(sorted.len(), q.skip);
    assert forall|i: int| 0 <= i < r.len() implies c.contains(#[trigger] r[i]) by {
        assert(r[i] == sorted[off + i]);
        assert(sorted.to_multiset().count(sorted[off + i]) > 0);
        assert(c.to_multiset().count(sorted[off + i]) > 0);
    }
    if let Some((f, asc)) = q.sort_by {
        assert forall|i: int| 0 <= i < r.len() - 1 implies spec_document_order(#[trigger] r[i], r[i + 1], f@, asc) != 1 by {
            assert(r[i] == sorted[off + i] && r[i + 1] == sorted[off + i + 1]);
        }
    }
    if q.limit is None && q.skip is None {
        assert(r =~= sorted);
    }
}

/// Every document named by `ids` that `m` holds is held under its own
/// identifier.
proof fn lemma_named_documents_held(m: Map<Seq<char>, DocumentView>, ids: Seq<Seq<char>>)
    requires
        keyed_by_id(m),
    ensures
        forall|i: int|
            0 <= i < documents_by_ids(m, ids).len() ==> m.contains_key(#[trigger] documents_by_ids(m, ids)[i].id)
                && m[documents_by_ids(m, ids)[i].id] == documents_by_ids(m, ids)[i],
    decreases ids.len(),
{
    if ids.len() > 0 {
        lemma_named_documents_held(m, ids.drop_last());
        let prev = documents_by_ids(m, ids.drop_last());
        let r = documents_by_ids(m, ids);
        assert forall|i: int| 0 <= i < r.len() implies m.contains_key(#[trigger] r[i].id) && m[r[i].id] == r[i] by {
            if i < prev.len() {
                assert(r[i] == prev[i]);
            } else {
                assert(m.contains_key(ids.last()));
            }
        }
    }
}

/// Every document in an answer is a stored document that satisfies every
/// condition of the query, whatever the indexes named; the answer is no
/// longer than the limit, and in order when sorting was asked for.
pub proof fn law_query_answer_sound(m: Map<Seq<char>, DocumentView>, q: Query, ids: Seq<Seq<char>>, r: Seq<DocumentView>)
    requires
        keyed_by_id(m),
        query_outcome(m, q, ids, r),
    ensures
        forall|i: int|
            0 <= i < r.len() ==> m.contains_key(#[trigger] r[i].id) && m[r[i].id] == r[i] && spec_matches_query(
                r[i].data,
                q.conditions@,
            ),
        q.limit matches Some(l) ==> r.len() <= l,
        q.sort_by matches Some((f, asc)) ==> forall|i: int|
            0 <= i < r.len() - 1 ==> spec_document_order(#[trigger] r[i], r[i + 1], f@, asc) != 1,
{
    let mm = matching_documents(m, q.conditions@);
    assert(keyed_by_id(mm));
    if ids.len() > 0 {
        let c = documents_by_ids(mm, ids);
        lemma_arranged_from_candidates(c, q);
        lemma_named_documents_held(mm, ids);
        assert forall|i: int| 0 <= i < r.len() implies m.contains_key(#[trigger] r[i].id) && m[r[i].id] == r[i]
            && spec_matches_query(r[i].data, q.conditions@) by {
            assert(c.contains(r[i]));
            let j = choose|j: int| 0 <= j < c.len() && c[j] == r[i];
            assert(mm.contains_key(c[j].id));
        }
    } else {
        let (c, keys) = choose|c: Seq<DocumentView>, keys: Seq<Seq<char>>|
            lists_documents(c, keys, mm) && r == arrange_results(c, q);
        lemma_arranged_from_candidates(c, q);
        assert forall|i: int| 0 <= i < r.len() implies m.contains_key(#[trigger] r[i].id) && m[r[i].id] == r[i]
            && spec_matches_query(r[i].data, q.conditions@) by {
            assert(c.contains(r[i]));
            let j = choose|j: int| 0 <= j < c.len() && c[j] == r[i];
            assert(mm.contains_key(keys[j]));
            assert(m.contains_key(keys[j]));
            assert(m[keys[j]].id == keys[j]);
        }
    }
}

/// Without paging, an answer found by scanning holds every stored document
/// that satisfies every condition, each once.
pub proof fn law_query_answer_complete(m: Map<Seq<char>, DocumentView>, q: Query, r: Seq<DocumentView>)
    requires
        keyed_by_id(m),
        query_outcome(m, q, Seq::empty(), r),
        q.limit is None,
        q.skip is None,
    ensures
        forall|k: Seq<char>|
            m.contains_key(k) && spec_matches_query(m[k].data, q.conditions@) ==> #[trigger] r.to_multiset().count(m[k])
                == 1,
{
    let (c, keys) = choose|c: Seq<DocumentView>, keys: Seq<Seq<char>>|
        lists_documents(c, keys, matching_documents(m, q.conditions@)) && r == arrange_results(c, q);
    lemma_arranged_from_candidates(c, q);
    let mm = matching_documents(m, q.conditions@);
    assert forall|k: Seq<char>| m.contains_key(k) && spec_matches_query(m[k].data, q.conditions@) implies #[trigger] r.to_multiset().count(
        m[k],
    ) == 1 by {
        assert(mm.contains_key(k));
        let j = choose|j: int| 0 <= j < keys.len() && keys[j] == k;
        assert(c[j] == m[k]);
        lemma_listed_once(c, keys, mm, j);
    }
}

/// In a listing of documents stored under their identifiers, each listed
/// document occurs once.
proof fn lemma_listed_once(c: Seq<DocumentView>, keys: Seq<Seq<char>>, m: Map<Seq<char>, DocumentView>, j: int)
    requires
        lists_documents(c, keys, m),
        keyed_by_id(m),
        0 <= j < c.len(),
    ensures
        c.to_multiset().count(c[j]) == 1,
{
    broadcast use vstd::seq_lib::group_to_multiset_ensures;
    assert forall|a: int, b: int| 0 <= a < c.len() && 0 <= b < c.len() && a != b implies c[a] != c[b] by {
        assert(m.contains_key(keys[a]) && m.contains_key(keys[b]));
        assert(keys[a] != keys[b]);
    }
    assert(c.no_duplicates());
    c.lemma_multiset_has_no_duplicates();
    assert(c.to_multiset().contains(c[j]));
}

// ---------------------------------------------------------------------------
// Numbers

/// How an integer is held as a JSON number.
pub open spec fn integer_repr(i: i64) -> NumberRepr {
    if i < 0 {
        NumberRepr::NegInt(i)
    } else {
        NumberRepr::PosInt(i as u64)
    }
}

proof fn lemma_integer_key_increasing(a: i64, b: i64)
    requires
        -two53() <= a < b <= two53(),
    ensures
        spec_number_key(integer_repr(a)) < spec_number_key(integer_repr(b)),
{
    if 0 <= a {
        lemma_double_bits_strictly_increasing(a as nat, b as nat);
    } else if 0 <= b {
        lemma_double_bits_strictly_increasing(0, (-a) as nat);
        if b > 0 {
            lemma_double_bits_strictly_increasing(0, b as nat);
        }
    } else {
        lemma_double_bits_strictly_increasing((-b) as nat, (-a) as nat);
    }
}

/// Integers of magnitude at most 2^53 compare by their value, both when
/// sorting and in the conditions of a query.
pub proof fn law_integers_compare_by_value(a: i64, b: i64)
    requires
        -two53() <= a <= two53(),
        -two53() <= b <= two53(),
    ensures
        spec_compare_values(JsonView::Number(integer_repr(a)), JsonView::Number(integer_repr(b))) == sign(a - b),
        spec_value_order(JsonView::Number(integer_repr(a)), JsonView::Number(integer_repr(b))) == Some(sign(a - b)),
{
    if a < b {
        lemma_integer_key_increasing(a, b);
    } else if b < a {
        lemma_integer_key_increasing(b, a);
    }
}

/// Listing all documents of a collection gives each stored document once:
/// as many documents as the collection holds, with distinct identifiers,
/// each equal to the document stored under its identifier.
pub proof fn law_listing_is_keyed(s: Seq<DocumentView>, c: CollectionView)
    requires
        collection_well_formed(c),
        lists_all_documents(s, c.documents),
    ensures
        s.len() == c.documents.len(),
        forall|i: int, j: int| 0 <= i < s.len() && 0 <= j < s.len() && i != j ==> #[trigger] s[i].id != #[trigger] s[j].id,
        forall|i: int| 0 <= i < s.len() ==> c.documents.contains_key(#[trigger] s[i].id) && c.documents[s[i].id] == s[i],
{
    let m = c.documents;
    let keys = choose|keys: Seq<Seq<char>>| lists_documents(s, keys, m);
    assert forall|i: int| 0 <= i < s.len() implies m.contains_key(#[trigger] s[i].id) && m[s[i].id] == s[i] by {
        assert(m.contains_key(keys[i]));
        assert(m[keys[i]].id == keys[i]);
    }
    assert forall|i: int, j: int| 0 <= i < s.len() && 0 <= j < s.len() && i != j implies #[trigger] s[i].id
        != #[trigger] s[j].id by {
        assert(m.contains_key(keys[i]) && m.contains_key(keys[j]));
        assert(keys[i] != keys[j]);
    }
    assert(keys.to_set() =~= m.dom()) by {
        assert forall|k: Seq<char>| keys.to_set().contains(k) implies m.dom().contains(k) by {
            let i = choose|i: int| 0 <= i < keys.len() && keys[i] == k;
            assert(m.contains_key(keys[i]));
        }
    }
    keys.unique_seq_to_set();
}

// ---------------------------------------------------------------------------
// Paths

/// Looking up the dotted path `p1.p2` is looking up `p1` and then, in what
/// was found there, `p2`; nothing is found where `p1` leads nowhere.
pub proof fn law_joined_path(data: JsonView, p1: Seq<char>, p2: Seq<char>)
    ensures
        spec_extract(data, p1 + seq!['.'] + p2) == match spec_extract(data, p1) {
            Some(v) => spec_extract(v, p2),
            None => None,
        },
{
    lemma_split_on_join(p1, p2, '.');
    lemma_path_value_append(data, crate::text::split_on(p1, '.'), crate::text::split_on(p2, '.'));
}

// ---------------------------------------------------------------------------
// Conditions and ordering

/// The order conditions mirror each other: `a <= b` exactly when `b >= a`,
/// and `a < b` exactly when `b > a`; a value is never both below and at or
/// above another, nor both above and at or below it.
pub proof fn law_order_conditions_mirror(a: JsonView, b: JsonView)
    ensures
        spec_condition_holds(Some(a), QueryOperator::Lte, b) == spec_condition_holds(Some(b), QueryOperator::Gte, a),
        spec_condition_holds(Some(a), QueryOperator::Lt, b) == spec_condition_holds(Some(b), QueryOperator::Gt, a),
        !(spec_condition_holds(Some(a), QueryOperator::Lt, b) && spec_condition_holds(Some(a), QueryOperator::Gte, b)),
        !(spec_condition_holds(Some(a), QueryOperator::Gt, b) && spec_condition_holds(Some(a), QueryOperator::Lte, b)),
{
    match (a, b) {
        (JsonView::Str(x), JsonView::Str(y)) => {
            lemma_text_order_antisymmetric(x, y);
        },
        _ => {},
    }
}

/// On integers of magnitude at most 2^53 the conditions compare as the
/// integers do.
pub proof fn law_integer_conditions(a: i64, b: i64)
    requires
        -two53() <= a <= two53(),
        -two53() <= b <= two53(),
    ensures
        spec_condition_holds(Some(JsonView::Number(integer_repr(a))), QueryOperator::Lt, JsonView::Number(integer_repr(b))) == (a < b),
        spec_condition_holds(Some(JsonView::Number(integer_repr(a))), QueryOperator::Lte, JsonView::Number(integer_repr(b))) == (a <= b),
        spec_condition_holds(Some(JsonView::Number(integer_repr(a))), QueryOperator::Gt, JsonView::Number(integer_repr(b))) == (a > b),
        spec_condition_holds(Some(JsonView::Number(integer_repr(a))), QueryOperator::Gte, JsonView::Number(integer_repr(b))) == (a >= b),
        spec_condition_holds(Some(JsonView::Number(integer_repr(a))), QueryOperator::Eq, JsonView::Number(integer_repr(b))) == (a == b),
        spec_condition_holds(Some(JsonView::Number(integer_repr(a))), QueryOperator::Ne, JsonView::Number(integer_repr(b))) == (a != b),
{
    law_integers_compare_by_value(a, b);
    if a != b {
        if a < 0 && b < 0 {
            assert(integer_repr(a) != integer_repr(b));
        } else if a >= 0 && b >= 0 {
            assert((a as u64) != (b as u64));
        }
    }
}

/// Doubles compare by their values, when sorting and in conditions: for
/// bit patterns `x` and `y`, the outcome is the sign of the difference of
/// the values they encode (scaled by 2^1074 to integers).  Every negative
/// double is below `+0` and `-0`, which are equal, and below every
/// positive double.
pub proof fn law_doubles_compare_by_value(x: u64, y: u64)
    ensures
        spec_compare_values(JsonView::Number(NumberRepr::Float(x)), JsonView::Number(NumberRepr::Float(y))) == sign(
            double_scaled_value(x as nat) - double_scaled_value(y as nat),
        ),
        spec_value_order(JsonView::Number(NumberRepr::Float(x)), JsonView::Number(NumberRepr::Float(y))) == Some(
            sign(double_scaled_value(x as nat) - double_scaled_value(y as nat)),
        ),
        spec_condition_holds(Some(JsonView::Number(NumberRepr::Float(x))), QueryOperator::Lt, JsonView::Number(NumberRepr::Float(y)))
            == (double_scaled_value(x as nat) < double_scaled_value(y as nat)),
        spec_condition_holds(Some(JsonView::Number(NumberRepr::Float(x))), QueryOperator::Lte, JsonView::Number(NumberRepr::Float(y)))
            == (double_scaled_value(x as nat) <= double_scaled_value(y as nat)),
{
    lemma_key_follows_value(x as nat, y as nat);
}

/// The order key of a double orders as its value does.
proof fn lemma_key_follows_value(x: nat, y: nat)
    requires
        x < 0x1_0000_0000_0000_0000,
        y < 0x1_0000_0000_0000_0000,
    ensures
        sign(double_order_key(x) - double_order_key(y)) == sign(double_scaled_value(x) - double_scaled_value(y)),
{
    let tx: nat = if x >= two63() { (x - two63()) as nat } else { x };
    let ty: nat = if y >= two63() { (y - two63()) as nat } else { y };
    lemma_magnitude_zero(tx);
    lemma_magnitude_zero(ty);
    if tx < ty {
        lemma_magnitude_strictly_increasing(tx, ty);
    } else if ty < tx {
        lemma_magnitude_strictly_increasing(ty, tx);
    }
}

// ---------------------------------------------------------------------------
// Text search

/// A text contains a needle exactly when it is the needle with some text
/// before and some text after it; in particular every text contains
/// itself, each of its prefixes and suffixes, and the empty text.
pub proof fn law_contains_is_substring(hay: Seq<char>, needle: Seq<char>)
    ensures
        seq_contains_text(hay, needle) <==> exists|a: Seq<char>, c: Seq<char>| hay == #[trigger] (a + needle + c),
        forall|a: Seq<char>, c: Seq<char>| #[trigger] seq_contains_text(a + needle + c, needle),
{
    if seq_contains_text(hay, needle) {
        let i = choose|i: int| 0 <= i <= hay.len() - needle.len() && #[trigger] hay.subrange(i, i + needle.len()) == needle;
        let a = hay.subrange(0, i);
        let c = hay.subrange(i + needle.len(), hay.len() as int);
        assert(hay =~= a + needle + c);
    }
    if exists|a: Seq<char>, c: Seq<char>| hay == #[trigger] (a + needle + c) {
        let (a, c) = choose|a: Seq<char>, c: Seq<char>| hay == #[trigger] (a + needle + c);
        assert(hay.subrange(a.len() as int, (a.len() + needle.len()) as int) =~= needle);
    }
    assert forall|a: Seq<char>, c: Seq<char>| #[trigger] seq_contains_text(a + needle + c, needle) by {
        let h = a + needle + c;
        assert(h.subrange(a.len() as int, (a.len() + needle.len()) as int) =~= needle);
    }
}

// ---------------------------------------------------------------------------
// HTTP statuses

/// A request that addresses a missing collection or a missing document is
/// answered with 404 (not found): fetching, updating or deleting a document,
/// and deleting a collection, listing its documents or querying it when
/// the collection is missing.  Creating a collection that exists is
/// answered with 409 (conflict).
pub proof fn law_not_found_is_404(e: DbError)
    ensures
        (e is CollectionNotFound || e is DocumentNotFound) ==> spec_error_status(Endpoint::GetDocument, e) == 404
            && spec_error_status(Endpoint::UpdateDocument, e) == 404 && spec_error_status(Endpoint::DeleteDocument, e)
            == 404,
        e is CollectionNotFound ==> spec_error_status(Endpoint::DeleteCollection, e) == 404 && spec_error_status(
            Endpoint::GetAllDocuments,
            e,
        ) == 404 && spec_error_status(Endpoint::QueryDocuments, e) == 404,
        e is CollectionExists ==> spec_error_status(Endpoint::CreateCollection, e) == 409,
{
}

} // verus!
