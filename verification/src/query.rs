//! Queries: conditions on the values found at dotted paths of a document,
//! the order in which results are sorted, and paging.
use vstd::prelude::*;
use crate::json::{JsonValue, JsonView, JsonNumber, json_eq, spec_number_key, spec_number_view, lemma_json_views, json_views};
use crate::document::{Document, DocumentView, document_views};
use crate::text::{split_on, split_text, string_views, text_order, compare_text, chars_of, seq_contains_text, contains_text};

verus! {

/// A query operator.
#[derive(Clone, Copy, PartialEq, Eq, Structural, Debug)]
pub enum QueryOperator {
    /// Equality.
    Eq,
    /// Inequality.
    Ne,
    /// Greater than.
    Gt,
    /// Greater than or equal.
    Gte,
    /// Less than.
    Lt,
    /// Less than or equal.
    Lte,
    /// Contains a substring (strings only).
    Contains,
    /// The field exists (whatever it holds, null included).
    Exists,
    /// Equal to one of the values of an array.
    In,
}

/// A condition on the value at a field path.
pub struct QueryCondition {
    /// Field path; nested fields are separated by dots.
    pub field: String,
    /// Operator for comparison.
    pub operator: QueryOperator,
    /// Value to compare against.
    pub value: JsonValue,
}

/// A query: conditions (all of which must hold), sorting and paging.
pub struct Query {
    /// Conditions, implicitly AND-ed together.
    pub conditions: Vec<QueryCondition>,
    /// Maximum number of results to return.
    pub limit: Option<usize>,
    /// Number of results to skip.
    pub skip: Option<usize>,
    /// Field to sort by, and whether the order is ascending.
    pub sort_by: Option<(String, bool)>,
}

/// Outcome of comparing two values.
#[derive(Clone, Copy, PartialEq, Eq, Structural, Debug)]
pub enum Order {
    Less,
    Equal,
    Greater,
}

/// The integer sign of an order.
pub open spec fn order_sign(o: Order) -> int {
    match o {
        Order::Less => -1,
        Order::Equal => 0,
        Order::Greater => 1,
    }
}

/// The sign of `x`: -1, 0 or 1.
pub open spec fn sign(x: int) -> int {
    if x < 0 {
        -1
    } else if x > 0 {
        1
    } else {
        0
    }
}

// ---------------------------------------------------------------------------
// Paths

/// The value reached from `v` by following the keys `parts` through nested
/// objects; `None` as soon as a key is missing or a value is not an object.
pub open spec fn spec_path_value(v: JsonView, parts: Seq<Seq<char>>) -> Option<JsonView>
    decreases parts.len(),
{
    if parts.len() == 0 {
        Some(v)
    } else {
        match v {
            JsonView::Object(m) => if m.contains_key(parts[0]) {
                spec_path_value(m[parts[0]], parts.drop_first())
            } else {
                None
            },
            _ => None,
        }
    }
}

/// The value at the dotted path `path` of `data` (e.g. `user.address.city`),
/// if the path leads to one.
pub open spec fn spec_extract(data: JsonView, path: Seq<char>) -> Option<JsonView> {
    spec_path_value(data, split_on(path, '.'))
}

/// Following `a` and then `b` is following `a + b`.
pub proof fn lemma_path_value_append(v: JsonView, a: Seq<Seq<char>>, b: Seq<Seq<char>>)
    ensures
        spec_path_value(v, a + b) == match spec_path_value(v, a) {
            Some(w) => spec_path_value(w, b),
            None => None,
        },
    decreases a.len(),
{
    if a.len() == 0 {
        assert(a + b =~= b);
    } else {
        assert((a + b)[0] == a[0]);
        assert((a + b).drop_first() =~= a.drop_first() + b);
        match v {
            JsonView::Object(m) => {
                if m.contains_key(a[0]) {
                    lemma_path_value_append(m[a[0]], a.drop_first(), b);
                }
            },
            _ => {},
        }
    }
}

/// The view of a found value, if any.
pub open spec fn found_view(r: Option<&JsonValue>) -> Option<JsonView> {
    match r {
        Some(v) => Some(v@),
        None => None,
    }
}

/// A found value, or null where nothing was found.
pub open spec fn or_null(v: Option<JsonView>) -> JsonView {
    match v {
        Some(x) => x,
        None => JsonView::Null,
    }
}

/// The value at the dotted path `path` of `data`; `None` when the path
/// leads nowhere (a missing key or a step into a value that is not an
/// object).
pub fn extract_value_from_path<'a>(data: &'a JsonValue, path: &str) -> (r: Option<&'a JsonValue>)
    ensures
        found_view(r) == spec_extract(data@, path@),
{
    let parts = split_text(path, '.');
    let ghost ps = string_views(parts@);
    let mut current: &JsonValue = data;
    let mut k: usize = 0;
    assert(ps.skip(0) =~= ps);
    while k < parts.len()
        invariant
            ps == string_views(parts@),
            ps == split_on(path@, '.'),
            k <= parts.len(),
            spec_path_value(data@, ps) == spec_path_value(current@, ps.skip(k as int)),
        decreases parts.len() - k,
    {
        assert(ps.skip(k as int)[0] == parts@[k as int]@);
        assert(ps.skip(k as int).drop_first() =~= ps.skip(k + 1));
        match current.get(parts[k].as_str()) {
            Some(v) => {
                current = v;
            },
            None => {
                return None;
            },
        }
        k = k + 1;
    }
    assert(ps.skip(k as int) =~= Seq::<Seq<char>>::empty());
    Some(current)
}

// ---------------------------------------------------------------------------
// Conditions

/// How two values compare as numbers (by their values as doubles) or as
/// strings; `None` when they are not both numbers or both strings.
pub open spec fn spec_value_order(a: JsonView, b: JsonView) -> Option<int> {
    match (a, b) {
        (JsonView::Number(x), JsonView::Number(y)) => Some(sign(spec_number_key(x) - spec_number_key(y))),
        (JsonView::Str(x), JsonView::Str(y)) => Some(text_order(x, y)),
        _ => None,
    }
}

/// Whether the value found in a document (`None`: the field does not exist)
/// satisfies `op` against the query value `q`.  `Exists` holds exactly when
/// the field is there, whatever it holds; every other operator sees a
/// missing field as null.
pub open spec fn spec_condition_holds(found: Option<JsonView>, op: QueryOperator, q: JsonView) -> bool {
    let doc = or_null(found);
    match op {
        QueryOperator::Eq => doc == q,
        QueryOperator::Ne => doc != q,
        QueryOperator::Gt => spec_value_order(doc, q) == Some(1int),
        QueryOperator::Gte => spec_value_order(doc, q) matches Some(c) && c >= 0,
        QueryOperator::Lt => spec_value_order(doc, q) == Some(-1int),
        QueryOperator::Lte => spec_value_order(doc, q) matches Some(c) && c <= 0,
        QueryOperator::Contains => doc matches JsonView::Str(d) && q matches JsonView::Str(t)
            && seq_contains_text(d, t),
        QueryOperator::Exists => found is Some,
        QueryOperator::In => q matches JsonView::Array(items) && items.contains(doc),
    }
}

/// The key of a number is the key of its value (a `-0` double keys as `+0`).
proof fn lemma_number_key_of_view(n: JsonNumber)
    ensures
        spec_number_key(spec_number_view(n.repr())) == spec_number_key(n.repr()),
{
}

/// How two values compare as numbers or as strings (see
/// [`spec_value_order`]).
fn value_order(a: &JsonValue, b: &JsonValue) -> (r: Option<i8>)
    ensures
        match r {
            Some(c) => spec_value_order(a@, b@) == Some(c as int),
            None => spec_value_order(a@, b@) is None,
        },
{
    match (a, b) {
        (JsonValue::Number(x), JsonValue::Number(y)) => {
            proof {
                lemma_number_key_of_view(*x);
                lemma_number_key_of_view(*y);
            }
            let kx = x.order_key();
            let ky = y.order_key();
            if kx < ky {
                Some(-1)
            } else if kx > ky {
                Some(1)
            } else {
                Some(0)
            }
        },
        (JsonValue::Str(x), JsonValue::Str(y)) => {
            let cx = chars_of(x.as_str());
            let cy = chars_of(y.as_str());
            Some(compare_text(&cx, &cy))
        },
        _ => None,
    }
}

/// Whether the value `doc_value` satisfies `operator` against
/// `query_value` (see [`spec_condition_holds`]).
pub fn matches_condition(found: Option<&JsonValue>, operator: QueryOperator, query_value: &JsonValue) -> (r: bool)
    ensures
        r == spec_condition_holds(found_view(found), operator, query_value@),
{
    if operator == QueryOperator::Exists {
        return found.is_some();
    }
    let null = JsonValue::Null;
    let doc_value: &JsonValue = match found {
        Some(v) => v,
        None => &null,
    };
    assert(doc_value@ == or_null(found_view(found)));
    match operator {
        QueryOperator::Eq => json_eq(doc_value, query_value),
        QueryOperator::Ne => !json_eq(doc_value, query_value),
        QueryOperator::Gt => match value_order(doc_value, query_value) {
            Some(c) => c == 1,
            None => false,
        },
        QueryOperator::Gte => match value_order(doc_value, query_value) {
            Some(c) => c >= 0,
            None => false,
        },
        QueryOperator::Lt => match value_order(doc_value, query_value) {
            Some(c) => c == -1,
            None => false,
        },
        QueryOperator::Lte => match value_order(doc_value, query_value) {
            Some(c) => c <= 0,
            None => false,
        },
        QueryOperator::Contains => match (doc_value, query_value) {
            (JsonValue::Str(d), JsonValue::Str(t)) => {
                let cd = chars_of(d.as_str());
                let ct = chars_of(t.as_str());
                contains_text(&cd, &ct)
            },
            _ => false,
        },
        QueryOperator::Exists => true,
        QueryOperator::In => match query_value {
            JsonValue::Array(items) => {
                proof {
                    lemma_json_views(items@);
                }
                let mut i: usize = 0;
                while i < items.len()
                    invariant
                        i <= items.len(),
                        query_value@ == JsonView::Array(json_views(items@)),
                        operator == QueryOperator::In,
                        doc_value@ == or_null(found_view(found)),
                        json_views(items@).len() == items.len(),
                        forall|j: int| 0 <= j < items.len() ==> #[trigger] json_views(items@)[j] == items@[j]@,
                        forall|j: int| 0 <= j < i ==> json_views(items@)[j] != doc_value@,
                    decreases items.len() - i,
                {
                    if json_eq(&items[i], doc_value) {
                        assert(json_views(items@)[i as int] == doc_value@);
                        assert(json_views(items@).contains(doc_value@));
                        return true;
                    }
                    i = i + 1;
                }
                false
            },
            _ => false,
        },
    }
}

/// Whether the document data satisfies every condition of the query.
pub open spec fn spec_matches_query(data: JsonView, conditions: Seq<QueryCondition>) -> bool {
    forall|i: int|
        0 <= i < conditions.len() ==> #[trigger] spec_condition_holds(
            spec_extract(data, conditions[i].field@),
            conditions[i].operator,
            conditions[i].value@,
        )
}

/// Whether `doc` satisfies every condition of `query`.
pub fn matches_query(doc: &Document, query: &Query) -> (r: bool)
    ensures
        r == spec_matches_query(doc@.data, query.conditions@),
{
    let mut i: usize = 0;
    while i < query.conditions.len()
        invariant
            i <= query.conditions.len(),
            forall|j: int|
                0 <= j < i ==> #[trigger] spec_condition_holds(
                    spec_extract(doc@.data, query.conditions@[j].field@),
                    query.conditions@[j].operator,
                    query.conditions@[j].value@,
                ),
        decreases query.conditions.len() - i,
    {
        let condition = &query.conditions[i];
        let found = extract_value_from_path(&doc.data, condition.field.as_str());
        if !matches_condition(found, condition.operator, &condition.value) {
            return false;
        }
        i = i + 1;
    }
    true
}

// ---------------------------------------------------------------------------
// Sorting

/// How two values compare when sorting: numbers by their values as
/// doubles, strings lexicographically, booleans with `false` first; values
/// of other or of different kinds compare equal.
pub open spec fn spec_compare_values(a: JsonView, b: JsonView) -> int {
    match (a, b) {
        (JsonView::Number(x), JsonView::Number(y)) => sign(spec_number_key(x) - spec_number_key(y)),
        (JsonView::Str(x), JsonView::Str(y)) => text_order(x, y),
        (JsonView::Bool(x), JsonView::Bool(y)) => if x == y {
            0
        } else if !x {
            -1
        } else {
            1
        },
        _ => 0,
    }
}

/// How two values compare when sorting (see [`spec_compare_values`]).
pub fn compare_json_values(a: &JsonValue, b: &JsonValue) -> (r: Order)
    ensures
        order_sign(r) == spec_compare_values(a@, b@),
{
    match (a, b) {
        (JsonValue::Number(x), JsonValue::Number(y)) => {
            proof {
                lemma_number_key_of_view(*x);
                lemma_number_key_of_view(*y);
            }
            let kx = x.order_key();
            let ky = y.order_key();
            if kx < ky {
                Order::Less
            } else if kx > ky {
                Order::Greater
            } else {
                Order::Equal
            }
        },
        (JsonValue::Str(x), JsonValue::Str(y)) => {
            let cx = chars_of(x.as_str());
            let cy = chars_of(y.as_str());
            let c = compare_text(&cx, &cy);
            if c < 0 {
                Order::Less
            } else if c > 0 {
                Order::Greater
            } else {
                Order::Equal
            }
        },
        (JsonValue::Bool(x), JsonValue::Bool(y)) => {
            if *x == *y {
                Order::Equal
            } else if !*x {
                Order::Less
            } else {
                Order::Greater
            }
        },
        _ => Order::Equal,
    }
}

/// The value stored directly under `key` when `v` is an object holding it.
pub open spec fn spec_field(v: JsonView, key: Seq<char>) -> Option<JsonView> {
    match v {
        JsonView::Object(m) => if m.contains_key(key) {
            Some(m[key])
        } else {
            None
        },
        _ => None,
    }
}

/// How two documents compare when sorting by the top-level field `field`:
/// by their values there (reversed when not ascending); a document holding
/// the field comes before one that does not.
pub open spec fn spec_document_order(a: DocumentView, b: DocumentView, field: Seq<char>, ascending: bool) -> int {
    match (spec_field(a.data, field), spec_field(b.data, field)) {
        (Some(x), Some(y)) => if ascending {
            spec_compare_values(x, y)
        } else {
            spec_compare_values(y, x)
        },
        (Some(_), None) => -1,
        (None, Some(_)) => 1,
        (None, None) => 0,
    }
}

/// How two documents compare when sorting (see [`spec_document_order`]).
pub fn compare_documents(a: &Document, b: &Document, field: &str, ascending: bool) -> (r: Order)
    ensures
        order_sign(r) == spec_document_order(a@, b@, field@, ascending),
{
    match (a.data.get(field), b.data.get(field)) {
        (Some(x), Some(y)) => if ascending {
            compare_json_values(x, y)
        } else {
            compare_json_values(y, x)
        },
        (Some(_), None) => Order::Less,
        (None, Some(_)) => Order::Greater,
        (None, None) => Order::Equal,
    }
}

/// `x` inserted into `t` after the last element that does not come after
/// it (the step of a stable insertion sort).
pub open spec fn spec_insert_sorted(t: Seq<DocumentView>, x: DocumentView, field: Seq<char>, ascending: bool) -> Seq<
    DocumentView,
>
    decreases t.len(),
{
    if t.len() == 0 {
        seq![x]
    } else if spec_document_order(t.last(), x, field, ascending) == 1 {
        spec_insert_sorted(t.drop_last(), x, field, ascending).push(t.last())
    } else {
        t.push(x)
    }
}

/// `s` sorted by `field` with a stable insertion sort: documents are
/// inserted one after the other, each after the last document that does not
/// come after it.
pub open spec fn spec_sort_documents(s: Seq<DocumentView>, field: Seq<char>, ascending: bool) -> Seq<DocumentView>
    decreases s.len(),
{
    if s.len() == 0 {
        s
    } else {
        spec_insert_sorted(spec_sort_documents(s.drop_last(), field, ascending), s.last(), field, ascending)
    }
}

/// Inserting at the position found by scanning from the right.
proof fn lemma_insert_sorted_at(t: Seq<DocumentView>, x: DocumentView, field: Seq<char>, ascending: bool, j: int)
    requires
        0 <= j <= t.len(),
        forall|l: int| j <= l < t.len() ==> spec_document_order(#[trigger] t[l], x, field, ascending) == 1,
        j == 0 || spec_document_order(t[j - 1], x, field, ascending) != 1,
    ensures
        spec_insert_sorted(t, x, field, ascending) == t.take(j).push(x) + t.skip(j),
    decreases t.len(),
{
    if t.len() == 0 {
        assert(t.take(j).push(x) + t.skip(j) =~= seq![x]);
    } else if j == t.len() {
        assert(t.take(j).push(x) + t.skip(j) =~= t.push(x));
    } else {
        let u = t.drop_last();
        assert forall|l: int| j <= l < u.len() implies spec_document_order(#[trigger] u[l], x, field, ascending) == 1 by {
            assert(u[l] == t[l]);
        }
        if j > 0 {
            assert(u[j - 1] == t[j - 1]);
        }
        lemma_insert_sorted_at(u, x, field, ascending, j);
        assert(spec_document_order(t.last(), x, field, ascending) == 1);
        assert((u.take(j).push(x) + u.skip(j)).push(t.last()) =~= t.take(j).push(x) + t.skip(j));
    }
}

/// Inserts `d` into `out` as [`spec_insert_sorted`] does.
fn insert_sorted(out: &mut Vec<Document>, d: Document, field: &str, ascending: bool)
    ensures
        document_views(final(out)@) == spec_insert_sorted(document_views(old(out)@), d@, field@, ascending),
{
    let ghost t = document_views(out@);
    let mut j = out.len();
    while j > 0 && compare_documents(&out[j - 1], &d, field, ascending) == Order::Greater
        invariant
            j <= out.len(),
            t == document_views(out@),
            forall|l: int| j <= l < t.len() ==> spec_document_order(#[trigger] t[l], d@, field@, ascending) == 1,
        decreases j,
    {
        assert(t[j - 1] == out@[j - 1]@);
        j = j - 1;
    }
    proof {
        if j > 0 {
            assert(t[j - 1] == out@[j - 1]@);
        }
        lemma_insert_sorted_at(t, d@, field@, ascending, j as int);
    }
    out.insert(j, d);
    assert(document_views(out@) =~= t.take(j as int).push(d@) + t.skip(j as int));
}

/// `docs` sorted by the top-level field `field` (see
/// [`spec_sort_documents`]).
pub fn sort_documents(docs: Vec<Document>, field: &str, ascending: bool) -> (r: Vec<Document>)
    ensures
        document_views(r@) == spec_sort_documents(document_views(docs@), field@, ascending),
{
    let ghost all = document_views(docs@);
    let n = docs.len();
    assert(all.len() == n);
    let mut rest = docs;
    let mut out: Vec<Document> = Vec::new();
    let mut i: usize = 0;
    assert(all.take(0) =~= Seq::<DocumentView>::empty());
    while rest.len() > 0
        invariant
            i + rest.len() == all.len(),
            all.len() <= usize::MAX,
            document_views(rest@) == all.skip(i as int),
            document_views(out@) == spec_sort_documents(all.take(i as int), field@, ascending),
        decreases rest.len(),
    {
        let ghost before = rest@;
        assert(document_views(before)[0] == before[0]@);
        assert(all.skip(i as int)[0] == all[i as int]);
        let d = rest.remove(0);
        assert(d@ == all[i as int]);
        assert(all.take(i + 1).drop_last() =~= all.take(i as int));
        assert(all.take(i + 1).last() == all[i as int]);
        insert_sorted(&mut out, d, field, ascending);
        i = i + 1;
        assert(document_views(rest@) =~= document_views(before).drop_first());
        assert(document_views(rest@) =~= all.skip(i as int));
    }
    assert(all.take(i as int) =~= all);
    out
}

// ---------------------------------------------------------------------------
// Paging

/// What is left of `s` after skipping `skip` elements and keeping at most
/// `limit`.
pub open spec fn spec_page<T>(s: Seq<T>, skip: Option<usize>, limit: Option<usize>) -> Seq<T> {
    let after_skip = match skip {
        Some(k) => if k < s.len() {
            s.skip(k as int)
        } else {
            Seq::empty()
        },
        None => s,
    };
    match limit {
        Some(l) => if l < after_skip.len() {
            after_skip.take(l as int)
        } else {
            after_skip
        },
        None => after_skip,
    }
}

/// Applies `skip` and then `limit` to `docs` (see [`spec_page`]).
pub fn page_documents(docs: Vec<Document>, skip: Option<usize>, limit: Option<usize>) -> (r: Vec<Document>)
    ensures
        document_views(r@) == spec_page(document_views(docs@), skip, limit),
{
    let ghost all = document_views(docs@);
    let mut results = docs;
    match skip {
        Some(k) => {
            if k < results.len() {
                results = results.split_off(k);
                assert(document_views(results@) =~= all.skip(k as int));
            } else {
                results = Vec::new();
                assert(document_views(results@) =~= Seq::<DocumentView>::empty());
            }
        },
        None => {},
    }
    let ghost after_skip = document_views(results@);
    match limit {
        Some(l) => {
            if l < results.len() {
                results.truncate(l);
                assert(document_views(results@) =~= after_skip.take(l as int));
            }
        },
        None => {},
    }
    results
}

} // verus!
