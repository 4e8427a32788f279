//! Planning of a collection's per-field indexes: which top-level fields of
//! a document are indexed, which conditions of a query an index can answer
//! and how, and how the answers combine.  The full-text indexes themselves
//! are run by the application.
use vstd::prelude::*;
use vstd::string::*;
use crate::text::{path_join, spec_path_join, split_on, split_text, string_views, text_order, compare_text, chars_of, lemma_text_order_antisymmetric, lemma_text_order_transitive, lemma_split_on_nonempty};
use crate::json::{JsonValue, JsonView, JsonNumber, entries_view, lemma_entries_view, spec_number_view};
use crate::document::Document;
use crate::query::{Query, QueryCondition, QueryOperator};
use crate::errors::IndexError;

verus! {

/// Plans the indexes of one collection.
pub struct IndexManager {
    /// Name of the collection.
    pub collection_name: String,
    /// Directory for persistent indexes; in memory when `None`.
    pub data_dir: Option<String>,
}

impl IndexManager {
    /// Index planning for the collection `collection_name`, indexes kept in
    /// memory.
    pub fn new(collection_name: String) -> (r: Self)
        ensures
            r.collection_name@ == collection_name@,
            r.data_dir is None,
    {
        IndexManager { collection_name, data_dir: None }
    }

    /// Index planning for the collection `collection_name`, indexes kept
    /// under `data_dir`.
    pub fn with_data_dir(collection_name: String, data_dir: String) -> (r: Self)
        ensures
            r.collection_name@ == collection_name@,
            r.data_dir matches Some(d) && d@ == data_dir@,
    {
        IndexManager { collection_name, data_dir: Some(data_dir) }
    }

    /// Directory of this collection's field indexes: the data directory
    /// joined with the collection's name; `None` for indexes in memory.
    pub fn index_dir(&self) -> (r: Option<String>)
        ensures
            match self.data_dir {
                None => r is None,
                Some(d) => r matches Some(p) && p@ == spec_path_join(d@, self.collection_name@),
            },
    {
        match &self.data_dir {
            None => None,
            Some(d) => Some(path_join(d.as_str(), self.collection_name.as_str())),
        }
    }

    /// The top-level fields of `document` that get an index entry: the keys
    /// of its data when that is an object, each once, in ascending order;
    /// none otherwise.
    pub fn fields_to_index(&self, document: &Document) -> (r: Vec<String>)
        ensures
            match document.data@ {
                JsonView::Object(m) => string_views(r@).to_set() == m.dom() && is_ascending(string_views(r@)),
                _ => r@.len() == 0,
            },
    {
        match &document.data {
            JsonValue::Object(entries) => sorted_keys(entries),
            _ => Vec::new(),
        }
    }

    /// The searches that the indexes can run for `query`, given the fields
    /// that have an index: one for each condition (in order) whose path
    /// starts with such a field, on that field.
    pub fn plan_query(&self, query: &Query, indexed_fields: &Vec<String>) -> (r: Vec<PlannedSearch>)
        ensures
            planned_views(r@) == spec_plan(query.conditions@, string_views(indexed_fields@).to_set(), 0),
    {
        let mut out: Vec<PlannedSearch> = Vec::new();
        let mut i: usize = 0;
        let ghost conds = query.conditions@;
        let ghost fields = string_views(indexed_fields@).to_set();
        while i < query.conditions.len()
            invariant
                i <= query.conditions.len(),
                conds == query.conditions@,
                fields == string_views(indexed_fields@).to_set(),
                spec_plan(conds, fields, 0) == planned_views(out@) + spec_plan(conds, fields, i as int),
            decreases query.conditions.len() - i,
        {
            let top = top_level_field(query.conditions[i].field.as_str());
            let ghost rest = spec_plan(conds, fields, i + 1);
            if contains_string(indexed_fields, &top) {
                let ghost before = planned_views(out@);
                out.push(PlannedSearch { condition: i, field: top });
                assert(planned_views(out@) =~= before.push((i as int, split_on(conds[i as int].field@, '.')[0])));
                assert(spec_plan(conds, fields, i as int) == seq![(i as int, split_on(conds[i as int].field@, '.')[0])] + rest);
                assert(planned_views(out@) + rest =~= before + spec_plan(conds, fields, i as int));
            }
            i = i + 1;
        }
        assert(planned_views(out@) + spec_plan(conds, fields, i as int) =~= planned_views(out@));
        out
    }

    /// Combines what the searches found: the identifiers found by every
    /// search that found any (each once), or none when no search found
    /// anything.
    pub fn combine_results(&self, result_sets: Vec<Vec<String>>) -> (r: Vec<String>)
        ensures
            string_views(r@).no_duplicates(),
            string_views(r@).to_set() == spec_combined(result_sets@.map_values(|s: Vec<String>| string_views(s@).to_set())),
    {
        let ghost sets = result_sets@.map_values(|s: Vec<String>| string_views(s@).to_set());
        let mut found: Option<Vec<String>> = None;
        let mut i: usize = 0;
        while i < result_sets.len()
            invariant
                i <= result_sets.len(),
                sets == result_sets@.map_values(|s: Vec<String>| string_views(s@).to_set()),
                match found {
                    None => spec_combine_from(sets.take(i as int)) is None,
                    Some(f) => string_views(f@).no_duplicates() && spec_combine_from(sets.take(i as int)) == Some(
                        string_views(f@).to_set(),
                    ),
                },
            decreases result_sets.len() - i,
        {
            assert(sets.take(i + 1).drop_last() =~= sets.take(i as int));
            assert(sets.take(i + 1).last() == sets[i as int]);
            assert(sets[i as int] == string_views(result_sets@[i as int]@).to_set());
            let set = &result_sets[i];
            if set.len() > 0 {
                assert(string_views(set@).to_set().contains(set@[0]@)) by {
                    assert(string_views(set@)[0] == set@[0]@);
                }
                found = match found {
                    None => Some(dedup_strings(set)),
                    Some(f) => Some(intersect_strings(&f, set)),
                };
            } else {
                assert(string_views(set@).to_set() =~= Set::<Seq<char>>::empty());
            }
            i = i + 1;
        }
        assert(sets.take(i as int) =~= sets);
        match found {
            None => Vec::new(),
            Some(f) => f,
        }
    }
}

/// A search the indexes can run: for the condition at position `condition`
/// of a query, on the index of the top-level field `field`.
pub struct PlannedSearch {
    pub condition: usize,
    pub field: String,
}

/// The position and field of each planned search.
pub open spec fn planned_views(s: Seq<PlannedSearch>) -> Seq<(int, Seq<char>)> {
    s.map_values(|p: PlannedSearch| (p.condition as int, p.field@))
}

/// The searches for the conditions from position `i` on whose path starts
/// with a field in `fields`.
pub open spec fn spec_plan(conds: Seq<QueryCondition>, fields: Set<Seq<char>>, i: int) -> Seq<(int, Seq<char>)>
    decreases conds.len() - i,
{
    if i < 0 || i >= conds.len() {
        Seq::empty()
    } else {
        let top = split_on(conds[i].field@, '.')[0];
        if fields.contains(top) {
            seq![(i, top)] + spec_plan(conds, fields, i + 1)
        } else {
            spec_plan(conds, fields, i + 1)
        }
    }
}

/// The identifiers in every non-empty set, or `None` when all sets are
/// empty.
pub open spec fn spec_combine_from(sets: Seq<Set<Seq<char>>>) -> Option<Set<Seq<char>>>
    decreases sets.len(),
{
    if sets.len() == 0 {
        None
    } else {
        let prev = spec_combine_from(sets.drop_last());
        let last = sets.last();
        if last == Set::<Seq<char>>::empty() {
            prev
        } else {
            match prev {
                None => Some(last),
                Some(p) => Some(p.intersect(last)),
            }
        }
    }
}

/// The identifiers in every non-empty set; none when all sets are empty.
pub open spec fn spec_combined(sets: Seq<Set<Seq<char>>>) -> Set<Seq<char>> {
    match spec_combine_from(sets) {
        None => Set::empty(),
        Some(s) => s,
    }
}

/// Whether the texts are in strictly ascending order.
pub open spec fn is_ascending(s: Seq<Seq<char>>) -> bool {
    forall|i: int, j: int| 0 <= i < j < s.len() ==> text_order(#[trigger] s[i], #[trigger] s[j]) == -1
}

/// The part of a dotted path before its first dot.
pub fn top_level_field(path: &str) -> (r: String)
    ensures
        r@ == split_on(path@, '.')[0],
{
    proof {
        lemma_split_on_nonempty(path@, '.');
    }
    let parts = split_text(path, '.');
    assert(string_views(parts@)[0] == parts@[0]@);
    parts[0].clone()
}

/// Whether `s` occurs in `v`.
fn contains_string(v: &Vec<String>, s: &String) -> (r: bool)
    ensures
        r == string_views(v@).to_set().contains(s@),
{
    let mut i: usize = 0;
    while i < v.len()
        invariant
            i <= v.len(),
            forall|j: int| 0 <= j < i ==> v@[j]@ != s@,
        decreases v.len() - i,
    {
        if v[i] == *s {
            assert(string_views(v@)[i as int] == s@);
            return true;
        }
        i = i + 1;
    }
    proof {
        if string_views(v@).to_set().contains(s@) {
            let j = choose|j: int| 0 <= j < string_views(v@).len() && string_views(v@)[j] == s@;
            assert(v@[j]@ == s@);
        }
    }
    false
}

/// The distinct strings of `v`.
fn dedup_strings(v: &Vec<String>) -> (r: Vec<String>)
    ensures
        string_views(r@).no_duplicates(),
        string_views(r@).to_set() == string_views(v@).to_set(),
{
    let mut out: Vec<String> = Vec::new();
    let mut i: usize = 0;
    while i < v.len()
        invariant
            i <= v.len(),
            string_views(out@).no_duplicates(),
            forall|x: Seq<char>| #[trigger] string_views(out@).contains(x) <==> exists|j: int| 0 <= j < i && v@[j]@ == x,
        decreases v.len() - i,
    {
        let ghost before = string_views(out@);
        if !contains_string(&out, &v[i]) {
            out.push(v[i].clone());
            assert(string_views(out@) =~= before.push(v@[i as int]@));
        }
        proof {
            assert forall|x: Seq<char>| #[trigger] string_views(out@).contains(x) <==> exists|j: int|
                0 <= j < i + 1 && v@[j]@ == x by {
                if x == v@[i as int]@ {
                    if !before.contains(x) {
                        assert(string_views(out@)[before.len() as int] == x);
                    }
                } else {
                    if string_views(out@).contains(x) {
                        let k = choose|k: int| 0 <= k < string_views(out@).len() && string_views(out@)[k] == x;
                        if k < before.len() {
                            assert(before[k] == x);
                        }
                    }
                    if before.contains(x) {
                        let k = choose|k: int| 0 <= k < before.len() && before[k] == x;
                        assert(string_views(out@)[k] == x);
                    }
                    if exists|j: int| 0 <= j < i + 1 && v@[j]@ == x {
                        let j = choose|j: int| 0 <= j < i + 1 && v@[j]@ == x;
                        assert(j < i);
                    }
                }
            }
        }
        i = i + 1;
    }
    proof {
        assert forall|x: Seq<char>| string_views(out@).to_set().contains(x) <==> string_views(v@).to_set().contains(x) by {
            if string_views(v@).contains(x) {
                let j = choose|j: int| 0 <= j < string_views(v@).len() && string_views(v@)[j] == x;
                assert(v@[j]@ == x);
            }
            if exists|j: int| 0 <= j < i && v@[j]@ == x {
                let j = choose|j: int| 0 <= j < i && v@[j]@ == x;
                assert(string_views(v@)[j] == x);
            }
        }
        assert(string_views(out@).to_set() =~= string_views(v@).to_set());
    }
    out
}

/// The distinct strings of `a` that also occur in `b`, in their order in
/// `a`.
fn intersect_strings(a: &Vec<String>, b: &Vec<String>) -> (r: Vec<String>)
    requires
        string_views(a@).no_duplicates(),
    ensures
        string_views(r@).no_duplicates(),
        string_views(r@).to_set() == string_views(a@).to_set().intersect(string_views(b@).to_set()),
{
    let mut out: Vec<String> = Vec::new();
    let mut i: usize = 0;
    let ghost bs = string_views(b@).to_set();
    while i < a.len()
        invariant
            i <= a.len(),
            bs == string_views(b@).to_set(),
            string_views(a@).no_duplicates(),
            string_views(out@).no_duplicates(),
            forall|x: Seq<char>| #[trigger] string_views(out@).contains(x) <==> (exists|j: int|
                0 <= j < i && a@[j]@ == x) && bs.contains(x),
        decreases a.len() - i,
    {
        let ghost before = string_views(out@);
        let keep = contains_string(b, &a[i]);
        if keep {
            proof {
                if before.contains(a@[i as int]@) {
                    let j = choose|j: int| 0 <= j < i && a@[j]@ == a@[i as int]@;
                    assert(string_views(a@)[j] == string_views(a@)[i as int]);
                }
            }
            out.push(a[i].clone());
            assert(string_views(out@) =~= before.push(a@[i as int]@));
        }
        proof {
            assert forall|x: Seq<char>| #[trigger] string_views(out@).contains(x) <==> (exists|j: int|
                0 <= j < i + 1 && a@[j]@ == x) && bs.contains(x) by {
                if string_views(out@).contains(x) {
                    let k = choose|k: int| 0 <= k < string_views(out@).len() && string_views(out@)[k] == x;
                    if k < before.len() {
                        assert(before[k] == x);
                    }
                }
                if before.contains(x) {
                    let k = choose|k: int| 0 <= k < before.len() && before[k] == x;
                    assert(string_views(out@)[k] == x);
                }
                if x == a@[i as int]@ && keep {
                    assert(string_views(out@)[before.len() as int] == x);
                }
                if exists|j: int| 0 <= j < i + 1 && a@[j]@ == x {
                    let j = choose|j: int| 0 <= j < i + 1 && a@[j]@ == x;
                    if j == i {
                        assert(x == a@[i as int]@);
                    }
                }
            }
        }
        i = i + 1;
    }
    proof {
        assert forall|x: Seq<char>| string_views(out@).to_set().contains(x) <==> string_views(a@).to_set().intersect(bs).contains(x) by {
            if string_views(a@).contains(x) {
                let j = choose|j: int| 0 <= j < string_views(a@).len() && string_views(a@)[j] == x;
                assert(a@[j]@ == x);
            }
            if exists|j: int| 0 <= j < i && a@[j]@ == x {
                let j = choose|j: int| 0 <= j < i && a@[j]@ == x;
                assert(string_views(a@)[j] == x);
            }
        }
        assert(string_views(out@).to_set() =~= string_views(a@).to_set().intersect(bs));
    }
    out
}

/// The distinct keys of object entries, in ascending order.
fn sorted_keys(entries: &Vec<(String, JsonValue)>) -> (r: Vec<String>)
    ensures
        string_views(r@).to_set() == entries_view(entries@).dom(),
        is_ascending(string_views(r@)),
{
    proof {
        lemma_entries_view(entries@);
    }
    let mut out: Vec<String> = Vec::new();
    let mut i: usize = 0;
    while i < entries.len()
        invariant
            i <= entries.len(),
            is_ascending(string_views(out@)),
            forall|k: Seq<char>| #[trigger] string_views(out@).contains(k) <==> exists|j: int| 0 <= j < i && entries@[j].0@ == k,
        decreases entries.len() - i,
    {
        insert_key_sorted(&mut out, &entries[i].0);
        proof {
            assert forall|k: Seq<char>| #[trigger] string_views(out@).contains(k) <==> exists|j: int|
                0 <= j < i + 1 && entries@[j].0@ == k by {
                if k == entries@[i as int].0@ {
                    assert(entries@[i as int].0@ == k);
                } else {
                    if exists|j: int| 0 <= j < i + 1 && entries@[j].0@ == k {
                        let j = choose|j: int| 0 <= j < i + 1 && entries@[j].0@ == k;
                        assert(j < i);
                    }
                }
            }
        }
        i = i + 1;
    }
    proof {
        assert forall|k: Seq<char>| string_views(out@).to_set().contains(k) <==> entries_view(entries@).dom().contains(k) by {
            if string_views(out@).contains(k) {
                let j = choose|j: int| 0 <= j < i && entries@[j].0@ == k;
                assert(entries_view(entries@).contains_key(entries@[j].0@));
            }
            if entries_view(entries@).contains_key(k) {
                let j = choose|j: int| 0 <= j < entries@.len() && entries@[j].0@ == k;
                assert(exists|j: int| 0 <= j < i && entries@[j].0@ == k);
            }
        }
        assert(string_views(out@).to_set() =~= entries_view(entries@).dom());
    }
    out
}

/// Inserts `key` into the ascending list `out` unless it is there already.
fn insert_key_sorted(out: &mut Vec<String>, key: &String)
    requires
        is_ascending(string_views(old(out)@)),
    ensures
        is_ascending(string_views(final(out)@)),
        forall|k: Seq<char>| #[trigger] string_views(final(out)@).contains(k) <==> (string_views(old(out)@).contains(k)
            || k == key@),
{
    let kc = chars_of(key.as_str());
    let ghost s = string_views(out@);
    let mut p: usize = 0;
    let mut found = false;
    let mut stop = false;
    while p < out.len() && !stop
        invariant
            p <= out.len(),
            kc@ == key@,
            s == string_views(out@),
            is_ascending(s),
            forall|j: int| 0 <= j < p ==> text_order(#[trigger] s[j], key@) == -1,
            found ==> stop && p < out.len() && s[p as int] == key@,
            stop && !found ==> p < out.len() && text_order(s[p as int], key@) == 1,
        decreases out.len() - p, (if stop { 0int } else { 1int }),
    {
        let oc = chars_of(out[p].as_str());
        let c = compare_text(&oc, &kc);
        assert(s[p as int] == out@[p as int]@);
        proof {
            lemma_text_order_antisymmetric(s[p as int], key@);
        }
        assert(c as int == text_order(s[p as int], key@));
        if c == 0 {
            found = true;
            stop = true;
            assert(s[p as int] == key@);
        } else if c > 0 {
            stop = true;
            assert(text_order(s[p as int], key@) == 1);
        } else {
            assert(text_order(s[p as int], key@) == -1);
            p = p + 1;
        }
    }
    if found {
        assert(s[p as int] == key@);
        assert forall|k: Seq<char>| #[trigger] string_views(out@).contains(k) <==> (s.contains(k) || k == key@) by {
            if k == key@ {
                assert(s[p as int] == k);
            }
        }
        return;
    }
    out.insert(p, key.clone());
    proof {
        let t = string_views(out@);
        assert(t =~= s.take(p as int).push(key@) + s.skip(p as int));
        if stop {
            lemma_text_order_antisymmetric(s[p as int], key@);
        }
        assert forall|a: int, b: int| 0 <= a < b < t.len() implies text_order(#[trigger] t[a], #[trigger] t[b]) == -1 by {
            if b < p {
                assert(t[a] == s[a] && t[b] == s[b]);
            } else if b == p {
                assert(t[a] == s[a] && t[b] == key@);
            } else if a < p {
                assert(t[a] == s[a] && t[b] == s[b - 1]);
            } else if a == p {
                assert(t[a] == key@ && t[b] == s[b - 1]);
                assert(text_order(key@, s[p as int]) == -1);
                if b - 1 > p {
                    assert(text_order(s[p as int], s[b - 1]) == -1);
                    lemma_text_order_transitive(key@, s[p as int], s[b - 1]);
                }
            } else {
                assert(t[a] == s[a - 1] && t[b] == s[b - 1]);
            }
        }
        assert forall|k: Seq<char>| #[trigger] t.contains(k) <==> (s.contains(k) || k == key@) by {
            if t.contains(k) {
                let j = choose|j: int| 0 <= j < t.len() && t[j] == k;
                if j < p {
                    assert(s[j] == k);
                } else if j > p {
                    assert(s[j - 1] == k);
                }
            }
            if s.contains(k) {
                let j = choose|j: int| 0 <= j < s.len() && s[j] == k;
                if j < p {
                    assert(t[j] == k);
                } else {
                    assert(t[j + 1] == k);
                }
            }
            if k == key@ {
                assert(t[p as int] == k);
            }
        }
    }
}

/// The key under which a value is looked up in an exact-match index: a
/// string itself, a boolean's text (`true` or `false`), or a number (whose
/// key is the text of its value as a double); other values have none.
pub enum ExactKey {
    Text(String),
    Number(JsonNumber),
    NoKey,
}

/// What an index does for a condition: an exact-match lookup for `Eq`, a
/// text search for `Contains` with a string, nothing otherwise.
pub enum IndexLookup {
    Exact(ExactKey),
    Text(String),
    Nothing,
}

/// Whether `k` is the exact-match key of the value `v`.
pub open spec fn is_exact_key(k: ExactKey, v: JsonView) -> bool {
    match v {
        JsonView::Str(s) => k matches ExactKey::Text(t) && t@ == s,
        JsonView::Bool(b) => k matches ExactKey::Text(t) && t@ == (if b {
            "true"@
        } else {
            "false"@
        }),
        JsonView::Number(r) => k matches ExactKey::Number(n) && spec_number_view(n.repr()) == r,
        _ => k is NoKey,
    }
}

/// Whether `l` is what an index does for `op` against the value `v`.
pub open spec fn is_lookup_for(l: IndexLookup, op: QueryOperator, v: JsonView) -> bool {
    match op {
        QueryOperator::Eq => l matches IndexLookup::Exact(k) && is_exact_key(k, v),
        QueryOperator::Contains => match v {
            JsonView::Str(s) => l matches IndexLookup::Text(t) && t@ == s,
            _ => l is Nothing,
        },
        _ => l is Nothing,
    }
}

/// The exact-match key of `value` (see [`is_exact_key`]).
pub fn exact_key(value: &JsonValue) -> (r: ExactKey)
    ensures
        is_exact_key(r, value@),
{
    match value {
        JsonValue::Str(s) => ExactKey::Text(s.clone()),
        JsonValue::Bool(b) => {
            proof {
                reveal_strlit("true");
                reveal_strlit("false");
            }
            if *b {
                ExactKey::Text(String::from_str("true"))
            } else {
                ExactKey::Text(String::from_str("false"))
            }
        },
        JsonValue::Number(n) => ExactKey::Number(*n),
        _ => ExactKey::NoKey,
    }
}

/// What an index does for the condition `operator` against `value` (see
/// [`is_lookup_for`]).
pub fn lookup_for(operator: QueryOperator, value: &JsonValue) -> (r: IndexLookup)
    ensures
        is_lookup_for(r, operator, value@),
{
    match operator {
        QueryOperator::Eq => IndexLookup::Exact(exact_key(value)),
        QueryOperator::Contains => match value {
            JsonValue::Str(s) => IndexLookup::Text(s.clone()),
            _ => IndexLookup::Nothing,
        },
        _ => IndexLookup::Nothing,
    }
}

/// What a field index answers for a condition, given the lookup the
/// condition gets (see [`lookup_for`]) and what the outside index work
/// found: `exact`, the identifiers the exact-match index holds under the
/// key (if it holds the key); `text`, the outcome of the text search (if one
/// ran).  No lookup, or an exact lookup of a value without a key, finds
/// nothing; an exact lookup finds what the exact-match index holds under the
/// key, and nothing when it holds no entry there, and never fails; a text
/// lookup answers what the text search answered.
pub open spec fn spec_search_answer(
    lookup: IndexLookup,
    exact: Option<Vec<String>>,
    text: Option<Result<Vec<String>, IndexError>>,
) -> Result<Seq<Seq<char>>, IndexError> {
    match lookup {
        IndexLookup::Nothing => Ok(Seq::empty()),
        IndexLookup::Exact(ExactKey::NoKey) => Ok(Seq::empty()),
        IndexLookup::Exact(_) => match exact {
            Some(ids) => Ok(string_views(ids@)),
            None => Ok(Seq::empty()),
        },
        IndexLookup::Text(_) => match text {
            Some(Ok(ids)) => Ok(string_views(ids@)),
            Some(Err(e)) => Err(e),
            None => Ok(Seq::empty()),
        },
    }
}

/// The answer of a field index search (see [`spec_search_answer`]).
pub fn search_answer(
    lookup: &IndexLookup,
    exact: Option<Vec<String>>,
    text: Option<Result<Vec<String>, IndexError>>,
) -> (r: Result<Vec<String>, IndexError>)
    ensures
        match (r, spec_search_answer(*lookup, exact, text)) {
            (Ok(v), Ok(s)) => string_views(v@) == s,
            (Err(e), Err(f)) => e == f,
            _ => false,
        },
{
    match lookup {
        IndexLookup::Nothing => Ok(Vec::new()),
        IndexLookup::Exact(ExactKey::NoKey) => Ok(Vec::new()),
        IndexLookup::Exact(_) => match exact {
            Some(ids) => Ok(ids),
            None => Ok(Vec::new()),
        },
        IndexLookup::Text(_) => match text {
            Some(answer) => answer,
            None => Ok(Vec::new()),
        },
    }
}

} // verus!
