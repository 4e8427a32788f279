//! The JSON values that documents hold and that queries compare against.
//!
//! A value is null, a boolean, a number, a string, an array or an object.
//! An object is held as a list of key/value entries; when a key occurs more
//! than once the last entry wins, as when the entries are inserted one after
//! the other into a map.  The view of a value is the mathematical JSON value
//! [`JsonView`], in which objects are maps; two values are equal exactly when
//! their views are.
use vstd::prelude::*;
use vstd::string::*;
use crate::number::{double_bits_of_u64, double_bits_of_nat, double_order_key, is_finite_double, two63};

verus! {

/// How a JSON number is held: a non-negative integer, a negative integer,
/// or the bit pattern of a finite double.
#[derive(Clone, Copy, PartialEq, Eq, Structural, Debug)]
pub enum NumberRepr {
    PosInt(u64),
    NegInt(i64),
    Float(u64),
}

/// A JSON number.
#[derive(Clone, Copy, Debug)]
pub struct JsonNumber {
    repr: NumberRepr,
}

/// The number as equality sees it: a double `-0` equals `+0`.
pub open spec fn spec_number_view(r: NumberRepr) -> NumberRepr {
    match r {
        NumberRepr::Float(b) => if b == two63() {
            NumberRepr::Float(0)
        } else {
            r
        },
        _ => r,
    }
}

/// Position of the number's value as a double on the real line (see
/// [`double_order_key`]); an integer is first rounded to the nearest double.
pub open spec fn spec_number_key(r: NumberRepr) -> int {
    match r {
        NumberRepr::PosInt(u) => double_bits_of_nat(u as nat) as int,
        NumberRepr::NegInt(i) => -(double_bits_of_nat((-i) as nat) as int),
        NumberRepr::Float(b) => double_order_key(b as nat),
    }
}

impl JsonNumber {
    #[verifier::type_invariant]
    spec fn well_formed(self) -> bool {
        match self.repr {
            NumberRepr::NegInt(i) => i < 0,
            NumberRepr::Float(b) => is_finite_double(b),
            _ => true,
        }
    }

    /// How the number is held.
    pub closed spec fn repr(self) -> NumberRepr {
        self.repr
    }

    /// The number `u`.
    pub fn from_u64(u: u64) -> (r: Self)
        ensures
            r.repr() == NumberRepr::PosInt(u),
    {
        JsonNumber { repr: NumberRepr::PosInt(u) }
    }

    /// The number `i` (held as a non-negative integer when it is one).
    pub fn from_i64(i: i64) -> (r: Self)
        ensures
            r.repr() == (if i < 0 {
                NumberRepr::NegInt(i)
            } else {
                NumberRepr::PosInt(i as u64)
            }),
    {
        if i < 0 {
            JsonNumber { repr: NumberRepr::NegInt(i) }
        } else {
            JsonNumber { repr: NumberRepr::PosInt(i as u64) }
        }
    }

    /// The double with bit pattern `bits`, or `None` when it is not finite
    /// (JSON has no infinities or NaN).
    pub fn from_f64_bits(bits: u64) -> (r: Option<Self>)
        ensures
            r is Some <==> is_finite_double(bits),
            r matches Some(n) ==> n.repr() == NumberRepr::Float(bits),
    {
        if (bits % 9223372036854775808) / 4503599627370496 != 2047 {
            Some(JsonNumber { repr: NumberRepr::Float(bits) })
        } else {
            None
        }
    }

    /// How the number is held.
    pub fn kind(&self) -> (r: NumberRepr)
        ensures
            r == self.repr(),
    {
        self.repr
    }

    /// Whether the two numbers are equal JSON numbers.
    pub fn same_value(&self, other: &JsonNumber) -> (r: bool)
        ensures
            r == (spec_number_view(self.repr()) == spec_number_view(other.repr())),
    {
        match (self.repr, other.repr) {
            (NumberRepr::PosInt(a), NumberRepr::PosInt(b)) => a == b,
            (NumberRepr::NegInt(a), NumberRepr::NegInt(b)) => a == b,
            (NumberRepr::Float(a), NumberRepr::Float(b)) => {
                let a0 = if a == 9223372036854775808 { 0 } else { a };
                let b0 = if b == 9223372036854775808 { 0 } else { b };
                a0 == b0
            },
            _ => false,
        }
    }

    /// Position of the number's value as a double (see [`spec_number_key`]).
    pub fn order_key(&self) -> (k: i128)
        ensures
            k == spec_number_key(self.repr()),
    {
        proof {
            use_type_invariant(self);
        }
        match self.repr {
            NumberRepr::PosInt(u) => double_bits_of_u64(u) as i128,
            NumberRepr::NegInt(i) => {
                let m = (-(i as i128)) as u64;
                -(double_bits_of_u64(m) as i128)
            },
            NumberRepr::Float(b) => {
                if b >= 9223372036854775808 {
                    -((b - 9223372036854775808) as i128)
                } else {
                    b as i128
                }
            },
        }
    }
}

/// A JSON value.
#[derive(Debug)]
pub enum JsonValue {
    Null,
    Bool(bool),
    Number(JsonNumber),
    Str(String),
    Array(Vec<JsonValue>),
    Object(Vec<(String, JsonValue)>),
}

/// A mathematical JSON value.
pub enum JsonView {
    Null,
    Bool(bool),
    Number(NumberRepr),
    Str(Seq<char>),
    Array(Seq<JsonView>),
    Object(Map<Seq<char>, JsonView>),
}

/// The mathematical value that `v` holds.
pub open spec fn json_view(v: JsonValue) -> JsonView
    decreases v,
{
    match v {
        JsonValue::Null => JsonView::Null,
        JsonValue::Bool(b) => JsonView::Bool(b),
        JsonValue::Number(n) => JsonView::Number(spec_number_view(n.repr())),
        JsonValue::Str(s) => JsonView::Str(s@),
        JsonValue::Array(items) => JsonView::Array(json_views(items@)),
        JsonValue::Object(entries) => JsonView::Object(entries_view(entries@)),
    }
}

/// The mathematical values of a sequence of values.
pub open spec fn json_views(s: Seq<JsonValue>) -> Seq<JsonView>
    decreases s,
{
    if s.len() == 0 {
        Seq::empty()
    } else {
        json_views(s.drop_last()).push(json_view(s.last()))
    }
}

/// The map that a list of object entries stands for: the entries inserted
/// in order, a later entry replacing an earlier one with the same key.
pub open spec fn entries_view(s: Seq<(String, JsonValue)>) -> Map<Seq<char>, JsonView>
    decreases s,
{
    if s.len() == 0 {
        Map::empty()
    } else {
        entries_view(s.drop_last()).insert(s.last().0@, json_view(s.last().1))
    }
}

impl View for JsonValue {
    type V = JsonView;

    open spec fn view(&self) -> JsonView {
        json_view(*self)
    }
}


/// The views of a sequence of values, element by element.
pub proof fn lemma_json_views(s: Seq<JsonValue>)
    ensures
        json_views(s).len() == s.len(),
        forall|i: int| 0 <= i < s.len() ==> #[trigger] json_views(s)[i] == json_view(s[i]),
    decreases s.len(),
{
    if s.len() > 0 {
        lemma_json_views(s.drop_last());
    }
}

/// What the map of a list of entries holds: the keys that occur, each with
/// the value of its last entry.
pub proof fn lemma_entries_view(s: Seq<(String, JsonValue)>)
    ensures
        entries_view(s).dom().finite(),
        forall|k: Seq<char>| #[trigger] entries_view(s).contains_key(k) <==> exists|j: int|
            0 <= j < s.len() && s[j].0@ == k,
        forall|j: int|
            0 <= j < s.len() && (forall|l: int| j < l < s.len() ==> s[l].0@ != s[j].0@) ==> #[trigger] entries_view(
                s,
            )[s[j].0@] == json_view(s[j].1),
    decreases s.len(),
{
    if s.len() > 0 {
        let t = s.drop_last();
        lemma_entries_view(t);
        assert forall|k: Seq<char>| #[trigger] entries_view(s).contains_key(k) implies exists|j: int|
            0 <= j < s.len() && s[j].0@ == k by {
            if k != s.last().0@ {
                let j = choose|j: int| 0 <= j < t.len() && t[j].0@ == k;
                assert(s[j] == t[j]);
            } else {
                assert(s[s.len() - 1].0@ == k);
            }
        }
        assert forall|k: Seq<char>| (exists|j: int| 0 <= j < s.len() && s[j].0@ == k) implies #[trigger] entries_view(
            s,
        ).contains_key(k) by {
            let j = choose|j: int| 0 <= j < s.len() && s[j].0@ == k;
            if j < t.len() {
                assert(t[j] == s[j]);
            }
        }
        assert forall|j: int|
            0 <= j < s.len() && (forall|l: int| j < l < s.len() ==> s[l].0@ != s[j].0@) implies entries_view(
            s,
        )[#[trigger] s[j].0@] == json_view(s[j].1) by {
            if j < t.len() {
                assert(s[j] == t[j]);
                assert(s[s.len() - 1].0@ != s[j].0@);
                assert forall|l: int| j < l < t.len() implies t[l].0@ != t[j].0@ by {
                    assert(t[l] == s[l]);
                }
            }
        }
    }
}

/// Every key that occurs in a list of entries has a last occurrence.
pub proof fn lemma_last_occurrence(s: Seq<(String, JsonValue)>, k: Seq<char>, j: int)
    requires
        0 <= j < s.len(),
        s[j].0@ == k,
    ensures
        exists|m: int|
            j <= m < s.len() && s[m].0@ == k && (forall|l: int| m < l < s.len() ==> s[l].0@ != k),
    decreases s.len() - j,
{
    if exists|l: int| j < l < s.len() && s[l].0@ == k {
        let l = choose|l: int| j < l < s.len() && s[l].0@ == k;
        lemma_last_occurrence(s, k, l);
    } else {
        assert(forall|l: int| j < l < s.len() ==> s[l].0@ != k);
    }
}

/// Two lists of entries with the same keys and equal values, entry by
/// entry, stand for the same map.
pub proof fn lemma_entries_view_congruent(s: Seq<(String, JsonValue)>, t: Seq<(String, JsonValue)>)
    requires
        s.len() == t.len(),
        forall|i: int| 0 <= i < s.len() ==> #[trigger] s[i].0@ == t[i].0@ && json_view(s[i].1) == json_view(
            t[i].1,
        ),
    ensures
        entries_view(s) == entries_view(t),
    decreases s.len(),
{
    if s.len() > 0 {
        lemma_entries_view_congruent(s.drop_last(), t.drop_last());
        assert(s.last().0@ == t.last().0@);
    }
}

/// Looks up `key` among object entries; the last entry with that key wins.
pub fn entries_lookup<'a>(entries: &'a Vec<(String, JsonValue)>, key: &String) -> (r: Option<&'a JsonValue>)
    ensures
        r is Some <==> entries_view(entries@).contains_key(key@),
        r matches Some(v) ==> v@ == entries_view(entries@)[key@],
{
    proof {
        lemma_entries_view(entries@);
    }
    let mut i = entries.len();
    while i > 0
        invariant
            i <= entries.len(),
            forall|l: int| i <= l < entries@.len() ==> entries@[l].0@ != key@,
        decreases i,
    {
        i = i - 1;
        if entries[i].0 == *key {
            proof {
                lemma_entries_view(entries@);
            }
            return Some(&entries[i].1);
        }
    }
    proof {
        lemma_entries_view(entries@);
    }
    None
}

impl JsonValue {
    /// The value stored under `key` when this is an object holding that key.
    pub fn get(&self, key: &str) -> (r: Option<&JsonValue>)
        ensures
            r is Some <==> (self@ matches JsonView::Object(m) && m.contains_key(key@)),
            r matches Some(v) ==> (self@ matches JsonView::Object(m) && v@ == m[key@]),
    {
        match self {
            JsonValue::Object(entries) => {
                let k = String::from_str(key);
                entries_lookup(entries, &k)
            },
            _ => None,
        }
    }

    /// The text of a string value.
    pub fn as_str(&self) -> (r: Option<&String>)
        ensures
            r is Some <==> self@ is Str,
            r matches Some(s) ==> self@ == JsonView::Str(s@),
    {
        match self {
            JsonValue::Str(s) => Some(s),
            _ => None,
        }
    }

    /// The number of a number value.
    pub fn as_number(&self) -> (r: Option<&JsonNumber>)
        ensures
            r is Some <==> self@ is Number,
            r matches Some(n) ==> self@ == JsonView::Number(spec_number_view(n.repr())),
    {
        match self {
            JsonValue::Number(n) => Some(n),
            _ => None,
        }
    }

    /// The truth value of a boolean value.
    pub fn as_bool(&self) -> (r: Option<bool>)
        ensures
            r is Some <==> self@ is Bool,
            r matches Some(b) ==> self@ == JsonView::Bool(b),
    {
        match self {
            JsonValue::Bool(b) => Some(*b),
            _ => None,
        }
    }

    /// Whether this is `null`.
    pub fn is_null(&self) -> (r: bool)
        ensures
            r == (self@ is Null),
    {
        match self {
            JsonValue::Null => true,
            _ => false,
        }
    }

    /// A copy of this value.
    #[verifier::loop_isolation(false)]
    pub fn duplicate(&self) -> (r: JsonValue)
        ensures
            r@ == self@,
        decreases self,
    {
        match self {
            JsonValue::Null => JsonValue::Null,
            JsonValue::Bool(b) => JsonValue::Bool(*b),
            JsonValue::Number(n) => JsonValue::Number(*n),
            JsonValue::Str(s) => JsonValue::Str(s.clone()),
            JsonValue::Array(items) => {
                let mut out: Vec<JsonValue> = Vec::new();
                let mut i: usize = 0;
                while i < items.len()
                    invariant
                        i <= items.len(),
                        out@.len() == i,
                        forall|j: int| 0 <= j < i ==> #[trigger] json_view(out@[j]) == json_view(items@[j]),
                    decreases items.len() - i,
                {
                    proof {
                        assert(decreases_to!(*self => *items));
                        assert(decreases_to!(*items => items[i as int]));
                    }
                    let v = items[i].duplicate();
                    out.push(v);
                    i = i + 1;
                }
                proof {
                    lemma_json_views(out@);
                    lemma_json_views(items@);
                    assert(json_views(out@) =~= json_views(items@));
                }
                JsonValue::Array(out)
            },
            JsonValue::Object(entries) => {
                let mut out: Vec<(String, JsonValue)> = Vec::new();
                let mut i: usize = 0;
                while i < entries.len()
                    invariant
                        i <= entries.len(),
                        out@.len() == i,
                        forall|j: int|
                            0 <= j < i ==> #[trigger] out@[j].0@ == entries@[j].0@ && json_view(out@[j].1)
                                == json_view(entries@[j].1),
                    decreases entries.len() - i,
                {
                    let k = entries[i].0.clone();
                    proof {
                        assert(decreases_to!(*self => *entries));
                        assert(decreases_to!(*entries => entries[i as int]));
                        assert(decreases_to!(entries[i as int] => entries[i as int].1));
                    }
                    let v = entries[i].1.duplicate();
                    out.push((k, v));
                    i = i + 1;
                }
                proof {
                    assert(out@.len() == entries@.len());
                    assert forall|j: int| 0 <= j < out@.len() implies #[trigger] out@[j].0@ == entries@[j].0@
                        && json_view(out@[j].1) == json_view(entries@[j].1) by {}
                    lemma_entries_view_congruent(out@, entries@);
                }
                JsonValue::Object(out)
            },
        }
    }
}

/// Whether entry `j` is the last one with its key.
pub open spec fn is_last_entry(s: Seq<(String, JsonValue)>, j: int) -> bool {
    forall|l: int| j < l < s.len() ==> s[l].0@ != s[j].0@
}

/// Two lists of entries stand for the same map when every key's last entry
/// in the first has its key in the second map with the same value, and every
/// key of the second occurs in the first.
#[verifier::rlimit(80)]
proof fn lemma_entry_maps_equal(xs: Seq<(String, JsonValue)>, ys: Seq<(String, JsonValue)>)
    requires
        forall|j: int|
            0 <= j < xs.len() && is_last_entry(xs, j) ==> #[trigger] entries_view(ys).contains_key(
                xs[j].0@,
            ) && entries_view(xs)[xs[j].0@] == entries_view(ys)[xs[j].0@],
        forall|j: int| 0 <= j < ys.len() ==> #[trigger] entries_view(xs).contains_key(ys[j].0@),
    ensures
        entries_view(xs) == entries_view(ys),
{
    lemma_entries_view(xs);
    lemma_entries_view(ys);
    let ma = entries_view(xs);
    let mb = entries_view(ys);
    assert forall|key: Seq<char>| #[trigger] ma.dom().contains(key) == mb.dom().contains(key) && (
    ma.dom().contains(key) ==> ma[key] == mb[key]) by {
        if ma.dom().contains(key) {
            let j = choose|j: int| 0 <= j < xs.len() && xs[j].0@ == key;
            lemma_last_occurrence(xs, key, j);
            let m = choose|m: int|
                j <= m < xs.len() && xs[m].0@ == key && (forall|l: int| m < l < xs.len() ==> xs[l].0@
                    != key);
            assert(is_last_entry(xs, m));
            assert(entries_view(ys).contains_key(xs[m].0@));
        }
        if mb.dom().contains(key) {
            let j = choose|j: int| 0 <= j < ys.len() && ys[j].0@ == key;
            assert(entries_view(xs).contains_key(ys[j].0@));
        }
    }
    assert(ma.dom() =~= mb.dom());
    assert(ma =~= mb);
}

/// Whether some entry after entry `i` has the same key.
fn has_later_entry(xs: &Vec<(String, JsonValue)>, i: usize) -> (r: bool)
    requires
        i < xs.len(),
    ensures
        r == !is_last_entry(xs@, i as int),
{
    let mut l: usize = i + 1;
    while l < xs.len()
        invariant
            i < l <= xs.len(),
            forall|m: int| i < m < l ==> xs@[m].0@ != xs@[i as int].0@,
        decreases xs.len() - l,
    {
        if xs[l].0 == xs[i].0 {
            return true;
        }
        l = l + 1;
    }
    false
}

/// Whether `a` and `b` are equal JSON values (the `==` of JSON values:
/// objects are equal when they hold the same keys with equal values).
pub fn json_eq(a: &JsonValue, b: &JsonValue) -> (r: bool)
    ensures
        r == (a@ == b@),
    decreases a, 1int,
{
    match (a, b) {
        (JsonValue::Null, JsonValue::Null) => true,
        (JsonValue::Bool(x), JsonValue::Bool(y)) => *x == *y,
        (JsonValue::Number(x), JsonValue::Number(y)) => x.same_value(y),
        (JsonValue::Str(x), JsonValue::Str(y)) => *x == *y,
        (JsonValue::Array(xs), JsonValue::Array(ys)) => {
            proof {
                assert(decreases_to!(*a => *xs));
            }
            array_eq(xs, ys)
        },
        (JsonValue::Object(xs), JsonValue::Object(ys)) => {
            proof {
                assert(decreases_to!(*a => *xs));
            }
            object_eq(xs, ys)
        },
        _ => false,
    }
}

/// Whether two arrays hold equal values, position by position.
fn array_eq(xs: &Vec<JsonValue>, ys: &Vec<JsonValue>) -> (r: bool)
    ensures
        r == (json_views(xs@) == json_views(ys@)),
    decreases xs, 0int,
{
    proof {
        lemma_json_views(xs@);
        lemma_json_views(ys@);
    }
    if xs.len() != ys.len() {
        return false;
    }
    let mut i: usize = 0;
    while i < xs.len()
        invariant
            i <= xs.len(),
            xs.len() == ys.len(),
            json_views(xs@).len() == xs.len(),
            json_views(ys@).len() == ys.len(),
            forall|j: int| 0 <= j < xs.len() ==> #[trigger] json_views(xs@)[j] == json_view(xs@[j]),
            forall|j: int| 0 <= j < ys.len() ==> #[trigger] json_views(ys@)[j] == json_view(ys@[j]),
            forall|j: int| 0 <= j < i ==> json_view(#[trigger] xs@[j]) == json_view(ys@[j]),
        decreases xs.len() - i,
    {
        proof {
            assert(decreases_to!(*xs => xs[i as int]));
        }
        if !json_eq(&xs[i], &ys[i]) {
            assert(json_views(xs@)[i as int] != json_views(ys@)[i as int]);
            return false;
        }
        i = i + 1;
    }
    assert(json_views(xs@) =~= json_views(ys@));
    true
}

/// Whether two lists of object entries stand for the same map.
#[verifier::rlimit(80)]
fn object_eq(xs: &Vec<(String, JsonValue)>, ys: &Vec<(String, JsonValue)>) -> (r: bool)
    ensures
        r == (entries_view(xs@) == entries_view(ys@)),
    decreases xs, 0int,
{
    proof {
        lemma_entries_view(xs@);
        lemma_entries_view(ys@);
    }
    let ghost ma = entries_view(xs@);
    let ghost mb = entries_view(ys@);
    let mut i: usize = 0;
    while i < xs.len()
        invariant
            i <= xs.len(),
            ma == entries_view(xs@),
            mb == entries_view(ys@),
            forall|k: Seq<char>| #[trigger] ma.contains_key(k) <==> exists|j: int|
                0 <= j < xs@.len() && xs@[j].0@ == k,
            forall|j: int|
                0 <= j < xs@.len() && is_last_entry(xs@, j) ==> #[trigger] ma[xs@[j].0@] == json_view(
                    xs@[j].1,
                ),
            forall|j: int|
                0 <= j < i && is_last_entry(xs@, j) ==> #[trigger] mb.contains_key(xs@[j].0@) && ma[xs@[j].0@]
                    == mb[xs@[j].0@],
        decreases xs.len() - i,
    {
        if !has_later_entry(xs, i) {
            match entries_lookup(ys, &xs[i].0) {
                None => {
                    assert(ma.contains_key(xs@[i as int].0@));
                    return false;
                },
                Some(bv) => {
                    proof {
                        assert(decreases_to!(*xs => xs[i as int]));
                        assert(decreases_to!(xs[i as int] => xs[i as int].1));
                    }
                    if !json_eq(&xs[i].1, bv) {
                        assert(ma[xs@[i as int].0@] == json_view(xs@[i as int].1));
                        return false;
                    }
                    assert(ma[xs@[i as int].0@] == mb[xs@[i as int].0@]);
                    assert(mb.contains_key(xs@[i as int].0@));
                },
            }
        }
        assert(is_last_entry(xs@, i as int) ==> mb.contains_key(xs@[i as int].0@) && ma[xs@[i as int].0@]
            == mb[xs@[i as int].0@]);
        assert forall|j: int| 0 <= j < i + 1 && is_last_entry(xs@, j) implies #[trigger] mb.contains_key(
            xs@[j].0@,
        ) && ma[xs@[j].0@] == mb[xs@[j].0@] by {
            if j == i {
                assert(is_last_entry(xs@, i as int));
            }
        }
        i = i + 1;
    }
    let mut k: usize = 0;
    while k < ys.len()
        invariant
            k <= ys.len(),
            ma == entries_view(xs@),
            mb == entries_view(ys@),
            forall|key: Seq<char>| #[trigger] mb.contains_key(key) <==> exists|j: int|
                0 <= j < ys@.len() && ys@[j].0@ == key,
            forall|j: int| 0 <= j < k ==> #[trigger] ma.contains_key(ys@[j].0@),
        decreases ys.len() - k,
    {
        if entries_lookup(xs, &ys[k].0).is_none() {
            assert(mb.contains_key(ys@[k as int].0@));
            return false;
        }
        k = k + 1;
    }
    proof {
        lemma_entry_maps_equal(xs@, ys@);
    }
    true
}

} // verus!
