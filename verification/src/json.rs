//! JSON values as `serde_json` holds them, for the parts of a replay's metadata that are JSON.
//!
//! An object keeps its entries sorted by key, as `serde_json::Map` (a `BTreeMap<String, Value>`)
//! does, so that its entries come out in the order `serde_json` walks them.

use vstd::prelude::*;
use crate::text::{compare_keys, str_eq, KeyOrder, key_lt, lemma_key_lt_asymmetric, lemma_key_lt_irreflexive, lemma_key_lt_total, lemma_key_lt_transitive};

verus! {

/// A JSON number, with the three forms `serde_json::Number` distinguishes.
#[derive(Clone, Copy, Debug, PartialEq, Eq, Structural)]
pub enum JsonNumber {
    /// A non-negative integer.
    PosInt(u64),
    /// A negative integer (always below zero).
    NegInt(i64),
    /// A finite floating-point number, held as the bits of its IEEE 754 double.
    Float(u64),
}

impl JsonNumber {
    /// The number as a `u64`, where it is a non-negative integer.
    pub open spec fn spec_as_u64(self) -> Option<u64> {
        match self {
            JsonNumber::PosInt(n) => Some(n),
            _ => None,
        }
    }

    /// The number as an `i64`, where it is an integer in that range.
    pub open spec fn spec_as_i64(self) -> Option<i64> {
        match self {
            JsonNumber::PosInt(n) => if n <= i64::MAX {
                Some(n as i64)
            } else {
                None
            },
            JsonNumber::NegInt(n) => Some(n),
            JsonNumber::Float(_) => None,
        }
    }

    /// The form a signed integer takes.
    pub open spec fn spec_from_i64(i: i64) -> JsonNumber {
        if i < 0 {
            JsonNumber::NegInt(i)
        } else {
            JsonNumber::PosInt(i as u64)
        }
    }

    pub fn as_u64(&self) -> (r: Option<u64>)
        ensures
            r == self.spec_as_u64(),
    {
        match *self {
            JsonNumber::PosInt(n) => Some(n),
            _ => None,
        }
    }

    pub fn as_i64(&self) -> (r: Option<i64>)
        ensures
            r == self.spec_as_i64(),
    {
        match *self {
            JsonNumber::PosInt(n) => if n <= 0x7fff_ffff_ffff_ffffu64 {
                Some(n as i64)
            } else {
                None
            },
            JsonNumber::NegInt(n) => Some(n),
            JsonNumber::Float(_) => None,
        }
    }

    pub fn from_i64(i: i64) -> (r: JsonNumber)
        ensures
            r == Self::spec_from_i64(i),
    {
        if i < 0 {
            JsonNumber::NegInt(i)
        } else {
            JsonNumber::PosInt(i as u64)
        }
    }
}

/// A JSON value.
#[derive(Debug, PartialEq, Eq)]
pub enum JsonValue {
    Null,
    Bool(bool),
    Number(JsonNumber),
    String(String),
    Array(Vec<JsonValue>),
    Object(JsonMap),
}

/// A JSON object: entries with distinct keys, kept in increasing order of key.
#[derive(Debug, PartialEq, Eq)]
pub struct JsonMap {
    entries: Vec<(String, JsonValue)>,
}

/// The mathematical form of a JSON value.
pub enum JsonView {
    Null,
    Bool(bool),
    Number(JsonNumber),
    Str(Seq<char>),
    Array(Seq<JsonView>),
    Object(Seq<(Seq<char>, JsonView)>),
}

impl JsonView {
    pub open spec fn as_str(self) -> Option<Seq<char>> {
        match self {
            JsonView::Str(s) => Some(s),
            _ => None,
        }
    }

    pub open spec fn as_object(self) -> Option<Seq<(Seq<char>, JsonView)>> {
        match self {
            JsonView::Object(m) => Some(m),
            _ => None,
        }
    }

    pub open spec fn as_u64(self) -> Option<u64> {
        match self {
            JsonView::Number(n) => n.spec_as_u64(),
            _ => None,
        }
    }

    pub open spec fn as_i64(self) -> Option<i64> {
        match self {
            JsonView::Number(n) => n.spec_as_i64(),
            _ => None,
        }
    }
}

/// The mathematical form of `v`.
pub closed spec fn json_view(v: JsonValue) -> JsonView
    decreases v,
{
    match v {
        JsonValue::Null => JsonView::Null,
        JsonValue::Bool(b) => JsonView::Bool(b),
        JsonValue::Number(n) => JsonView::Number(n),
        JsonValue::String(s) => JsonView::Str(s@),
        JsonValue::Array(a) => JsonView::Array(
            Seq::new(
                a@.len(),
                |i: int|
                    if 0 <= i < a@.len() {
                        json_view(a@[i])
                    } else {
                        JsonView::Null
                    },
            ),
        ),
        JsonValue::Object(m) => JsonView::Object(
            Seq::new(
                m.entries@.len(),
                |i: int|
                    if 0 <= i < m.entries@.len() {
                        (m.entries@[i].0@, json_view(m.entries@[i].1))
                    } else {
                        (Seq::empty(), JsonView::Null)
                    },
            ),
        ),
    }
}

impl View for JsonValue {
    type V = JsonView;

    open spec fn view(&self) -> JsonView {
        json_view(*self)
    }
}

impl View for JsonMap {
    type V = Seq<(Seq<char>, JsonView)>;

    closed spec fn view(&self) -> Seq<(Seq<char>, JsonView)> {
        Seq::new(self.entries@.len(), |i: int| (self.entries@[i].0@, json_view(self.entries@[i].1)))
    }
}

/// How each kind of value looks mathematically.
pub broadcast proof fn lemma_json_view(v: JsonValue)
    ensures
        #[trigger] json_view(v) == match v {
            JsonValue::Null => JsonView::Null,
            JsonValue::Bool(b) => JsonView::Bool(b),
            JsonValue::Number(n) => JsonView::Number(n),
            JsonValue::String(s) => JsonView::Str(s@),
            JsonValue::Array(a) => JsonView::Array(a@.map_values(|x: JsonValue| json_view(x))),
            JsonValue::Object(m) => JsonView::Object(m@),
        },
{
    match v {
        JsonValue::Array(a) => {
            assert(json_view(v)->Array_0 =~= a@.map_values(|x: JsonValue| json_view(x)));
        },
        JsonValue::Object(m) => {
            assert(json_view(v)->Object_0 =~= m@);
        },
        _ => {},
    }
}

/// Whether the keys of `m` increase strictly, as in any JSON object.
pub open spec fn keys_sorted(m: Seq<(Seq<char>, JsonView)>) -> bool {
    forall|i: int, j: int| 0 <= i < j < m.len() ==> key_lt(#[trigger] m[i].0, #[trigger] m[j].0)
}

/// Whether `m` has an entry with key `k`.
pub open spec fn has_key(m: Seq<(Seq<char>, JsonView)>, k: Seq<char>) -> bool {
    exists|i: int| 0 <= i < m.len() && #[trigger] m[i].0 == k
}

/// Where the entry with key `k` stands in `m`.
pub open spec fn key_index(m: Seq<(Seq<char>, JsonView)>, k: Seq<char>) -> int {
    choose|i: int| 0 <= i < m.len() && #[trigger] m[i].0 == k
}

/// The value under key `k`.
pub open spec fn lookup(m: Seq<(Seq<char>, JsonView)>, k: Seq<char>) -> Option<JsonView> {
    if has_key(m, k) {
        Some(m[key_index(m, k)].1)
    } else {
        None
    }
}

/// `m` without its entry for `k`.
pub open spec fn remove_key(m: Seq<(Seq<char>, JsonView)>, k: Seq<char>) -> Seq<
    (Seq<char>, JsonView),
> {
    if has_key(m, k) {
        m.remove(key_index(m, k))
    } else {
        m
    }
}

/// Whether a new key `k` goes at index `p` among the sorted keys of `m`.
pub open spec fn is_insert_pos(m: Seq<(Seq<char>, JsonView)>, k: Seq<char>, p: int) -> bool {
    &&& 0 <= p <= m.len()
    &&& forall|i: int| 0 <= i < p ==> key_lt(#[trigger] m[i].0, k)
    &&& forall|i: int| p <= i < m.len() ==> key_lt(k, #[trigger] m[i].0)
}

/// Where a new key `k` goes among the sorted keys of `m`.
pub open spec fn insert_pos(m: Seq<(Seq<char>, JsonView)>, k: Seq<char>) -> int {
    choose|p: int| is_insert_pos(m, k, p)
}

/// `m` with `v` under `k`: the value replaced where `k` is a key already, else a new entry in
/// its place in the order.
pub open spec fn insert_key(m: Seq<(Seq<char>, JsonView)>, k: Seq<char>, v: JsonView) -> Seq<
    (Seq<char>, JsonView),
> {
    if has_key(m, k) {
        m.update(key_index(m, k), (k, v))
    } else {
        m.insert(insert_pos(m, k), (k, v))
    }
}

/// The entries of `m` as a map from key to value.
pub open spec fn map_of(m: Seq<(Seq<char>, JsonView)>) -> Map<Seq<char>, JsonView> {
    Map::new(|k: Seq<char>| has_key(m, k), |k: Seq<char>| m[key_index(m, k)].1)
}

/// The object whose entries are those of the map `mm`, in order of key.
pub open spec fn obj_of_map(mm: Map<Seq<char>, JsonView>) -> Seq<(Seq<char>, JsonView)> {
    choose|s: Seq<(Seq<char>, JsonView)>| keys_sorted(s) && map_of(s) == mm
}

/// In a sorted object, the entry with a key is the only one with it.
pub proof fn lemma_sorted_index(m: Seq<(Seq<char>, JsonView)>, i: int)
    requires
        keys_sorted(m),
        0 <= i < m.len(),
    ensures
        has_key(m, m[i].0),
        key_index(m, m[i].0) == i,
        lookup(m, m[i].0) == Some(m[i].1),
{
    let k = m[i].0;
    assert(has_key(m, k));
    let j = key_index(m, k);
    if j < i {
        assert(key_lt(m[j].0, m[i].0));
        lemma_key_lt_irreflexive(k);
    } else if i < j {
        assert(key_lt(m[i].0, m[j].0));
        lemma_key_lt_irreflexive(k);
    }
}

pub proof fn lemma_insert_pos(m: Seq<(Seq<char>, JsonView)>, k: Seq<char>, p: int)
    requires
        is_insert_pos(m, k, p),
    ensures
        insert_pos(m, k) == p,
{
    let q = insert_pos(m, k);
    assert(is_insert_pos(m, k, q));
    if q < p {
        assert(key_lt(m[q].0, k));
        assert(key_lt(k, m[q].0));
        lemma_key_lt_asymmetric(k, m[q].0);
    } else if p < q {
        assert(key_lt(m[p].0, k));
        assert(key_lt(k, m[p].0));
        lemma_key_lt_asymmetric(k, m[p].0);
    }
}

/// Inserting keeps the keys sorted and adds or replaces one entry of the map.
pub proof fn lemma_insert_key(m: Seq<(Seq<char>, JsonView)>, k: Seq<char>, v: JsonView)
    requires
        keys_sorted(m),
    ensures
        keys_sorted(insert_key(m, k, v)),
        map_of(insert_key(m, k, v)) == map_of(m).insert(k, v),
{
    let r = insert_key(m, k, v);
    if has_key(m, k) {
        let j = key_index(m, k);
        assert forall|a: int, b: int| 0 <= a < b < r.len() implies key_lt(
            #[trigger] r[a].0,
            #[trigger] r[b].0,
        ) by {
            assert(key_lt(m[a].0, m[b].0));
        }
        assert forall|kk: Seq<char>| #[trigger] has_key(r, kk) == (kk == k || has_key(m, kk)) by {
            if has_key(m, kk) {
                let t = key_index(m, kk);
                assert(r[t].0 == kk);
            }
            if has_key(r, kk) {
                let t = key_index(r, kk);
                assert(r[t].0 == kk);
                if t != j {
                    assert(m[t].0 == kk);
                }
            }
        }
        assert forall|kk: Seq<char>| has_key(r, kk) implies #[trigger] r[key_index(r, kk)].1 == (
        if kk == k {
            v
        } else {
            m[key_index(m, kk)].1
        }) by {
            let t = key_index(r, kk);
            assert(r[t].0 == kk);
            lemma_sorted_index(r, t);
            assert(r[j] == (k, v));
            lemma_sorted_index(r, j);
            if kk != k {
                assert(t != j);
                assert(r[t] == m[t]);
                lemma_sorted_index(m, t);
            }
        }
        assert(map_of(r) =~= map_of(m).insert(k, v));
    } else {
        lemma_insert_pos_exists(m, k);
        let p = insert_pos(m, k);
        assert(r.len() == m.len() + 1);
        assert forall|a: int, b: int| 0 <= a < b < r.len() implies key_lt(
            #[trigger] r[a].0,
            #[trigger] r[b].0,
        ) by {
            if b < p {
                assert(key_lt(m[a].0, m[b].0));
            } else if b == p {
                assert(key_lt(m[a].0, k));
            } else if a < p {
                assert(key_lt(m[a].0, k));
                assert(key_lt(k, m[b - 1].0));
                lemma_key_lt_transitive(m[a].0, k, m[b - 1].0);
            } else if a == p {
                assert(key_lt(k, m[b - 1].0));
            } else {
                assert(key_lt(m[a - 1].0, m[b - 1].0));
            }
        }
        assert forall|kk: Seq<char>| #[trigger] has_key(r, kk) == (kk == k || has_key(m, kk)) by {
            if has_key(m, kk) {
                let t = key_index(m, kk);
                if t < p {
                    assert(r[t].0 == kk);
                } else {
                    assert(r[t + 1].0 == kk);
                }
            }
            if kk == k {
                assert(r[p].0 == kk);
            }
            if has_key(r, kk) {
                let t = key_index(r, kk);
                if t < p {
                    assert(m[t].0 == kk);
                } else if t > p {
                    assert(m[t - 1].0 == kk);
                }
            }
        }
        assert forall|kk: Seq<char>| has_key(r, kk) implies #[trigger] r[key_index(r, kk)].1 == (
        if kk == k {
            v
        } else {
            m[key_index(m, kk)].1
        }) by {
            let t = key_index(r, kk);
            assert(r[t].0 == kk);
            lemma_sorted_index(r, t);
            assert(r[p] == (k, v));
            lemma_sorted_index(r, p);
            if t < p {
                assert(r[t] == m[t]);
                lemma_sorted_index(m, t);
            } else if t > p {
                assert(r[t] == m[t - 1]);
                lemma_sorted_index(m, t - 1);
            } else {
                assert(r[t] == (k, v));
            }
        }
        assert(map_of(r) =~= map_of(m).insert(k, v));
    }
}

/// A key absent from a sorted object has a place among its keys.
proof fn lemma_insert_pos_exists(m: Seq<(Seq<char>, JsonView)>, k: Seq<char>)
    requires
        keys_sorted(m),
        !has_key(m, k),
    ensures
        is_insert_pos(m, k, insert_pos(m, k)),
{
    // the place is after the last key below `k`
    let p = first_above(m, k, 0);
    lemma_first_above(m, k, 0);
    assert forall|i: int| 0 <= i < p implies key_lt(#[trigger] m[i].0, k) by {
        lemma_key_lt_total(m[i].0, k);
        assert(m[i].0 != k);
    }
    assert forall|i: int| p <= i < m.len() implies key_lt(k, #[trigger] m[i].0) by {
        if i > p {
            lemma_key_lt_transitive(k, m[p].0, m[i].0);
        }
    }
    lemma_insert_pos(m, k, p);
}

/// The first index from `from` on whose key comes after `k`, or the length.
spec fn first_above(m: Seq<(Seq<char>, JsonView)>, k: Seq<char>, from: int) -> int
    decreases m.len() - from,
{
    if from >= m.len() {
        m.len() as int
    } else if key_lt(k, m[from].0) {
        from
    } else {
        first_above(m, k, from + 1)
    }
}

proof fn lemma_first_above(m: Seq<(Seq<char>, JsonView)>, k: Seq<char>, from: int)
    requires
        0 <= from <= m.len(),
    ensures
        from <= first_above(m, k, from) <= m.len(),
        forall|i: int| from <= i < first_above(m, k, from) ==> !key_lt(k, #[trigger] m[i].0),
        first_above(m, k, from) < m.len() ==> key_lt(k, m[first_above(m, k, from)].0),
    decreases m.len() - from,
{
    if from < m.len() && !key_lt(k, m[from].0) {
        lemma_first_above(m, k, from + 1);
    }
}

/// Removing keeps the keys sorted and takes one key out of the map.
pub proof fn lemma_remove_key(m: Seq<(Seq<char>, JsonView)>, k: Seq<char>)
    requires
        keys_sorted(m),
    ensures
        keys_sorted(remove_key(m, k)),
        map_of(remove_key(m, k)) == map_of(m).remove(k),
{
    let r = remove_key(m, k);
    if has_key(m, k) {
        let j = key_index(m, k);
        assert forall|a: int, b: int| 0 <= a < b < r.len() implies key_lt(
            #[trigger] r[a].0,
            #[trigger] r[b].0,
        ) by {
            if b < j {
                assert(key_lt(m[a].0, m[b].0));
            } else if a < j {
                assert(key_lt(m[a].0, m[b + 1].0));
            } else {
                assert(key_lt(m[a + 1].0, m[b + 1].0));
            }
        }
        lemma_sorted_index(m, j);
        assert forall|kk: Seq<char>| #[trigger] has_key(r, kk) == (kk != k && has_key(m, kk)) by {
            if has_key(m, kk) && kk != k {
                let t = key_index(m, kk);
                if t < j {
                    assert(r[t].0 == kk);
                } else {
                    assert(t != j);
                    assert(r[t - 1].0 == kk);
                }
            }
            if has_key(r, kk) {
                let t = key_index(r, kk);
                if t < j {
                    assert(m[t].0 == kk);
                    lemma_sorted_index(m, t);
                } else {
                    assert(m[t + 1].0 == kk);
                    lemma_sorted_index(m, t + 1);
                }
            }
        }
        assert forall|kk: Seq<char>| has_key(r, kk) implies #[trigger] r[key_index(r, kk)].1
            == m[key_index(m, kk)].1 by {
            let t = key_index(r, kk);
            lemma_sorted_index(r, t);
            if t < j {
                lemma_sorted_index(m, t);
            } else {
                lemma_sorted_index(m, t + 1);
            }
        }
        assert(map_of(r) =~= map_of(m).remove(k));
    } else {
        assert(map_of(r) =~= map_of(m).remove(k));
    }
}

/// Two sorted objects with the same entries are the same sequence.
pub proof fn lemma_sorted_ext(a: Seq<(Seq<char>, JsonView)>, b: Seq<(Seq<char>, JsonView)>)
    requires
        keys_sorted(a),
        keys_sorted(b),
        map_of(a) == map_of(b),
    ensures
        a == b,
    decreases a.len(),
{
    if a.len() == 0 {
        if b.len() > 0 {
            assert(map_of(b).contains_key(b[0].0));
        }
        assert(a =~= b);
    } else if b.len() == 0 {
        assert(map_of(a).contains_key(a[0].0));
    } else {
        // the least keys agree
        let ka = a[0].0;
        let kb = b[0].0;
        assert(map_of(b).contains_key(ka));
        assert(map_of(a).contains_key(kb));
        let ia = key_index(b, ka);
        let ib = key_index(a, kb);
        if ka != kb {
            lemma_key_lt_total(ka, kb);
            if key_lt(ka, kb) {
                // ka is in b, after b[0]
                assert(ia != 0);
                assert(key_lt(kb, b[ia].0));
                lemma_key_lt_asymmetric(ka, kb);
            } else {
                assert(ib != 0);
                assert(key_lt(ka, a[ib].0));
                lemma_key_lt_asymmetric(ka, kb);
            }
        }
        lemma_sorted_index(a, 0);
        lemma_sorted_index(b, 0);
        assert(map_of(a)[ka] == a[0].1);
        assert(map_of(b)[kb] == b[0].1);
        assert(a[0] == b[0]);
        let a1 = a.drop_first();
        let b1 = b.drop_first();
        assert(keys_sorted(a1)) by {
            assert forall|i: int, j: int| 0 <= i < j < a1.len() implies key_lt(
                #[trigger] a1[i].0,
                #[trigger] a1[j].0,
            ) by {
                assert(key_lt(a[i + 1].0, a[j + 1].0));
            }
        }
        assert(keys_sorted(b1)) by {
            assert forall|i: int, j: int| 0 <= i < j < b1.len() implies key_lt(
                #[trigger] b1[i].0,
                #[trigger] b1[j].0,
            ) by {
                assert(key_lt(b[i + 1].0, b[j + 1].0));
            }
        }
        lemma_drop_first_map(a);
        lemma_drop_first_map(b);
        lemma_sorted_ext(a1, b1);
        lemma_cons_eq(a, b);
    }
}

proof fn lemma_cons_eq(a: Seq<(Seq<char>, JsonView)>, b: Seq<(Seq<char>, JsonView)>)
    requires
        a.len() > 0,
        b.len() > 0,
        a[0] == b[0],
        a.drop_first() == b.drop_first(),
    ensures
        a == b,
{
    assert(a.drop_first().len() == a.len() - 1);
    assert(b.drop_first().len() == b.len() - 1);
    assert(a.len() == b.len());
    assert forall|i: int| 0 <= i < a.len() implies a[i] == b[i] by {
        if i > 0 {
            assert(a[i] == a.drop_first()[i - 1]);
            assert(b[i] == b.drop_first()[i - 1]);
        }
    }
    assert(a =~= b);
}

proof fn lemma_drop_first_map(a: Seq<(Seq<char>, JsonView)>)
    requires
        keys_sorted(a),
        a.len() > 0,
    ensures
        map_of(a.drop_first()) == map_of(a).remove(a[0].0),
{
    lemma_remove_key(a, a[0].0);
    lemma_sorted_index(a, 0);
    assert(remove_key(a, a[0].0) =~= a.drop_first());
}

/// A finite map has one sorted object with its entries.
pub proof fn lemma_obj_of_map(mm: Map<Seq<char>, JsonView>)
    requires
        mm.dom().finite(),
    ensures
        keys_sorted(obj_of_map(mm)),
        map_of(obj_of_map(mm)) == mm,
    decreases mm.len(),
{
    if mm.len() == 0 {
        let e = Seq::<(Seq<char>, JsonView)>::empty();
        assert(map_of(e) =~= mm);
    } else {
        let k = mm.dom().choose();
        let rest = mm.remove(k);
        lemma_obj_of_map(rest);
        let s = obj_of_map(rest);
        lemma_insert_key(s, k, mm[k]);
        assert(map_of(insert_key(s, k, mm[k])) =~= mm);
    }
}

/// A sorted object is the object of its own map.
pub proof fn lemma_obj_of_map_of(s: Seq<(Seq<char>, JsonView)>)
    requires
        keys_sorted(s),
    ensures
        obj_of_map(map_of(s)) == s,
{
    let t = obj_of_map(map_of(s));
    assert(keys_sorted(s) && map_of(s) == map_of(s));
    lemma_sorted_ext(t, s);
}

/// A prefix of a sorted object is sorted, and grows by one entry into the next prefix.
pub proof fn lemma_map_of_push(s: Seq<(Seq<char>, JsonView)>, i: int)
    requires
        keys_sorted(s),
        0 <= i < s.len(),
    ensures
        keys_sorted(s.take(i)),
        keys_sorted(s.take(i + 1)),
        map_of(s.take(i + 1)) == map_of(s.take(i)).insert(s[i].0, s[i].1),
{
    let t = s.take(i);
    let k = s[i].0;
    assert(keys_sorted(t)) by {
        assert forall|a: int, b: int| 0 <= a < b < t.len() implies key_lt(
            #[trigger] t[a].0,
            #[trigger] t[b].0,
        ) by {
            assert(key_lt(s[a].0, s[b].0));
        }
    }
    assert(is_insert_pos(t, k, i)) by {
        assert forall|a: int| 0 <= a < i implies key_lt(#[trigger] t[a].0, k) by {
            assert(key_lt(s[a].0, s[i].0));
        }
    }
    if has_key(t, k) {
        let a = key_index(t, k);
        assert(key_lt(s[a].0, s[i].0));
        lemma_key_lt_irreflexive(k);
    }
    lemma_insert_pos(t, k, i);
    assert(insert_key(t, k, s[i].1) =~= s.take(i + 1));
    lemma_insert_key(t, k, s[i].1);
}

/// An object has finitely many keys.
pub proof fn lemma_map_of_finite(s: Seq<(Seq<char>, JsonView)>)
    ensures
        map_of(s).dom().finite(),
    decreases s.len(),
{
    if s.len() == 0 {
        assert(map_of(s).dom() =~= Set::<Seq<char>>::empty());
    } else {
        let t = s.drop_last();
        lemma_map_of_finite(t);
        let sup = map_of(t).dom().insert(s.last().0);
        assert(map_of(s).dom().subset_of(sup)) by {
            assert forall|k: Seq<char>| #[trigger] map_of(s).dom().contains(k) implies sup.contains(
                k,
            ) by {
                let i = key_index(s, k);
                if i < s.len() - 1 {
                    assert(t[i].0 == k);
                }
            }
        }
        vstd::set_lib::lemma_set_subset_finite(sup, map_of(s).dom());
    }
}

/// The value under a key is what the object's map holds there.
pub proof fn lemma_lookup_map_of(s: Seq<(Seq<char>, JsonView)>, k: Seq<char>)
    ensures
        lookup(s, k) == (if map_of(s).contains_key(k) {
            Some(map_of(s)[k])
        } else {
            None
        }),
{
}

impl JsonValue {
    /// The string this value is, if it is one.
    pub fn as_str(&self) -> (r: Option<&String>)
        ensures
            match r {
                Some(s) => self@.as_str() == Some(s@),
                None => self@.as_str() is None,
            },
    {
        match self {
            JsonValue::String(s) => Some(s),
            _ => None,
        }
    }

    /// The object this value is, if it is one.
    pub fn as_object(&self) -> (r: Option<&JsonMap>)
        ensures
            match r {
                Some(m) => self@.as_object() == Some(m@),
                None => self@.as_object() is None,
            },
    {
        match self {
            JsonValue::Object(m) => {
                proof {
                    lemma_json_view(*self);
                }
                Some(m)
            },
            _ => None,
        }
    }

    /// The value as a `u64`, where it is a non-negative integer.
    pub fn as_u64(&self) -> (r: Option<u64>)
        ensures
            r == self@.as_u64(),
    {
        match self {
            JsonValue::Number(n) => n.as_u64(),
            _ => None,
        }
    }

    /// The value as an `i64`, where it is an integer in that range.
    pub fn as_i64(&self) -> (r: Option<i64>)
        ensures
            r == self@.as_i64(),
    {
        match self {
            JsonValue::Number(n) => n.as_i64(),
            _ => None,
        }
    }

    /// A copy of the value.
    pub fn clone_value(&self) -> (r: JsonValue)
        ensures
            r@ == self@,
        decreases self,
    {
        match self {
            JsonValue::Null => JsonValue::Null,
            JsonValue::Bool(b) => JsonValue::Bool(*b),
            JsonValue::Number(n) => JsonValue::Number(*n),
            JsonValue::String(s) => JsonValue::String(s.clone()),
            JsonValue::Array(a) => {
                let mut out: Vec<JsonValue> = Vec::new();
                let mut i: usize = 0;
                while i < a.len()
                    invariant
                        *self == JsonValue::Array(*a),
                        i <= a@.len(),
                        out@.len() == i,
                        forall|j: int| 0 <= j < i ==> (#[trigger] out@[j])@ == a@[j]@,
                    decreases a@.len() - i,
                {
                    proof {
                        broadcast use vstd::std_specs::vec::group_vec_axioms;

                        assert(decreases_to!(*a => a[i as int]));
                        assert(decreases_to!(*self => (*self)->Array_0));
                        assert((*self)->Array_0 == *a);
                        assert(decreases_to!(*self => a[i as int]));
                    }
                    let c = a[i].clone_value();
                    out.push(c);
                    i = i + 1;
                }
                let r = JsonValue::Array(out);
                proof {
                    assert(json_view(r)->Array_0 =~= json_view(*self)->Array_0);
                }
                r
            },
            JsonValue::Object(m) => {
                let c = m.clone_map();
                proof {
                    lemma_json_view(*self);
                    lemma_json_view(JsonValue::Object(c));
                }
                JsonValue::Object(c)
            },
        }
    }
}

impl Clone for JsonValue {
    fn clone(&self) -> (r: Self)
        ensures
            r@ == self@,
    {
        self.clone_value()
    }
}

impl JsonMap {
    /// Entries sorted by key, hence with distinct keys.
    #[verifier::type_invariant]
    pub open spec fn well_formed(self) -> bool {
        keys_sorted(self@)
    }

    /// The empty object.
    pub fn new() -> (m: JsonMap)
        ensures
            m@ == Seq::<(Seq<char>, JsonView)>::empty(),
    {
        let m = JsonMap { entries: Vec::new() };
        assert(m@ =~= Seq::<(Seq<char>, JsonView)>::empty());
        m
    }

    /// The number of entries.
    pub fn len(&self) -> (n: usize)
        ensures
            n == self@.len(),
    {
        self.entries.len()
    }

    /// Whether the object has no entries.
    pub fn is_empty(&self) -> (b: bool)
        ensures
            b == (self@.len() == 0),
    {
        self.entries.len() == 0
    }

    /// The key of the entry at index `i`, in order of key.
    pub fn key_at(&self, i: usize) -> (k: &String)
        requires
            i < self@.len(),
        ensures
            k@ == self@[i as int].0,
    {
        &self.entries[i].0
    }

    /// The value of the entry at index `i`, in order of key.
    pub fn value_at(&self, i: usize) -> (v: &JsonValue)
        requires
            i < self@.len(),
        ensures
            v@ == self@[i as int].1,
    {
        &self.entries[i].1
    }

    /// Where the entry with key `key` stands, if there is one.
    fn find(&self, key: &str) -> (r: Option<usize>)
        ensures
            match r {
                Some(i) => i < self@.len() && has_key(self@, key@) && key_index(self@, key@)
                    == i,
                None => !has_key(self@, key@),
            },
    {
        proof {
            use_type_invariant(self);
        }
        let n = self.entries.len();
        let mut i: usize = 0;
        while i < n
            invariant
                i <= n,
                n == self@.len(),
                n == self.entries@.len(),
                keys_sorted(self@),
                forall|j: int| 0 <= j < i ==> (#[trigger] self@[j]).0 != key@,
            decreases n - i,
        {
            if str_eq(self.entries[i].0.as_str(), key) {
                proof {
                    assert(self@[i as int].0 == key@);
                    lemma_sorted_index(self@, i as int);
                }
                return Some(i);
            }
            i = i + 1;
        }
        None
    }

    /// The value under `key`, as `serde_json::Map::get` gives it.
    pub fn get(&self, key: &str) -> (r: Option<&JsonValue>)
        ensures
            match r {
                Some(v) => lookup(self@, key@) == Some(v@),
                None => lookup(self@, key@) is None,
            },
    {
        match self.find(key) {
            Some(i) => Some(&self.entries[i].1),
            None => None,
        }
    }

    /// Removes the entry with key `key`, as `serde_json::Map::remove` does, and gives back its
    /// value.
    pub fn remove(&mut self, key: &str) -> (r: Option<JsonValue>)
        ensures
            final(self)@ == remove_key(old(self)@, key@),
            match r {
                Some(v) => lookup(old(self)@, key@) == Some(v@),
                None => lookup(old(self)@, key@) is None,
            },
    {
        proof {
            use_type_invariant(&*self);
        }
        match self.find(key) {
            Some(i) => {
                let ghost old_view = self@;
                let mut e: Vec<(String, JsonValue)> = Vec::new();
                std::mem::swap(&mut e, &mut self.entries);
                let removed = e.remove(i);
                let ghost new_view = Seq::new(
                    e@.len(),
                    |j: int| (e@[j].0@, json_view(e@[j].1)),
                );
                proof {
                    assert(new_view =~= old_view.remove(i as int));
                    lemma_remove_key(old_view, key@);
                }
                self.entries = e;
                proof {
                    assert(self@ =~= new_view);
                }
                Some(removed.1)
            },
            None => None,
        }
    }

    /// Puts `value` under `key`, as `serde_json::Map::insert` does: an entry with that key has
    /// its value replaced, which is given back; else a new entry takes its place in the order.
    pub fn insert(&mut self, key: String, value: JsonValue) -> (r: Option<JsonValue>)
        ensures
            final(self)@ == insert_key(old(self)@, key@, value@),
            match r {
                Some(v) => lookup(old(self)@, key@) == Some(v@),
                None => lookup(old(self)@, key@) is None,
            },
    {
        proof {
            use_type_invariant(&*self);
        }
        let ghost old_view = self@;
        let n = self.entries.len();
        let mut i: usize = 0;
        let mut stop = false;
        let mut found = false;
        while i < n && !stop
            invariant
                i <= n,
                n == self@.len(),
                n == self.entries@.len(),
                self@ == old_view,
                keys_sorted(old_view),
                forall|j: int| 0 <= j < i ==> key_lt((#[trigger] old_view[j]).0, key@),
                stop ==> i < n,
                stop ==> (found <==> old_view[i as int].0 == key@),
                stop && !found ==> key_lt(key@, old_view[i as int].0),
                !stop ==> !found,
            decreases n - i + (if stop { 0int } else { 1int }),
        {
            let order = compare_keys(self.entries[i].0.as_str(), key.as_str());
            if order == KeyOrder::Less {
                i = i + 1;
            } else {
                stop = true;
                found = order == KeyOrder::Equal;
            }
        }
        let mut e: Vec<(String, JsonValue)> = Vec::new();
        std::mem::swap(&mut e, &mut self.entries);
        let ghost value_view = value@;
        let ghost key_view = key@;
        if found {
            proof {
                assert(old_view[i as int].0 == key_view);
                lemma_sorted_index(old_view, i as int);
            }
            let removed = e.remove(i);
            e.insert(i, (key, value));
            let ghost new_view = Seq::new(
                e@.len(),
                |j: int| (e@[j].0@, json_view(e@[j].1)),
            );
            proof {
                assert(new_view =~= old_view.update(i as int, (key_view, value_view)));
                lemma_insert_key(old_view, key_view, value_view);
            }
            self.entries = e;
            proof {
                assert(self@ =~= new_view);
            }
            Some(removed.1)
        } else {
            proof {
                assert(i < n ==> key_lt(key_view, old_view[i as int].0));
                assert forall|j: int| i <= j < n implies key_lt(
                    key_view,
                    #[trigger] old_view[j].0,
                ) by {
                    assert(key_lt(key_view, old_view[i as int].0));
                    if j > i {
                        assert(key_lt(old_view[i as int].0, old_view[j].0));
                        lemma_key_lt_transitive(key_view, old_view[i as int].0, old_view[j].0);
                    }
                }
                assert(is_insert_pos(old_view, key_view, i as int));
                lemma_insert_pos(old_view, key_view, i as int);
                if has_key(old_view, key_view) {
                    let t = key_index(old_view, key_view);
                    lemma_key_lt_irreflexive(key_view);
                    assert(old_view[t].0 == key_view);
                }
            }
            e.insert(i, (key, value));
            let ghost new_view = Seq::new(
                e@.len(),
                |j: int| (e@[j].0@, json_view(e@[j].1)),
            );
            proof {
                assert(new_view =~= old_view.insert(i as int, (key_view, value_view)));
                lemma_insert_key(old_view, key_view, value_view);
            }
            self.entries = e;
            proof {
                assert(self@ =~= new_view);
            }
            None
        }
    }

    /// A copy of the object.
    pub fn clone_map(&self) -> (r: JsonMap)
        ensures
            r@ == self@,
        decreases self,
    {
        proof {
            use_type_invariant(self);
        }
        let n = self.entries.len();
        let mut out: Vec<(String, JsonValue)> = Vec::new();
        let mut i: usize = 0;
        while i < n
            invariant
                i <= n,
                n == self.entries@.len(),
                out@.len() == i,
                forall|j: int|
                    0 <= j < i ==> (#[trigger] out@[j]).0@ == self.entries@[j].0@ && json_view(
                        out@[j].1,
                    ) == json_view(self.entries@[j].1),
            decreases n - i,
        {
            proof {
                assert(decreases_to!(*self => self.entries@[i as int].1));
            }
            let k = self.entries[i].0.clone();
            let v = self.entries[i].1.clone_value();
            out.push((k, v));
            i = i + 1;
        }
        let ghost new_view = Seq::new(out@.len(), |j: int| (out@[j].0@, json_view(out@[j].1)));
        assert(new_view =~= self@);
        JsonMap { entries: out }
    }
}

impl Default for JsonMap {
    fn default() -> (m: Self)
        ensures
            m@ == Seq::<(Seq<char>, JsonView)>::empty(),
    {
        JsonMap::new()
    }
}

impl Clone for JsonMap {
    fn clone(&self) -> (r: Self)
        ensures
            r@ == self@,
    {
        self.clone_map()
    }
}

} // verus!
