//! The JSON document model that the configuration, token-claim and usage logic reads and
//! writes, with its mathematical view and the object operations (lookup, insert, remove).
use vstd::prelude::*;
use crate::text::{owned, same_text};

verus! {

/// A JSON number as the JSON reader represents it: an unsigned integer, a negative integer,
/// or a floating-point number carried by its IEEE-754 bit pattern.
#[derive(Clone, Copy, Debug, PartialEq, Eq, Structural)]
pub enum Number {
    PosInt(u64),
    NegInt(i64),
    Float(u64),
}

/// A JSON document. Objects keep their members in order; a key names the first member
/// that carries it.
#[derive(Debug, PartialEq)]
pub enum Json {
    Null,
    Bool(bool),
    Number(Number),
    Str(String),
    Array(Vec<Json>),
    Object(Vec<(String, Json)>),
}

/// The mathematical value of a [`Json`] document.
#[verifier::ext_equal]
pub enum JsonV {
    Null,
    Bool(bool),
    Number(Number),
    Str(Seq<char>),
    Array(Seq<JsonV>),
    Object(Seq<(Seq<char>, JsonV)>),
}

impl View for Json {
    type V = JsonV;

    open spec fn view(&self) -> JsonV
        decreases self,
    {
        match self {
            Json::Null => JsonV::Null,
            Json::Bool(b) => JsonV::Bool(*b),
            Json::Number(n) => JsonV::Number(*n),
            Json::Str(s) => JsonV::Str(s@),
            Json::Array(v) => JsonV::Array(
                Seq::new(
                    v@.len(),
                    |i: int|
                        if 0 <= i < v@.len() {
                            v@[i].view()
                        } else {
                            JsonV::Null
                        },
                ),
            ),
            Json::Object(v) => JsonV::Object(
                Seq::new(
                    v@.len(),
                    |i: int|
                        if 0 <= i < v@.len() {
                            (v@[i].0@, v@[i].1.view())
                        } else {
                            (Seq::empty(), JsonV::Null)
                        },
                ),
            ),
        }
    }
}

/// The members of an object, as a sequence of (key, value) pairs.
pub open spec fn entries_view(v: Vec<(String, Json)>) -> Seq<(Seq<char>, JsonV)> {
    match Json::Object(v)@ {
        JsonV::Object(e) => e,
        _ => Seq::empty(),
    }
}

/// The elements of an array.
pub open spec fn items_view(v: Vec<Json>) -> Seq<JsonV> {
    match Json::Array(v)@ {
        JsonV::Array(e) => e,
        _ => Seq::empty(),
    }
}

/// The view of an object document is its members' views, position by position.
pub proof fn lemma_entries_view(v: Vec<(String, Json)>)
    ensures
        Json::Object(v)@ == JsonV::Object(entries_view(v)),
        entries_view(v).len() == v@.len(),
        forall|i: int|
            0 <= i < v@.len() ==> #[trigger] entries_view(v)[i] == (v@[i].0@, v@[i].1@),
{
    reveal_with_fuel(<Json as View>::view, 2);
}

/// The view of an array document is its elements' views, position by position.
pub proof fn lemma_items_view(v: Vec<Json>)
    ensures
        Json::Array(v)@ == JsonV::Array(items_view(v)),
        items_view(v).len() == v@.len(),
        forall|i: int| 0 <= i < v@.len() ==> #[trigger] items_view(v)[i] == v@[i]@,
{
    reveal_with_fuel(<Json as View>::view, 2);
}

/// Position of the first member whose key is `k`, or -1.
pub open spec fn key_index(s: Seq<(Seq<char>, JsonV)>, k: Seq<char>) -> int
    decreases s.len(),
{
    if s.len() == 0 {
        -1
    } else if s[0].0 == k {
        0
    } else {
        let r = key_index(s.drop_first(), k);
        if r < 0 {
            -1
        } else {
            r + 1
        }
    }
}

/// The value of the first member whose key is `k`.
pub open spec fn lookup(s: Seq<(Seq<char>, JsonV)>, k: Seq<char>) -> Option<JsonV> {
    let i = key_index(s, k);
    if i >= 0 {
        Some(s[i].1)
    } else {
        None
    }
}

/// Sets the member `k` to `v`: the first member with key `k` takes the value in place, or
/// the member is appended.
pub open spec fn insert_entry(s: Seq<(Seq<char>, JsonV)>, k: Seq<char>, v: JsonV) -> Seq<
    (Seq<char>, JsonV),
> {
    let i = key_index(s, k);
    if i >= 0 {
        s.update(i, (k, v))
    } else {
        s.push((k, v))
    }
}

/// The members whose key is not `k`, in order.
pub open spec fn remove_key(s: Seq<(Seq<char>, JsonV)>, k: Seq<char>) -> Seq<(Seq<char>, JsonV)>
    decreases s.len(),
{
    if s.len() == 0 {
        s
    } else {
        let rest = remove_key(s.drop_first(), k);
        if s[0].0 == k {
            rest
        } else {
            seq![s[0]] + rest
        }
    }
}

/// Whether some member carries the key `k`.
pub open spec fn has_key(s: Seq<(Seq<char>, JsonV)>, k: Seq<char>) -> bool {
    exists|j: int| 0 <= j < s.len() && #[trigger] s[j].0 == k
}

/// `key_index` finds the first member with the key, and -1 exactly when there is none.
pub proof fn lemma_key_index(s: Seq<(Seq<char>, JsonV)>, k: Seq<char>)
    ensures
        -1 <= key_index(s, k) < s.len(),
        key_index(s, k) == -1 <==> !has_key(s, k),
        key_index(s, k) >= 0 ==> s[key_index(s, k)].0 == k,
        forall|j: int| 0 <= j < key_index(s, k) ==> #[trigger] s[j].0 != k,
    decreases s.len(),
{
    if s.len() > 0 {
        lemma_key_index(s.drop_first(), k);
        if s[0].0 != k {
            if has_key(s, k) {
                let j = choose|j: int| 0 <= j < s.len() && #[trigger] s[j].0 == k;
                assert(s.drop_first()[j - 1].0 == k);
            }
            if has_key(s.drop_first(), k) {
                let j = choose|j: int| 0 <= j < s.len() - 1 && #[trigger] s.drop_first()[j].0 == k;
                assert(s[j + 1].0 == k);
            }
            assert forall|j: int| 0 <= j < key_index(s, k) implies #[trigger] s[j].0 != k by {
                if j > 0 {
                    assert(s[j] == s.drop_first()[j - 1]);
                }
            }
        }
    } else {
        assert(!has_key(s, k));
    }
}

/// A position holding the key, with no earlier position holding it, is `key_index`.
pub proof fn lemma_key_index_at(s: Seq<(Seq<char>, JsonV)>, k: Seq<char>, r: int)
    requires
        0 <= r < s.len(),
        s[r].0 == k,
        forall|j: int| 0 <= j < r ==> #[trigger] s[j].0 != k,
    ensures
        key_index(s, k) == r,
{
    lemma_key_index(s, k);
    assert(has_key(s, k));
}

/// Two member lists with the same keys at every position find every key at the same place.
pub proof fn lemma_key_index_same_keys(
    s: Seq<(Seq<char>, JsonV)>,
    t: Seq<(Seq<char>, JsonV)>,
    k: Seq<char>,
)
    requires
        s.len() == t.len(),
        forall|j: int| 0 <= j < s.len() ==> #[trigger] s[j].0 == t[j].0,
    ensures
        key_index(s, k) == key_index(t, k),
{
    lemma_key_index(s, k);
    lemma_key_index(t, k);
    if key_index(s, k) >= 0 {
        assert forall|j: int| 0 <= j < key_index(s, k) implies #[trigger] t[j].0 != k by {
            assert(s[j].0 != k);
        }
        lemma_key_index_at(t, k, key_index(s, k));
    } else if key_index(t, k) >= 0 {
        assert forall|j: int| 0 <= j < key_index(t, k) implies #[trigger] s[j].0 != k by {
            assert(t[j].0 != k);
        }
        lemma_key_index_at(s, k, key_index(t, k));
    }
}

/// Where a key is found after a member is appended.
pub proof fn lemma_key_index_push(
    s: Seq<(Seq<char>, JsonV)>,
    e: (Seq<char>, JsonV),
    k: Seq<char>,
)
    ensures
        key_index(s.push(e), k) == if key_index(s, k) >= 0 {
            key_index(s, k)
        } else if e.0 == k {
            s.len() as int
        } else {
            -1
        },
{
    lemma_key_index(s, k);
    lemma_key_index(s.push(e), k);
    if key_index(s, k) >= 0 {
        lemma_key_index_at(s.push(e), k, key_index(s, k));
    } else if e.0 == k {
        lemma_key_index_at(s.push(e), k, s.len() as int);
    } else {
        if has_key(s.push(e), k) {
            let j = choose|j: int| 0 <= j < s.len() + 1 && #[trigger] s.push(e)[j].0 == k;
            assert(s[j].0 == k);
        }
    }
}

/// After setting `k`, looking up `k` gives the new value.
pub proof fn lemma_lookup_insert_same(s: Seq<(Seq<char>, JsonV)>, k: Seq<char>, v: JsonV)
    ensures
        lookup(insert_entry(s, k, v), k) == Some(v),
        key_index(insert_entry(s, k, v), k) >= 0,
{
    lemma_key_index(s, k);
    let i = key_index(s, k);
    if i >= 0 {
        lemma_key_index_same_keys(s, s.update(i, (k, v)), k);
    } else {
        lemma_key_index_push(s, (k, v), k);
    }
}

/// Setting `k` leaves every other key where it was, with the value it had.
pub proof fn lemma_lookup_insert_other(
    s: Seq<(Seq<char>, JsonV)>,
    k: Seq<char>,
    v: JsonV,
    k2: Seq<char>,
)
    requires
        k2 != k,
    ensures
        lookup(insert_entry(s, k, v), k2) == lookup(s, k2),
        key_index(insert_entry(s, k, v), k2) == key_index(s, k2),
{
    lemma_key_index(s, k);
    lemma_key_index(s, k2);
    let i = key_index(s, k);
    if i >= 0 {
        lemma_key_index_same_keys(s, s.update(i, (k, v)), k2);
    } else {
        lemma_key_index_push(s, (k, v), k2);
    }
}

/// Setting the same key twice is setting it once, to the second value.
pub proof fn lemma_insert_insert(s: Seq<(Seq<char>, JsonV)>, k: Seq<char>, v: JsonV, w: JsonV)
    ensures
        insert_entry(insert_entry(s, k, v), k, w) == insert_entry(s, k, w),
{
    lemma_key_index(s, k);
    let i = key_index(s, k);
    if i >= 0 {
        lemma_key_index_same_keys(s, s.update(i, (k, v)), k);
        assert(s.update(i, (k, v)).update(i, (k, w)) =~= s.update(i, (k, w)));
    } else {
        lemma_key_index_push(s, (k, v), k);
        assert(s.push((k, v)).update(s.len() as int, (k, w)) =~= s.push((k, w)));
    }
}

/// Setting a key to the value it already has changes nothing.
pub proof fn lemma_insert_present(s: Seq<(Seq<char>, JsonV)>, k: Seq<char>, v: JsonV)
    requires
        lookup(s, k) == Some(v),
    ensures
        insert_entry(s, k, v) == s,
{
    lemma_key_index(s, k);
    let i = key_index(s, k);
    assert(s.update(i, (k, v)) =~= s);
}

/// Where a key is found in a member list that starts with `e`.
pub proof fn lemma_key_index_cons(
    e: (Seq<char>, JsonV),
    t: Seq<(Seq<char>, JsonV)>,
    k: Seq<char>,
)
    ensures
        key_index(seq![e] + t, k) == if e.0 == k {
            0
        } else if key_index(t, k) < 0 {
            -1
        } else {
            key_index(t, k) + 1
        },
{
    assert((seq![e] + t).drop_first() =~= t);
}

/// Setting a key in a member list that starts with `e`.
pub proof fn lemma_insert_cons(
    e: (Seq<char>, JsonV),
    t: Seq<(Seq<char>, JsonV)>,
    k: Seq<char>,
    v: JsonV,
)
    ensures
        insert_entry(seq![e] + t, k, v) == if e.0 == k {
            seq![(k, v)] + t
        } else {
            seq![e] + insert_entry(t, k, v)
        },
{
    lemma_key_index_cons(e, t, k);
    lemma_key_index(t, k);
    if e.0 == k {
        assert((seq![e] + t).update(0, (k, v)) =~= seq![(k, v)] + t);
    } else if key_index(t, k) < 0 {
        assert((seq![e] + t).push((k, v)) =~= seq![e] + t.push((k, v)));
    } else {
        let i = key_index(t, k);
        assert((seq![e] + t).update(i + 1, (k, v)) =~= seq![e] + t.update(i, (k, v)));
    }
}

/// Removing a key from a member list that starts with `e`.
pub proof fn lemma_remove_cons(e: (Seq<char>, JsonV), t: Seq<(Seq<char>, JsonV)>, k: Seq<char>)
    ensures
        remove_key(seq![e] + t, k) == if e.0 == k {
            remove_key(t, k)
        } else {
            seq![e] + remove_key(t, k)
        },
{
    assert((seq![e] + t).drop_first() =~= t);
}

/// A non-empty member list is its first member followed by the rest.
pub proof fn lemma_split_first(s: Seq<(Seq<char>, JsonV)>)
    requires
        s.len() > 0,
    ensures
        s == seq![s[0]] + s.drop_first(),
{
    assert(s =~= seq![s[0]] + s.drop_first());
}

/// After removing `k`, no member carries `k`.
pub proof fn lemma_remove_absent(s: Seq<(Seq<char>, JsonV)>, k: Seq<char>)
    ensures
        key_index(remove_key(s, k), k) == -1,
        lookup(remove_key(s, k), k) == None::<JsonV>,
    decreases s.len(),
{
    if s.len() > 0 {
        lemma_remove_absent(s.drop_first(), k);
        if s[0].0 != k {
            lemma_key_index_cons(s[0], remove_key(s.drop_first(), k), k);
        }
    }
}

/// Removing `k` keeps every other key with the value it had.
pub proof fn lemma_lookup_remove_other(s: Seq<(Seq<char>, JsonV)>, k: Seq<char>, k2: Seq<char>)
    requires
        k2 != k,
    ensures
        lookup(remove_key(s, k), k2) == lookup(s, k2),
    decreases s.len(),
{
    if s.len() > 0 {
        lemma_lookup_remove_other(s.drop_first(), k, k2);
        lemma_split_first(s);
        lemma_key_index_cons(s[0], s.drop_first(), k2);
        lemma_key_index(s.drop_first(), k2);
        lemma_key_index(remove_key(s.drop_first(), k), k2);
        if s[0].0 != k {
            lemma_key_index_cons(s[0], remove_key(s.drop_first(), k), k2);
        }
    }
}

/// Removing a key that no member carries changes nothing.
pub proof fn lemma_remove_missing(s: Seq<(Seq<char>, JsonV)>, k: Seq<char>)
    requires
        key_index(s, k) == -1,
    ensures
        remove_key(s, k) == s,
    decreases s.len(),
{
    if s.len() > 0 {
        lemma_split_first(s);
        lemma_key_index_cons(s[0], s.drop_first(), k);
        lemma_remove_missing(s.drop_first(), k);
    }
}

/// Removing a key undoes setting it.
pub proof fn lemma_remove_insert(s: Seq<(Seq<char>, JsonV)>, k: Seq<char>, v: JsonV)
    ensures
        remove_key(insert_entry(s, k, v), k) == remove_key(s, k),
    decreases s.len(),
{
    if s.len() == 0 {
        assert(insert_entry(s, k, v) =~= seq![(k, v)] + s);
        lemma_remove_cons((k, v), s, k);
    } else {
        lemma_split_first(s);
        lemma_insert_cons(s[0], s.drop_first(), k, v);
        if s[0].0 == k {
            lemma_remove_cons((k, v), s.drop_first(), k);
        } else {
            lemma_remove_insert(s.drop_first(), k, v);
            lemma_remove_cons(s[0], insert_entry(s.drop_first(), k, v), k);
        }
        lemma_remove_cons(s[0], s.drop_first(), k);
    }
}

/// Setting one key and removing another commute.
pub proof fn lemma_remove_insert_other(
    s: Seq<(Seq<char>, JsonV)>,
    k1: Seq<char>,
    v: JsonV,
    k2: Seq<char>,
)
    requires
        k1 != k2,
    ensures
        remove_key(insert_entry(s, k1, v), k2) == insert_entry(remove_key(s, k2), k1, v),
    decreases s.len(),
{
    if s.len() == 0 {
        assert(insert_entry(s, k1, v) =~= seq![(k1, v)] + s);
        lemma_remove_cons((k1, v), s, k2);
        assert(remove_key(s, k2) == s);
    } else {
        lemma_split_first(s);
        let e = s[0];
        let t = s.drop_first();
        lemma_insert_cons(e, t, k1, v);
        lemma_remove_cons(e, t, k2);
        if e.0 == k1 {
            lemma_remove_cons((k1, v), t, k2);
            lemma_insert_cons(e, remove_key(t, k2), k1, v);
        } else {
            lemma_remove_insert_other(t, k1, v, k2);
            lemma_remove_cons(e, insert_entry(t, k1, v), k2);
            if e.0 != k2 {
                lemma_insert_cons(e, remove_key(t, k2), k1, v);
            }
        }
    }
}

/// Removing a key twice is removing it once.
pub proof fn lemma_remove_remove(s: Seq<(Seq<char>, JsonV)>, k: Seq<char>)
    ensures
        remove_key(remove_key(s, k), k) == remove_key(s, k),
{
    lemma_remove_absent(s, k);
    lemma_remove_missing(remove_key(s, k), k);
}


impl Json {
    /// A deep copy of the document.
    #[verifier::loop_isolation(false)]
    pub fn duplicate(&self) -> (r: Json)
        ensures
            r@ == self@,
        decreases self,
    {
        match self {
            Json::Null => Json::Null,
            Json::Bool(b) => Json::Bool(*b),
            Json::Number(n) => Json::Number(*n),
            Json::Str(s) => Json::Str(s.clone()),
            Json::Array(v) => {
                let mut out: Vec<Json> = Vec::new();
                let mut i: usize = 0;
                while i < v.len()
                    invariant
                        i <= v@.len(),
                        out@.len() == i,
                        forall|k: int| 0 <= k < i ==> #[trigger] out@[k]@ == v@[k]@,
                    decreases v@.len() - i,
                {
                    proof {
                        vstd::std_specs::vec::axiom_vec_index_decreases(*v, i as int);
                    }
                    out.push(v[i].duplicate());
                    i += 1;
                }
                proof {
                    lemma_items_view(out);
                    lemma_items_view(*v);
                    assert(items_view(out) =~= items_view(*v));
                }
                Json::Array(out)
            },
            Json::Object(v) => {
                let mut out: Vec<(String, Json)> = Vec::new();
                let mut i: usize = 0;
                while i < v.len()
                    invariant
                        i <= v@.len(),
                        out@.len() == i,
                        forall|k: int|
                            0 <= k < i ==> #[trigger] out@[k].0@ == v@[k].0@ && out@[k].1@
                                == v@[k].1@,
                    decreases v@.len() - i,
                {
                    proof {
                        vstd::std_specs::vec::axiom_vec_index_decreases(*v, i as int);
                        assert(decreases_to!(v@[i as int] => v@[i as int].1));
                    }
                    let key = v[i].0.clone();
                    let val = v[i].1.duplicate();
                    out.push((key, val));
                    i += 1;
                }
                proof {
                    lemma_entries_view(out);
                    lemma_entries_view(*v);
                    assert(entries_view(out) =~= entries_view(*v));
                }
                Json::Object(out)
            },
        }
    }
}

/// Position of the first member of `entries` whose key is `key`.
pub fn find_key(entries: &Vec<(String, Json)>, key: &str) -> (r: Option<usize>)
    ensures
        match r {
            Some(i) => i < entries@.len() && i == key_index(entries_view(*entries), key@),
            None => key_index(entries_view(*entries), key@) == -1,
        },
{
    proof {
        lemma_entries_view(*entries);
        lemma_key_index(entries_view(*entries), key@);
    }
    let mut i: usize = 0;
    while i < entries.len()
        invariant
            i <= entries@.len(),
            entries_view(*entries).len() == entries@.len(),
            forall|j: int|
                0 <= j < entries@.len() ==> #[trigger] entries_view(*entries)[j] == (
                    entries@[j].0@,
                    entries@[j].1@,
                ),
            forall|j: int| 0 <= j < i ==> #[trigger] entries_view(*entries)[j].0 != key@,
        decreases entries@.len() - i,
    {
        if same_text(entries[i].0.as_str(), key) {
            proof {
                lemma_key_index_at(entries_view(*entries), key@, i as int);
            }
            return Some(i);
        }
        i += 1;
    }
    proof {
        if has_key(entries_view(*entries), key@) {
            let j = choose|j: int|
                0 <= j < entries_view(*entries).len() && #[trigger] entries_view(*entries)[j].0
                    == key@;
            assert(entries_view(*entries)[j].0 != key@);
        }
    }
    None
}

/// The value of the member `key`, if the object has one.
pub fn get_member<'a>(entries: &'a Vec<(String, Json)>, key: &str) -> (r: Option<&'a Json>)
    ensures
        match r {
            Some(j) => lookup(entries_view(*entries), key@) == Some(j@),
            None => lookup(entries_view(*entries), key@) == None::<JsonV>,
        },
{
    proof {
        lemma_entries_view(*entries);
    }
    match find_key(entries, key) {
        Some(i) => Some(&entries[i].1),
        None => None,
    }
}

/// Sets the member `key` of an object to `value`.
pub fn set_member(entries: &mut Vec<(String, Json)>, key: &str, value: Json)
    ensures
        entries_view(*final(entries)) == insert_entry(entries_view(*old(entries)), key@, value@),
{
    proof {
        lemma_entries_view(*entries);
    }
    let ghost ev = entries_view(*entries);
    let ghost vv = value@;
    let k = owned(key);
    match find_key(entries, key) {
        Some(i) => {
            entries.set(i, (k, value));
            proof {
                lemma_entries_view(*entries);
                assert(entries_view(*entries) =~= ev.update(i as int, (key@, vv)));
            }
        },
        None => {
            entries.push((k, value));
            proof {
                lemma_entries_view(*entries);
                assert(entries_view(*entries) =~= ev.push((key@, vv)));
            }
        },
    }
}

/// Removes every member `key` from an object.
pub fn remove_member(entries: &mut Vec<(String, Json)>, key: &str)
    ensures
        entries_view(*final(entries)) == remove_key(entries_view(*old(entries)), key@),
{
    let ghost ev = entries_view(*entries);
    let mut src: Vec<(String, Json)> = Vec::new();
    std::mem::swap(&mut src, entries);
    let mut out: Vec<(String, Json)> = Vec::new();
    proof {
        lemma_entries_view(out);
        assert(entries_view(out) =~= Seq::empty());
        assert(ev == entries_view(src));
        assert(remove_key(ev, key@) =~= entries_view(out) + remove_key(entries_view(src), key@));
    }
    while src.len() > 0
        invariant
            remove_key(ev, key@) == entries_view(out) + remove_key(entries_view(src), key@),
        decreases src@.len(),
    {
        let ghost before = entries_view(src);
        let ghost out_before = entries_view(out);
        proof {
            lemma_entries_view(src);
            lemma_entries_view(out);
        }
        let e = src.remove(0);
        let ghost ev_e = (e.0@, e.1@);
        proof {
            lemma_entries_view(src);
            assert(entries_view(src) =~= before.drop_first());
            assert(before[0] == ev_e);
        }
        if !same_text(e.0.as_str(), key) {
            out.push(e);
            proof {
                lemma_entries_view(out);
                assert(entries_view(out) =~= out_before.push(ev_e));
                assert(remove_key(before, key@) == seq![ev_e] + remove_key(before.drop_first(), key@));
                assert(out_before + (seq![ev_e] + remove_key(before.drop_first(), key@)) =~=
                    out_before.push(ev_e) + remove_key(before.drop_first(), key@));
            }
        }
    }
    proof {
        lemma_entries_view(src);
        assert(entries_view(src) =~= Seq::empty());
        assert(entries_view(out) + remove_key(entries_view(src), key@) =~= entries_view(out));
    }
    *entries = out;
}


/// The member `k` of `v` when `v` is an object that has one.
pub open spec fn member(v: JsonV, k: Seq<char>) -> Option<JsonV> {
    match v {
        JsonV::Object(e) => lookup(e, k),
        _ => None,
    }
}

/// The element at position `i` of `v` when `v` is an array that long.
pub open spec fn element(v: JsonV, i: int) -> Option<JsonV> {
    match v {
        JsonV::Array(a) => if 0 <= i < a.len() {
            Some(a[i])
        } else {
            None
        },
        _ => None,
    }
}

/// The text of `v` when it is a string.
pub open spec fn text_of(v: Option<JsonV>) -> Option<Seq<char>> {
    match v {
        Some(JsonV::Str(s)) => Some(s),
        _ => None,
    }
}

/// The member `k` of `v` (`Value::get` with a key).
pub fn member_of<'a>(v: &'a Json, k: &str) -> (r: Option<&'a Json>)
    ensures
        match r {
            Some(j) => member(v@, k@) == Some(j@),
            None => member(v@, k@) is None,
        },
{
    match v {
        Json::Object(e) => {
            proof {
                lemma_entries_view(*e);
            }
            get_member(e, k)
        },
        _ => None,
    }
}

/// The element `i` of `v` (`Value::get` with a position).
pub fn element_of<'a>(v: &'a Json, i: usize) -> (r: Option<&'a Json>)
    ensures
        match r {
            Some(j) => element(v@, i as int) == Some(j@),
            None => element(v@, i as int) is None,
        },
{
    match v {
        Json::Array(a) => {
            proof {
                lemma_items_view(*a);
            }
            if i < a.len() {
                Some(&a[i])
            } else {
                None
            }
        },
        _ => None,
    }
}

/// A copy of the text of `v` when it is a string (`Value::as_str`).
pub fn text_copy(v: Option<&Json>) -> (r: Option<String>)
    ensures
        match r {
            Some(s) => text_of(match v { Some(j) => Some(j@), None => None }) == Some(s@),
            None => text_of(match v { Some(j) => Some(j@), None => None }) is None,
        },
{
    match v {
        Some(Json::Str(s)) => Some(s.clone()),
        _ => None,
    }
}

} // verus!
