//! A JSON document tree, as the report logic reads and builds it, and the
//! member lists that JSON objects are made of.
use vstd::prelude::*;

verus! {

/// A JSON number held as its parts: sign, decimal mantissa and decimal exponent.
#[derive(Clone, Copy, Debug, PartialEq, Eq, Structural)]
pub struct JsonNumber {
    pub positive: bool,
    pub mantissa: u64,
    pub exponent: i16,
}

/// A JSON value. An object keeps its members in insertion order.
#[derive(Debug, PartialEq)]
pub enum Json {
    Null,
    Bool(bool),
    Number(JsonNumber),
    Str(String),
    Array(Vec<Json>),
    Object(Vec<(String, Json)>),
}

/// A member list seen with its keys as character sequences.
pub open spec fn members_view<V>(es: Seq<(String, V)>) -> Seq<(Seq<char>, V)> {
    es.map_values(|e: (String, V)| (e.0@, e.1))
}

/// The value of the first member whose key is `k`.
pub open spec fn member<V>(m: Seq<(Seq<char>, V)>, k: Seq<char>) -> Option<V>
    decreases m.len(),
{
    if m.len() == 0 {
        None
    } else if m[0].0 == k {
        Some(m[0].1)
    } else {
        member(m.drop_first(), k)
    }
}

/// The position of the first member whose key is `k`, if there is one.
pub open spec fn position<V>(m: Seq<(Seq<char>, V)>, k: Seq<char>) -> Option<int>
    decreases m.len(),
{
    if m.len() == 0 {
        None
    } else if m[0].0 == k {
        Some(0)
    } else {
        match position(m.drop_first(), k) {
            Some(i) => Some(i + 1),
            None => None,
        }
    }
}

/// The member list after setting key `k` to `v`: the first member with that
/// key takes the new value in place, or else a new member is appended.
pub open spec fn put<V>(m: Seq<(Seq<char>, V)>, k: Seq<char>, v: V) -> Seq<(Seq<char>, V)> {
    match position(m, k) {
        Some(i) => m.update(i, (k, v)),
        None => m.push((k, v)),
    }
}

/// The member of a JSON value under key `k`: absent unless the value is an object.
pub open spec fn child(j: Json, k: Seq<char>) -> Option<Json> {
    match j {
        Json::Object(es) => member(members_view(es@), k),
        _ => None,
    }
}

pub(crate) proof fn lemma_position<V>(m: Seq<(Seq<char>, V)>, k: Seq<char>)
    ensures
        match position(m, k) {
            Some(i) => 0 <= i < m.len() && m[i].0 == k && member(m, k) == Some(m[i].1)
                && forall|j: int| 0 <= j < i ==> m[j].0 != k,
            None => member(m, k) is None && forall|j: int| 0 <= j < m.len() ==> m[j].0 != k,
        },
    decreases m.len(),
{
    if m.len() > 0 {
        lemma_position(m.drop_first(), k);
        if m[0].0 != k {
            assert forall|j: int| 1 <= j < m.len() implies m[j].0 == m.drop_first()[j - 1].0 by {}
        }
    }
}

/// No two members share a key: the well-formedness of a JSON object, whose
/// setting a key replaces any member with that key.
pub open spec fn unique_keys<V>(m: Seq<(Seq<char>, V)>) -> bool {
    forall|i: int, j: int| 0 <= i < j < m.len() ==> (#[trigger] m[i]).0 != (#[trigger] m[j]).0
}

/// Every member list of a JSON value, to any depth, has unique keys.
pub open spec fn well_formed(j: Json) -> bool
    decreases j,
{
    match j {
        Json::Array(items) => forall|i: int| 0 <= i < items@.len() ==> #[trigger] well_formed(items@[i]),
        Json::Object(es) => unique_keys(members_view(es@))
            && forall|i: int| 0 <= i < es@.len() ==> #[trigger] well_formed(es@[i].1),
        _ => true,
    }
}

/// Setting a key keeps the keys of a member list unique.
pub proof fn lemma_put_keeps_keys_unique<V>(m: Seq<(Seq<char>, V)>, k: Seq<char>, v: V)
    requires
        unique_keys(m),
    ensures
        unique_keys(put(m, k, v)),
{
    lemma_position(m, k);
}

/// With unique keys, the member found under a key is the one member with it.
pub proof fn lemma_member_of_unique<V>(m: Seq<(Seq<char>, V)>, i: int)
    requires
        unique_keys(m),
        0 <= i < m.len(),
    ensures
        member(m, m[i].0) == Some(m[i].1),
{
    lemma_position(m, m[i].0);
}

/// Finds the first member whose key is `k`.
pub(crate) fn find<V>(es: &Vec<(String, V)>, k: &String) -> (r: Option<usize>)
    ensures
        match r {
            Some(i) => position(members_view(es@), k@) == Some(i as int),
            None => position(members_view(es@), k@) is None,
        },
{
    let ghost m = members_view(es@);
    proof { lemma_position(m, k@); }
    let mut i: usize = 0;
    while i < es.len()
        invariant
            i <= es.len(),
            m == members_view(es@),
            forall|j: int| 0 <= j < i ==> m[j].0 != k@,
            match position(m, k@) {
                Some(p) => 0 <= p < m.len() && m[p].0 == k@ && forall|j: int| 0 <= j < p ==> m[j].0 != k@,
                None => forall|j: int| 0 <= j < m.len() ==> m[j].0 != k@,
            },
        decreases es.len() - i,
    {
        assert(m[i as int] == (es@[i as int].0@, es@[i as int].1));
        if es[i].0 == *k {
            assert(m[i as int].0 == k@);
            return Some(i);
        }
        i = i + 1;
    }
    None
}

/// Sets key `k` to `v` in a member list, in place where the key is present.
pub fn put_member<V>(es: &mut Vec<(String, V)>, k: String, v: V)
    ensures
        members_view(final(es)@) == put(members_view(old(es)@), k@, v),
        unique_keys(members_view(old(es)@)) ==> unique_keys(members_view(final(es)@)),
        final(es)@ == (match position(members_view(old(es)@), k@) {
            Some(i) => old(es)@.update(i, (k, v)),
            None => old(es)@.push((k, v)),
        }),
{
    proof {
        lemma_position(members_view(es@), k@);
        if unique_keys(members_view(es@)) {
            lemma_put_keeps_keys_unique(members_view(es@), k@, v);
        }
    }
    match find(es, &k) {
        Some(i) => {
            let ghost kv = k@;
            es.set(i, (k, v));
            assert(members_view(es@) =~= put(members_view(old(es)@), kv, v));
        },
        None => {
            let ghost kv = k@;
            es.push((k, v));
            assert(members_view(es@) =~= put(members_view(old(es)@), kv, v));
        },
    }
}

/// Moves out the value of the first member whose key is `k`.
pub fn take_member(es: Vec<(String, Json)>, k: &String) -> (r: Option<Json>)
    ensures
        r == member(members_view(es@), k@),
{
    proof { lemma_position(members_view(es@), k@); }
    let mut es = es;
    match find(&es, k) {
        Some(i) => Some(es.remove(i).1),
        None => None,
    }
}

/// Moves out the member of a JSON value under key `k`.
pub fn take_child(j: Json, k: &String) -> (r: Option<Json>)
    ensures
        r == child(j, k@),
{
    match j {
        Json::Object(es) => take_member(es, k),
        _ => None,
    }
}

} // verus!
