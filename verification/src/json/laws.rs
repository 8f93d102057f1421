//! What documents promise of their members.
use vstd::prelude::*;
use crate::json;
use crate::json::{copy, object_of, open_object, put, text_value, Json, JsonModel};
use crate::names::NameMap;

verus! {

/// The first member of a key counts, and only objects have members.
pub proof fn law_first_member_counts(v: &Json, key: &str, r: Option<&Json>, i: int)
    requires
        call_ensures(Json::get, (v, key), r),
    ensures
        v@ matches JsonModel::Object(p) ==> (0 <= i < p.len() && p[i].0 == key@ && (forall|j: int|
            0 <= j < i ==> (#[trigger] p[j]).0 != key@) ==> r is Some && r->0@ == p[i].1),
        v@ matches JsonModel::Object(p) ==> ((forall|j: int|
            0 <= j < p.len() ==> (#[trigger] p[j]).0 != key@) ==> r is None),
        !(v@ is Object) ==> r is None,
{
    if let JsonModel::Object(p) = v@ {
        lemma_first(p, key@);
        if 0 <= i < p.len() && p[i].0 == key@ && (forall|j: int|
            0 <= j < i ==> (#[trigger] p[j]).0 != key@) {
            let k = choose|k: int|
                0 <= k < p.len() && (#[trigger] p[k]).0 == key@ && json::member(p, key@) == Some(
                    p[k].1,
                ) && forall|j: int| 0 <= j < k ==> (#[trigger] p[j]).0 != key@;
            assert(p[k].0 == key@);
            assert(k == i);
        }
    }
}

/// Where the first member of a key stands.
proof fn lemma_first(p: Seq<(Seq<char>, JsonModel)>, key: Seq<char>)
    ensures
        json::member(p, key) is None <==> forall|j: int|
            0 <= j < p.len() ==> (#[trigger] p[j]).0 != key,
        json::member(p, key) is Some ==> exists|k: int|
            0 <= k < p.len() && (#[trigger] p[k]).0 == key && json::member(p, key) == Some(p[k].1)
                && forall|j: int| 0 <= j < k ==> (#[trigger] p[j]).0 != key,
    decreases p.len(),
{
    if p.len() > 0 {
        if p[0].0 == key {
            assert(json::member(p, key) == Some(p[0].1));
        } else {
            let rest = p.drop_first();
            lemma_first(rest, key);
            if json::member(rest, key) is Some {
                let k = choose|k: int|
                    0 <= k < rest.len() && (#[trigger] rest[k]).0 == key && json::member(rest, key)
                        == Some(rest[k].1) && forall|j: int|
                        0 <= j < k ==> (#[trigger] rest[j]).0 != key;
                assert(p[k + 1].0 == key && json::member(p, key) == Some(p[k + 1].1));
                assert forall|j: int| 0 <= j < k + 1 implies (#[trigger] p[j]).0 != key by {
                    if j > 0 {
                        assert(rest[j - 1].0 != key);
                    }
                }
            } else {
                assert forall|j: int| 0 <= j < p.len() implies (#[trigger] p[j]).0 != key by {
                    if j > 0 {
                        assert(rest[j - 1].0 != key);
                    }
                }
            }
        }
    }
}

/// Texts are taken as texts and whole numbers that are not negative as numbers; nothing else is
/// either.
pub proof fn law_values_are_taken_for_what_they_are(
    v: &Json,
    s: Option<&str>,
    n: Option<u64>,
    c: Json,
    t: &str,
    made: Json,
)
    requires
        call_ensures(Json::as_str, (v,), s),
        call_ensures(Json::as_u64, (v,), n),
        call_ensures(copy, (v,), c),
        call_ensures(text_value, (t,), made),
    ensures
        v@ matches JsonModel::Text(x) ==> s is Some && s->0@ == x,
        !(v@ is Text) ==> s is None,
        v@ matches JsonModel::UInt(x) ==> n == Some(x),
        !(v@ is UInt) ==> n is None,
        c@ == v@,
        made@ == JsonModel::Text(t@),
{
}

/// A text or a number under a key is that of the member of the key.
pub proof fn law_values_by_key(
    v: &Json,
    key: &str,
    m: Option<&Json>,
    s: Option<&str>,
    n: Option<u64>,
)
    requires
        call_ensures(Json::get, (v, key), m),
        call_ensures(Json::str_at, (v, key), s),
        call_ensures(Json::u64_at, (v, key), n),
    ensures
        s is Some <==> (m matches Some(x) && x@ is Text),
        s matches Some(t) ==> m->0@ == JsonModel::Text(t@),
        n is Some <==> (m matches Some(x) && x@ is UInt),
        n matches Some(k) ==> m->0@ == JsonModel::UInt(k),
{
}

/// An object that is made of members has each of them and no others, and one that is opened has the
/// members that it had.
pub proof fn law_objects_have_their_members(
    m: NameMap<Json>,
    r: Json,
    pairs: &[(String, Json)],
    opened: NameMap<Json>,
    key: Seq<char>,
)
    requires
        m.wf(),
        call_ensures(object_of, (m,), r),
        call_ensures(open_object, (pairs,), opened),
    ensures
        r@.get(key) is Some <==> m@.dom().contains(key),
        m@.dom().contains(key) ==> r@.get(key) == Some(m@[key]@),
        opened@.dom().contains(key) <==> JsonModel::Object(json::pairs_model(pairs@)).get(key)
            is Some,
        opened@.dom().contains(key) ==> JsonModel::Object(json::pairs_model(pairs@)).get(key)
            == Some(opened@[key]@),
{
    json::lemma_said(r@, key);
    let whole = JsonModel::Object(json::pairs_model(pairs@));
    json::lemma_said(whole, key);
    assert(json::models(m@).dom().contains(key) == m@.dom().contains(key));
    assert(json::models(opened@).dom().contains(key) == opened@.dom().contains(key));
}

/// A member that is put has its value, and all others stay.
pub proof fn law_members_are_put(
    m: &mut NameMap<Json>,
    key: &str,
    value: Json,
    other: Seq<char>,
)
    requires
        old(m).wf(),
        call_ensures(put, (m, key, value), ()),
    ensures
        final(m)@.dom().contains(key@) && final(m)@[key@]@ == value@,
        other != key@ ==> final(m)@.dom().contains(other) == old(m)@.dom().contains(other),
        other != key@ && old(m)@.dom().contains(other) ==> final(m)@[other]@ == old(m)@[other]@,
{
    let (a, b) = (json::models(old(m)@), json::models(final(m)@));
    assert(b.dom().contains(key@) == final(m)@.dom().contains(key@));
    assert(b.dom().contains(other) == final(m)@.dom().contains(other));
    assert(a.dom().contains(other) == old(m)@.dom().contains(other));
    assert(b[key@] == value@);
    if other != key@ && a.dom().contains(other) {
        assert(b[other] == a[other]);
    }
}

} // verus!
