//! JSON documents as trees of plain values.
use serde_json::Value;
use vstd::prelude::*;
use crate::names::NameMap;
use crate::text;

pub mod laws;

verus! {

/// A JSON document. Whole numbers are held as such, other numbers by their double-precision bits.
#[derive(Debug)]
pub enum Json {
    Null,
    Bool(bool),
    /// A whole number that is not negative.
    UInt(u64),
    /// A negative whole number.
    Int(i64),
    Float(u64),
    Text(String),
    List(Vec<Json>),
    Object(Vec<(String, Json)>),
}

/// What a [`Json`] stands for.
pub enum JsonModel {
    Null,
    Bool(bool),
    UInt(u64),
    Int(i64),
    Float(u64),
    Text(Seq<char>),
    List(Seq<JsonModel>),
    Object(Seq<(Seq<char>, JsonModel)>),
}

/// What a document stands for.
pub open spec fn model(v: Json) -> JsonModel
    decreases v,
{
    match v {
        Json::Null => JsonModel::Null,
        Json::Bool(b) => JsonModel::Bool(b),
        Json::UInt(n) => JsonModel::UInt(n),
        Json::Int(n) => JsonModel::Int(n),
        Json::Float(n) => JsonModel::Float(n),
        Json::Text(s) => JsonModel::Text(s@),
        Json::List(items) => JsonModel::List(list_model(items@)),
        Json::Object(pairs) => JsonModel::Object(pairs_model(pairs@)),
    }
}

/// What a list of documents stands for.
pub open spec fn list_model(items: Seq<Json>) -> Seq<JsonModel>
    decreases items,
{
    if items.len() == 0 {
        Seq::empty()
    } else {
        list_model(items.drop_last()).push(model(items.last()))
    }
}

/// What the members of an object stand for.
pub open spec fn pairs_model(pairs: Seq<(String, Json)>) -> Seq<(Seq<char>, JsonModel)>
    decreases pairs,
{
    if pairs.len() == 0 {
        Seq::empty()
    } else {
        pairs_model(pairs.drop_last()).push((pairs.last().0@, model(pairs.last().1)))
    }
}

impl View for Json {
    type V = JsonModel;

    open spec fn view(&self) -> JsonModel {
        model(*self)
    }
}

/// The model of a list has the models of its items.
pub proof fn lemma_list_model(items: Seq<Json>)
    ensures
        list_model(items).len() == items.len(),
        forall|i: int| 0 <= i < items.len() ==> #[trigger] list_model(items)[i] == items[i]@,
    decreases items.len(),
{
    if items.len() > 0 {
        lemma_list_model(items.drop_last());
        assert forall|i: int| 0 <= i < items.len() implies #[trigger] list_model(items)[i]
            == items[i]@ by {
            if i < items.len() - 1 {
                assert(items.drop_last()[i] == items[i]);
                assert(list_model(items.drop_last())[i] == items.drop_last()[i]@);
            }
        }
    }
}

/// The model of an object has the models of its members.
pub proof fn lemma_pairs_model(pairs: Seq<(String, Json)>)
    ensures
        pairs_model(pairs).len() == pairs.len(),
        forall|i: int|
            0 <= i < pairs.len() ==> #[trigger] pairs_model(pairs)[i] == (
                pairs[i].0@,
                pairs[i].1@,
            ),
    decreases pairs.len(),
{
    if pairs.len() > 0 {
        lemma_pairs_model(pairs.drop_last());
        assert forall|i: int| 0 <= i < pairs.len() implies #[trigger] pairs_model(pairs)[i] == (
            pairs[i].0@,
            pairs[i].1@,
        ) by {
            if i < pairs.len() - 1 {
                assert(pairs.drop_last()[i] == pairs[i]);
                assert(pairs_model(pairs.drop_last())[i] == (
                    pairs.drop_last()[i].0@,
                    pairs.drop_last()[i].1@,
                ));
            }
        }
    }
}

/// The first member with this key.
pub open spec fn member(pairs: Seq<(Seq<char>, JsonModel)>, key: Seq<char>) -> Option<JsonModel>
    decreases pairs.len(),
{
    if pairs.len() == 0 {
        None
    } else if pairs[0].0 == key {
        Some(pairs[0].1)
    } else {
        member(pairs.drop_first(), key)
    }
}

impl JsonModel {
    /// The member of an object with this key; none of anything else.
    pub open spec fn get(self, key: Seq<char>) -> Option<JsonModel> {
        match self {
            JsonModel::Object(pairs) => member(pairs, key),
            _ => None,
        }
    }

    /// The text of a string.
    pub open spec fn text(self) -> Option<Seq<char>> {
        match self {
            JsonModel::Text(s) => Some(s),
            _ => None,
        }
    }

    /// A whole number that is not negative.
    pub open spec fn uint(self) -> Option<u64> {
        match self {
            JsonModel::UInt(n) => Some(n),
            _ => None,
        }
    }

    /// The text of the member with this key, where it is a string.
    pub open spec fn text_at(self, key: Seq<char>) -> Option<Seq<char>> {
        match self.get(key) {
            Some(v) => v.text(),
            None => None,
        }
    }

    /// The number of the member with this key, where it is whole and not negative.
    pub open spec fn uint_at(self, key: Seq<char>) -> Option<u64> {
        match self.get(key) {
            Some(v) => v.uint(),
            None => None,
        }
    }
}

/// The members of an object, by their keys.
pub open spec fn members(v: JsonModel) -> Map<Seq<char>, JsonModel> {
    Map::new(|key: Seq<char>| v.get(key) is Some, |key: Seq<char>| v.get(key)->0)
}

/// What a document says of a key, from its members.
pub proof fn lemma_said(v: JsonModel, key: Seq<char>)
    ensures
        v.get(key) == if members(v).dom().contains(key) {
            Some(members(v)[key])
        } else {
            None
        },
{
    assert(members(v).dom().contains(key) == (v.get(key) is Some));
    if v.get(key) is Some {
        assert(members(v)[key] == v.get(key)->0);
    }
}

/// What the documents in a map stand for.
pub open spec fn models(m: Map<Seq<char>, Json>) -> Map<Seq<char>, JsonModel> {
    m.map_values(|v: Json| v@)
}

/// A tree that is its own normal form: the keys of every object grow from member to member, signed
/// numbers are negative, and every number is whole.
pub open spec fn normal(v: JsonModel) -> bool
    decreases v,
{
    match v {
        JsonModel::Int(n) => n < 0,
        JsonModel::Float(_) => false,
        JsonModel::List(items) => list_normal(items),
        JsonModel::Object(pairs) => keys_grow(pairs) && pairs_normal(pairs),
        _ => true,
    }
}

/// Every item is normal.
pub open spec fn list_normal(items: Seq<JsonModel>) -> bool
    decreases items,
{
    items.len() == 0 || (normal(items.last()) && list_normal(items.drop_last()))
}

/// Every member is normal.
pub open spec fn pairs_normal(pairs: Seq<(Seq<char>, JsonModel)>) -> bool
    decreases pairs,
{
    pairs.len() == 0 || (normal(pairs.last().1) && pairs_normal(pairs.drop_last()))
}

/// Every key stands before the keys behind it.
pub open spec fn keys_grow(pairs: Seq<(Seq<char>, JsonModel)>) -> bool {
    forall|i: int, j: int|
        0 <= i < j < pairs.len() ==> text::precedes(
            (#[trigger] pairs[i]).0,
            (#[trigger] pairs[j]).0,
        )
}

/// How many lists and objects are nested in each other.
pub open spec fn nesting(v: JsonModel) -> nat
    decreases v,
{
    match v {
        JsonModel::List(items) => 1 + list_nesting(items),
        JsonModel::Object(pairs) => 1 + pairs_nesting(pairs),
        _ => 0,
    }
}

/// The deepest nesting of the items.
pub open spec fn list_nesting(items: Seq<JsonModel>) -> nat
    decreases items,
{
    if items.len() == 0 {
        0
    } else {
        let a = nesting(items.last());
        let b = list_nesting(items.drop_last());
        if a > b {
            a
        } else {
            b
        }
    }
}

/// The deepest nesting of the members.
pub open spec fn pairs_nesting(pairs: Seq<(Seq<char>, JsonModel)>) -> nat
    decreases pairs,
{
    if pairs.len() == 0 {
        0
    } else {
        let a = nesting(pairs.last().1);
        let b = pairs_nesting(pairs.drop_last());
        if a > b {
            a
        } else {
            b
        }
    }
}

/// `serde_json::Value`, a document of the crate `serde_json`.
#[verifier::external_type_specification]
#[verifier::external_body]
pub struct ExValue(serde_json::Value);

/// The tree that a `serde_json::Value` holds.
pub uninterp spec fn tree_of(v: Value) -> JsonModel;

/// The tree that `serde_json` reads from a text; none where it reports an error.
pub uninterp spec fn json_read(text: Seq<u8>) -> Option<JsonModel>;

/// The text that `serde_json` writes for a tree, without spaces.
pub uninterp spec fn json_text(v: JsonModel) -> Seq<u8>;

/// The text that `serde_json` writes for a tree, indented.
pub uninterp spec fn json_pretty(v: JsonModel) -> Seq<u8>;

/// `serde_json::from_slice` into a `Value`: the tree named by [`json_read`], or none. What the
/// tree is for a given text is not stated.
#[verifier::external_body]
fn value_from_slice(text: &[u8]) -> (r: Option<serde_json::Value>)
    ensures
        r is Some <==> json_read(text@) is Some,
        r is Some ==> Some(tree_of(r->0)) == json_read(text@),
{
    serde_json::from_slice(text).ok()
}

/// Takes a `serde_json::Value` apart, variant by variant: the result is the tree that it holds.
#[verifier::external_body]
fn json_of(v: Value) -> (r: Json)
    ensures
        r@ == tree_of(v),
{
    match v {
        Value::Null => Json::Null,
        Value::Bool(b) => Json::Bool(b),
        Value::Number(n) => match (n.as_u64(), n.as_i64(), n.as_f64()) {
            (Some(u), _, _) => Json::UInt(u),
            (None, Some(i), _) => Json::Int(i),
            (None, None, x) => Json::Float(x.unwrap_or_default().to_bits()),
        },
        Value::String(s) => Json::Text(s),
        Value::Array(a) => Json::List(a.into_iter().map(json_of).collect()),
        Value::Object(m) => {
            Json::Object(m.into_iter().map(|(k, v)| (k, json_of(v))).collect())
        },
    }
}

/// Puts a `serde_json::Value` together, variant by variant. Its objects are ordered by their keys
/// and have no key twice, and it has no whole number in two forms; so it holds a tree that is
/// normal.
#[verifier::external_body]
fn value_of(v: &Json) -> (r: Value)
    requires
        normal(v@),
    ensures
        tree_of(r) == v@,
{
    match v {
        Json::Null | Json::Float(_) => Value::Null,
        Json::Bool(b) => Value::Bool(*b),
        Json::UInt(n) => Value::Number((*n).into()),
        Json::Int(n) => Value::Number((*n).into()),
        Json::Text(s) => Value::String(s.clone()),
        Json::List(items) => Value::Array(items.iter().map(value_of).collect()),
        Json::Object(m) => {
            Value::Object(m.iter().map(|(k, v)| (k.clone(), value_of(v))).collect())
        },
    }
}

/// Space characters.
pub open spec fn blanks(n: nat) -> Seq<u8> {
    Seq::new(n, |i: int| 32u8)
}

/// `serde_json::to_vec` of a `Value`: the text named by [`json_text`]. A tree without fractions,
/// nested no deeper than the reader's limit, is read back from it, also with spaces behind it.
#[verifier::external_body]
fn text_of(v: &serde_json::Value) -> (r: Vec<u8>)
    requires
        normal(tree_of(*v)),
    ensures
        r@ == json_text(tree_of(*v)),
        nesting(tree_of(*v)) <= 100 ==> forall|n: nat|
            #[trigger] json_read(r@ + blanks(n)) == Some(tree_of(*v)),
{
    serde_json::to_vec(v).unwrap_or_default()
}

/// `serde_json::to_vec_pretty` of a `Value`: the text named by [`json_pretty`]. A tree without
/// fractions, nested no deeper than the reader's limit, is read back from it.
#[verifier::external_body]
fn pretty_text_of(v: &serde_json::Value) -> (r: Vec<u8>)
    requires
        normal(tree_of(*v)),
    ensures
        r@ == json_pretty(tree_of(*v)),
        nesting(tree_of(*v)) <= 100 ==> json_read(r@) == Some(tree_of(*v)),
{
    serde_json::to_vec_pretty(v).unwrap_or_default()
}

/// Reads a document.
pub fn parse(text: &[u8]) -> (r: Option<Json>)
    ensures
        match r {
            Some(v) => json_read(text@) == Some(v@),
            None => json_read(text@) is None,
        },
{
    match value_from_slice(text) {
        Some(v) => Some(json_of(v)),
        None => None,
    }
}

/// Writes a document without spaces.
pub fn render(v: &Json) -> (r: Vec<u8>)
    requires
        normal(v@),
    ensures
        r@ == json_text(v@),
        nesting(v@) <= 100 ==> forall|n: nat| #[trigger] json_read(r@ + blanks(n)) == Some(v@),
{
    let value = value_of(v);
    text_of(&value)
}

/// Writes a document with indentation.
pub fn render_pretty(v: &Json) -> (r: Vec<u8>)
    requires
        normal(v@),
    ensures
        r@ == json_pretty(v@),
        nesting(v@) <= 100 ==> json_read(r@) == Some(v@),
{
    let value = value_of(v);
    pretty_text_of(&value)
}

/// Where a key stands among members.
proof fn lemma_member(pairs: Seq<(Seq<char>, JsonModel)>, key: Seq<char>)
    ensures
        member(pairs, key) is Some <==> exists|i: int|
            0 <= i < pairs.len() && (#[trigger] pairs[i]).0 == key,
        member(pairs, key) is Some ==> exists|i: int|
            0 <= i < pairs.len() && (#[trigger] pairs[i]) == (key, member(pairs, key)->0),
    decreases pairs.len(),
{
    if pairs.len() > 0 {
        let rest = pairs.drop_first();
        lemma_member(rest, key);
        if pairs[0].0 != key {
            if member(rest, key) is Some {
                let i = choose|i: int|
                    0 <= i < rest.len() && (#[trigger] rest[i]) == (key, member(rest, key)->0);
                assert(pairs[i + 1] == rest[i]);
            }
            if exists|i: int| 0 <= i < pairs.len() && (#[trigger] pairs[i]).0 == key {
                let i = choose|i: int| 0 <= i < pairs.len() && (#[trigger] pairs[i]).0 == key;
                assert(rest[i - 1] == pairs[i]);
            }
        } else {
            assert(pairs[0] == (key, member(pairs, key)->0));
        }
    }
}

/// An object made of a map has the map's members, its keys grow, and it is normal where its
/// members are.
pub proof fn lemma_object(m: NameMap<Json>)
    requires
        m.wf(),
    ensures
        members(JsonModel::Object(pairs_model(m.items@))) == models(m@),
        keys_grow(pairs_model(m.items@)),
        (forall|k: Seq<char>| #[trigger] m@.dom().contains(k) ==> normal(m@[k]@)) ==> normal(
            JsonModel::Object(pairs_model(m.items@)),
        ),
{
    let pairs = pairs_model(m.items@);
    let v = JsonModel::Object(pairs);
    lemma_pairs_model(m.items@);
    assert forall|i: int, j: int| 0 <= i < j < pairs.len() implies text::precedes(
        (#[trigger] pairs[i]).0,
        (#[trigger] pairs[j]).0,
    ) by {
        assert(m.keys()[i] == pairs[i].0);
        assert(m.keys()[j] == pairs[j].0);
    }
    assert forall|k: Seq<char>| members(v).dom().contains(k) == models(m@).dom().contains(k) by {
        lemma_member(pairs, k);
        if v.get(k) is Some {
            let i = choose|i: int| 0 <= i < pairs.len() && (#[trigger] pairs[i]).0 == k;
            assert(m.keys()[i] == k);
        }
        if m@.dom().contains(k) {
            let i = m.lemma_found(k);
            assert(pairs[i].0 == k);
        }
    }
    assert forall|k: Seq<char>| members(v).dom().contains(k) implies members(v)[k] == models(
        m@,
    )[k] by {
        lemma_member(pairs, k);
        let i = choose|i: int|
            0 <= i < pairs.len() && (#[trigger] pairs[i]) == (k, member(pairs, k)->0);
        m.lemma_at(i);
    }
    assert(members(v) =~= models(m@));
    if forall|k: Seq<char>| #[trigger] m@.dom().contains(k) ==> normal(m@[k]@) {
        assert forall|i: int| 0 <= i < pairs.len() implies normal((#[trigger] pairs[i]).1) by {
            m.lemma_at(i);
            assert(m@.dom().contains(m.items@[i].0@));
        }
        lemma_pairs_normal(pairs);
    }
}

/// Members that are normal one by one are normal together.
pub proof fn lemma_pairs_normal(pairs: Seq<(Seq<char>, JsonModel)>)
    requires
        forall|i: int| 0 <= i < pairs.len() ==> normal((#[trigger] pairs[i]).1),
    ensures
        pairs_normal(pairs),
    decreases pairs.len(),
{
    if pairs.len() > 0 {
        lemma_pairs_normal(pairs.drop_last());
    }
}

/// Items that are normal one by one are normal together.
pub proof fn lemma_list_normal(items: Seq<JsonModel>)
    requires
        forall|i: int| 0 <= i < items.len() ==> normal(#[trigger] items[i]),
    ensures
        list_normal(items),
    decreases items.len(),
{
    if items.len() > 0 {
        lemma_list_normal(items.drop_last());
    }
}

/// An object is nested one level deeper than its members.
pub proof fn lemma_object_nesting(pairs: Seq<(Seq<char>, JsonModel)>, d: nat)
    requires
        forall|i: int| 0 <= i < pairs.len() ==> nesting((#[trigger] pairs[i]).1) <= d,
    ensures
        pairs_nesting(pairs) <= d,
    decreases pairs.len(),
{
    if pairs.len() > 0 {
        lemma_object_nesting(pairs.drop_last(), d);
    }
}

/// A list is nested one level deeper than its items.
pub proof fn lemma_list_nesting(items: Seq<JsonModel>, d: nat)
    requires
        forall|i: int| 0 <= i < items.len() ==> nesting(#[trigger] items[i]) <= d,
    ensures
        list_nesting(items) <= d,
    decreases items.len(),
{
    if items.len() > 0 {
        lemma_list_nesting(items.drop_last(), d);
    }
}

/// The object with these members, in the order of their keys.
pub open spec fn object(m: Map<Seq<char>, JsonModel>) -> JsonModel {
    JsonModel::Object(
        choose|pairs: Seq<(Seq<char>, JsonModel)>| #[trigger] keys_grow(pairs) && members(
            JsonModel::Object(pairs),
        ) == m,
    )
}

/// Members whose keys grow are known from what they say of each key.
pub proof fn lemma_pairs_unique(
    a: Seq<(Seq<char>, JsonModel)>,
    b: Seq<(Seq<char>, JsonModel)>,
)
    requires
        keys_grow(a),
        keys_grow(b),
        members(JsonModel::Object(a)) == members(JsonModel::Object(b)),
    ensures
        a == b,
    decreases a.len(),
{
    let (va, vb) = (JsonModel::Object(a), JsonModel::Object(b));
    assert forall|k: Seq<char>| member(a, k) == member(b, k) by {
        assert(members(va).dom().contains(k) == (va.get(k) is Some));
        assert(members(vb).dom().contains(k) == (vb.get(k) is Some));
        if member(a, k) is Some {
            assert(members(va)[k] == va.get(k)->0);
            assert(members(vb)[k] == vb.get(k)->0);
        }
    }
    if a.len() == 0 {
        if b.len() > 0 {
            assert(member(b, b[0].0) is Some);
            assert(member(a, b[0].0) is None);
        }
        assert(a =~= b);
    } else {
        let ka = a[0].0;
        assert(member(a, ka) == Some(a[0].1));
        lemma_member(b, ka);
        let j = choose|j: int| 0 <= j < b.len() && (#[trigger] b[j]) == (ka, member(b, ka)->0);
        let kb = b[0].0;
        assert(member(b, kb) == Some(b[0].1));
        lemma_member(a, kb);
        let i = choose|i: int| 0 <= i < a.len() && (#[trigger] a[i]) == (kb, member(a, kb)->0);
        if j > 0 {
            assert(text::precedes(b[0].0, b[j].0));
            if i > 0 {
                assert(text::precedes(a[0].0, a[i].0));
                text::lemma_precedes_transitive(kb, ka, kb);
            }
            text::lemma_precedes_irreflexive(kb);
        }
        assert(a[0] == b[0]);
        let (ra, rb) = (a.drop_first(), b.drop_first());
        lemma_rest_grows(a);
        lemma_rest_grows(b);
        assert forall|k: Seq<char>| member(ra, k) == member(rb, k) by {
            assert(member(a, k) == member(b, k));
            if k == ka {
                lemma_first_key_gone(a);
                lemma_first_key_gone(b);
            }
        }
        assert(members(JsonModel::Object(ra)) =~= members(JsonModel::Object(rb)));
        lemma_pairs_unique(ra, rb);
        assert(a =~= seq![a[0]] + ra);
        assert(b =~= seq![b[0]] + rb);
    }
}

/// Behind the first member the keys grow too.
proof fn lemma_rest_grows(a: Seq<(Seq<char>, JsonModel)>)
    requires
        keys_grow(a),
        a.len() > 0,
    ensures
        keys_grow(a.drop_first()),
{
    let r = a.drop_first();
    assert forall|i: int, j: int| 0 <= i < j < r.len() implies text::precedes(
        (#[trigger] r[i]).0,
        (#[trigger] r[j]).0,
    ) by {
        assert(r[i] == a[i + 1] && r[j] == a[j + 1]);
    }
}

/// Behind the first member its key does not come again.
proof fn lemma_first_key_gone(a: Seq<(Seq<char>, JsonModel)>)
    requires
        keys_grow(a),
        a.len() > 0,
    ensures
        member(a.drop_first(), a[0].0) is None,
{
    let r = a.drop_first();
    lemma_member(r, a[0].0);
    if member(r, a[0].0) is Some {
        let i = choose|i: int| 0 <= i < r.len() && (#[trigger] r[i]).0 == a[0].0;
        assert(r[i] == a[i + 1]);
        assert(text::precedes(a[0].0, a[i + 1].0));
        text::lemma_precedes_irreflexive(a[0].0);
    }
}

/// An object whose keys grow is the one with its members.
pub proof fn lemma_is_object(pairs: Seq<(Seq<char>, JsonModel)>)
    requires
        keys_grow(pairs),
    ensures
        JsonModel::Object(pairs) == object(members(JsonModel::Object(pairs))),
{
    let m = members(JsonModel::Object(pairs));
    let c = choose|c: Seq<(Seq<char>, JsonModel)>| #[trigger] keys_grow(c) && members(
        JsonModel::Object(c),
    ) == m;
    lemma_pairs_unique(pairs, c);
}

/// Every document of a map is normal.
pub open spec fn all_normal(m: Map<Seq<char>, JsonModel>) -> bool {
    forall|k: Seq<char>| #[trigger] m.dom().contains(k) ==> normal(m[k])
}

/// Sets a member.
pub fn put(m: &mut NameMap<Json>, key: &str, value: Json)
    requires
        old(m).wf(),
    ensures
        final(m).wf(),
        models(final(m)@) == models(old(m)@).insert(key@, value@),
        all_normal(models(old(m)@)) && normal(value@) ==> all_normal(models(final(m)@)),
{
    let ghost before = m@;
    let ghost model = value@;
    m.insert(key.to_owned(), value);
    proof {
        assert(models(m@) =~= models(before).insert(key@, model));
        if all_normal(models(before)) && normal(model) {
            assert forall|k: Seq<char>| #[trigger] models(m@).dom().contains(k) implies normal(
                models(m@)[k],
            ) by {
                if k != key@ {
                    assert(models(before).dom().contains(k));
                }
            }
        }
    }
}

/// A JSON string.
pub fn text_value(s: &str) -> (r: Json)
    ensures
        r@ == JsonModel::Text(s@),
{
    Json::Text(s.to_owned())
}

/// A list of JSON strings.
pub open spec fn text_list(s: Seq<Seq<char>>) -> JsonModel {
    JsonModel::List(s.map_values(|t: Seq<char>| JsonModel::Text(t)))
}

/// The object with the members of a map.
pub fn object_of(m: NameMap<Json>) -> (r: Json)
    requires
        m.wf(),
    ensures
        r@ is Object,
        members(r@) == models(m@),
        r@ == JsonModel::Object(pairs_model(m.items@)),
        keys_grow(pairs_model(m.items@)),
        r@ == object(models(m@)),
        all_normal(models(m@)) ==> normal(r@),
{
    proof {
        lemma_object(m);
        lemma_is_object(pairs_model(m.items@));
        if all_normal(models(m@)) {
            assert forall|k: Seq<char>| #[trigger] m@.dom().contains(k) implies normal(m@[k]@) by {
                assert(models(m@).dom().contains(k));
            }
        }
    }
    Json::Object(m.items)
}

/// A map with copies of the members of an object.
pub fn open_object(pairs: &[(String, Json)]) -> (r: NameMap<Json>)
    ensures
        r.wf(),
        models(r@) == members(JsonModel::Object(pairs_model(pairs@))),
{
    let ghost all = pairs_model(pairs@);
    proof {
        lemma_pairs_model(pairs@);
    }
    let n: usize = pairs.len();
    let mut m: NameMap<Json> = NameMap::new();
    let mut i: usize = 0;
    while i < n
        invariant
            i <= n == pairs@.len(),
            all == pairs_model(pairs@),
            all.len() == n,
            forall|j: int| 0 <= j < n ==> #[trigger] all[j] == (pairs@[j].0@, pairs@[j].1@),
            m.wf(),
            models(m@) == members(JsonModel::Object(all.subrange(0, i as int))),
        decreases n - i,
    {
        let ghost had = all.subrange(0, i as int);
        let ghost longer = all.subrange(0, i + 1);
        let ghost before = m@;
        proof {
            assert(longer =~= had.push(all[i as int]));
        }
        let key = pairs[i].0.as_str();
        assert(models(before).dom().contains(key@) == members(JsonModel::Object(had)).dom().contains(
            key@,
        ));
        if !m.contains(key) {
            m.insert(pairs[i].0.clone(), copy(&pairs[i].1));
        }
        proof {
            assert forall|k: Seq<char>|
                models(m@).dom().contains(k) == members(
                    JsonModel::Object(longer),
                ).dom().contains(k) by {
                lemma_member_push(had, all[i as int], k);
                assert(models(before).dom().contains(k) == members(
                    JsonModel::Object(had),
                ).dom().contains(k));
            }
            assert forall|k: Seq<char>| models(m@).dom().contains(k) implies models(m@)[k]
                == members(JsonModel::Object(longer))[k] by {
                lemma_member_push(had, all[i as int], k);
                if models(before).dom().contains(k) {
                    assert(models(before)[k] == members(JsonModel::Object(had))[k]);
                }
            }
            assert(models(m@) =~= members(JsonModel::Object(longer)));
        }
        i = i + 1;
    }
    assert(all.subrange(0, n as int) =~= all);
    m
}

/// A member behind the others is found where none before has its key.
proof fn lemma_member_push(
    pairs: Seq<(Seq<char>, JsonModel)>,
    last: (Seq<char>, JsonModel),
    k: Seq<char>,
)
    ensures
        member(pairs.push(last), k) == match member(pairs, k) {
            Some(v) => Some(v),
            None => if last.0 == k {
                Some(last.1)
            } else {
                None
            },
        },
    decreases pairs.len(),
{
    if pairs.len() > 0 {
        lemma_member_push(pairs.drop_first(), last, k);
        assert(pairs.push(last).drop_first() =~= pairs.drop_first().push(last));
        assert(pairs.push(last)[0] == pairs[0]);
    } else {
        assert(pairs.push(last).drop_first() =~= Seq::empty());
        assert(member(pairs.push(last).drop_first(), k) is None);
    }
}

impl Json {
    /// The member of an object with this key.
    pub fn get(&self, key: &str) -> (r: Option<&Json>)
        ensures
            match r {
                Some(v) => self@.get(key@) == Some(v@),
                None => self@.get(key@) is None,
            },
    {
        match self {
            Json::Object(pairs) => {
                proof {
                    lemma_pairs_model(pairs@);
                }
                let ghost m = pairs_model(pairs@);
                let n: usize = pairs.len();
                let mut i: usize = 0;
                assert(m.subrange(0, n as int) =~= m);
                while i < n
                    invariant
                        i <= n == pairs@.len(),
                        *self == Json::Object(*pairs),
                        m == pairs_model(pairs@),
                        m.len() == n,
                        forall|j: int|
                            0 <= j < n ==> #[trigger] m[j] == (pairs@[j].0@, pairs@[j].1@),
                        member(m, key@) == member(m.subrange(i as int, n as int), key@),
                    decreases n - i,
                {
                    let ghost tail = m.subrange(i as int, n as int);
                    assert(tail[0] == m[i as int]);
                    assert(tail.drop_first() =~= m.subrange(i + 1, n as int));
                    if text::same(pairs[i].0.as_str(), key) {
                        return Some(&pairs[i].1);
                    }
                    i = i + 1;
                }
                None
            },
            _ => None,
        }
    }

    /// The text of a string.
    pub fn as_str(&self) -> (r: Option<&str>)
        ensures
            match r {
                Some(s) => self@.text() == Some(s@),
                None => self@.text() is None,
            },
    {
        match self {
            Json::Text(s) => Some(s.as_str()),
            _ => None,
        }
    }

    /// A whole number that is not negative.
    pub fn as_u64(&self) -> (r: Option<u64>)
        ensures
            r == self@.uint(),
    {
        match self {
            Json::UInt(n) => Some(*n),
            _ => None,
        }
    }

    /// The text of the member with this key, where it is a string.
    pub fn str_at(&self, key: &str) -> (r: Option<&str>)
        ensures
            match r {
                Some(s) => self@.text_at(key@) == Some(s@),
                None => self@.text_at(key@) is None,
            },
    {
        match self.get(key) {
            Some(v) => v.as_str(),
            None => None,
        }
    }

    /// The number of the member with this key, where it is whole and not negative.
    pub fn u64_at(&self, key: &str) -> (r: Option<u64>)
        ensures
            r == self@.uint_at(key@),
    {
        match self.get(key) {
            Some(v) => v.as_u64(),
            None => None,
        }
    }
}

/// A copy of a document.
pub fn copy(v: &Json) -> (r: Json)
    ensures
        r@ == v@,
    decreases *v,
{
    match v {
        Json::Null => Json::Null,
        Json::Bool(b) => Json::Bool(*b),
        Json::UInt(n) => Json::UInt(*n),
        Json::Int(n) => Json::Int(*n),
        Json::Float(n) => Json::Float(*n),
        Json::Text(s) => Json::Text(s.clone()),
        Json::List(items) => {
            let mut out: Vec<Json> = Vec::new();
            let n: usize = items.len();
            let mut i: usize = 0;
            while i < n
                invariant
                    i <= n == items@.len(),
                    *v == Json::List(*items),
                    out@.len() == i,
                    forall|j: int| 0 <= j < i ==> (#[trigger] out@[j])@ == items@[j]@,
                decreases n - i,
            {
                assert(decreases_to!(*v => v->List_0));
                assert(decreases_to!(v->List_0 => v->List_0@[i as int]));
                out.push(copy(&items[i]));
                i = i + 1;
            }
            proof {
                lemma_list_model(out@);
                lemma_list_model(items@);
                assert(list_model(out@) =~= list_model(items@));
            }
            Json::List(out)
        },
        Json::Object(pairs) => {
            let mut out: Vec<(String, Json)> = Vec::new();
            let n: usize = pairs.len();
            let mut i: usize = 0;
            while i < n
                invariant
                    i <= n == pairs@.len(),
                    *v == Json::Object(*pairs),
                    out@.len() == i,
                    forall|j: int|
                        0 <= j < i ==> (#[trigger] out@[j]).0@ == pairs@[j].0@ && out@[j].1@
                            == pairs@[j].1@,
                decreases n - i,
            {
                assert(decreases_to!(*v => v->Object_0));
                assert(decreases_to!(v->Object_0 => v->Object_0@[i as int]));
                assert(decreases_to!(v->Object_0@[i as int] => v->Object_0@[i as int].1));
                out.push((pairs[i].0.clone(), copy(&pairs[i].1)));
                i = i + 1;
            }
            proof {
                lemma_pairs_model(out@);
                lemma_pairs_model(pairs@);
                assert(pairs_model(out@) =~= pairs_model(pairs@));
            }
            Json::Object(out)
        },
    }
}

} // verus!
