//! Writing a model as several safetensors files.
use vstd::prelude::*;
use crate::bytes;
use crate::bytes::push_le;
use crate::gguf::value::push_all;
use crate::json;
use crate::json::{object_of, put, render, text_value, Json, JsonModel};
use crate::names::NameMap;
use crate::safetensors;
use crate::safetensors::sharded;
use crate::safetensors::{EntryModel, StDtype, StErrorKind, StModel};
use crate::text;

verus! {

/// A tensor as a header describes it.
#[derive(Debug)]
pub struct ShardItem {
    pub name: String,
    pub dtype: StDtype,
    pub shape: Vec<u64>,
    pub nbytes: u64,
}

/// What a [`ShardItem`] stands for.
pub struct ItemModel {
    pub name: Seq<char>,
    pub dtype: StDtype,
    pub shape: Seq<u64>,
    pub nbytes: nat,
}

impl View for ShardItem {
    type V = ItemModel;

    open spec fn view(&self) -> ItemModel {
        ItemModel {
            name: self.name@,
            dtype: self.dtype,
            shape: self.shape@,
            nbytes: self.nbytes as nat,
        }
    }
}

/// What the items of a shard stand for.
pub open spec fn item_models(items: Seq<ShardItem>) -> Seq<ItemModel> {
    Seq::new(items.len(), |i: int| items[i]@)
}

/// A sum that stops at the greatest 64-bit number.
pub open spec fn sat_add(a: nat, b: nat) -> nat {
    if a + b > u64::MAX {
        u64::MAX as nat
    } else {
        a + b
    }
}

/// The end of the shard that begins at `start` and has `size` bytes up to `i`: as many tensors as
/// fit in `max` bytes, and at least one.
pub open spec fn shard_end(sizes: Seq<u64>, start: int, i: int, size: nat, max: u64) -> int
    decreases sizes.len() - i,
{
    if i >= sizes.len() {
        sizes.len() as int
    } else if i > start && sat_add(size, sizes[i] as nat) > max {
        i
    } else {
        shard_end(sizes, start, i + 1, sat_add(size, sizes[i] as nat), max)
    }
}

/// The shards from `start` on, each as the range of its tensors.
pub open spec fn shards_from(sizes: Seq<u64>, start: int, max: u64) -> Seq<(usize, usize)>
    decreases sizes.len() - start,
{
    if start >= sizes.len() || start < 0 {
        Seq::empty()
    } else {
        let end = shard_end(sizes, start, start, 0, max);
        proof {
            assert(range_size(sizes, start, start) == 0);
            lemma_shard_end(sizes, start, start, max);
        }
        seq![(start as usize, end as usize)] + shards_from(sizes, end, max)
    }
}

/// The bytes of the tensors from `a` up to `b`, a sum that stops at the greatest 64-bit number.
pub open spec fn range_size(sizes: Seq<u64>, a: int, b: int) -> nat
    decreases b - a,
{
    if b <= a {
        0
    } else {
        sat_add(range_size(sizes, a, b - 1), sizes[b - 1] as nat)
    }
}

/// A shard ends behind its start and inside the list; what comes next no longer fits; and with
/// more than one tensor it is not above the limit.
pub proof fn lemma_shard_end(sizes: Seq<u64>, start: int, i: int, max: u64)
    requires
        0 <= start <= i <= sizes.len(),
        i > start + 1 ==> range_size(sizes, start, i) <= max,
    ensures
        ({
            let end = shard_end(sizes, start, i, range_size(sizes, start, i), max);
            &&& i <= end <= sizes.len()
            &&& start < sizes.len() ==> start < end
            &&& end > start + 1 ==> range_size(sizes, start, end) <= max
            &&& end < sizes.len() && start < end ==> sat_add(
                range_size(sizes, start, end),
                sizes[end] as nat,
            ) > max
        }),
    decreases sizes.len() - i,
{
    let size = range_size(sizes, start, i);
    if i < sizes.len() {
        if i > start && sat_add(size, sizes[i] as nat) > max {
        } else {
            assert(range_size(sizes, start, i + 1) == sat_add(size, sizes[i] as nat));
            lemma_shard_end(sizes, start, i + 1, max);
        }
    }
}

/// The shards follow on each other without gap or overlap, from the first tensor to the last; none
/// is empty; one with more than one tensor stays within the limit; and each takes as many tensors
/// as it can.
pub proof fn law_shards(sizes: Seq<u64>, start: int, max: u64)
    requires
        0 <= start <= sizes.len(),
        sizes.len() <= usize::MAX,
    ensures
        ({
            let s = shards_from(sizes, start, max);
            &&& start < sizes.len() <==> s.len() > 0
            &&& s.len() > 0 ==> s[0].0 == start && s.last().1 == sizes.len()
            &&& forall|k: int| 0 < k < s.len() ==> (#[trigger] s[k]).0 == s[k - 1].1
            &&& forall|k: int|
                0 <= k < s.len() ==> {
                    let (a, b) = (#[trigger] s[k]);
                    &&& start <= a < b <= sizes.len()
                    &&& b > a + 1 ==> range_size(sizes, a as int, b as int) <= max
                    &&& b < sizes.len() ==> sat_add(
                        range_size(sizes, a as int, b as int),
                        sizes[b as int] as nat,
                    ) > max
                }
        }),
    decreases sizes.len() - start,
{
    if start < sizes.len() {
        assert(range_size(sizes, start, start) == 0);
        lemma_shard_end(sizes, start, start, max);
        let end = shard_end(sizes, start, start, 0, max);
        law_shards(sizes, end, max);
        let rest = shards_from(sizes, end, max);
        let s = shards_from(sizes, start, max);
        let head = (start as usize, end as usize);
        assert(s == seq![head] + rest);
        assert forall|k: int| 0 < k < s.len() implies (#[trigger] s[k]).0 == s[k - 1].1 by {
            assert(s[k] == rest[k - 1]);
            if k > 1 {
                assert(s[k - 1] == rest[k - 2]);
            }
        }
        assert forall|k: int| 0 <= k < s.len() implies ({
            let (a, b) = (#[trigger] s[k]);
            &&& start <= a < b <= sizes.len()
            &&& b > a + 1 ==> range_size(sizes, a as int, b as int) <= max
            &&& b < sizes.len() ==> sat_add(
                range_size(sizes, a as int, b as int),
                sizes[b as int] as nat,
            ) > max
        }) by {
            if k > 0 {
                assert(s[k] == rest[k - 1]);
            }
        }
        if rest.len() > 0 {
            assert(s.last() == rest.last());
        }
    }
}

/// Shares tensors of these sizes out to files of at most `max` bytes, in their order.
pub fn partition(sizes: &[u64], max: u64) -> (r: Vec<(usize, usize)>)
    ensures
        r@ == shards_from(sizes@, 0, max),
{
    let n: usize = sizes.len();
    let mut out: Vec<(usize, usize)> = Vec::new();
    if n == 0 {
        assert(out@ =~= shards_from(sizes@, 0, max));
        return out;
    }
    let mut start: usize = 0;
    let mut size: u64 = 0;
    let mut i: usize = 0;
    let ghost whole = shards_from(sizes@, 0, max);
    proof {
        lemma_shard_end(sizes@, 0, 0, max);
        let end = shard_end(sizes@, 0, 0, 0, max);
        assert(out@ + (seq![(0usize, end as usize)] + shards_from(sizes@, end, max)) =~= whole);
    }
    while i < n
        invariant
            start <= i <= n == sizes@.len(),
            start < n,
            whole == shards_from(sizes@, 0, max),
            whole == out@ + (seq![
                (
                    start,
                    shard_end(sizes@, start as int, i as int, size as nat, max) as usize,
                ),
            ] + shards_from(
                sizes@,
                shard_end(sizes@, start as int, i as int, size as nat, max),
                max,
            )),
        decreases n - i,
    {
        let ghost end = shard_end(sizes@, start as int, i as int, size as nat, max);
        if i > start && size.saturating_add(sizes[i]) > max {
            let ghost had = out@;
            out.push((start, i));
            start = i;
            size = 0;
            proof {
                assert(end == i);
                lemma_shard_end(sizes@, i as int, i as int, max);
                let next = shard_end(sizes@, i as int, i as int, 0, max);
                assert(had + (seq![(out@.last().0, i)] + (seq![(i, next as usize)] + shards_from(
                    sizes@,
                    next,
                    max,
                ))) =~= out@ + (seq![(i, next as usize)] + shards_from(sizes@, next, max)));
            }
        }
        size = size.saturating_add(sizes[i]);
        i = i + 1;
    }
    out.push((start, n));
    proof {
        assert(shards_from(sizes@, n as int, max) =~= Seq::empty());
        assert(out@ =~= whole);
    }
    out
}

/// `n` with at least five digits.
pub open spec fn five_digits(n: nat) -> Seq<char> {
    let d = text::decimal(n);
    if d.len() >= 5 {
        d
    } else {
        Seq::new((5 - d.len()) as nat, |i: int| '0') + d
    }
}

/// The name of file `i` of `count`.
pub open spec fn file_name(i: nat, count: nat) -> Seq<char> {
    "model-"@ + five_digits(i) + "-of-"@ + five_digits(count) + ".safetensors"@
}

/// Appends `n` with at least five digits.
fn push_five_digits(s: &mut String, n: u64)
    ensures
        final(s)@ == old(s)@ + five_digits(n as nat),
{
    let d = text::decimal_of(n);
    let len: usize = d.as_str().unicode_len();
    let mut i: usize = len;
    assert(s@ =~= old(s)@ + Seq::new(0, |i: int| '0'));
    while i < 5
        invariant
            len <= i,
            i <= 5 || i == len,
            s@ == old(s)@ + Seq::new((i - len) as nat, |i: int| '0'),
        decreases 5 - i,
    {
        s.push('0');
        i = i + 1;
        assert(s@ =~= old(s)@ + Seq::new((i - len) as nat, |i: int| '0'));
    }
    s.append(d.as_str());
    assert(s@ =~= old(s)@ + five_digits(n as nat));
}

/// The name of file `i` of `count`.
pub fn shard_filename(i: usize, count: usize) -> (r: String)
    ensures
        r@ == file_name(i as nat, count as nat),
{
    let mut s: String = "model-".to_owned();
    push_five_digits(&mut s, i as u64);
    s.append("-of-");
    push_five_digits(&mut s, count as u64);
    s.append(".safetensors");
    s
}

/// The bytes of the tensors before `i`.
pub open spec fn offset_of(items: Seq<ItemModel>, i: int) -> nat
    decreases i,
{
    if i <= 0 {
        0
    } else {
        offset_of(items, i - 1) + items[i - 1].nbytes
    }
}

/// Offsets grow.
pub proof fn lemma_offsets(items: Seq<ItemModel>, i: int, j: int)
    requires
        0 <= i <= j <= items.len(),
    ensures
        offset_of(items, i) <= offset_of(items, j),
    decreases j - i,
{
    if i < j {
        lemma_offsets(items, i, j - 1);
    }
}

/// Whole numbers as a JSON list.
pub open spec fn uint_list(s: Seq<u64>) -> JsonModel {
    JsonModel::List(s.map_values(|n: u64| JsonModel::UInt(n)))
}

/// The entry of a tensor in a header, its bytes beginning at `offset`.
pub open spec fn entry_json(item: ItemModel, offset: nat) -> JsonModel {
    JsonModel::Object(
        seq![
            (
                "data_offsets"@,
                uint_list(seq![offset as u64, (offset + item.nbytes) as u64]),
            ),
            ("dtype"@, JsonModel::Text(item.dtype.name_of())),
            ("shape"@, uint_list(item.shape)),
        ],
    )
}

/// The table of strings of a header.
pub open spec fn header_table() -> JsonModel {
    JsonModel::Object(seq![("format"@, JsonModel::Text("pt"@))])
}

/// The members of the header of a file with the first `n` of these tensors.
pub open spec fn header_members(items: Seq<ItemModel>, n: int) -> Map<Seq<char>, JsonModel>
    decreases n,
{
    if n <= 0 {
        Map::empty().insert("__metadata__"@, header_table())
    } else {
        header_members(items, n - 1).insert(
            items[n - 1].name,
            entry_json(items[n - 1], offset_of(items, n - 1)),
        )
    }
}

/// A JSON list of whole numbers.
pub fn uints(s: &[u64]) -> (r: Json)
    ensures
        r@ == uint_list(s@),
        json::normal(r@),
        json::nesting(r@) == 1,
{
    let mut items: Vec<Json> = Vec::new();
    let n: usize = s.len();
    let mut i: usize = 0;
    while i < n
        invariant
            i <= n == s@.len(),
            items@.len() == i,
            forall|j: int| 0 <= j < i ==> (#[trigger] items@[j])@ == JsonModel::UInt(s@[j]),
        decreases n - i,
    {
        items.push(Json::UInt(s[i]));
        i = i + 1;
    }
    proof {
        let m = json::list_model(items@);
        json::lemma_list_model(items@);
        assert(m =~= s@.map_values(|n: u64| JsonModel::UInt(n)));
        assert forall|i: int| 0 <= i < m.len() implies json::normal(#[trigger] m[i])
            && json::nesting(m[i]) <= 0 by {}
        json::lemma_list_normal(m);
        json::lemma_list_nesting(m, 0);
    }
    Json::List(items)
}

/// A string under a key.
fn text_pair(key: &str, s: &str) -> (r: (String, Json))
    ensures
        r.0@ == key@,
        r.1@ == JsonModel::Text(s@),
{
    (key.to_owned(), Json::Text(s.to_owned()))
}

/// The three keys of an entry are in order.
proof fn lemma_entry_keys()
    ensures
        text::precedes("data_offsets"@, "dtype"@),
        text::precedes("dtype"@, "shape"@),
        text::precedes("data_offsets"@, "shape"@),
        "data_offsets"@ != "dtype"@,
        "data_offsets"@ != "shape"@,
        "dtype"@ != "shape"@,
{
    reveal_strlit("data_offsets");
    reveal_strlit("dtype");
    reveal_strlit("shape");
    reveal_with_fuel(text::precedes, 3);
    let (a, b) = ("data_offsets"@, "dtype"@);
    assert(a.drop_first()[0] == 'a' && b.drop_first()[0] == 't');
    assert(a[0] == 'd' && b[0] == 'd');
    assert("shape"@[0] == 's');
}

/// The entry of a tensor.
fn entry_value(item: &ShardItem, offset: u64) -> (r: Json)
    requires
        offset + item.nbytes <= u64::MAX,
    ensures
        r@ == entry_json(item@, offset as nat),
        json::normal(r@),
        json::nesting(r@) <= 2,
{
    let mut range: Vec<u64> = Vec::new();
    range.push(offset);
    range.push(offset + item.nbytes);
    assert(range@ =~= seq![offset, (offset + item.nbytes) as u64]);
    let mut pairs: Vec<(String, Json)> = Vec::new();
    pairs.push(("data_offsets".to_owned(), uints(range.as_slice())));
    pairs.push(text_pair("dtype", item.dtype.name()));
    pairs.push(("shape".to_owned(), uints(item.shape.as_slice())));
    proof {
        let m = json::pairs_model(pairs@);
        json::lemma_pairs_model(pairs@);
        assert(m =~= seq![
            ("data_offsets"@, uint_list(range@)),
            ("dtype"@, JsonModel::Text(item.dtype.name_of())),
            ("shape"@, uint_list(item.shape@)),
        ]);
        lemma_entry_keys();
        assert forall|i: int, j: int| 0 <= i < j < m.len() implies text::precedes(
            (#[trigger] m[i]).0,
            (#[trigger] m[j]).0,
        ) by {
            assert((i == 0 && j == 1) || (i == 0 && j == 2) || (i == 1 && j == 2));
        }
        assert forall|i: int| 0 <= i < m.len() implies json::normal((#[trigger] m[i]).1)
            && json::nesting(m[i].1) <= 1 by {
            assert(i == 0 || i == 1 || i == 2);
            assert(pairs@[i].1@ == m[i].1);
        }
        json::lemma_pairs_normal(m);
        json::lemma_object_nesting(m, 1);
    }
    Json::Object(pairs)
}

/// The table of strings of a header.
fn table_value() -> (r: Json)
    ensures
        r@ == header_table(),
        json::normal(r@),
        json::nesting(r@) <= 2,
{
    let mut pairs: Vec<(String, Json)> = Vec::new();
    pairs.push(text_pair("format", "pt"));
    proof {
        let m = json::pairs_model(pairs@);
        json::lemma_pairs_model(pairs@);
        assert(m =~= seq![("format"@, JsonModel::Text("pt"@))]);
        assert forall|i: int| 0 <= i < m.len() implies json::normal((#[trigger] m[i]).1)
            && json::nesting(m[i].1) <= 1 by {}
        json::lemma_pairs_normal(m);
        json::lemma_object_nesting(m, 1);
    }
    Json::Object(pairs)
}

/// The header of a file with these tensors.
pub fn header_json(items: &[ShardItem]) -> (r: Json)
    requires
        offset_of(item_models(items@), items@.len() as int) <= u64::MAX,
    ensures
        r@ is Object,
        r@ == json::object(header_members(item_models(items@), items@.len() as int)),
        json::members(r@) == header_members(item_models(items@), items@.len() as int),
        json::keys_grow(r@->Object_0),
        json::normal(r@),
        json::nesting(r@) <= 3,
{
    let ghost m = item_models(items@);
    let n: usize = items.len();
    let mut map: NameMap<Json> = NameMap::new();
    map.insert("__metadata__".to_owned(), table_value());
    assert(json::models(map@) =~= header_members(m, 0));
    let mut offset: u64 = 0;
    let mut i: usize = 0;
    while i < n
        invariant
            i <= n == items@.len(),
            m == item_models(items@),
            offset_of(m, n as int) <= u64::MAX,
            offset == offset_of(m, i as int),
            map.wf(),
            json::models(map@) == header_members(m, i as int),
            forall|k: Seq<char>|
                #![trigger map@[k]]
                map@.dom().contains(k) ==> json::normal(map@[k]@) && json::nesting(map@[k]@) <= 2,
        decreases n - i,
    {
        let ghost had = map@;
        proof {
            lemma_offsets(m, i + 1, n as int);
        }
        assert(m[i as int] == items@[i as int]@);
        let v = entry_value(&items[i], offset);
        let ghost one = v@;
        map.insert(items[i].name.clone(), v);
        assert(json::models(map@) =~= json::models(had).insert(items@[i as int].name@, one));
        assert forall|k: Seq<char>|
            #![trigger map@[k]]
            map@.dom().contains(k) implies json::normal(map@[k]@) && json::nesting(map@[k]@)
            <= 2 by {
            if k != items@[i as int].name@ {
                assert(had.dom().contains(k));
                assert(had[k] == map@[k]);
            }
        }
        offset = offset + items[i].nbytes;
        i = i + 1;
    }
    proof {
        json::lemma_object(map);
        let pairs = json::pairs_model(map.items@);
        json::lemma_pairs_model(map.items@);
        assert forall|k: Seq<char>| #[trigger] map@.dom().contains(k) implies json::normal(
            map@[k]@,
        ) by {}
        assert forall|i: int| 0 <= i < pairs.len() implies json::nesting((#[trigger] pairs[i]).1)
            <= 2 by {
            map.lemma_at(i);
        }
        json::lemma_object_nesting(pairs, 2);
    }
    object_of(map)
}

/// The entry that a reader finds for a tensor.
pub open spec fn entry_model(items: Seq<ItemModel>, i: int) -> EntryModel {
    EntryModel {
        name: items[i].name,
        dtype: items[i].dtype,
        shape: items[i].shape,
        start: offset_of(items, i),
        end: offset_of(items, i) + items[i].nbytes,
    }
}

/// No two tensors have one name, and none has the name of the table of strings.
pub open spec fn names_distinct(items: Seq<ItemModel>) -> bool {
    &&& forall|i: int, j: int|
        0 <= i < j < items.len() ==> (#[trigger] items[i]).name != (#[trigger] items[j]).name
    &&& forall|i: int| 0 <= i < items.len() ==> (#[trigger] items[i]).name != "__metadata__"@
}

/// The members of a header of tensors with distinct names.
proof fn lemma_header_members(items: Seq<ItemModel>, n: int, key: Seq<char>)
    requires
        names_distinct(items),
        0 <= n <= items.len(),
    ensures
        header_members(items, n).dom().contains("__metadata__"@),
        header_members(items, n)["__metadata__"@] == header_table(),
        header_members(items, n).dom().contains(key) ==> key == "__metadata__"@ || exists|i: int|
            0 <= i < n && (#[trigger] items[i]).name == key && header_members(items, n)[key]
                == entry_json(items[i], offset_of(items, i)),
    decreases n,
{
    if n > 0 {
        lemma_header_members(items, n - 1, key);
        if items[n - 1].name != key && header_members(items, n).dom().contains(key) && key
            != "__metadata__"@ {
            let i = choose|i: int|
                0 <= i < n - 1 && (#[trigger] items[i]).name == key && header_members(
                    items,
                    n - 1,
                )[key] == entry_json(items[i], offset_of(items, i));
            assert(items[i].name == key);
        }
    }
}

/// A tensor of distinct name is a member of the header.
proof fn lemma_header_has(items: Seq<ItemModel>, n: int, i: int)
    requires
        names_distinct(items),
        0 <= i < n <= items.len(),
    ensures
        header_members(items, n).dom().contains(items[i].name),
        header_members(items, n)[items[i].name] == entry_json(items[i], offset_of(items, i)),
    decreases n,
{
    if i < n - 1 {
        lemma_header_has(items, n - 1, i);
        assert(items[i].name != items[n - 1].name);
    }
}

/// The numbers of a list of whole numbers.
proof fn lemma_uints(s: Seq<u64>)
    ensures
        safetensors::uints(s.map_values(|n: u64| JsonModel::UInt(n))) == Some(s),
    decreases s.len(),
{
    let m = s.map_values(|n: u64| JsonModel::UInt(n));
    if s.len() > 0 {
        lemma_uints(s.drop_last());
        assert(m.drop_last() =~= s.drop_last().map_values(|n: u64| JsonModel::UInt(n)));
        assert(m.last() == JsonModel::UInt(s.last()));
        assert(s.drop_last().push(s.last()) =~= s);
    } else {
        assert(s =~= Seq::empty());
    }
}

/// The entry that is written for a tensor is read as that tensor's.
proof fn lemma_entry_reads(items: Seq<ItemModel>, i: int, blob: nat)
    requires
        0 <= i < items.len(),
        blob == offset_of(items, items.len() as int),
        blob <= u64::MAX,
    ensures
        safetensors::entry_of(
            items[i].name,
            entry_json(items[i], offset_of(items, i)),
            blob,
        ) == Ok::<EntryModel, StErrorKind>(entry_model(items, i)),
{
    let offset = offset_of(items, i);
    let v = entry_json(items[i], offset);
    let pairs = v->Object_0;
    lemma_offsets(items, i + 1, items.len() as int);
    lemma_entry_keys();
    assert(json::member(pairs, "data_offsets"@) == Some(pairs[0].1));
    let p1 = pairs.drop_first();
    assert(p1[0] == pairs[1]);
    assert(json::member(p1, "dtype"@) == Some(pairs[1].1));
    assert(json::member(pairs, "dtype"@) == json::member(p1, "dtype"@));
    let p2 = p1.drop_first();
    assert(p2[0] == pairs[2]);
    assert(json::member(p2, "shape"@) == Some(pairs[2].1));
    assert(json::member(p1, "shape"@) == json::member(p2, "shape"@));
    assert(json::member(pairs, "shape"@) == json::member(p1, "shape"@));
    safetensors::law_dtype_names(items[i].dtype);
    lemma_uints(items[i].shape);
    let offs = seq![offset as u64, (offset + items[i].nbytes) as u64].map_values(
        |n: u64| JsonModel::UInt(n),
    );
    assert(offs.len() == 2);
    assert(offs[0] == JsonModel::UInt(offset as u64));
    assert(offs[1] == JsonModel::UInt((offset + items[i].nbytes) as u64));
}

/// The entries among the first `k` members of a header.
spec fn entries_up_to(
    items: Seq<ItemModel>,
    pairs: Seq<(Seq<char>, JsonModel)>,
    k: int,
) -> Map<Seq<char>, EntryModel> {
    Map::new(
        |key: Seq<char>|
            key != "__metadata__"@ && exists|j: int| 0 <= j < k && (#[trigger] pairs[j]).0 == key,
        |key: Seq<char>| entry_named(items, key),
    )
}

/// The entry of the tensor with this name.
pub open spec fn entry_named(items: Seq<ItemModel>, key: Seq<char>) -> EntryModel {
    let i = choose|i: int| 0 <= i < items.len() && (#[trigger] items[i]).name == key;
    entry_model(items, i)
}

/// The first `k` members of a header are read as the entries of their tensors.
proof fn lemma_entries_read(
    items: Seq<ItemModel>,
    pairs: Seq<(Seq<char>, JsonModel)>,
    blob: nat,
    k: int,
)
    requires
        names_distinct(items),
        json::keys_grow(pairs),
        json::members(JsonModel::Object(pairs)) == header_members(items, items.len() as int),
        blob == offset_of(items, items.len() as int),
        blob <= u64::MAX,
        0 <= k <= pairs.len(),
    ensures
        safetensors::entries_of(pairs.subrange(0, k), blob) == Ok::<
            Map<Seq<char>, EntryModel>,
            (Seq<char>, StErrorKind),
        >(entries_up_to(items, pairs, k)),
        safetensors::metadata_of(pairs.subrange(0, k)) == if exists|j: int|
            0 <= j < k && (#[trigger] pairs[j]).0 == "__metadata__"@ {
            Map::<Seq<char>, Seq<char>>::empty().insert("format"@, "pt"@)
        } else {
            Map::empty()
        },
    decreases k,
{
    let part = pairs.subrange(0, k);
    if k == 0 {
        assert(part =~= Seq::empty());
        assert(entries_up_to(items, pairs, 0) =~= Map::empty());
    } else {
        lemma_entries_read(items, pairs, blob, k - 1);
        assert(part.drop_last() =~= pairs.subrange(0, k - 1));
        assert(part.last() == pairs[k - 1]);
        let (key, v) = pairs[k - 1];
        lemma_member_at(pairs, k - 1);
        assert(json::members(JsonModel::Object(pairs)).dom().contains(key));
        assert(json::members(JsonModel::Object(pairs))[key] == v);
        lemma_header_members(items, items.len() as int, key);
        let before = entries_up_to(items, pairs, k - 1);
        let after = entries_up_to(items, pairs, k);
        if key == "__metadata__"@ {
            assert(v == header_table());
            let inner = seq![("format"@, JsonModel::Text("pt"@))];
            assert(inner.drop_last() =~= Seq::empty());
            assert(safetensors::strings_of(inner.drop_last()) =~= Map::empty());
            assert(safetensors::strings_of(inner) =~= Map::empty().insert("format"@, "pt"@));
            assert(after =~= before) by {
                assert forall|q: Seq<char>| after.dom().contains(q) == before.dom().contains(
                    q,
                ) by {
                    if after.dom().contains(q) {
                        let j = choose|j: int| 0 <= j < k && (#[trigger] pairs[j]).0 == q;
                        assert(j < k - 1);
                    }
                }
            }
            assert(forall|j: int|
                0 <= j < k - 1 ==> (#[trigger] pairs[j]).0 != "__metadata__"@) by {
                assert forall|j: int| 0 <= j < k - 1 implies (#[trigger] pairs[j]).0
                    != "__metadata__"@ by {
                    text::lemma_precedes_irreflexive(key);
                    assert(text::precedes(pairs[j].0, pairs[k - 1].0));
                }
            }
            assert(safetensors::metadata_of(part) =~= Map::empty().insert("format"@, "pt"@));
            assert(pairs[k - 1].0 == "__metadata__"@);
        } else {
            let i = choose|i: int|
                0 <= i < items.len() && (#[trigger] items[i]).name == key && header_members(
                    items,
                    items.len() as int,
                )[key] == entry_json(items[i], offset_of(items, i));
            lemma_entry_reads(items, i, blob);
            lemma_named(items, i);
            assert(after =~= before.insert(key, entry_model(items, i))) by {
                assert forall|q: Seq<char>|
                    after.dom().contains(q) == before.insert(
                        key,
                        entry_model(items, i),
                    ).dom().contains(q) by {
                    if after.dom().contains(q) && q != key {
                        let j = choose|j: int| 0 <= j < k && (#[trigger] pairs[j]).0 == q;
                        assert(j < k - 1);
                    }
                    if q == key {
                        assert(pairs[k - 1].0 == q);
                    }
                }
            }
            if exists|j: int| 0 <= j < k && (#[trigger] pairs[j]).0 == "__metadata__"@ {
                let j = choose|j: int| 0 <= j < k && (#[trigger] pairs[j]).0 == "__metadata__"@;
                assert(j < k - 1);
            }
        }
    }
}

/// The name of a tensor is that of no other.
pub proof fn lemma_named(items: Seq<ItemModel>, i: int)
    requires
        names_distinct(items),
        0 <= i < items.len(),
    ensures
        entry_named(items, items[i].name) == entry_model(items, i),
{
    let key = items[i].name;
    let j = choose|j: int| 0 <= j < items.len() && (#[trigger] items[j]).name == key;
    if i < j {
        assert(items[i].name != items[j].name);
    } else if j < i {
        assert(items[j].name != items[i].name);
    }
}

/// A member of an object whose keys grow is found under its key.
proof fn lemma_member_at(pairs: Seq<(Seq<char>, JsonModel)>, k: int)
    requires
        json::keys_grow(pairs),
        0 <= k < pairs.len(),
    ensures
        json::member(pairs, pairs[k].0) == Some(pairs[k].1),
    decreases pairs.len(),
{
    if k > 0 {
        let rest = pairs.drop_first();
        text::lemma_precedes_irreflexive(pairs[k].0);
        assert(text::precedes(pairs[0].0, pairs[k].0));
        assert forall|i: int, j: int| 0 <= i < j < rest.len() implies text::precedes(
            (#[trigger] rest[i]).0,
            (#[trigger] rest[j]).0,
        ) by {
            assert(rest[i] == pairs[i + 1] && rest[j] == pairs[j + 1]);
        }
        assert(rest[k - 1] == pairs[k]);
        lemma_member_at(rest, k - 1);
    }
}

/// What a reader finds in a file with these tensors whose data begin at `start`.
pub open spec fn shard_model(items: Seq<ItemModel>, start: nat) -> StModel {
    StModel {
        data_start: start,
        metadata: Map::<Seq<char>, Seq<char>>::empty().insert("format"@, "pt"@),
        entries: Map::new(
            |key: Seq<char>|
                exists|i: int| 0 <= i < items.len() && (#[trigger] items[i]).name == key,
            |key: Seq<char>| entry_named(items, key),
        ),
    }
}

/// A header is read as the tensors that it was written for.
proof fn lemma_header_reads(items: Seq<ItemModel>, h: JsonModel, start: nat)
    requires
        names_distinct(items),
        h is Object,
        json::keys_grow(h->Object_0),
        json::members(h) == header_members(items, items.len() as int),
        offset_of(items, items.len() as int) <= u64::MAX,
    ensures
        safetensors::file_with_header(
            h,
            start,
            start + offset_of(items, items.len() as int),
        ) == Ok::<StModel, (Seq<char>, StErrorKind)>(shard_model(items, start)),
{
    let pairs = h->Object_0;
    let blob = offset_of(items, items.len() as int);
    let n = pairs.len() as int;
    assert(h == JsonModel::Object(pairs));
    lemma_entries_read(items, pairs, blob, n);
    assert(pairs.subrange(0, n) =~= pairs);
    lemma_header_members(items, items.len() as int, "__metadata__"@);
    assert(json::members(h).dom().contains("__metadata__"@));
    lemma_key_found(pairs, "__metadata__"@);
    let want = shard_model(items, start).entries;
    let got = entries_up_to(items, pairs, n);
    assert forall|q: Seq<char>| got.dom().contains(q) == want.dom().contains(q) by {
        if got.dom().contains(q) {
            let j = choose|j: int| 0 <= j < n && (#[trigger] pairs[j]).0 == q;
            lemma_member_at(pairs, j);
            assert(json::members(h).dom().contains(q));
            lemma_header_members(items, items.len() as int, q);
        }
        if want.dom().contains(q) {
            let i = choose|i: int| 0 <= i < items.len() && (#[trigger] items[i]).name == q;
            lemma_header_has(items, items.len() as int, i);
            assert(json::members(h).dom().contains(q));
            lemma_key_found(pairs, q);
        }
    }
    assert(got =~= want);
}

/// A key of an object is the key of one of its members.
proof fn lemma_key_found(pairs: Seq<(Seq<char>, JsonModel)>, key: Seq<char>)
    requires
        json::member(pairs, key) is Some,
    ensures
        exists|j: int| 0 <= j < pairs.len() && (#[trigger] pairs[j]).0 == key,
    decreases pairs.len(),
{
    if pairs[0].0 != key {
        let rest = pairs.drop_first();
        lemma_key_found(rest, key);
        let j = choose|j: int| 0 <= j < rest.len() && (#[trigger] rest[j]).0 == key;
        assert(pairs[j + 1] == rest[j]);
    }
}

/// The bytes before the tensors' bytes in a file: the length of the header, the header, and spaces
/// up to a multiple of eight bytes.
///
/// With the tensors' bytes behind it, it is a file in which a reader finds every tensor with its
/// type, its shape and its range.
pub open spec fn is_header(items: Seq<ItemModel>, r: Seq<u8>) -> bool {
    let t = json::json_text(json::object(header_members(items, items.len() as int)));
    &&& r.len() == 8 + t.len() + (8 - t.len() % 8) % 8
    &&& r == bytes::le_bytes((r.len() - 8) as nat, 8) + (t + json::blanks(
        ((8 - t.len() % 8) % 8) as nat,
    ))
    &&& names_distinct(items) ==> forall|data: Seq<u8>|
        data.len() == offset_of(items, items.len() as int)
            ==> #[trigger] safetensors::read_file(r + data) == Ok::<
            StModel,
            (Seq<char>, StErrorKind),
        >(shard_model(items, r.len()))
}

/// What stands in a file before the tensors' bytes.
pub fn shard_header(items: &[ShardItem]) -> (r: Vec<u8>)
    requires
        offset_of(item_models(items@), items@.len() as int) <= u64::MAX,
    ensures
        is_header(item_models(items@), r@),
{
    let header = header_json(items);
    let ghost h = header@;
    let mut body = render(&header);
    let ghost t = body@;
    let len: usize = body.len();
    let pad: usize = (8 - len % 8) % 8;
    let mut i: usize = 0;
    assert(body@ =~= t + json::blanks(0));
    while i < pad
        invariant
            i <= pad,
            body@ == t + json::blanks(i as nat),
        decreases pad - i,
    {
        body.push(32);
        i = i + 1;
        assert(body@ =~= t + json::blanks(i as nat));
    }
    let mut out: Vec<u8> = Vec::new();
    push_le(&mut out, body.len() as u64, 8);
    push_all(&mut out, body.as_slice());
    proof {
        bytes::lemma_le_bytes_len(body@.len(), 8);
        assert(out@ =~= bytes::le_bytes(body@.len(), 8) + body@);
        let m = item_models(items@);
        if names_distinct(m) {
            assert forall|data: Seq<u8>|
                data.len() == offset_of(
                    m,
                    items@.len() as int,
                ) implies #[trigger] safetensors::read_file(out@ + data) == Ok::<
                StModel,
                (Seq<char>, StErrorKind),
            >(shard_model(m, out@.len())) by {
                let file = out@ + data;
                bytes::lemma_pow256();
                assert(file.subrange(0, 8) =~= bytes::le_bytes(body@.len(), 8));
                bytes::lemma_le_roundtrip(body@.len(), 8);
                assert(file.subrange(8, 8 + body@.len() as int) =~= body@);
                lemma_header_reads(m, h, out@.len());
            }
        }
    }
    out
}

/// One file of a model: its name, the range of its tensors, and what stands before their bytes.
#[derive(Debug)]
pub struct ShardFile {
    pub name: String,
    pub first: usize,
    pub end: usize,
    pub header: Vec<u8>,
}

/// The sizes of tensors.
pub open spec fn sizes_of(items: Seq<ItemModel>) -> Seq<u64> {
    Seq::new(items.len(), |i: int| items[i].nbytes as u64)
}

/// A file of the tensors of this range, the `i`th of `count`.
pub open spec fn is_file(items: Seq<ItemModel>, range: (usize, usize), i: nat, count: nat, f: ShardFile) -> bool {
    &&& f.name@ == file_name(i, count)
    &&& (f.first, f.end) == range
    &&& is_header(items.subrange(range.0 as int, range.1 as int), f.header@)
}

/// The bytes of the tensors before `k` in a part of the tensors.
proof fn lemma_part_offset(items: Seq<ItemModel>, a: int, b: int, k: int)
    requires
        0 <= a <= b <= items.len(),
        0 <= k <= b - a,
    ensures
        offset_of(items.subrange(a, b), k) == offset_of(items, a + k) - offset_of(items, a),
    decreases k,
{
    if k > 0 {
        lemma_part_offset(items, a, b, k - 1);
        assert(items.subrange(a, b)[k - 1] == items[a + k - 1]);
    }
}

/// The files of a model whose files have at most `max` bytes of tensors.
pub fn plan_files(items: &[ShardItem], max: u64) -> (r: Vec<ShardFile>)
    requires
        offset_of(item_models(items@), items@.len() as int) <= u64::MAX,
    ensures
        ({
            let m = item_models(items@);
            let s = shards_from(sizes_of(m), 0, max);
            &&& r@.len() == s.len()
            &&& forall|k: int|
                0 <= k < s.len() ==> is_file(
                    m,
                    s[k],
                    (k + 1) as nat,
                    s.len(),
                    #[trigger] r@[k],
                )
        }),
{
    let ghost m = item_models(items@);
    let mut sizes: Vec<u64> = Vec::new();
    let n: usize = items.len();
    let mut i: usize = 0;
    while i < n
        invariant
            i <= n == items@.len(),
            sizes@.len() == i,
            forall|j: int| 0 <= j < i ==> #[trigger] sizes@[j] == items@[j].nbytes,
        decreases n - i,
    {
        sizes.push(items[i].nbytes);
        i = i + 1;
    }
    assert(sizes@ =~= sizes_of(m));
    let parts = partition(sizes.as_slice(), max);
    let ghost s = parts@;
    proof {
        law_shards(sizes@, 0, max);
    }
    let count: usize = parts.len();
    let mut out: Vec<ShardFile> = Vec::new();
    let mut k: usize = 0;
    while k < count
        invariant
            k <= count == s.len(),
            s == parts@,
            m == item_models(items@),
            m.len() == items@.len(),
            offset_of(m, items@.len() as int) <= u64::MAX,
            forall|k: int|
                0 <= k < s.len() ==> ({
                    let (a, b) = (#[trigger] s[k]);
                    a < b <= items@.len()
                }),
            out@.len() == k,
            forall|j: int|
                0 <= j < k ==> is_file(m, s[j], (j + 1) as nat, count as nat, #[trigger] out@[j]),
        decreases count - k,
    {
        let (a, b) = parts[k];
        assert(s[k as int] == (a, b));
        let part = vstd::slice::slice_subrange(items, a, b);
        proof {
            assert(item_models(part@) =~= m.subrange(a as int, b as int));
            lemma_part_offset(m, a as int, b as int, b - a);
            lemma_offsets(m, b as int, m.len() as int);
        }
        let header = shard_header(part);
        let name = shard_filename(k + 1, count);
        out.push(ShardFile { name, first: a, end: b, header });
        k = k + 1;
    }
    out
}

/// The tensor `i` stands in shard `k`.
pub open spec fn stands_in(s: Seq<(usize, usize)>, i: int, k: int) -> bool {
    0 <= k < s.len() && s[k].0 <= i < s[k].1
}

/// The shard in which the tensor `i` stands.
pub open spec fn home(s: Seq<(usize, usize)>, i: int) -> int {
    choose|k: int| stands_in(s, i, k)
}

/// The name of the file of each of the first `n` tensors.
pub open spec fn weight_members(items: Seq<ItemModel>, max: u64, n: int) -> Map<
    Seq<char>,
    JsonModel,
>
    decreases n,
{
    if n <= 0 {
        Map::empty()
    } else {
        let s = shards_from(sizes_of(items), 0, max);
        let k = home(s, n - 1);
        weight_members(items, max, n - 1).insert(
            items[n - 1].name,
            JsonModel::Text(file_name((k + 1) as nat, s.len())),
        )
    }
}

/// The index of a model: the bytes of all tensors, and the file of each.
pub open spec fn is_index(items: Seq<ItemModel>, max: u64, v: JsonModel) -> bool {
    let total = offset_of(items, items.len() as int) as u64;
    exists|w: Seq<(Seq<char>, JsonModel)>|
        {
            &&& v == #[trigger] index_with(total, w)
            &&& json::keys_grow(w)
            &&& json::members(JsonModel::Object(w)) == weight_members(
                items,
                max,
                items.len() as int,
            )
        }
}

/// An index with these files.
pub open spec fn index_with(total: u64, weights: Seq<(Seq<char>, JsonModel)>) -> JsonModel {
    JsonModel::Object(
        seq![
            (
                "metadata"@,
                JsonModel::Object(seq![("total_size"@, JsonModel::UInt(total))]),
            ),
            ("weight_map"@, JsonModel::Object(weights)),
        ],
    )
}

/// Shards stand in order.
proof fn lemma_shards_apart(s: Seq<(usize, usize)>, i: int, j: int)
    requires
        0 <= i < j < s.len(),
        forall|k: int| 0 < k < s.len() ==> (#[trigger] s[k]).0 == s[k - 1].1,
        forall|k: int| 0 <= k < s.len() ==> (#[trigger] s[k]).0 < s[k].1,
    ensures
        s[i].1 <= s[j].0,
    decreases j - i,
{
    if i < j - 1 {
        lemma_shards_apart(s, i, j - 1);
    }
}

/// A shard follows on the one before it, is not empty and ends with the tensors at the latest; the
/// last one ends with them.
pub proof fn lemma_shard_at(sizes: Seq<u64>, max: u64, k: int)
    requires
        sizes.len() <= usize::MAX,
        0 <= k < shards_from(sizes, 0, max).len(),
    ensures
        ({
            let s = shards_from(sizes, 0, max);
            &&& s[k].0 == if k == 0 {
                0
            } else {
                s[k - 1].1
            }
            &&& s[k].0 < s[k].1 <= sizes.len()
            &&& k == s.len() - 1 ==> s[k].1 == sizes.len()
        }),
{
    law_shards(sizes, 0, max);
}

/// A tensor is at home in the shard in which it stands.
proof fn lemma_home(sizes: Seq<u64>, max: u64, i: int, k: int)
    requires
        sizes.len() <= usize::MAX,
        stands_in(shards_from(sizes, 0, max), i, k),
    ensures
        home(shards_from(sizes, 0, max), i) == k,
{
    let s = shards_from(sizes, 0, max);
    let c = home(s, i);
    law_shards(sizes, 0, max);
    assert(stands_in(s, i, c));
    if c < k {
        lemma_shards_apart(s, c, k);
    } else if c > k {
        lemma_shards_apart(s, k, c);
    }
}

/// The file of each tensor, and the bytes of all.
fn weight_map(items: &[ShardItem], max: u64) -> (r: (NameMap<Json>, u64))
    requires
        offset_of(item_models(items@), items@.len() as int) <= u64::MAX,
    ensures
        r.0.wf(),
        json::models(r.0@) == weight_members(item_models(items@), max, items@.len() as int),
        json::all_normal(json::models(r.0@)),
        r.1 == offset_of(item_models(items@), items@.len() as int),
{
    let ghost m = item_models(items@);
    let n: usize = items.len();
    let files = plan_files(items, max);
    let ghost s = shards_from(sizes_of(m), 0, max);
    let count: usize = files.len();
    let mut map: NameMap<Json> = NameMap::new();
    let mut total: u64 = 0;
    let mut i: usize = 0;
    let mut k: usize = 0;
    assert(json::models(map@) =~= weight_members(m, max, 0));
    while k < count
        invariant
            k <= count == s.len() == files@.len(),
            i <= n == items@.len(),
            i == if k == 0 {
                0
            } else {
                s[k - 1].1
            },
            m == item_models(items@),
            s == shards_from(sizes_of(m), 0, max),
            offset_of(m, n as int) <= u64::MAX,
            total == offset_of(m, i as int),
            forall|j: int|
                0 <= j < s.len() ==> is_file(
                    m,
                    s[j],
                    (j + 1) as nat,
                    s.len(),
                    #[trigger] files@[j],
                ),
            map.wf(),
            json::models(map@) == weight_members(m, max, i as int),
            json::all_normal(json::models(map@)),
        decreases count - k,
    {
        let end: usize = files[k].end;
        assert(is_file(m, s[k as int], (k + 1) as nat, s.len(), files@[k as int]));
        proof {
            lemma_shard_at(sizes_of(m), max, k as int);
        }
        assert(s[k as int].0 == i);
        assert(s[k as int].1 == end);
        while i < end
            invariant
                k < count == s.len() == files@.len(),
                s[k as int].0 <= i <= end <= n == items@.len(),
                s[k as int].1 == end,
                m == item_models(items@),
                s == shards_from(sizes_of(m), 0, max),
                offset_of(m, n as int) <= u64::MAX,
                total == offset_of(m, i as int),
                is_file(m, s[k as int], (k + 1) as nat, s.len(), files@[k as int]),
                map.wf(),
                json::models(map@) == weight_members(m, max, i as int),
                json::all_normal(json::models(map@)),
            decreases end - i,
        {
            proof {
                lemma_offsets(m, i + 1, n as int);
                assert(m[i as int] == items@[i as int]@);
                assert(stands_in(s, i as int, k as int));
                lemma_home(sizes_of(m), max, i as int, k as int);
            }
            put(&mut map, items[i].name.as_str(), text_value(files[k].name.as_str()));
            total = total + items[i].nbytes;
            i = i + 1;
        }
        k = k + 1;
    }
    proof {
        if count > 0 {
            lemma_shard_at(sizes_of(m), max, count - 1);
        } else {
            law_shards(sizes_of(m), 0, max);
        }
    }
    assert(i == n);
    (map, total)
}

/// An index with these files.
fn index_of(total: u64, map: NameMap<Json>) -> (r: Json)
    requires
        map.wf(),
        json::all_normal(json::models(map@)),
    ensures
        exists|w: Seq<(Seq<char>, JsonModel)>|
            {
                &&& r@ == #[trigger] index_with(total, w)
                &&& json::keys_grow(w)
                &&& json::members(JsonModel::Object(w)) == json::models(map@)
            },
        json::normal(r@),
{
    let ghost w = json::pairs_model(map.items@);
    let weights = object_of(map);
    let mut sum: Vec<(String, Json)> = Vec::new();
    sum.push(("total_size".to_owned(), Json::UInt(total)));
    let mut pairs: Vec<(String, Json)> = Vec::new();
    proof {
        json::lemma_pairs_model(sum@);
        assert(json::pairs_model(sum@) =~= seq![("total_size"@, JsonModel::UInt(total))]);
        json::lemma_pairs_normal(json::pairs_model(sum@));
    }
    let head = Json::Object(sum);
    assert(json::normal(head@));
    pairs.push(("metadata".to_owned(), head));
    pairs.push(("weight_map".to_owned(), weights));
    proof {
        json::lemma_pairs_model(pairs@);
        let p = json::pairs_model(pairs@);
        assert(JsonModel::Object(p) == index_with(total, w)) by {
            assert(p =~= index_with(total, w)->Object_0);
        }
        reveal_strlit("metadata");
        reveal_strlit("weight_map");
        assert("metadata"@[0] == 'm' && "weight_map"@[0] == 'w');
        assert(text::precedes("metadata"@, "weight_map"@));
        json::lemma_pairs_normal(p);
    }
    Json::Object(pairs)
}

/// The index of a model whose files have at most `max` bytes of tensors.
pub fn index_json(items: &[ShardItem], max: u64) -> (r: Json)
    requires
        offset_of(item_models(items@), items@.len() as int) <= u64::MAX,
    ensures
        is_index(item_models(items@), max, r@),
        json::normal(r@),
{
    let (map, total) = weight_map(items, max);
    index_of(total, map)
}

/// An index names exactly the files that are written.
pub proof fn law_index_names_the_files(items: Seq<ItemModel>, max: u64, v: JsonModel)
    requires
        is_index(items, max, v),
        items.len() <= usize::MAX,
        names_distinct(items),
    ensures
        ({
            let s = shards_from(sizes_of(items), 0, max);
            v.get("weight_map"@) matches Some(JsonModel::Object(w)) && forall|f: Seq<char>|
                #[trigger] sharded::file_names(w).contains(f) <==> exists|k: int|
                    0 <= k < s.len() && f == #[trigger] file_name((k + 1) as nat, s.len())
        }),
{
    let total = offset_of(items, items.len() as int) as u64;
    let w = choose|w: Seq<(Seq<char>, JsonModel)>|
        {
            &&& v == #[trigger] index_with(total, w)
            &&& json::keys_grow(w)
            &&& json::members(JsonModel::Object(w)) == weight_members(
                items,
                max,
                items.len() as int,
            )
        };
    let s = shards_from(sizes_of(items), 0, max);
    let top = v->Object_0;
    reveal_strlit("metadata");
    reveal_strlit("weight_map");
    assert("metadata"@[0] == 'm' && "weight_map"@[0] == 'w');
    assert(top.drop_first()[0] == top[1]);
    assert(json::member(top.drop_first(), "weight_map"@) == Some(JsonModel::Object(w)));
    assert(v.get("weight_map"@) == Some(JsonModel::Object(w)));
    law_shards(sizes_of(items), 0, max);
    assert forall|f: Seq<char>| #[trigger] sharded::file_names(w).contains(f) implies exists|
        k: int,
    | 0 <= k < s.len() && f == #[trigger] file_name((k + 1) as nat, s.len()) by {
        lemma_file_of(w, f);
        let j = choose|j: int| 0 <= j < w.len() && (#[trigger] w[j]).1 == JsonModel::Text(f);
        lemma_member_at(w, j);
        assert(json::members(JsonModel::Object(w)).dom().contains(w[j].0));
        lemma_weight(items, max, items.len() as int, w[j].0);
    }
    assert forall|f: Seq<char>|
        (exists|k: int| 0 <= k < s.len() && f == #[trigger] file_name((k + 1) as nat, s.len()))
            implies #[trigger] sharded::file_names(w).contains(f) by {
        let k = choose|k: int|
            0 <= k < s.len() && f == #[trigger] file_name((k + 1) as nat, s.len());
        let i = s[k].0 as int;
        lemma_weight_has(items, max, items.len() as int, i, k);
        let key = items[i].name;
        assert(json::members(JsonModel::Object(w)).dom().contains(key));
        lemma_key_found(w, key);
        let j = choose|j: int| 0 <= j < w.len() && (#[trigger] w[j]).0 == key;
        lemma_member_at(w, j);
        assert(w[j].1 == JsonModel::Text(f));
        lemma_file_has(w, j, f);
    }
}

/// A file that is named is the text of a member.
proof fn lemma_file_of(w: Seq<(Seq<char>, JsonModel)>, f: Seq<char>)
    requires
        sharded::file_names(w).contains(f),
    ensures
        exists|j: int| 0 <= j < w.len() && (#[trigger] w[j]).1 == JsonModel::Text(f),
    decreases w.len(),
{
    if w.last().1 != JsonModel::Text(f) {
        lemma_file_of(w.drop_last(), f);
        let j = choose|j: int|
            0 <= j < w.len() - 1 && (#[trigger] w.drop_last()[j]).1 == JsonModel::Text(f);
        assert(w[j].1 == JsonModel::Text(f));
    } else {
        assert(w[w.len() - 1].1 == JsonModel::Text(f));
    }
}

/// The text of a member is a file that is named.
proof fn lemma_file_has(w: Seq<(Seq<char>, JsonModel)>, j: int, f: Seq<char>)
    requires
        0 <= j < w.len(),
        w[j].1 == JsonModel::Text(f),
    ensures
        sharded::file_names(w).contains(f),
    decreases w.len(),
{
    if j < w.len() - 1 {
        lemma_file_has(w.drop_last(), j, f);
    }
}

/// Every member of a weight map names a file.
proof fn lemma_weight(items: Seq<ItemModel>, max: u64, n: int, key: Seq<char>)
    requires
        0 <= n <= items.len() <= usize::MAX,
        weight_members(items, max, n).dom().contains(key),
    ensures
        exists|k: int|
            0 <= k < shards_from(sizes_of(items), 0, max).len() && weight_members(
                items,
                max,
                n,
            )[key] == JsonModel::Text(
                #[trigger] file_name((k + 1) as nat, shards_from(sizes_of(items), 0, max).len()),
            ),
    decreases n,
{
    let s = shards_from(sizes_of(items), 0, max);
    if items[n - 1].name != key {
        lemma_weight(items, max, n - 1, key);
        let k = choose|k: int|
            0 <= k < s.len() && weight_members(items, max, n - 1)[key] == JsonModel::Text(
                #[trigger] file_name((k + 1) as nat, s.len()),
            );
        assert(weight_members(items, max, n)[key] == JsonModel::Text(
            file_name((k + 1) as nat, s.len()),
        ));
    } else {
        law_shards(sizes_of(items), 0, max);
        lemma_stands(sizes_of(items), 0, max, n - 1);
        let k = home(s, n - 1);
        assert(weight_members(items, max, n)[key] == JsonModel::Text(
            file_name((k + 1) as nat, s.len()),
        ));
    }
}

/// Every tensor stands in a shard.
proof fn lemma_stands(sizes: Seq<u64>, start: int, max: u64, i: int)
    requires
        0 <= start <= i < sizes.len() <= usize::MAX,
    ensures
        exists|k: int| stands_in(shards_from(sizes, start, max), i, k),
    decreases sizes.len() - start,
{
    let s = shards_from(sizes, start, max);
    assert(range_size(sizes, start, start) == 0);
    lemma_shard_end(sizes, start, start, max);
    let end = shard_end(sizes, start, start, 0, max);
    let rest = shards_from(sizes, end, max);
    assert(s == seq![(start as usize, end as usize)] + rest);
    if i < end {
        assert(stands_in(s, i, 0));
    } else {
        lemma_stands(sizes, end, max, i);
        let k = choose|k: int| stands_in(rest, i, k);
        assert(s[k + 1] == rest[k]);
        assert(stands_in(s, i, k + 1));
    }
}

/// A tensor of distinct name has its file in a weight map.
pub proof fn lemma_weight_has(items: Seq<ItemModel>, max: u64, n: int, i: int, k: int)
    requires
        names_distinct(items),
        0 <= i < n <= items.len() <= usize::MAX,
        stands_in(shards_from(sizes_of(items), 0, max), i, k),
    ensures
        weight_members(items, max, n).dom().contains(items[i].name),
        weight_members(items, max, n)[items[i].name] == JsonModel::Text(
            file_name((k + 1) as nat, shards_from(sizes_of(items), 0, max).len()),
        ),
    decreases n,
{
    let s = shards_from(sizes_of(items), 0, max);
    if i < n - 1 {
        lemma_weight_has(items, max, n - 1, i, k);
        assert(items[i].name != items[n - 1].name);
    } else {
        lemma_home(sizes_of(items), max, i, k);
    }
}

} // verus!
