//! What an importance matrix promises.
use vstd::prelude::*;
use crate::bytes;
use crate::floats::to_whole;
use crate::gguf::geometry::TensorError;
use crate::gguf::reader::{GgufReader, TensorInfo};
use crate::imatrix;
use crate::imatrix::{
    count_nonfinite, count_nonpositive, cross_check, load_imatrix, load_imatrix_flat,
    load_imatrix_gguf, ErrorModel, Imatrix, ImatrixEntry, ImatrixError,
};

verus! {

/// The unsigned number in four bytes, the lowest byte first.
pub open spec fn word(b: Seq<u8>, at: int) -> nat {
    bytes::le_value(b.subrange(at, at + 4))
}

/// A flat stream begins with the number of its records in four bytes. More than a million are not
/// believed, and without records there are no entries.
pub proof fn law_streams_begin_with_their_count(b: &[u8], r: Result<Imatrix, ImatrixError>)
    requires
        call_ensures(load_imatrix_flat, (b,), r),
    ensures
        b@.len() < 4 ==> (r matches Err(e) && e@ == ErrorModel::PastEof),
        b@.len() >= 4 && word(b@, 0) > 1_000_000 ==> (r matches Err(e) && e@
            == ErrorModel::TooManyTensors),
        b@.len() >= 4 && word(b@, 0) == 0 ==> (r matches Ok(im) && im.entries@.dom()
            =~= Set::<Seq<char>>::empty()),
{
    if b@.len() >= 4 && word(b@, 0) == 0 {
        let m = imatrix::entry_models(r->Ok_0.entries@);
        assert(m == Map::<Seq<char>, imatrix::EntryModel>::empty());
        assert(m.dom() =~= r->Ok_0.entries@.dom());
    }
}

/// Data that begin with the four letters of a model file are read as one, and all others as a flat
/// stream.
pub proof fn law_matrices_are_told_by_their_first_bytes(
    b: &[u8],
    r: Result<Imatrix, ImatrixError>,
    flat: Result<Imatrix, ImatrixError>,
)
    requires
        b@.len() <= isize::MAX,
        call_ensures(load_imatrix, (b,), r),
        call_ensures(load_imatrix_flat, (b,), flat),
        b@.len() < 4 || b@.subrange(0, 4) != seq![0x47u8, 0x47, 0x55, 0x46],
    ensures
        imatrix::outcome(r) == imatrix::outcome(flat),
{
}

/// The sums of a tensor stand in a model file under its name and `.in_sum2`: a matrix has an entry
/// for exactly the tensors with such sums, and a file without any is refused.
pub proof fn law_sums_are_found_by_name(
    file: &GgufReader<'_>,
    r: Result<Imatrix, ImatrixError>,
    weight: Seq<char>,
    i: int,
)
    requires
        call_ensures(load_imatrix_gguf, (file,), r),
        0 <= i < file.tensors@.len(),
    ensures
        r matches Ok(im) ==> (file.tensors@[i].name@ == weight + ".in_sum2"@
            ==> im.entries@.dom().contains(weight)),
        r matches Ok(im) ==> (im.entries@.dom().contains(weight) ==> exists|j: int|
            0 <= j < file.tensors@.len() && (#[trigger] file.tensors@[j]).name@ == weight
                + ".in_sum2"@),
        r matches Err(e) ==> e@ == ErrorModel::NoSums ==> !".in_sum2"@.is_suffix_of(
            file.tensors@[i].name@,
        ),
{
    let m = file@;
    assert(m.tensors[i] == file.tensors@[i]@);
    match r {
        Ok(im) => {
            let all = imatrix::entry_models(im.entries@);
            assert(all.dom().contains(weight) == im.entries@.dom().contains(weight));
            lemma_last_sums(m, weight, m.tensors.len() as int);
            let n = m.tensors.len() as int;
            if file.tensors@[i].name@ == weight + ".in_sum2"@ {
                lemma_weight(m.tensors[i].name, weight);
                assert(imatrix::last_sums(m, weight, n) is Some);
            }
            if im.entries@.dom().contains(weight) {
                let j = imatrix::last_sums(m, weight, n)->0;
                lemma_weight(m.tensors[j].name, weight);
                assert(file.tensors@[j].name@ == weight + ".in_sum2"@);
            }
        },
        Err(e) => {
            if e@ == ErrorModel::NoSums {
                assert(!imatrix::has_sums(m, i));
            }
        },
    }
}

/// A tensor's sums are known by the ending of their name.
proof fn lemma_weight(name: Seq<char>, weight: Seq<char>)
    ensures
        imatrix::weight_of(name) == Some(weight) <==> name == weight + ".in_sum2"@,
{
    let s = ".in_sum2"@;
    if name == weight + s {
        assert(name.subrange(weight.len() as int, name.len() as int) =~= s);
        assert(name.subrange(0, weight.len() as int) =~= weight);
    }
    if imatrix::weight_of(name) == Some(weight) {
        assert(name =~= weight + s);
    }
}

/// The last sums of a tensor are sums of it, and there are some where one of the tensors has them.
proof fn lemma_last_sums(m: crate::gguf::reader::FileModel, weight: Seq<char>, n: int)
    requires
        0 <= n <= m.tensors.len(),
    ensures
        match imatrix::last_sums(m, weight, n) {
            Some(j) => 0 <= j < n && imatrix::weight_of(m.tensors[j].name) == Some(weight),
            None => forall|j: int|
                0 <= j < n ==> imatrix::weight_of((#[trigger] m.tensors[j]).name) != Some(weight),
        },
    decreases n,
{
    if n > 0 {
        lemma_last_sums(m, weight, n - 1);
    }
}

/// One more entry adds its own bad values: those that are not finite, and those that are not
/// positive either.
pub proof fn law_bad_values_are_counted(
    a: &Imatrix,
    b: &Imatrix,
    e: (String, ImatrixEntry),
    fa: u128,
    fb: u128,
    pa: u128,
    pb: u128,
)
    requires
        b.entries.items@ == a.entries.items@.push(e),
        call_ensures(count_nonfinite, (a,), fa),
        call_ensures(count_nonfinite, (b,), fb),
        call_ensures(count_nonpositive, (a,), pa),
        call_ensures(count_nonpositive, (b,), pb),
    ensures
        a.entries.items@.len() == 0 ==> fa == 0 && pa == 0,
        fb == fa + e.1.values@.filter(|x: u32| x % 0x8000_0000 >= 0x7f80_0000).len(),
        pb == pa + e.1.values@.filter(|x: u32| x == 0 || x >= 0x7f80_0000).len(),
{
    assert(b.entries.items@.drop_last() =~= a.entries.items@);
    lemma_bad(e.1.values@);
}

/// Bad values are those that their bits tell.
proof fn lemma_bad(v: Seq<u32>)
    ensures
        imatrix::bad_values(v, false) == v.filter(|x: u32| x % 0x8000_0000 >= 0x7f80_0000).len(),
        imatrix::bad_values(v, true) == v.filter(|x: u32| x == 0 || x >= 0x7f80_0000).len(),
    decreases v.len(),
{
    reveal(Seq::filter);
    if v.len() > 0 {
        lemma_bad(v.drop_last());
    }
}

/// A tensor of a model is matched where the matrix has an entry of its name.
pub proof fn law_matches_are_counted(
    im: &Imatrix,
    a: &[TensorInfo],
    b: &[TensorInfo],
    t: TensorInfo,
    x: (usize, usize),
    y: (usize, usize),
)
    requires
        im.wf(),
        b@ == a@.push(t),
        call_ensures(cross_check, (im, a), x),
        call_ensures(cross_check, (im, b), y),
    ensures
        a@.len() == 0 ==> x == (0usize, 0usize),
        im.entries@.dom().contains(t.name@) ==> y == ((x.0 + 1) as usize, x.1),
        !im.entries@.dom().contains(t.name@) ==> y == (x.0, (x.1 + 1) as usize),
{
    assert(b@.drop_last() =~= a@);
}

/// A lookup gives the values of the entry of that name.
pub proof fn law_lookups(im: &Imatrix, name: &str, r: Option<&[u32]>)
    requires
        im.wf(),
        call_ensures(Imatrix::get, (im, name), r),
    ensures
        r is Some <==> im.entries@.dom().contains(name@),
        r matches Some(v) ==> v@ == im.entries@[name@].values@,
{
}

/// The calls of a tensor stand in a model file under its name and `.counts`: without such a tensor
/// there are none.
pub proof fn law_calls_are_found_by_name(
    file: &GgufReader<'_>,
    im: Imatrix,
    weight: Seq<char>,
)
    requires
        call_ensures(load_imatrix_gguf, (file,), Ok::<Imatrix, ImatrixError>(im)),
        im.entries@.dom().contains(weight),
        forall|j: int|
            0 <= j < file.tensors@.len() ==> (#[trigger] file.tensors@[j]).name@ != weight
                + ".counts"@,
    ensures
        im.entries@[weight].ncall == 0,
{
    let m = file@;
    let all = imatrix::entry_models(im.entries@);
    assert(all.dom().contains(weight));
    assert(all[weight] == im.entries@[weight]@);
    let name = weight + ".counts"@;
    assert(imatrix::calls_of(file.data@, m, weight, all[weight].ncall));
    if exists|i: int| #[trigger]
        imatrix::first_named(m, name, i) && imatrix::first_element(
            file.data@,
            m,
            i,
            all[weight].ncall,
        ) {
        let i = choose|i: int| #[trigger]
            imatrix::first_named(m, name, i) && imatrix::first_element(
                file.data@,
                m,
                i,
                all[weight].ncall,
            );
        assert(file.tensors@[i].name@ == name);
    }
}

/// The calls of a tensor are the whole part of the first float under its name and `.counts`, where
/// that is a tensor of single-precision floats.
pub proof fn law_calls_are_the_first_count(
    file: &GgufReader<'_>,
    im: Imatrix,
    weight: Seq<char>,
    name: &str,
    at: usize,
    v: Vec<u32>,
    n: u32,
)
    requires
        call_ensures(load_imatrix_gguf, (file,), Ok::<Imatrix, ImatrixError>(im)),
        im.entries@.dom().contains(weight),
        name@ == weight + ".counts"@,
        call_ensures(GgufReader::find_tensor, (file, name), Some(at)),
        file.tensors@[at as int].ggml_type == 0,
        call_ensures(GgufReader::tensor_to_f32, (file, at), Ok::<Vec<u32>, TensorError>(v)),
        0 < v@.len() <= usize::MAX,
        call_ensures(to_whole, (v@[0],), n),
    ensures
        im.entries@[weight].ncall == n,
{
    let m = file@;
    let data = file.data@;
    let all = imatrix::entry_models(im.entries@);
    assert(all.dom().contains(weight));
    assert(all[weight] == im.entries@[weight]@);
    let calls = all[weight].ncall;
    assert(imatrix::calls_of(data, m, weight, calls));
    assert(m.tensors[at as int] == file.tensors@[at as int]@);
    assert(m.tensors[at as int].name == name@);
    let i = choose|i: int| #[trigger]
        imatrix::first_named(m, name@, i) && imatrix::first_element(data, m, i, calls);
    assert(file.tensors@[i].name@ == name@);
    if i < at {
        assert(file.tensors@[i].name@ != name@);
    }
    assert(i == at);
    assert(imatrix::fault_of(data, m, i) is None);
    let w = choose|w: Seq<u32>| #[trigger]
        imatrix::elements(data, m, i, w) && calls == if w.len() == 0 {
            0
        } else {
            crate::floats::whole_part(w[0])
        };
    assert(w.len() > 0);
    assert(w[0] == v@[0]);
}

} // verus!
