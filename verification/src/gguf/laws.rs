//! What reading gives back of writing.
use vstd::prelude::*;
use vstd::utf8::*;
use crate::bytes;
use crate::gguf::geometry;
use crate::gguf::reader;
use crate::gguf::reader::{FileModel, GgufReader, TensorModel};
use crate::gguf::value;
use crate::gguf::value::{GgufError, ValueModel};
use crate::gguf::writer;
use crate::gguf::writer::{GgufWriter, PlanModel, TensorSpec};

verus! {

/// A pair that a file can hold: arrays hold items of the type they announce, and every length fits
/// in the bits that the format has for it.
pub open spec fn pair_fits(pair: (Seq<char>, ValueModel)) -> bool {
    &&& encode_utf8(pair.0).len() <= u64::MAX
    &&& value::well_typed(pair.1)
    &&& value::lengths_fit(pair.1)
}

/// A tensor header that a file can hold.
pub open spec fn info_fits(t: TensorModel) -> bool {
    &&& encode_utf8(t.name).len() <= u64::MAX
    &&& t.dims.len() <= u32::MAX
}

/// What can be written so that it can be read back: a version that readers accept, pairs and
/// headers that fit, and an alignment that fits in the 32 bits that the format has for it and that
/// no pair contradicts.
pub open spec fn writable(
    kv: Seq<(Seq<char>, ValueModel)>,
    plans: Seq<PlanModel>,
    alignment: nat,
    version: u32,
) -> bool {
    &&& version == 2 || version == 3
    &&& writer::stated(kv, alignment).len() <= u64::MAX
    &&& plans.len() <= u64::MAX
    &&& writer::sizes_fit(kv, plans, alignment, version)
    &&& forall|i: int| 0 <= i < kv.len() ==> pair_fits(#[trigger] kv[i])
    &&& forall|i: int|
        0 <= i < plans.len() ==> {
            &&& encode_utf8((#[trigger] plans[i]).name).len() <= u64::MAX
            &&& plans[i].dims.len() <= u32::MAX
        }
    &&& alignment <= u32::MAX
    &&& !writer::unstated(kv) ==> reader::alignment_of(kv) == writer::unit(alignment)
}

/// The value that the writer puts behind the pairs is the first under its key.
proof fn lemma_first_is_last(kv: Seq<(Seq<char>, ValueModel)>, pair: (Seq<char>, ValueModel))
    requires
        forall|i: int| 0 <= i < kv.len() ==> (#[trigger] kv[i]).0 != pair.0,
    ensures
        reader::first_value(kv.push(pair), pair.0) == Some(pair.1),
    decreases kv.len(),
{
    let longer = kv.push(pair);
    if kv.len() > 0 {
        let rest = kv.drop_first();
        assert forall|i: int| 0 <= i < rest.len() implies (#[trigger] rest[i]).0 != pair.0 by {
            assert(rest[i] == kv[i + 1]);
        }
        lemma_first_is_last(rest, pair);
        assert(longer.drop_first() =~= rest.push(pair));
        assert(longer[0] == kv[0]);
    }
}

/// The pairs of a file state the alignment that is used, and fit where the given ones do.
pub proof fn lemma_alignment_is_stated(
    kv: Seq<(Seq<char>, ValueModel)>,
    plans: Seq<PlanModel>,
    alignment: nat,
    version: u32,
)
    requires
        writable(kv, plans, alignment, version),
    ensures
        reader::alignment_of(writer::stated(kv, alignment)) == writer::unit(alignment),
        forall|i: int|
            0 <= i < writer::stated(kv, alignment).len() ==> pair_fits(
                #[trigger] writer::stated(kv, alignment)[i],
            ),
{
    let pairs = writer::stated(kv, alignment);
    if writer::must_state(kv, alignment) {
        let pair = ("general.alignment"@, ValueModel::U32(writer::unit(alignment) as u32));
        lemma_first_is_last(kv, pair);
        reveal_strlit("general.alignment");
        is_ascii_chars_encode_utf8("general.alignment"@);
        assert forall|i: int| 0 <= i < pairs.len() implies pair_fits(#[trigger] pairs[i]) by {
            if i < kv.len() {
                assert(pairs[i] == kv[i]);
            }
        }
    } else if writer::unstated(kv) {
        lemma_no_alignment_is_default(kv);
    }
}

/// A pair that stands in the data is read as that pair.
pub proof fn lemma_pair_roundtrip(b: Seq<u8>, pos: int, pair: (Seq<char>, ValueModel))
    requires
        bytes::stands_at(b, pos, writer::pair_bytes(pair)),
        pair_fits(pair),
    ensures
        reader::read_kv(b, pos) == Ok::<_, GgufError>(
            (pair, pos + writer::pair_bytes(pair).len()),
        ),
{
    let (key, v) = pair;
    let k = value::str_bytes(key);
    let code = value::type_code(value::type_of(v)) as nat;
    let c = bytes::le_bytes(code, 4);
    let e = value::value_bytes(v);
    bytes::lemma_pow256();
    bytes::lemma_le_bytes_len(code, 4);
    bytes::lemma_stands_split(b, pos, k, c + e);
    bytes::lemma_stands_split(b, pos + k.len(), c, e);
    value::lemma_str_roundtrip(b, pos, key);
    value::lemma_num_roundtrip(b, pos + k.len(), code, 4);
    value::lemma_type_codes(value::type_of(v));
    value::lemma_value_roundtrip(b, pos + k.len() + 4, v);
}

/// Pairs that stand in the data one behind the other are read as those pairs.
pub proof fn lemma_kv_roundtrip(b: Seq<u8>, pos: int, kv: Seq<(Seq<char>, ValueModel)>)
    requires
        bytes::stands_at(b, pos, writer::kv_bytes(kv)),
        forall|i: int| 0 <= i < kv.len() ==> pair_fits(#[trigger] kv[i]),
    ensures
        reader::read_list(reader::kv_reader(b), pos, kv.len()) == Ok::<_, GgufError>(
            (kv, pos + writer::kv_bytes(kv).len()),
        ),
    decreases kv.len(),
{
    if kv.len() == 0 {
        assert(kv =~= Seq::empty());
    } else {
        let first = writer::pair_bytes(kv[0]);
        let rest = kv.drop_first();
        bytes::lemma_stands_split(b, pos, first, writer::kv_bytes(rest));
        lemma_pair_roundtrip(b, pos, kv[0]);
        assert(reader::kv_reader(b)(pos) == reader::read_kv(b, pos));
        assert forall|i: int| 0 <= i < rest.len() implies pair_fits(#[trigger] rest[i]) by {
            assert(rest[i] == kv[i + 1]);
        }
        lemma_kv_roundtrip(b, pos + first.len(), rest);
        assert(seq![kv[0]] + rest =~= kv);
    }
}

/// Numbers that stand in the data one behind the other are read as those numbers.
pub proof fn lemma_dims_roundtrip(b: Seq<u8>, pos: int, s: Seq<u64>)
    requires
        bytes::stands_at(b, pos, writer::u64s_bytes(s)),
    ensures
        reader::read_list(reader::dim_reader(b), pos, s.len()) == Ok::<_, GgufError>(
            (s, pos + writer::u64s_bytes(s).len()),
        ),
    decreases s.len(),
{
    if s.len() == 0 {
        assert(s =~= Seq::empty());
    } else {
        let first = bytes::le_bytes(s[0] as nat, 8);
        let rest = s.drop_first();
        bytes::lemma_pow256();
        bytes::lemma_le_bytes_len(s[0] as nat, 8);
        bytes::lemma_stands_split(b, pos, first, writer::u64s_bytes(rest));
        value::lemma_num_roundtrip(b, pos, s[0] as nat, 8);
        assert(reader::dim_reader(b)(pos) == reader::read_dim(b, pos));
        lemma_dims_roundtrip(b, pos + 8, rest);
        assert(seq![s[0]] + rest =~= s);
    }
}

/// A tensor header that stands in the data is read as that header.
pub proof fn lemma_info_roundtrip(b: Seq<u8>, pos: int, t: TensorModel)
    requires
        bytes::stands_at(b, pos, writer::info_bytes(t)),
        info_fits(t),
    ensures
        reader::read_info(b, pos) == Ok::<_, GgufError>((t, pos + writer::info_bytes(t).len())),
{
    let name = value::str_bytes(t.name);
    let count = bytes::le_bytes(t.dims.len(), 4);
    let disk = t.dims.reverse();
    let dims = writer::u64s_bytes(disk);
    let ty = bytes::le_bytes(t.ggml_type as nat, 4);
    let off = bytes::le_bytes(t.offset as nat, 8);
    bytes::lemma_pow256();
    bytes::lemma_le_bytes_len(t.dims.len(), 4);
    bytes::lemma_le_bytes_len(t.ggml_type as nat, 4);
    bytes::lemma_le_bytes_len(t.offset as nat, 8);
    bytes::lemma_stands_split(b, pos, name, count + (dims + (ty + off)));
    let p = pos + name.len();
    bytes::lemma_stands_split(b, p, count, dims + (ty + off));
    bytes::lemma_stands_split(b, p + 4, dims, ty + off);
    let q = p + 4 + dims.len();
    bytes::lemma_stands_split(b, q, ty, off);
    value::lemma_str_roundtrip(b, pos, t.name);
    value::lemma_num_roundtrip(b, p, t.dims.len(), 4);
    lemma_dims_roundtrip(b, p + 4, disk);
    value::lemma_num_roundtrip(b, q, t.ggml_type as nat, 4);
    value::lemma_num_roundtrip(b, q + 4, t.offset as nat, 8);
    assert(disk.reverse() =~= t.dims);
}

/// Tensor headers that stand in the data one behind the other are read as those headers.
pub proof fn lemma_infos_roundtrip(b: Seq<u8>, pos: int, infos: Seq<TensorModel>)
    requires
        bytes::stands_at(b, pos, writer::infos_bytes(infos)),
        forall|i: int| 0 <= i < infos.len() ==> info_fits(#[trigger] infos[i]),
    ensures
        reader::read_list(reader::info_reader(b), pos, infos.len()) == Ok::<_, GgufError>(
            (infos, pos + writer::infos_bytes(infos).len()),
        ),
    decreases infos.len(),
{
    if infos.len() == 0 {
        assert(infos =~= Seq::empty());
    } else {
        let first = writer::info_bytes(infos[0]);
        let rest = infos.drop_first();
        bytes::lemma_stands_split(b, pos, first, writer::infos_bytes(rest));
        lemma_info_roundtrip(b, pos, infos[0]);
        assert(reader::info_reader(b)(pos) == reader::read_info(b, pos));
        assert forall|i: int| 0 <= i < rest.len() implies info_fits(#[trigger] rest[i]) by {
            assert(rest[i] == infos[i + 1]);
        }
        lemma_infos_roundtrip(b, pos + first.len(), rest);
        assert(seq![infos[0]] + rest =~= infos);
    }
}

/// The parts of a header stand one behind the other.
proof fn lemma_header_parts(
    b: Seq<u8>,
    m: Seq<u8>,
    v: Seq<u8>,
    nt: Seq<u8>,
    nk: Seq<u8>,
    kvb: Seq<u8>,
    ib: Seq<u8>,
)
    requires
        bytes::stands_at(b, 0, m + (v + (nt + (nk + (kvb + ib))))),
        m.len() == 4,
        v.len() == 4,
        nt.len() == 8,
        nk.len() == 8,
    ensures
        bytes::stands_at(b, 0, m),
        bytes::stands_at(b, 4, v),
        bytes::stands_at(b, 8, nt),
        bytes::stands_at(b, 16, nk),
        bytes::stands_at(b, 24, kvb),
        bytes::stands_at(b, 24 + kvb.len() as int, ib),
{
    bytes::lemma_stands_split(b, 0, m, v + (nt + (nk + (kvb + ib))));
    bytes::lemma_stands_split(b, 4, v, nt + (nk + (kvb + ib)));
    bytes::lemma_stands_split(b, 8, nt, nk + (kvb + ib));
    bytes::lemma_stands_split(b, 16, nk, kvb + ib);
    bytes::lemma_stands_split(b, 24, kvb, ib);
}

/// A header made of these pairs and tensor headers.
spec fn header_of(
    pairs: Seq<(Seq<char>, ValueModel)>,
    infos: Seq<TensorModel>,
    version: u32,
) -> Seq<u8> {
    reader::magic() + (bytes::le_bytes(version as nat, 4) + (bytes::le_bytes(infos.len(), 8) + (
    bytes::le_bytes(pairs.len(), 8) + (writer::kv_bytes(pairs) + writer::infos_bytes(infos)))))
}

/// A header with anything behind it is read as the pairs and tensor headers it was made of.
#[verifier::spinoff_prover]
#[verifier::rlimit(60)]
proof fn lemma_made_header_roundtrip(
    pairs: Seq<(Seq<char>, ValueModel)>,
    infos: Seq<TensorModel>,
    version: u32,
    rest: Seq<u8>,
)
    requires
        version == 2 || version == 3,
        pairs.len() <= u64::MAX,
        infos.len() <= u64::MAX,
        forall|i: int| 0 <= i < pairs.len() ==> pair_fits(#[trigger] pairs[i]),
        forall|i: int| 0 <= i < infos.len() ==> info_fits(#[trigger] infos[i]),
    ensures
        reader::read_header(header_of(pairs, infos, version) + rest) == Ok::<_, GgufError>(
            (version, pairs, infos, header_of(pairs, infos, version).len() as int),
        ),
{
    let h = header_of(pairs, infos, version);
    let b = h + rest;
    let v = bytes::le_bytes(version as nat, 4);
    let nt = bytes::le_bytes(infos.len(), 8);
    let nk = bytes::le_bytes(pairs.len(), 8);
    let kvb = writer::kv_bytes(pairs);
    let ib = writer::infos_bytes(infos);
    bytes::lemma_pow256();
    bytes::lemma_le_bytes_len(version as nat, 4);
    bytes::lemma_le_bytes_len(infos.len(), 8);
    bytes::lemma_le_bytes_len(pairs.len(), 8);
    assert(b.subrange(0, h.len() as int) =~= h);
    lemma_header_parts(b, reader::magic(), v, nt, nk, kvb, ib);
    value::lemma_num_roundtrip(b, 4, version as nat, 4);
    value::lemma_num_roundtrip(b, 8, infos.len(), 8);
    value::lemma_num_roundtrip(b, 16, pairs.len(), 8);
    lemma_kv_roundtrip(b, 24, pairs);
    lemma_infos_roundtrip(b, 24int + kvb.len(), infos);
}

/// A header with anything behind it is read as what it was written for.
pub proof fn lemma_header_roundtrip(
    kv: Seq<(Seq<char>, ValueModel)>,
    plans: Seq<PlanModel>,
    alignment: nat,
    version: u32,
    rest: Seq<u8>,
)
    requires
        writable(kv, plans, alignment, version),
    ensures
        reader::read_header(writer::header(kv, plans, alignment, version) + rest) == Ok::<
            _,
            GgufError,
        >(
            (
                version,
                writer::stated(kv, alignment),
                writer::placed(plans, alignment),
                writer::header(kv, plans, alignment, version).len() as int,
            ),
        ),
{
    let pairs = writer::stated(kv, alignment);
    let infos = writer::placed(plans, alignment);
    lemma_alignment_is_stated(kv, plans, alignment, version);
    assert forall|i: int| 0 <= i < infos.len() implies info_fits(#[trigger] infos[i]) by {
        assert(infos[i].name == plans[i].name);
    }
    lemma_made_header_roundtrip(pairs, infos, version, rest);
    assert(header_of(pairs, infos, version) == writer::header(kv, plans, alignment, version));
}

/// The data of a tensor stand in the data section at the offset that its header states.
pub proof fn lemma_body_holds(
    plans: Seq<PlanModel>,
    datas: Seq<Seq<u8>>,
    alignment: nat,
    i: int,
    k: int,
)
    requires
        plans.len() == datas.len(),
        0 <= i < k <= datas.len(),
        forall|j: int| 0 <= j < datas.len() ==> (#[trigger] plans[j]).nbytes == datas[j].len(),
    ensures
        bytes::stands_at(
            writer::body(datas.subrange(0, k), alignment),
            writer::offset_of(plans, alignment, i) as int,
            datas[i],
        ),
        writer::body(datas.subrange(0, k), alignment).len() == writer::offset_of(
            plans,
            alignment,
            k,
        ),
    decreases k,
{
    let part = datas.subrange(0, k);
    let shorter = datas.subrange(0, k - 1);
    assert(part.drop_last() =~= shorter);
    assert(part.last() == datas[k - 1]);
    geometry::lemma_aligned(datas[k - 1].len(), alignment);
    let before = writer::body(shorter, alignment);
    let last = writer::padded(datas[k - 1], alignment);
    assert(plans[k - 1].nbytes == datas[k - 1].len());
    if k == 1 {
        assert(shorter =~= Seq::empty());
        assert(before.len() == 0);
        assert(writer::offset_of(plans, alignment, 0) == 0);
    } else {
        lemma_body_holds(
            plans,
            datas,
            alignment,
            if i == k - 1 {
                0
            } else {
                i
            },
            k - 1,
        );
    }
    assert(before.len() == writer::offset_of(plans, alignment, k - 1));
    let whole = writer::body(part, alignment);
    assert(whole == before + last);
    let at = writer::offset_of(plans, alignment, i) as int;
    if i == k - 1 {
        assert(whole.subrange(at, at + datas[i].len()) =~= datas[i]);
    } else {
        assert(before.subrange(at, at + datas[i].len()) == datas[i]);
        assert(whole.subrange(at, at + datas[i].len()) =~= before.subrange(
            at,
            at + datas[i].len(),
        ));
    }
}

/// A file that was written, whatever its alignment, is read back whole: version, alignment,
/// metadata in their order, tensor headers with their places, and for every tensor whose data have the size of its type and dimensions,
/// exactly those data.
pub proof fn law_file_reads_back(
    kv: Seq<(Seq<char>, ValueModel)>,
    plans: Seq<PlanModel>,
    datas: Seq<Seq<u8>>,
    alignment: nat,
    version: u32,
)
    requires
        writable(kv, plans, alignment, version),
        plans.len() == datas.len(),
        forall|j: int| 0 <= j < datas.len() ==> (#[trigger] plans[j]).nbytes == datas[j].len(),
    ensures
        ({
            let file = writer::file_bytes(kv, plans, datas, alignment, version);
            let start = geometry::aligned(
                writer::header(kv, plans, alignment, version).len(),
                alignment,
            ) as u64;
            let infos = writer::placed(plans, alignment);
            &&& reader::read_file(file) == Ok::<FileModel, GgufError>(
                FileModel {
                    version,
                    alignment: writer::unit(alignment) as u64,
                    data_offset: start,
                    kv: writer::stated(kv, alignment),
                    tensors: infos,
                },
            )
            &&& forall|i: int|
                0 <= i < plans.len() && geometry::elem_count(plans[i].dims) is Some
                    && geometry::packed_size(
                    plans[i].ggml_type,
                    geometry::elem_count(plans[i].dims)->0 as nat,
                ) == Ok::<u64, GgufError>(datas[i].len() as u64) && datas[i].len() <= u64::MAX
                    ==> reader::tensor_data(file, start, #[trigger] infos[i]) == Ok::<
                    Seq<u8>,
                    GgufError,
                >(datas[i])
        }),
{
    let h = writer::header(kv, plans, alignment, version);
    let pad = writer::zeros((geometry::aligned(h.len(), alignment) - h.len()) as nat);
    let body = writer::body(datas, alignment);
    let file = writer::file_bytes(kv, plans, datas, alignment, version);
    let infos = writer::placed(plans, alignment);
    geometry::lemma_aligned(h.len(), alignment);
    geometry::lemma_aligned(h.len(), 1);
    assert(h.len() % 1 == 0);
    assert(file =~= h + (pad + body));
    lemma_alignment_is_stated(kv, plans, alignment, version);
    lemma_header_roundtrip(kv, plans, alignment, version, pad + body);
    let start = geometry::aligned(h.len(), alignment);
    assert forall|i: int|
        0 <= i < plans.len() && geometry::elem_count(plans[i].dims) is Some
            && geometry::packed_size(
            plans[i].ggml_type,
            geometry::elem_count(plans[i].dims)->0 as nat,
        ) == Ok::<u64, GgufError>(datas[i].len() as u64) && datas[i].len()
            <= u64::MAX implies reader::tensor_data(file, start as u64, #[trigger] infos[i]) == Ok::<
        Seq<u8>,
        GgufError,
    >(datas[i]) by {
        lemma_body_holds(plans, datas, alignment, i, datas.len() as int);
        assert(datas.subrange(0, datas.len() as int) =~= datas);
        writer::lemma_offsets_grow(plans, alignment, i, plans.len() as int);
        let at = writer::offset_of(plans, alignment, i) as int;
        assert(file.subrange(start + at, start + at + datas[i].len()) =~= body.subrange(
            at,
            at + datas[i].len(),
        ));
    }
}

/// A file written tensor by tensor is the file written at once: the streamed header, then for each
/// tensor its data and the zero bytes behind them.
pub proof fn law_streamed_file_is_the_file(
    kv: Seq<(Seq<char>, ValueModel)>,
    plans: Seq<PlanModel>,
    datas: Seq<Seq<u8>>,
    alignment: nat,
    version: u32,
    k: int,
)
    requires
        plans.len() == datas.len(),
        0 <= k < datas.len(),
    ensures
        writer::file_bytes(kv, plans, Seq::empty(), alignment, version) == writer::padded_header(
            kv,
            plans,
            alignment,
            version,
        ),
        writer::file_bytes(kv, plans, datas.subrange(0, k + 1), alignment, version)
            == writer::file_bytes(kv, plans, datas.subrange(0, k), alignment, version)
            + writer::padded(datas[k], alignment),
{
    let h = writer::padded_header(kv, plans, alignment, version);
    assert(h + Seq::<u8>::empty() =~= h);
    let part = datas.subrange(0, k + 1);
    assert(part.drop_last() =~= datas.subrange(0, k));
    assert(part.last() == datas[k]);
    assert(h + (writer::body(datas.subrange(0, k), alignment) + writer::padded(datas[k], alignment))
        =~= (h + writer::body(datas.subrange(0, k), alignment)) + writer::padded(
        datas[k],
        alignment,
    ));
}

/// Metadata that say nothing of the alignment are copied whole.
pub proof fn lemma_copy_keeps_all(kv: Seq<(Seq<char>, ValueModel)>)
    requires
        writer::unstated(kv),
    ensures
        writer::without_alignment(kv) == kv,
    decreases kv.len(),
{
    if kv.len() > 0 {
        let before = kv.drop_last();
        assert forall|i: int| 0 <= i < before.len() implies (#[trigger] before[i]).0
            != "general.alignment"@ by {
            assert(before[i] == kv[i]);
        }
        lemma_copy_keeps_all(before);
        assert(before.push(kv.last()) =~= kv);
    } else {
        assert(kv =~= Seq::empty());
    }
}

/// Zero and one are the same alignment.
proof fn lemma_offsets_unit(plans: Seq<PlanModel>, alignment: nat, i: int)
    requires
        0 <= i <= plans.len(),
    ensures
        writer::offset_of(plans, writer::unit(alignment), i) == writer::offset_of(
            plans,
            alignment,
            i,
        ),
    decreases i,
{
    if i > 0 {
        lemma_offsets_unit(plans, alignment, i - 1);
    }
}

/// Zero and one are the same alignment of the data.
proof fn lemma_body_unit(datas: Seq<Seq<u8>>, alignment: nat)
    ensures
        writer::body(datas, writer::unit(alignment)) == writer::body(datas, alignment),
    decreases datas.len(),
{
    if datas.len() > 0 {
        lemma_body_unit(datas.drop_last(), alignment);
    }
}

/// Pairs that come out of copying and writing as they went in: either none of them states the
/// alignment, or the last one alone does, as the writer would.
pub open spec fn in_order(kv: Seq<(Seq<char>, ValueModel)>, alignment: nat) -> bool {
    ||| writer::unstated(kv)
    ||| kv.len() > 0 && writer::unstated(kv.drop_last()) && kv == writer::stated(
        kv.drop_last(),
        alignment,
    )
}

/// The plan of a tensor that was read, with its data.
pub open spec fn plan_again(info: TensorModel, nbytes: nat) -> PlanModel {
    PlanModel { name: info.name, dims: info.dims, ggml_type: info.ggml_type, nbytes }
}

/// Writing, reading and writing again gives the same bytes, whatever the alignment: the second file
/// is made of the metadata and tensor headers that were read from the first, and of the tensor
/// data.
pub proof fn law_rewritten_file_is_identical(
    kv: Seq<(Seq<char>, ValueModel)>,
    plans: Seq<PlanModel>,
    datas: Seq<Seq<u8>>,
    alignment: nat,
    version: u32,
)
    requires
        writable(kv, plans, alignment, version),
        plans.len() == datas.len(),
        forall|j: int| 0 <= j < datas.len() ==> (#[trigger] plans[j]).nbytes == datas[j].len(),
        in_order(kv, alignment),
    ensures
        ({
            let file = writer::file_bytes(kv, plans, datas, alignment, version);
            let m = reader::read_file(file)->Ok_0;
            let again = Seq::new(
                m.tensors.len(),
                |i: int| plan_again(m.tensors[i], datas[i].len()),
            );
            &&& reader::read_file(file) is Ok
            &&& writer::file_bytes(
                writer::without_alignment(m.kv),
                again,
                datas,
                m.alignment as nat,
                m.version,
            ) == file
        }),
{
    law_file_reads_back(kv, plans, datas, alignment, version);
    let given = if writer::unstated(kv) {
        kv
    } else {
        kv.drop_last()
    };
    lemma_copy_keeps_all(given);
    let pairs = writer::stated(kv, alignment);
    assert(writer::stated(given, alignment) == pairs);
    assert(writer::without_alignment(pairs) == given) by {
        if writer::must_state(given, alignment) {
            assert(pairs.drop_last() =~= given);
        }
    }
    let file = writer::file_bytes(kv, plans, datas, alignment, version);
    let m = reader::read_file(file)->Ok_0;
    let again = Seq::new(m.tensors.len(), |i: int| plan_again(m.tensors[i], datas[i].len()));
    assert(again =~= plans);
    assert(writer::placed(plans, writer::unit(alignment)) =~= writer::placed(plans, alignment)) by {
        assert forall|i: int| 0 <= i < plans.len() implies writer::offset_of(
            plans,
            writer::unit(alignment),
            i,
        ) == writer::offset_of(plans, alignment, i) by {
            lemma_offsets_unit(plans, alignment, i);
        }
    }
    lemma_body_unit(datas, alignment);
}

/// Every tensor has as many bytes as its type and its dimensions ask for.
pub open spec fn data_sized(specs: Seq<TensorSpec>) -> bool {
    forall|i: int|
        0 <= i < specs.len() ==> {
            &&& geometry::elem_count((#[trigger] specs[i]).dims@) is Some
            &&& specs[i].data@.len() <= u64::MAX
            &&& geometry::packed_size(
                specs[i].ggml_type,
                geometry::elem_count(specs[i].dims@)->0 as nat,
            ) == Ok::<u64, GgufError>(specs[i].data@.len() as u64)
        }
}

/// `again` has what was read from a file: its pairs but one for the alignment, its alignment and
/// version, and its tensors with their data.
pub open spec fn made_of(again: GgufWriter, r: GgufReader<'_>) -> bool {
    &&& reader::kv_model(again.kv@) == writer::without_alignment(r@.kv)
    &&& again.alignment == r.alignment
    &&& again.version == r.version
    &&& again.tensors@.len() == r.tensors@.len()
    &&& forall|i: int|
        0 <= i < r.tensors@.len() ==> {
            &&& (#[trigger] again.tensors@[i]).name@ == r.tensors@[i].name@
            &&& again.tensors@[i].dims@ == r.tensors@[i].dims@
            &&& again.tensors@[i].ggml_type == r.tensors@[i].ggml_type
            &&& reader::tensor_data(r.data@, r.data_offset, r.tensors@[i]@) == Ok::<
                Seq<u8>,
                GgufError,
            >(again.tensors@[i].data@)
        }
}

/// Writer, reader, writer: the file of a writer can be read, what is read are the writer's pairs and
/// tensors in their order, each tensor with its data, and a writer made of what was read has the
/// same bytes.
pub proof fn law_writer_reader_writer(w: GgufWriter, r: GgufReader<'_>, again: GgufWriter)
    requires
        writable(
            reader::kv_model(w.kv@),
            writer::specs_plans(w.tensors@),
            w.alignment as nat,
            w.version,
        ),
        in_order(reader::kv_model(w.kv@), w.alignment as nat),
        data_sized(w.tensors@),
        reader::read_file(w.bytes()) is Ok ==> r@ == reader::read_file(w.bytes())->Ok_0,
        r.data@ == w.bytes(),
        made_of(again, r),
    ensures
        reader::read_file(w.bytes()) == Ok::<FileModel, GgufError>(r@),
        r@.kv == writer::stated(reader::kv_model(w.kv@), w.alignment as nat),
        w.alignment == reader::DEFAULT_ALIGNMENT ==> r@.kv == reader::kv_model(w.kv@),
        r.version == w.version,
        r.alignment == writer::unit(w.alignment as nat),
        r.tensors@.len() == w.tensors@.len(),
        forall|i: int|
            0 <= i < w.tensors@.len() ==> {
                &&& (#[trigger] r.tensors@[i]).name@ == w.tensors@[i].name@
                &&& r.tensors@[i].dims@ == w.tensors@[i].dims@
                &&& r.tensors@[i].ggml_type == w.tensors@[i].ggml_type
                &&& reader::tensor_data(r.data@, r.data_offset, r.tensors@[i]@) == Ok::<
                    Seq<u8>,
                    GgufError,
                >(w.tensors@[i].data@)
            },
        again.bytes() == w.bytes(),
{
    let kv = reader::kv_model(w.kv@);
    let plans = writer::specs_plans(w.tensors@);
    let datas = writer::specs_data(w.tensors@);
    let a = w.alignment as nat;
    law_file_reads_back(kv, plans, datas, a, w.version);
    law_rewritten_file_is_identical(kv, plans, datas, a, w.version);
    let m = reader::read_file(w.bytes())->Ok_0;
    let infos = writer::placed(plans, a);
    assert forall|i: int| 0 <= i < w.tensors@.len() implies {
        &&& (#[trigger] r.tensors@[i]).name@ == w.tensors@[i].name@
        &&& r.tensors@[i].dims@ == w.tensors@[i].dims@
        &&& r.tensors@[i].ggml_type == w.tensors@[i].ggml_type
        &&& reader::tensor_data(r.data@, r.data_offset, r.tensors@[i]@) == Ok::<
            Seq<u8>,
            GgufError,
        >(w.tensors@[i].data@)
    } by {
        assert(r@.tensors[i] == r.tensors@[i]@);
        assert(infos[i] == r.tensors@[i]@);
        assert(plans[i] == w.tensors@[i].plan());
        assert(datas[i] == w.tensors@[i].data@);
    }
    let remade = Seq::new(m.tensors.len(), |i: int| plan_again(m.tensors[i], datas[i].len()));
    assert forall|i: int| 0 <= i < w.tensors@.len() implies again.tensors@[i].data@ == datas[i]
        && again.tensors@[i].plan() == remade[i] by {
        assert(r.tensors@[i].name@ == w.tensors@[i].name@);
        assert(again.tensors@[i].name@ == r.tensors@[i].name@);
        assert(m.tensors[i] == r.tensors@[i]@);
    }
    assert(writer::specs_plans(again.tensors@) =~= remade);
    assert(writer::specs_data(again.tensors@) =~= datas);
}

/// Metadata without `general.alignment` leave the default alignment.
pub proof fn lemma_no_alignment_is_default(kv: Seq<(Seq<char>, ValueModel)>)
    requires
        writer::unstated(kv),
    ensures
        reader::alignment_of(kv) == reader::DEFAULT_ALIGNMENT,
{
    lemma_absent(kv, "general.alignment"@);
}

/// A key that no pair has gives no value.
pub proof fn lemma_absent(kv: Seq<(Seq<char>, ValueModel)>, key: Seq<char>)
    requires
        forall|i: int| 0 <= i < kv.len() ==> (#[trigger] kv[i]).0 != key,
    ensures
        reader::first_value(kv, key) is None,
    decreases kv.len(),
{
    if kv.len() > 0 {
        let rest = kv.drop_first();
        assert forall|i: int| 0 <= i < rest.len() implies (#[trigger] rest[i]).0 != key by {
            assert(rest[i] == kv[i + 1]);
        }
        lemma_absent(rest, key);
    }
}

} // verus!
