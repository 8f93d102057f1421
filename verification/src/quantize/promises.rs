//! What a run promises of the file that comes out.
use vstd::prelude::*;
use crate::gguf::reader;
use crate::gguf::geometry::TensorError;
use crate::gguf::reader::{tensor_nbytes, GgufReader, TensorInfo};
use crate::gguf::value::ValueModel;
use crate::gguf::writer::GgufWriter;
use crate::quantize;
use crate::quantize::run::{quantize_file, Made, QuantizeError, QuantizeFault};
use crate::quantize::{
    add_output, dominant_src, plan_step, report, start_output, Action, Outcome, Policy, Progress,
    QuantizeReport, Step,
};
use crate::tally;
use crate::tally::{tally_numbers, NumberTally};

verus! {

/// A pair that a run copies: any but the alignment and the type of file.
pub open spec fn is_copied(pair: (Seq<char>, ValueModel)) -> bool {
    pair.0 != "general.alignment"@ && pair.0 != "general.file_type"@
}

/// The pairs that are copied, picked out one by one.
proof fn lemma_kept_is_filtered(kv: Seq<(Seq<char>, ValueModel)>)
    ensures
        quantize::kept_kv(kv) == kv.filter(|p: (Seq<char>, ValueModel)| is_copied(p)),
    decreases kv.len(),
{
    reveal(Seq::filter);
    if kv.len() > 0 {
        lemma_kept_is_filtered(kv.drop_last());
    } else {
        assert(quantize::kept_kv(kv) =~= kv);
    }
}

/// What is looked up behind other pairs.
proof fn lemma_value_push(
    kv: Seq<(Seq<char>, ValueModel)>,
    pair: (Seq<char>, ValueModel),
    key: Seq<char>,
)
    ensures
        reader::first_value(kv.push(pair), key) == match reader::first_value(kv, key) {
            Some(v) => Some(v),
            None => if pair.0 == key {
                Some(pair.1)
            } else {
                None
            },
        },
    decreases kv.len(),
{
    let longer = kv.push(pair);
    if kv.len() == 0 {
        assert(longer.drop_first() =~= Seq::empty());
        assert(reader::first_value(longer.drop_first(), key) is None);
    } else {
        lemma_value_push(kv.drop_first(), pair, key);
        assert(longer.drop_first() =~= kv.drop_first().push(pair));
        assert(longer[0] == kv[0]);
    }
}

/// Of the pairs that are copied, a key that is copied leads to what it led to, and one that is not
/// leads nowhere.
proof fn lemma_kept_value(kv: Seq<(Seq<char>, ValueModel)>, key: Seq<char>)
    ensures
        reader::first_value(quantize::kept_kv(kv), key) == if key != "general.alignment"@ && key
            != "general.file_type"@ {
            reader::first_value(kv, key)
        } else {
            None
        },
    decreases kv.len(),
{
    if kv.len() > 0 {
        let before = kv.drop_last();
        lemma_kept_value(before, key);
        lemma_value_push(before, kv.last(), key);
        assert(before.push(kv.last()) =~= kv);
        lemma_value_push(quantize::kept_kv(before), kv.last(), key);
    }
}

/// The metadata of the source come out as they went in: every pair but the alignment and the type
/// of file, with its value and in its order, then the new type of file. Looking up any other key
/// in the output gives what looking it up in the source gives.
pub proof fn law_metadata_is_kept(
    file: &GgufReader<'_>,
    file_type: u32,
    w: GgufWriter,
    key: Seq<char>,
)
    requires
        call_ensures(start_output, (file, file_type), w),
    ensures
        ({
            let out = reader::kv_model(w.kv@);
            &&& out == file@.kv.filter(|p: (Seq<char>, ValueModel)| is_copied(p)).push(
                ("general.file_type"@, ValueModel::U32(file_type)),
            )
            &&& key != "general.alignment"@ && key != "general.file_type"@
                ==> reader::first_value(out, key) == reader::first_value(file@.kv, key)
            &&& reader::first_value(out, "general.file_type"@) == Some(ValueModel::U32(file_type))
            &&& reader::first_value(out, "general.alignment"@) is None
            &&& file.alignment > 0 ==> w.alignment == file.alignment
        }),
{
    lemma_output_kv(file@.kv, file_type, key);
}

/// What the metadata of the output lead to.
proof fn lemma_output_kv(kv: Seq<(Seq<char>, ValueModel)>, file_type: u32, key: Seq<char>)
    ensures
        ({
            let out = quantize::output_kv(kv, file_type);
            &&& out == kv.filter(|p: (Seq<char>, ValueModel)| is_copied(p)).push(
                ("general.file_type"@, ValueModel::U32(file_type)),
            )
            &&& key != "general.alignment"@ && key != "general.file_type"@
                ==> reader::first_value(out, key) == reader::first_value(kv, key)
            &&& reader::first_value(out, "general.file_type"@) == Some(ValueModel::U32(file_type))
            &&& reader::first_value(out, "general.alignment"@) is None
        }),
{
    reveal_strlit("general.alignment");
    reveal_strlit("general.file_type");
    assert("general.alignment"@[8] == 'a' && "general.file_type"@[8] == 'f');
    let last = ("general.file_type"@, ValueModel::U32(file_type));
    let kept = quantize::kept_kv(kv);
    lemma_kept_is_filtered(kv);
    lemma_kept_value(kv, key);
    lemma_kept_value(kv, "general.file_type"@);
    lemma_kept_value(kv, "general.alignment"@);
    lemma_value_push(kept, last, key);
    lemma_value_push(kept, last, "general.file_type"@);
    lemma_value_push(kept, last, "general.alignment"@);
}

/// A whole run keeps the metadata too, and every tensor under its name, with its dimensions and in
/// its place. A tensor whose type the recipe leaves alone keeps its type and is counted as copied;
/// one that becomes floats has the floats that were asked for.
pub proof fn law_run_keeps_the_model(
    file: &GgufReader<'_>,
    file_type: u32,
    policies: &[Policy],
    made: Vec<Option<Made>>,
    r: Result<(GgufWriter, Vec<Outcome>), QuantizeError>,
    key: Seq<char>,
    i: int,
)
    requires
        call_ensures(quantize_file, (file, file_type, policies, made), r),
        r is Ok,
        policies@.len() == file.tensors@.len() == made@.len(),
        0 <= i < file.tensors@.len(),
    ensures
        ({
            let (w, outcomes) = r->Ok_0;
            let out = reader::kv_model(w.kv@);
            let t = file.tensors@[i];
            let wanted = if policies@[i].copy_unchanged {
                t.ggml_type
            } else {
                policies@[i].ggml_type
            };
            &&& key != "general.alignment"@ && key != "general.file_type"@
                ==> reader::first_value(out, key) == reader::first_value(file@.kv, key)
            &&& reader::first_value(out, "general.file_type"@) == Some(ValueModel::U32(file_type))
            &&& w.tensors@.len() == outcomes@.len() == file.tensors@.len()
            &&& w.tensors@[i].name@ == t.name@
            &&& w.tensors@[i].dims@ == t.dims@
            &&& outcomes@[i].src_type == t.ggml_type
            &&& outcomes@[i].dst_type == w.tensors@[i].ggml_type
            &&& w.tensors@[i].data@.len() <= u64::MAX ==> outcomes@[i].dst_bytes
                == w.tensors@[i].data@.len()
            &&& outcomes@[i].action == Action::Copy <==> wanted == t.ggml_type
            &&& wanted == t.ggml_type ==> w.tensors@[i].ggml_type == t.ggml_type
            &&& wanted == 0 || wanted == 1 || wanted == 30 ==> w.tensors@[i].ggml_type == wanted
            &&& wanted != t.ggml_type ==> made@[i] is Some && w.tensors@[i].data@
                == made@[i]->0.data@
        }),
{
    lemma_output_kv(file@.kv, file_type, key);
    let (w, outcomes) = r->Ok_0;
    assert(quantize::run::is_output(*file, policies@, made@, i, w.tensors@[i]));
    assert(outcomes@[i] == quantize::run::outcome_at(*file, policies@, made@, i));
}

/// What is done with a tensor follows from the type it has and the type it shall have: nothing is
/// done where they are the same; floats are written where floats are asked for; everything else
/// becomes blocks, for which there must be columns. Elements are taken out of blocks first where
/// the tensor holds no floats. A type from 0x8000 on is refused.
pub proof fn law_steps_follow_the_types(t: &TensorInfo, policy: Policy, r: Result<Step, u32>)
    requires
        call_ensures(plan_step, (t, policy), r),
    ensures
        ({
            let has = t.ggml_type;
            let shall = if policy.copy_unchanged {
                has
            } else {
                policy.ggml_type
            };
            let floats = shall == 0 || shall == 1 || shall == 30;
            let blocks = has != 0 && has != 1 && has != 30;
            &&& r is Err <==> shall >= 0x8000
            &&& r matches Err(x) ==> x == shall
            &&& r == Ok::<Step, u32>(Step::Copy) <==> shall == has && has < 0x8000
            &&& shall != has && floats ==> r == Ok::<Step, u32>(
                Step::Convert { dst: shall, dequantize: blocks },
            )
            &&& shall != has && !floats && shall < 0x8000 ==> match r {
                Ok(Step::Block { want, rows, cols, dequantize, use_imatrix }) => {
                    &&& want == shall
                    &&& dequantize == blocks
                    &&& use_imatrix == policy.use_imatrix
                    &&& cols > 0
                    &&& t.dims@.len() == 1 ==> rows == 1 && cols == t.dims@[0] as usize
                    &&& t.dims@.len() >= 2 ==> rows == t.dims@[0] as usize && cols
                        == t.dims@[1] as usize
                },
                Ok(Step::NoColumns { dequantize }) => dequantize == blocks && (t.dims@.len() == 0 || (
                t.dims@.len() == 1 && t.dims@[0] as usize == 0) || (t.dims@.len() >= 2 && t.dims@[1]
                    as usize == 0)),
                _ => false,
            }
        }),
{
}

/// A report counts every tensor once: with one more tensor the totals grow by its bytes before and
/// after the run, and the counts grow by one where it was requantized and where it came with
/// four-bit floats. Without tensors all are zero.
pub proof fn law_reports_add_up(
    a: &[Outcome],
    b: &[Outcome],
    o: Outcome,
    x: QuantizeReport,
    y: QuantizeReport,
)
    requires
        b@ == a@.push(o),
        call_ensures(report, (a,), x),
        call_ensures(report, (b,), y),
    ensures
        y.src_total == x.src_total + o.src_bytes,
        y.dst_total == x.dst_total + o.dst_bytes,
        y.n_requant == x.n_requant + if o.action == Action::Requant {
            1int
        } else {
            0
        },
        y.n_fp4_src == x.n_fp4_src + if o.src_type == 39 || o.src_type == 40 || o.src_type == 0x8000
            || o.src_type == 0x8004 {
            1int
        } else {
            0
        },
        a@.len() == 0 ==> x.src_total == 0 && x.dst_total == 0 && x.n_requant == 0 && x.n_fp4_src
            == 0,
{
    assert(b@.drop_last() =~= a@);
    assert(quantize::sources(b@).drop_last() =~= quantize::sources(a@));
    assert(quantize::results(b@).drop_last() =~= quantize::results(a@));
}

/// Somebody is told once that blocks are taken apart: at the first such tensor and never again.
pub proof fn law_one_warning(p: &mut Progress, dequantize: bool, r: bool)
    requires
        call_ensures(Progress::warn_once, (p, dequantize), r),
    ensures
        old(p).warned ==> !r,
        !dequantize ==> !r && final(p).warned == old(p).warned,
        dequantize ==> final(p).warned && r == !old(p).warned,
        final(p).n_fallback == old(p).n_fallback,
{
}

/// A type that stands in for another is counted. Of the first eight somebody is told, and of every
/// thirty-second.
pub proof fn law_fallbacks_are_noted(p: &mut Progress, want: u32, got: u32, fell: bool, r: bool)
    requires
        call_ensures(Progress::note_fallback, (p, want, (got, fell)), r),
    ensures
        fell && got != want ==> final(p).n_fallback == old(p).n_fallback + 1,
        !fell || got == want ==> final(p).n_fallback == old(p).n_fallback && !r,
        fell && got != want && old(p).n_fallback < 8 ==> r,
        fell && got != want && old(p).n_fallback >= 8 ==> (r <==> (old(p).n_fallback + 1) % 32 == 0),
        final(p).warned == old(p).warned,
{
}

/// A tensor comes out behind the others, with the name and the dimensions of its source, the type
/// that is asked for and the data that are given; nothing else of the file changes.
pub proof fn law_outputs_are_added(
    w: &mut GgufWriter,
    t: &TensorInfo,
    dst_type: u32,
    data: Vec<u8>,
    i: int,
)
    requires
        call_ensures(add_output, (w, t, dst_type, data), ()),
        0 <= i < old(w).tensors@.len(),
    ensures
        ({
            let n = old(w).tensors@.len() as int;
            let added = final(w).tensors@[n];
            &&& final(w).tensors@.len() == n + 1
            &&& final(w).tensors@[i] == old(w).tensors@[i]
            &&& added.name@ == t.name@ && added.dims@ == t.dims@
            &&& added.ggml_type == dst_type && added.data@ == data@
            &&& final(w).kv@ == old(w).kv@
            &&& final(w).alignment == old(w).alignment
        }),
{
    assert(final(w).tensors@.drop_last()[i] == old(w).tensors@[i]);
}

/// The bytes that tensors of a type took before the run.
pub open spec fn bytes_of_type(outcomes: Seq<Outcome>, t: u32) -> nat
    decreases outcomes.len(),
{
    if outcomes.len() == 0 {
        0
    } else {
        bytes_of_type(outcomes.drop_last(), t) + if outcomes.last().src_type == t {
            outcomes.last().src_bytes as nat
        } else {
            0
        }
    }
}

/// The sums of types.
proof fn lemma_bytes_of_type(outcomes: Seq<Outcome>, t: u32)
    ensures
        tally::number_sum(quantize::sources(outcomes), t) == bytes_of_type(outcomes, t),
        forall|i: int|
            0 <= i < outcomes.len() && (#[trigger] outcomes[i]).src_type == t
                ==> tally::number_count(quantize::sources(outcomes), t) > 0,
    decreases outcomes.len(),
{
    if outcomes.len() > 0 {
        let before = outcomes.drop_last();
        lemma_bytes_of_type(before, t);
        assert(quantize::sources(outcomes).drop_last() =~= quantize::sources(before));
        assert forall|i: int| 0 <= i < outcomes.len() && (#[trigger] outcomes[i]).src_type
            == t implies tally::number_count(quantize::sources(outcomes), t) > 0 by {
            if i < before.len() {
                assert(before[i].src_type == t);
            }
        }
    }
}

/// The dominant type of a source took at least as many bytes as any other that occurs.
pub proof fn law_dominant_type(outcomes: &[Outcome], r: u32, i: int)
    requires
        call_ensures(dominant_src, (outcomes,), r),
        0 <= i < outcomes@.len(),
    ensures
        bytes_of_type(outcomes@, outcomes@[i].src_type) <= bytes_of_type(outcomes@, r),
        bytes_of_type(outcomes@, outcomes@[i].src_type) == bytes_of_type(outcomes@, r)
            ==> outcomes@[i].src_type <= r,
{
    let t = outcomes@[i].src_type;
    lemma_bytes_of_type(outcomes@, t);
    lemma_bytes_of_type(outcomes@, r);
    assert(tally::number_count(quantize::sources(outcomes@), t) > 0);
}

/// One more tensor of a type adds one to the count of the type and its bytes to the sum of the type.
pub proof fn law_types_are_tallied(
    a: &[(u32, u64)],
    b: &[(u32, u64)],
    k: u32,
    n: u64,
    x: Vec<NumberTally>,
    y: Vec<NumberTally>,
    i: int,
    j: int,
)
    requires
        b@ == a@.push((k, n)),
        call_ensures(tally_numbers, (a,), x),
        call_ensures(tally_numbers, (b,), y),
        0 <= i < x@.len(),
        0 <= j < y@.len(),
        x@[i].key == y@[j].key,
    ensures
        y@[j].key == k ==> y@[j].count == x@[i].count + 1 && y@[j].sum == x@[i].sum + n,
        y@[j].key != k ==> y@[j].count == x@[i].count && y@[j].sum == x@[i].sum,
        exists|t: int| 0 <= t < y@.len() && (#[trigger] y@[t]).key == k,
{
    assert(b@.drop_last() =~= a@);
    assert(tally::number_count(b@, k) > 0);
}

/// A tensor that is copied has the bytes of its source, one that becomes blocks has the type and the
/// bytes that were made for it. Floats that become blocks are quantized, blocks that become other
/// blocks are requantized, and what becomes floats is converted. The bytes before the run are those
/// of the source, and the alignment of the source is kept.
pub proof fn law_what_becomes_of_a_tensor<'a>(
    file: &GgufReader<'a>,
    file_type: u32,
    policies: &[Policy],
    made: Vec<Option<Made>>,
    w: GgufWriter,
    outcomes: Vec<Outcome>,
    i: usize,
    own: Result<&'a [u8], TensorError>,
    size: Result<u64, TensorError>,
)
    requires
        policies@.len() == file.tensors@.len() == made@.len(),
        call_ensures(
            quantize_file,
            (file, file_type, policies, made),
            Ok::<(GgufWriter, Vec<Outcome>), QuantizeError>((w, outcomes)),
        ),
        i < file.tensors@.len(),
        call_ensures(GgufReader::<'a>::tensor_bytes, (file, i), own),
        call_ensures(tensor_nbytes, (&file.tensors@[i as int],), size),
    ensures
        ({
            let has = file.tensors@[i as int].ggml_type;
            let shall = if policies@[i as int].copy_unchanged {
                has
            } else {
                policies@[i as int].ggml_type
            };
            let floats = shall == 0 || shall == 1 || shall == 30;
            let o = outcomes@[i as int];
            let t = w.tensors@[i as int];
            &&& shall == has ==> (own matches Ok(b) && t.data@ == b@)
            &&& shall != has && floats ==> o.action == Action::Convert
            &&& shall != has && !floats && (has == 0 || has == 1 || has == 30) ==> o.action
                == Action::Quantize
            &&& shall != has && !floats && has != 0 && has != 1 && has != 30 ==> o.action
                == Action::Requant
            &&& shall != has && !floats ==> made@[i as int] is Some && t.ggml_type
                == made@[i as int]->0.ggml_type
            &&& size matches Ok(n) && o.src_bytes == n
            &&& file.alignment > 0 ==> w.alignment == file.alignment
            &&& w.version == 3
        }),
{
    assert(quantize::run::is_output(*file, policies@, made@, i as int, w.tensors@[i as int]));
    assert(outcomes@[i as int] == quantize::run::outcome_at(*file, policies@, made@, i as int));
}

/// A run fails only at a tensor that cannot be made: of a type that no model file has, without
/// columns, without anything made for it, or whose own size or bytes cannot be told.
pub proof fn law_why_a_run_fails(
    file: &GgufReader<'_>,
    file_type: u32,
    policies: &[Policy],
    made: Vec<Option<Made>>,
    e: QuantizeError,
)
    requires
        policies@.len() == file.tensors@.len() == made@.len(),
        call_ensures(
            quantize_file,
            (file, file_type, policies, made),
            Err::<(GgufWriter, Vec<Outcome>), QuantizeError>(e),
        ),
    ensures
        exists|i: int|
            0 <= i < file.tensors@.len() && (#[trigger] file.tensors@[i]).name@ == e.tensor@ && {
                let has = file.tensors@[i].ggml_type;
                let shall = if policies@[i].copy_unchanged {
                    has
                } else {
                    policies@[i].ggml_type
                };
                match e.kind {
                    QuantizeFault::NotGguf(t) => t == shall && t >= 0x8000,
                    QuantizeFault::NoColumns => shall != has && (file.tensors@[i].dims@.len() == 0
                        || (file.tensors@[i].dims@.len() == 1 && file.tensors@[i].dims@[0] as usize
                        == 0) || (file.tensors@[i].dims@.len() >= 2 && file.tensors@[i].dims@[1]
                        as usize == 0)),
                    QuantizeFault::NotMade => shall != has && made@[i] is None,
                    QuantizeFault::Tensor(_) => shall < 0x8000,
                }
            },
{
    let i = choose|i: int| #[trigger]
        quantize::run::first_fault(*file, policies@, made@, i, e.kind) && e.tensor@
            == file.tensors@[i].name@;
    assert(file.tensors@[i].name@ == e.tensor@);
}

} // verus!
