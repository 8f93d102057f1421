//! Requantizing a model file: what happens to each tensor, and the file that comes out.
use vstd::prelude::*;
use crate::blockfloat;
use crate::blockfloat::{is_fp4_family, is_gguf_type};
use crate::gguf::geometry;
use crate::gguf::geometry::is_float_type;
use crate::gguf::laws;
use crate::gguf::reader;
use crate::gguf::reader::{GgufReader, TensorInfo};
use crate::gguf::value::{GgufError, GgufValue, ValueModel};
use crate::gguf::writer;
use crate::gguf::writer::{GgufWriter, TensorSpec};
use crate::tally;
use crate::tally::{heaviest, tally_numbers, NumberTally};
use crate::text;

pub mod promises;
pub mod run;

verus! {

/// What a recipe says of a tensor.
#[derive(Debug, Clone, Copy, PartialEq, Eq, Structural)]
pub struct Policy {
    pub ggml_type: u32,
    /// The tensor keeps its bytes.
    pub copy_unchanged: bool,
    pub use_imatrix: bool,
}

/// What happened to a tensor.
#[derive(Debug, Clone, Copy, PartialEq, Eq, Structural)]
pub enum Action {
    /// The bytes were copied.
    Copy,
    /// Floats became floats of another type.
    Convert,
    /// Floats became blocks.
    Quantize,
    /// Blocks became floats and then blocks.
    Requant,
}

/// What is to be done with a tensor.
#[derive(Debug, Clone, Copy, PartialEq, Eq, Structural)]
pub enum Step {
    /// Copy its bytes.
    Copy,
    /// Take its elements, out of blocks where `dequantize` is true, and write them as floats.
    Convert { dst: u32, dequantize: bool },
    /// Take its elements and write them as blocks.
    Block { want: u32, rows: usize, cols: usize, dequantize: bool, use_imatrix: bool },
    /// Take its elements, of which no row can be made.
    NoColumns { dequantize: bool },
}

/// Rows and columns of a tensor.
pub open spec fn rows_cols_of(dims: Seq<u64>) -> (usize, usize) {
    if dims.len() == 0 {
        (0, 0)
    } else if dims.len() == 1 {
        (1, dims[0] as usize)
    } else {
        (dims[0] as usize, dims[1] as usize)
    }
}

/// The type that a tensor shall have.
pub open spec fn target(src_type: u32, policy: Policy) -> u32 {
    if policy.copy_unchanged {
        src_type
    } else {
        policy.ggml_type
    }
}

/// What is to be done with a tensor; an error with the type where no such tensor can stand in a
/// file.
pub open spec fn step_of(src_type: u32, dims: Seq<u64>, policy: Policy) -> Result<Step, u32> {
    let dst = target(src_type, policy);
    let dequantize = !geometry::is_float(src_type);
    let (rows, cols) = rows_cols_of(dims);
    if dst >= blockfloat::RQ_TYPE_BASE {
        Err(dst)
    } else if dst == src_type {
        Ok(Step::Copy)
    } else if geometry::is_float(dst) {
        Ok(Step::Convert { dst, dequantize })
    } else if cols == 0 {
        Ok(Step::NoColumns { dequantize })
    } else {
        Ok(Step::Block { want: dst, rows, cols, dequantize, use_imatrix: policy.use_imatrix })
    }
}

/// What is to be done with a tensor; an error with the type where no such tensor can stand in a
/// file.
pub fn plan_step(t: &TensorInfo, policy: Policy) -> (r: Result<Step, u32>)
    ensures
        r == step_of(t.ggml_type, t.dims@, policy),
{
    let src_type: u32 = t.ggml_type;
    let dst: u32 = if policy.copy_unchanged {
        src_type
    } else {
        policy.ggml_type
    };
    if !is_gguf_type(dst) {
        return Err(dst);
    }
    if dst == src_type {
        return Ok(Step::Copy);
    }
    let dequantize: bool = !is_float_type(src_type);
    if is_float_type(dst) {
        return Ok(Step::Convert { dst, dequantize });
    }
    let (rows, cols) = t.rows_cols();
    if cols == 0 {
        return Ok(Step::NoColumns { dequantize });
    }
    Ok(Step::Block { want: dst, rows, cols, dequantize, use_imatrix: policy.use_imatrix })
}

/// Norms and biases keep their bytes whatever the recipe's type is.
pub proof fn law_copied_tensors_keep_their_type(src_type: u32, dims: Seq<u64>, policy: Policy)
    requires
        policy.copy_unchanged,
        src_type < blockfloat::RQ_TYPE_BASE,
    ensures
        step_of(src_type, dims, policy) == Ok::<Step, u32>(Step::Copy),
{
}

/// A type that has no number in model files never goes into one.
pub proof fn law_other_types_are_refused(src_type: u32, dims: Seq<u64>, policy: Policy)
    ensures
        target(src_type, policy) >= blockfloat::RQ_TYPE_BASE <==> step_of(src_type, dims, policy)
            is Err,
{
}

/// What became of a tensor.
#[derive(Debug, Clone, Copy, PartialEq, Eq, Structural)]
pub struct Outcome {
    pub src_type: u32,
    pub dst_type: u32,
    pub src_bytes: u64,
    pub dst_bytes: u64,
    pub action: Action,
}

/// What has been said during a run.
#[derive(Debug)]
pub struct Progress {
    /// Somebody has been told that blocks are taken apart.
    pub warned: bool,
    pub n_fallback: usize,
}

/// The action that a step stands for.
pub open spec fn action_of(step: Step) -> Action {
    match step {
        Step::Copy => Action::Copy,
        Step::Convert { .. } => Action::Convert,
        Step::Block { dequantize, .. } => if dequantize {
            Action::Requant
        } else {
            Action::Quantize
        },
        Step::NoColumns { .. } => Action::Quantize,
    }
}

impl Progress {
    /// The start of a run.
    pub fn new() -> (r: Progress)
        ensures
            !r.warned,
            r.n_fallback == 0,
    {
        Progress { warned: false, n_fallback: 0 }
    }

    /// Whether somebody is to be told that blocks are taken apart: once, before the first.
    pub fn warn_once(&mut self, dequantize: bool) -> (r: bool)
        ensures
            r == (dequantize && !old(self).warned),
            final(self).warned == (old(self).warned || dequantize),
            final(self).n_fallback == old(self).n_fallback,
    {
        if dequantize && !self.warned {
            self.warned = true;
            true
        } else {
            false
        }
    }

    /// Takes note of the type that stands in for `want`. The result says whether to speak of it:
    /// of the first eight, and of every thirty-second.
    pub fn note_fallback(&mut self, want: u32, fallback: (u32, bool)) -> (r: bool)
        requires
            old(self).n_fallback < usize::MAX,
        ensures
            final(self).n_fallback == if fallback.1 && fallback.0 != want {
                old(self).n_fallback + 1
            } else {
                old(self).n_fallback as int
            },
            r == (fallback.1 && fallback.0 != want && (final(self).n_fallback <= 8
                || final(self).n_fallback % 32 == 0)),
            final(self).warned == old(self).warned,
    {
        if fallback.1 && fallback.0 != want {
            self.n_fallback = self.n_fallback + 1;
            self.n_fallback <= 8 || self.n_fallback % 32 == 0
        } else {
            false
        }
    }
}

/// The sum of sizes.
pub open spec fn sum_sizes(pairs: Seq<(u32, u64)>) -> nat
    decreases pairs.len(),
{
    if pairs.len() == 0 {
        0
    } else {
        sum_sizes(pairs.drop_last()) + pairs.last().1 as nat
    }
}

/// The type and the bytes of each tensor before the run.
pub open spec fn sources(outcomes: Seq<Outcome>) -> Seq<(u32, u64)> {
    Seq::new(outcomes.len(), |i: int| (outcomes[i].src_type, outcomes[i].src_bytes))
}

/// The type and the bytes of each tensor after the run.
pub open spec fn results(outcomes: Seq<Outcome>) -> Seq<(u32, u64)> {
    Seq::new(outcomes.len(), |i: int| (outcomes[i].dst_type, outcomes[i].dst_bytes))
}

/// How many tensors were requantized.
pub open spec fn requant_count(outcomes: Seq<Outcome>) -> nat
    decreases outcomes.len(),
{
    if outcomes.len() == 0 {
        0
    } else {
        requant_count(outcomes.drop_last()) + if outcomes.last().action == Action::Requant {
            1nat
        } else {
            0
        }
    }
}

/// How many tensors came with four-bit floats.
pub open spec fn fp4_count(outcomes: Seq<Outcome>) -> nat
    decreases outcomes.len(),
{
    if outcomes.len() == 0 {
        0
    } else {
        fp4_count(outcomes.drop_last()) + if blockfloat::fp4_family(outcomes.last().src_type) {
            1nat
        } else {
            0
        }
    }
}

/// A run, summed up.
#[derive(Debug)]
pub struct QuantizeReport {
    pub src_total: u128,
    pub dst_total: u128,
    /// The tensors and the bytes of each type after the run, in the order of the types.
    pub by_type: Vec<NumberTally>,
    /// The type that took most bytes before the run.
    pub dominant_src: u32,
    pub n_requant: usize,
    pub n_fp4_src: usize,
}

/// The type that took most bytes before the run; of several, the one with the greatest number.
pub fn dominant_src(outcomes: &[Outcome]) -> (r: u32)
    ensures
        tally::is_heaviest(sources(outcomes@), r),
{
    let pairs = source_pairs(outcomes);
    heaviest(pairs.as_slice())
}

/// The type and the bytes of each tensor before the run.
fn source_pairs(outcomes: &[Outcome]) -> (r: Vec<(u32, u64)>)
    ensures
        r@ == sources(outcomes@),
{
    let n: usize = outcomes.len();
    let mut v: Vec<(u32, u64)> = Vec::new();
    let mut i: usize = 0;
    while i < n
        invariant
            i <= n == outcomes@.len(),
            v@ == sources(outcomes@).subrange(0, i as int),
        decreases n - i,
    {
        v.push((outcomes[i].src_type, outcomes[i].src_bytes));
        i = i + 1;
        assert(v@ =~= sources(outcomes@).subrange(0, i as int));
    }
    assert(v@ =~= sources(outcomes@));
    v
}

/// The type and the bytes of each tensor after the run.
fn result_pairs(outcomes: &[Outcome]) -> (r: Vec<(u32, u64)>)
    ensures
        r@ == results(outcomes@),
{
    let n: usize = outcomes.len();
    let mut v: Vec<(u32, u64)> = Vec::new();
    let mut i: usize = 0;
    while i < n
        invariant
            i <= n == outcomes@.len(),
            v@ == results(outcomes@).subrange(0, i as int),
        decreases n - i,
    {
        v.push((outcomes[i].dst_type, outcomes[i].dst_bytes));
        i = i + 1;
        assert(v@ =~= results(outcomes@).subrange(0, i as int));
    }
    assert(v@ =~= results(outcomes@));
    v
}

/// The sum of sizes.
fn total(pairs: &[(u32, u64)]) -> (r: u128)
    ensures
        r == sum_sizes(pairs@),
{
    let n: usize = pairs.len();
    let mut t: u128 = 0;
    let mut i: usize = 0;
    while i < n
        invariant
            i <= n == pairs@.len(),
            t == sum_sizes(pairs@.subrange(0, i as int)),
            t <= i * u64::MAX,
        decreases n - i,
    {
        let ghost longer = pairs@.subrange(0, i + 1);
        proof {
            assert(longer.drop_last() =~= pairs@.subrange(0, i as int));
            assert(i * u64::MAX + u64::MAX <= u128::MAX) by (nonlinear_arith)
                requires
                    i <= u64::MAX,
            ;
            assert((i + 1) * u64::MAX == i * u64::MAX + u64::MAX);
        }
        t = t + pairs[i].1 as u128;
        i = i + 1;
    }
    assert(pairs@.subrange(0, n as int) =~= pairs@);
    t
}

/// Sums up a run.
pub fn report(outcomes: &[Outcome]) -> (r: QuantizeReport)
    ensures
        r.src_total == sum_sizes(sources(outcomes@)),
        r.dst_total == sum_sizes(results(outcomes@)),
        tally::numbers_tallied(r.by_type@, results(outcomes@)),
        tally::is_heaviest(sources(outcomes@), r.dominant_src),
        r.n_requant == requant_count(outcomes@),
        r.n_fp4_src == fp4_count(outcomes@),
{
    let src = source_pairs(outcomes);
    let dst = result_pairs(outcomes);
    let n: usize = outcomes.len();
    let mut n_requant: usize = 0;
    let mut n_fp4_src: usize = 0;
    let mut i: usize = 0;
    while i < n
        invariant
            i <= n == outcomes@.len(),
            n_requant == requant_count(outcomes@.subrange(0, i as int)),
            n_fp4_src == fp4_count(outcomes@.subrange(0, i as int)),
            n_requant <= i,
            n_fp4_src <= i,
        decreases n - i,
    {
        let ghost longer = outcomes@.subrange(0, i + 1);
        assert(longer.drop_last() =~= outcomes@.subrange(0, i as int));
        if outcomes[i].action == Action::Requant {
            n_requant = n_requant + 1;
        }
        if is_fp4_family(outcomes[i].src_type) {
            n_fp4_src = n_fp4_src + 1;
        }
        i = i + 1;
    }
    assert(outcomes@.subrange(0, n as int) =~= outcomes@);
    QuantizeReport {
        src_total: total(src.as_slice()),
        dst_total: total(dst.as_slice()),
        by_type: tally_numbers(dst.as_slice()),
        dominant_src: heaviest(src.as_slice()),
        n_requant,
        n_fp4_src,
    }
}

/// The metadata of the file that comes out: those of the source but for its alignment, which the
/// writer states itself, and its type of file, and the new type of file.
pub open spec fn output_kv(kv: Seq<(Seq<char>, ValueModel)>, file_type: u32) -> Seq<
    (Seq<char>, ValueModel),
> {
    kept_kv(kv).push(("general.file_type"@, ValueModel::U32(file_type)))
}

/// The metadata that are copied.
pub open spec fn kept_kv(kv: Seq<(Seq<char>, ValueModel)>) -> Seq<(Seq<char>, ValueModel)>
    decreases kv.len(),
{
    if kv.len() == 0 {
        Seq::empty()
    } else if kv.last().0 == "general.alignment"@ || kv.last().0 == "general.file_type"@ {
        kept_kv(kv.drop_last())
    } else {
        kept_kv(kv.drop_last()).push(kv.last())
    }
}

/// The file that comes out before it has tensors: the alignment and the metadata of the source.
pub fn start_output(file: &GgufReader<'_>, file_type: u32) -> (w: GgufWriter)
    ensures
        reader::kv_model(w.kv@) == output_kv(file@.kv, file_type),
        w.tensors@.len() == 0,
        w.alignment == if file.alignment == 0 {
            1
        } else {
            file.alignment
        },
        w.version == reader::GGUF_VERSION,
{
    let mut w = GgufWriter::new();
    w.set_alignment(file.alignment);
    let ghost model = file@.kv;
    let n: usize = file.kv.len();
    let mut i: usize = 0;
    assert(reader::kv_model(w.kv@) =~= kept_kv(model.subrange(0, 0)));
    while i < n
        invariant
            i <= n == file.kv@.len(),
            model == file@.kv,
            reader::kv_model(w.kv@) == kept_kv(model.subrange(0, i as int)),
            w.tensors@.len() == 0,
            w.alignment == if file.alignment == 0 {
                1
            } else {
                file.alignment
            },
            w.version == reader::GGUF_VERSION,
        decreases n - i,
    {
        let ghost had = w.kv@;
        let ghost longer = model.subrange(0, i + 1);
        assert(longer.drop_last() =~= model.subrange(0, i as int));
        assert(longer.last() == (file.kv@[i as int].0@, file.kv@[i as int].1@));
        let key = file.kv[i].0.as_str();
        if !text::same(key, "general.alignment") && !text::same(key, "general.file_type") {
            w.add_kv(file.kv[i].0.clone(), file.kv[i].1.clone());
            assert(reader::kv_model(w.kv@) =~= reader::kv_model(had).push(longer.last()));
        }
        i = i + 1;
    }
    assert(model.subrange(0, n as int) =~= model);
    let ghost had = w.kv@;
    w.add_kv("general.file_type".to_owned(), GgufValue::U32(file_type));
    assert(reader::kv_model(w.kv@) =~= reader::kv_model(had).push(
        ("general.file_type"@, ValueModel::U32(file_type)),
    ));
    w
}

/// Adds a tensor to the file that comes out: the name and the dimensions of the source.
pub fn add_output(w: &mut GgufWriter, t: &TensorInfo, dst_type: u32, data: Vec<u8>)
    ensures
        final(w).tensors@.len() == old(w).tensors@.len() + 1,
        final(w).tensors@.drop_last() == old(w).tensors@,
        final(w).tensors@.last().name@ == t.name@,
        final(w).tensors@.last().dims@ == t.dims@,
        final(w).tensors@.last().ggml_type == dst_type,
        final(w).tensors@.last().data@ == data@,
        final(w).kv == old(w).kv,
        final(w).alignment == old(w).alignment,
        final(w).version == old(w).version,
{
    let added = TensorSpec {
        name: t.name.clone(),
        dims: vstd::slice::slice_to_vec(t.dims.as_slice()),
        ggml_type: dst_type,
        data,
    };
    w.add_tensor(added);
    assert(w.tensors@.drop_last() =~= old(w).tensors@);
}

/// No pair that is copied states an alignment.
proof fn lemma_kept(kv: Seq<(Seq<char>, ValueModel)>, i: int)
    requires
        0 <= i < kept_kv(kv).len(),
    ensures
        kept_kv(kv)[i].0 != "general.alignment"@,
        exists|j: int| 0 <= j < kv.len() && kv[j] == kept_kv(kv)[i],
    decreases kv.len(),
{
    if kv.len() > 0 {
        let before = kept_kv(kv.drop_last());
        if i < before.len() {
            lemma_kept(kv.drop_last(), i);
            let j = choose|j: int| 0 <= j < kv.len() - 1 && kv.drop_last()[j] == before[i];
            assert(kv[j] == before[i]);
        } else {
            assert(kv[kv.len() - 1] == kept_kv(kv)[i]);
        }
    }
}

/// The data have the size of the tensor's type and dimensions.
pub open spec fn sized(plan: writer::PlanModel, data: Seq<u8>) -> bool {
    &&& geometry::elem_count(plan.dims) matches Some(n) && geometry::packed_size(
        plan.ggml_type,
        n as nat,
    ) == Ok::<u64, GgufError>(data.len() as u64)
    &&& data.len() <= u64::MAX
}

/// The file that comes out is read back with the alignment of the source, its metadata, the new
/// type of file, and every tensor in its place with its name, its dimensions, its type and, where
/// their size is right, its data.
pub proof fn law_output_reads_back(
    kv: Seq<(Seq<char>, ValueModel)>,
    file_type: u32,
    plans: Seq<writer::PlanModel>,
    datas: Seq<Seq<u8>>,
    alignment: nat,
)
    requires
        kv.len() < u64::MAX - 1,
        alignment <= u32::MAX,
        plans.len() <= u64::MAX,
        plans.len() == datas.len(),
        writer::sizes_fit(
            output_kv(kv, file_type),
            plans,
            alignment,
            reader::GGUF_VERSION,
        ),
        forall|i: int| 0 <= i < kv.len() ==> laws::pair_fits(#[trigger] kv[i]),
        forall|i: int|
            0 <= i < plans.len() ==> {
                &&& vstd::utf8::encode_utf8((#[trigger] plans[i]).name).len() <= u64::MAX
                &&& plans[i].dims.len() <= u32::MAX
                &&& plans[i].nbytes == datas[i].len()
            },
    ensures
        ({
            let out = output_kv(kv, file_type);
            let file = writer::file_bytes(
                out,
                plans,
                datas,
                alignment,
                reader::GGUF_VERSION,
            );
            reader::read_file(file) matches Ok(m) && m.kv == writer::stated(out, alignment)
                && m.alignment == writer::unit(alignment) && m.tensors.len() == plans.len() && forall|i: int|
                0 <= i < plans.len() ==> {
                    &&& (#[trigger] m.tensors[i]).name == plans[i].name
                    &&& m.tensors[i].dims == plans[i].dims
                    &&& m.tensors[i].ggml_type == plans[i].ggml_type
                    &&& sized(plans[i], datas[i]) ==> reader::tensor_data(
                        file,
                        m.data_offset,
                        m.tensors[i],
                    ) == Ok::<Seq<u8>, GgufError>(datas[i])
                }
        }),
{
    let out = output_kv(kv, file_type);
    lemma_kept_len(kv);
    reveal_strlit("general.file_type");
    reveal_strlit("general.alignment");
    assert("general.file_type"@[8] == 'f');
    assert("general.alignment"@[8] == 'a');
    vstd::utf8::is_ascii_chars_encode_utf8("general.file_type"@);
    assert forall|i: int| 0 <= i < out.len() implies laws::pair_fits(#[trigger] out[i])
        && out[i].0 != "general.alignment"@ by {
        if i < out.len() - 1 {
            lemma_kept(kv, i);
            let j = choose|j: int| 0 <= j < kv.len() && kv[j] == kept_kv(kv)[i];
            assert(laws::pair_fits(kv[j]));
        }
    }
    assert(writer::unstated(out));
    laws::law_file_reads_back(
        out,
        plans,
        datas,
        alignment,
        reader::GGUF_VERSION,
    );
}

/// No more pairs are copied than there are.
proof fn lemma_kept_len(kv: Seq<(Seq<char>, ValueModel)>)
    ensures
        kept_kv(kv).len() <= kv.len(),
    decreases kv.len(),
{
    if kv.len() > 0 {
        lemma_kept_len(kv.drop_last());
    }
}

} // verus!
