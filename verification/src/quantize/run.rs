//! A whole run: the file that comes out of a model file, a recipe and what the kernels have made.
use vstd::prelude::*;
use crate::gguf::geometry;
use crate::gguf::reader;
use crate::gguf::reader::{tensor_nbytes, GgufReader, TensorInfo};
use crate::gguf::value::GgufError;
use crate::gguf::writer::{GgufWriter, TensorSpec};
use crate::quantize;
use crate::quantize::{add_output, plan_step, start_output, Action, Outcome, Policy, Step};

verus! {

/// What the kernels have made of the elements of a tensor: the type that came out, which for blocks
/// may stand in for the one that was asked for, and the bytes.
#[derive(Debug)]
pub struct Made {
    pub ggml_type: u32,
    pub data: Vec<u8>,
}

/// What is wrong with a tensor.
#[derive(Debug, Clone, Copy, PartialEq, Eq, Structural)]
pub enum QuantizeFault {
    /// This type has no number in model files.
    NotGguf(u32),
    /// The size or the bytes of the tensor cannot be told.
    Tensor(GgufError),
    /// No row can be made.
    NoColumns,
    /// The kernels have made nothing.
    NotMade,
}

/// A tensor that cannot be requantized.
#[derive(Debug)]
pub struct QuantizeError {
    pub tensor: String,
    pub kind: QuantizeFault,
}

/// The packed bytes of a tensor.
pub open spec fn size_of(t: TensorInfo) -> Result<u64, GgufError> {
    match geometry::elem_count(t.dims@) {
        None => Err(GgufError::SizeOverflow),
        Some(n) => geometry::packed_size(t.ggml_type, n as nat),
    }
}

/// The type and the bytes of the tensor `i` in the file that comes out: its own where it is copied,
/// else what the kernels have made.
pub open spec fn result_at(
    file: GgufReader<'_>,
    policies: Seq<Policy>,
    made: Seq<Option<Made>>,
    i: int,
) -> Result<(u32, Seq<u8>), QuantizeFault> {
    let t = file.tensors@[i];
    match (quantize::step_of(t.ggml_type, t.dims@, policies[i]), size_of(t)) {
        (Err(ty), _) => Err(QuantizeFault::NotGguf(ty)),
        (Ok(_), Err(k)) => Err(QuantizeFault::Tensor(k)),
        (Ok(Step::Copy), Ok(_)) => match reader::tensor_data(
            file.data@,
            file.data_offset,
            t@,
        ) {
            Ok(b) => Ok((t.ggml_type, b)),
            Err(k) => Err(QuantizeFault::Tensor(k)),
        },
        (Ok(Step::NoColumns { .. }), Ok(_)) => Err(QuantizeFault::NoColumns),
        (Ok(Step::Convert { dst, .. }), Ok(_)) => match made[i] {
            Some(m) => Ok((dst, m.data@)),
            None => Err(QuantizeFault::NotMade),
        },
        (Ok(Step::Block { .. }), Ok(_)) => match made[i] {
            Some(m) => Ok((m.ggml_type, m.data@)),
            None => Err(QuantizeFault::NotMade),
        },
    }
}

/// What became of the tensor `i`.
pub open spec fn outcome_at(
    file: GgufReader<'_>,
    policies: Seq<Policy>,
    made: Seq<Option<Made>>,
    i: int,
) -> Outcome {
    let t = file.tensors@[i];
    let (ty, data) = result_at(file, policies, made, i)->Ok_0;
    Outcome {
        src_type: t.ggml_type,
        dst_type: ty,
        src_bytes: size_of(t)->Ok_0,
        dst_bytes: data.len() as u64,
        action: quantize::action_of(
            quantize::step_of(t.ggml_type, t.dims@, policies[i])->Ok_0,
        ),
    }
}

/// A tensor of the file that comes out.
pub open spec fn is_output(
    file: GgufReader<'_>,
    policies: Seq<Policy>,
    made: Seq<Option<Made>>,
    i: int,
    s: TensorSpec,
) -> bool {
    &&& s.name@ == file.tensors@[i].name@
    &&& s.dims@ == file.tensors@[i].dims@
    &&& result_at(file, policies, made, i) == Ok::<_, QuantizeFault>((s.ggml_type, s.data@))
}

/// The tensor `i` is the first that cannot be requantized, for this reason.
pub open spec fn first_fault(
    file: GgufReader<'_>,
    policies: Seq<Policy>,
    made: Seq<Option<Made>>,
    i: int,
    kind: QuantizeFault,
) -> bool {
    &&& 0 <= i < file.tensors@.len()
    &&& result_at(file, policies, made, i) == Err::<(u32, Seq<u8>), _>(kind)
    &&& forall|j: int| 0 <= j < i ==> #[trigger] result_at(file, policies, made, j) is Ok
}

/// The action that a step stands for.
fn action(step: Step) -> (r: Action)
    ensures
        r == quantize::action_of(step),
{
    match step {
        Step::Copy => Action::Copy,
        Step::Convert { .. } => Action::Convert,
        Step::Block { dequantize, .. } => if dequantize {
            Action::Requant
        } else {
            Action::Quantize
        },
        Step::NoColumns { .. } => Action::Quantize,
    }
}

/// One tensor: its type and its bytes in the file that comes out, and what became of it.
fn settle(file: &GgufReader<'_>, i: usize, policy: Policy, made: Option<Made>) -> (r: Result<
    (u32, Vec<u8>, Outcome),
    QuantizeFault,
>)
    requires
        i < file.tensors@.len(),
    ensures
        ({
            let all = Seq::new(file.tensors@.len(), |j: int| made);
            let ps = Seq::new(file.tensors@.len(), |j: int| policy);
            match r {
                Ok((ty, data, o)) => result_at(*file, ps, all, i as int) == Ok::<_, QuantizeFault>(
                    (ty, data@),
                ) && o == outcome_at(*file, ps, all, i as int),
                Err(k) => result_at(*file, ps, all, i as int) == Err::<(u32, Seq<u8>), _>(k),
            }
        }),
{
    let t = &file.tensors[i];
    let step = match plan_step(t, policy) {
        Ok(s) => s,
        Err(ty) => return Err(QuantizeFault::NotGguf(ty)),
    };
    let src_bytes: u64 = match tensor_nbytes(t) {
        Ok(n) => n,
        Err(e) => return Err(QuantizeFault::Tensor(e.kind)),
    };
    let (ty, data) = match step {
        Step::Copy => match file.tensor_bytes(i) {
            Ok(b) => (t.ggml_type, vstd::slice::slice_to_vec(b)),
            Err(e) => return Err(QuantizeFault::Tensor(e.kind)),
        },
        Step::NoColumns { .. } => return Err(QuantizeFault::NoColumns),
        Step::Convert { dst, .. } => match made {
            Some(m) => (dst, m.data),
            None => return Err(QuantizeFault::NotMade),
        },
        Step::Block { .. } => match made {
            Some(m) => (m.ggml_type, m.data),
            None => return Err(QuantizeFault::NotMade),
        },
    };
    let o = Outcome {
        src_type: t.ggml_type,
        dst_type: ty,
        src_bytes,
        dst_bytes: data.len() as u64,
        action: action(step),
    };
    Ok((ty, data, o))
}

/// The file that comes out of a model file, one policy for each tensor, and what the kernels have
/// made of those that are not copied; and what became of each tensor.
pub fn quantize_file(
    file: &GgufReader<'_>,
    file_type: u32,
    policies: &[Policy],
    made: Vec<Option<Made>>,
) -> (r: Result<(GgufWriter, Vec<Outcome>), QuantizeError>)
    requires
        policies@.len() == file.tensors@.len(),
        made@.len() == file.tensors@.len(),
    ensures
        match r {
            Ok((w, outcomes)) => {
                &&& reader::kv_model(w.kv@) == quantize::output_kv(file@.kv, file_type)
                &&& w.alignment == if file.alignment == 0 {
                    1
                } else {
                    file.alignment
                }
                &&& w.version == reader::GGUF_VERSION
                &&& w.tensors@.len() == file.tensors@.len()
                &&& outcomes@.len() == file.tensors@.len()
                &&& forall|i: int|
                    0 <= i < w.tensors@.len() ==> is_output(
                        *file,
                        policies@,
                        made@,
                        i,
                        #[trigger] w.tensors@[i],
                    )
                &&& forall|i: int|
                    0 <= i < outcomes@.len() ==> #[trigger] outcomes@[i] == outcome_at(
                        *file,
                        policies@,
                        made@,
                        i,
                    )
            },
            Err(e) => exists|i: int| #[trigger]
                first_fault(*file, policies@, made@, i, e.kind) && e.tensor@
                    == file.tensors@[i].name@,
        },
{
    let ghost all = made@;
    let mut rest = made;
    let mut w = start_output(file, file_type);
    let mut outcomes: Vec<Outcome> = Vec::new();
    let n: usize = file.tensors.len();
    let mut i: usize = 0;
    while i < n
        invariant
            i <= n == file.tensors@.len() == policies@.len() == all.len(),
            all == made@,
            rest@ == all.subrange(i as int, n as int),
            reader::kv_model(w.kv@) == quantize::output_kv(file@.kv, file_type),
            w.alignment == if file.alignment == 0 {
                1
            } else {
                file.alignment
            },
            w.version == reader::GGUF_VERSION,
            w.tensors@.len() == i,
            outcomes@.len() == i,
            forall|j: int|
                0 <= j < i ==> is_output(*file, policies@, all, j, #[trigger] w.tensors@[j]),
            forall|j: int|
                0 <= j < i ==> #[trigger] outcomes@[j] == outcome_at(*file, policies@, all, j),
            forall|j: int| 0 <= j < i ==> #[trigger] result_at(*file, policies@, all, j) is Ok,
        decreases n - i,
    {
        let ghost had = w.tensors@;
        let made_here = rest.remove(0);
        assert(made_here == all[i as int]);
        assert(rest@ =~= all.subrange(i + 1, n as int));
        match settle(file, i, policies[i], made_here) {
            Ok((ty, data, o)) => {
                add_output(&mut w, &file.tensors[i], ty, data);
                outcomes.push(o);
                assert forall|j: int| 0 <= j < i + 1 implies is_output(
                    *file,
                    policies@,
                    all,
                    j,
                    #[trigger] w.tensors@[j],
                ) by {
                    if j < i {
                        assert(w.tensors@.drop_last()[j] == had[j]);
                    }
                }
            },
            Err(kind) => {
                assert(first_fault(*file, policies@, all, i as int, kind));
                return Err(QuantizeError { tensor: file.tensors[i].name.clone(), kind });
            },
        }
        i = i + 1;
    }
    Ok((w, outcomes))
}

/// A tensor that the recipe leaves unchanged comes out with its own type and its own bytes,
/// whatever the kernels have made.
pub proof fn law_unchanged_tensors_keep_their_bytes(
    file: GgufReader<'_>,
    policies: Seq<Policy>,
    made: Seq<Option<Made>>,
    i: int,
    s: TensorSpec,
)
    requires
        0 <= i < file.tensors@.len(),
        policies[i].copy_unchanged,
        is_output(file, policies, made, i, s),
    ensures
        s.ggml_type == file.tensors@[i].ggml_type,
        reader::tensor_data(file.data@, file.data_offset, file.tensors@[i]@) == Ok::<_, GgufError>(
            s.data@,
        ),
{
}

} // verus!
