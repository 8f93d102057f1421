//! Quantizing a checkpoint into a pack: which tensors are quantized, to what, and how the pack
//! describes them.
use vstd::prelude::*;
use crate::gguf::geometry;
use crate::gguf::geometry::{block_layout, count_elems};
use crate::safetensors;
use crate::safetensors::load::TensorSource;
use crate::safetensors::sharded::ShardedSafeTensors;
use crate::safetensors::{widen_floats, EntryModel, StDtype, StEntry};
use crate::text;

pub mod laws;
pub mod output;
pub mod promises;
pub mod report;

verus! {

/// Half-precision floats.
pub const GGML_F16: u32 = 1;

/// Blocks of 32 with five bits.
pub const GGML_Q5_0: u32 = 6;

/// Blocks of 32 with eight bits.
pub const GGML_Q8_0: u32 = 8;

/// Blocks of 256 with four bits.
pub const GGML_Q4_K: u32 = 12;

/// Blocks of 256 with six bits.
pub const GGML_Q6_K: u32 = 14;

/// Rows that are quantized at a time.
pub const ROW_CHUNK: usize = 4096;

/// What to pack, where to, and how.
#[derive(Debug)]
pub struct PackOptions {
    pub input_dir: String,
    pub output_dir: String,
    pub expert_type: u32,
    pub attn_type: u32,
    pub embed_type: u32,
    pub max_shard_size: u64,
    pub dry_run: bool,
}

/// The part that a tensor plays in the model.
#[derive(Debug, Clone, Copy, PartialEq, Eq, Structural)]
pub enum PackRole {
    /// A tensor with fewer than two dimensions.
    Vector,
    Vision,
    Router,
    SharedExpert,
    Conv,
    Experts,
    Embeddings,
    Attention,
}

/// What happens to a tensor.
#[derive(Debug, Clone, Copy, PartialEq, Eq, Structural)]
pub enum PackPlan {
    /// Its bytes are copied.
    Passthrough,
    /// Its rows are quantized; `fell_back` where the type is not the one of the recipe.
    Quantize { ggml_type: u32, rows: usize, cols: usize, row_bytes: usize, fell_back: bool },
}

/// A tensor of the checkpoint and what happens to it.
#[derive(Debug)]
pub struct Planned {
    pub name: String,
    /// The shape in the checkpoint.
    pub shape: Vec<u64>,
    pub src_dtype: StDtype,
    pub src_bytes: u64,
    pub out_bytes: u64,
    pub plan: PackPlan,
    pub role: PackRole,
}

/// What a [`Planned`] stands for.
pub struct PlannedModel {
    pub name: Seq<char>,
    pub shape: Seq<u64>,
    pub src_dtype: StDtype,
    pub src_bytes: nat,
    pub out_bytes: nat,
    pub plan: PackPlan,
    pub role: PackRole,
}

impl View for Planned {
    type V = PlannedModel;

    open spec fn view(&self) -> PlannedModel {
        PlannedModel {
            name: self.name@,
            shape: self.shape@,
            src_dtype: self.src_dtype,
            src_bytes: self.src_bytes as nat,
            out_bytes: self.out_bytes as nat,
            plan: self.plan,
            role: self.role,
        }
    }
}

/// A tensor that cannot be packed.
#[derive(Debug, Clone, Copy, PartialEq, Eq, Structural)]
pub enum PackError {
    /// A size does not fit in the machine's integers.
    TooLarge,
    UnsupportedType(u32),
    /// The columns do not make whole blocks.
    NotDivisible { ggml_type: u32, cols: usize, block: usize },
}

impl PackRole {
    /// The role as reports name it.
    pub open spec fn label_of(self) -> Seq<char> {
        match self {
            PackRole::Vector => "scalar/vector"@,
            PackRole::Vision => "vision (unused)"@,
            PackRole::Router => "router (protected)"@,
            PackRole::SharedExpert => "shared expert (degenerate)"@,
            PackRole::Conv => "conv1d"@,
            PackRole::Experts => "routed experts"@,
            PackRole::Embeddings => "embeddings / LM head"@,
            PackRole::Attention => "attention"@,
        }
    }

    /// The role as reports name it.
    pub fn label(self) -> (r: &'static str)
        ensures
            r@ == self.label_of(),
    {
        match self {
            PackRole::Vector => "scalar/vector",
            PackRole::Vision => "vision (unused)",
            PackRole::Router => "router (protected)",
            PackRole::SharedExpert => "shared expert (degenerate)",
            PackRole::Conv => "conv1d",
            PackRole::Experts => "routed experts",
            PackRole::Embeddings => "embeddings / LM head",
            PackRole::Attention => "attention",
        }
    }

    /// The type that the recipe gives to this role; none for a role that is not quantized.
    pub open spec fn recipe(self, opts: PackOptions) -> Option<u32> {
        match self {
            PackRole::Experts => Some(opts.expert_type),
            PackRole::Embeddings => Some(opts.embed_type),
            PackRole::Attention => Some(opts.attn_type),
            _ => None,
        }
    }

    /// The type that the recipe gives to this role; none for a role that is not quantized.
    pub fn wanted(self, opts: &PackOptions) -> (r: Option<u32>)
        ensures
            r == self.recipe(*opts),
    {
        match self {
            PackRole::Experts => Some(opts.expert_type),
            PackRole::Embeddings => Some(opts.embed_type),
            PackRole::Attention => Some(opts.attn_type),
            _ => None,
        }
    }
}

/// The part that a tensor of this name and number of dimensions plays.
pub open spec fn role_named(name: Seq<char>, rank: nat) -> PackRole {
    if rank < 2 {
        PackRole::Vector
    } else if text::stripped_prefix(name, "model.visual."@) is Some || text::occurs(
        name,
        ".visual."@,
    ) {
        PackRole::Vision
    } else if text::stripped_suffix(name, "mlp.gate.weight"@) is Some {
        PackRole::Router
    } else if text::occurs(name, ".shared_expert."@) {
        PackRole::SharedExpert
    } else if text::stripped_suffix(name, "conv1d.weight"@) is Some {
        PackRole::Conv
    } else if text::stripped_suffix(name, "mlp.experts.gate_up_proj"@) is Some
        || text::stripped_suffix(name, "mlp.experts.down_proj"@) is Some {
        PackRole::Experts
    } else if text::stripped_suffix(name, "embed_tokens.weight"@) is Some || text::stripped_suffix(
        name,
        "lm_head.weight"@,
    ) is Some {
        PackRole::Embeddings
    } else {
        PackRole::Attention
    }
}

/// The part that a tensor of this name and number of dimensions plays.
pub fn role_of(name: &str, rank: usize) -> (r: PackRole)
    ensures
        r == role_named(name@, rank as nat),
{
    if rank < 2 {
        PackRole::Vector
    } else if text::starts_with(name, "model.visual.") || text::contains(name, ".visual.") {
        PackRole::Vision
    } else if text::ends_with(name, "mlp.gate.weight") {
        PackRole::Router
    } else if text::contains(name, ".shared_expert.") {
        PackRole::SharedExpert
    } else if text::ends_with(name, "conv1d.weight") {
        PackRole::Conv
    } else if text::ends_with(name, "mlp.experts.gate_up_proj") || text::ends_with(
        name,
        "mlp.experts.down_proj",
    ) {
        PackRole::Experts
    } else if text::ends_with(name, "embed_tokens.weight") || text::ends_with(
        name,
        "lm_head.weight",
    ) {
        PackRole::Embeddings
    } else {
        PackRole::Attention
    }
}

/// The bytes of a row of `cols` elements.
pub open spec fn row_size(ggml_type: u32, cols: usize) -> Result<usize, PackError> {
    if ggml_type == GGML_F16 {
        if cols * 2 > usize::MAX {
            Err(PackError::TooLarge)
        } else {
            Ok((cols * 2) as usize)
        }
    } else {
        match geometry::layout_of(ggml_type) {
            None => Err(PackError::UnsupportedType(ggml_type)),
            Some((block, bytes)) => if cols % block != 0 {
                Err(PackError::NotDivisible { ggml_type, cols, block })
            } else if cols / block * bytes > usize::MAX {
                Err(PackError::TooLarge)
            } else {
                Ok((cols / block * bytes) as usize)
            },
        }
    }
}

/// The bytes of a row of `cols` elements.
pub fn row_bytes(ggml_type: u32, cols: usize) -> (r: Result<usize, PackError>)
    ensures
        r == row_size(ggml_type, cols),
{
    if ggml_type == GGML_F16 {
        return match cols.checked_mul(2) {
            Some(n) => Ok(n),
            None => Err(PackError::TooLarge),
        };
    }
    match block_layout(ggml_type) {
        None => Err(PackError::UnsupportedType(ggml_type)),
        Some((block, bytes)) => {
            assert(block > 0);
            if cols % block != 0 {
                return Err(PackError::NotDivisible { ggml_type, cols, block });
            }
            match (cols / block).checked_mul(bytes) {
                Some(n) => Ok(n),
                None => Err(PackError::TooLarge),
            }
        },
    }
}

/// Rows and columns of a tensor: the last dimension is a row, all others count rows.
pub open spec fn rows_and_cols(shape: Seq<u64>) -> Option<(usize, usize)> {
    match geometry::elem_count(shape.drop_last()) {
        Some(rows) => if rows <= usize::MAX && shape.last() <= usize::MAX {
            Some((rows as usize, shape.last() as usize))
        } else {
            None
        },
        None => None,
    }
}

/// Rows and columns of a tensor; none where they do not fit in the machine's integers.
pub fn flatten(shape: &[u64]) -> (r: Option<(usize, usize)>)
    requires
        shape@.len() > 0,
    ensures
        r == rows_and_cols(shape@),
{
    let n: usize = shape.len();
    let lead = vstd::slice::slice_subrange(shape, 0, n - 1);
    assert(lead@ =~= shape@.drop_last());
    let cols: u64 = shape[n - 1];
    match count_elems(lead) {
        Some(rows) => if rows as u128 <= usize::MAX as u128 && cols as u128 <= usize::MAX as u128 {
            Some((rows as usize, cols as usize))
        } else {
            None
        },
        None => None,
    }
}

/// What happens to a tensor, where `fallback` is the type that stands in for the one of the recipe
/// and whether it is another one.
pub open spec fn planned_as(
    name: Seq<char>,
    e: EntryModel,
    opts: PackOptions,
    fallback: (u32, bool),
) -> Result<PlannedModel, PackError> {
    let role = role_named(name, e.shape.len());
    match geometry::elem_count(e.shape) {
        None => Err(PackError::TooLarge),
        Some(n) => {
            let src_bytes = n as nat * e.dtype.size_of();
            if src_bytes > u64::MAX {
                Err(PackError::TooLarge)
            } else if role.recipe(opts) is None {
                Ok(
                    PlannedModel {
                        name,
                        shape: e.shape,
                        src_dtype: e.dtype,
                        src_bytes,
                        out_bytes: src_bytes,
                        plan: PackPlan::Passthrough,
                        role,
                    },
                )
            } else {
                match rows_and_cols(e.shape) {
                    None => Err(PackError::TooLarge),
                    Some((rows, cols)) => match row_size(fallback.0, cols) {
                        Err(x) => Err(x),
                        Ok(row) => if row * rows > u64::MAX {
                            Err(PackError::TooLarge)
                        } else {
                            Ok(
                                PlannedModel {
                                    name,
                                    shape: e.shape,
                                    src_dtype: e.dtype,
                                    src_bytes,
                                    out_bytes: (row * rows) as nat,
                                    plan: PackPlan::Quantize {
                                        ggml_type: fallback.0,
                                        rows,
                                        cols,
                                        row_bytes: row,
                                        fell_back: fallback.1,
                                    },
                                    role,
                                },
                            )
                        },
                    },
                }
            }
        },
    }
}

/// The type of the recipe for a tensor and the length of its rows, for which a type may have to
/// stand in; none for a tensor that is not quantized.
pub open spec fn request_of(name: Seq<char>, shape: Seq<u64>, opts: PackOptions) -> Option<
    (u32, u64),
> {
    match role_named(name, shape.len()).recipe(opts) {
        Some(want) => Some((want, shape.last())),
        None => None,
    }
}

/// The type of the recipe for a tensor and the length of its rows; none for a tensor that is not
/// quantized.
pub fn request(name: &str, shape: &[u64], opts: &PackOptions) -> (r: Option<(u32, u64)>)
    ensures
        r == request_of(name@, shape@, *opts),
{
    let rank: usize = shape.len();
    match role_of(name, rank).wanted(opts) {
        Some(want) => Some((want, shape[rank - 1])),
        None => None,
    }
}

/// What happens to a tensor. `fallback` is the type that stands in for the one of the recipe, for
/// rows of the tensor's length, and whether it is another one; a tensor that is not quantized does
/// not depend on it.
pub fn plan_tensor(name: &str, entry: &StEntry, opts: &PackOptions, fallback: (u32, bool)) -> (r:
    Result<Planned, PackError>)
    ensures
        match planned_as(name@, entry@, *opts, fallback) {
            Ok(m) => r matches Ok(p) && p@ == m,
            Err(x) => r matches Err(y) && x == y,
        },
{
    let rank: usize = entry.shape.len();
    let role = role_of(name, rank);
    let n: u64 = match count_elems(entry.shape.as_slice()) {
        Some(n) => n,
        None => return Err(PackError::TooLarge),
    };
    let src_bytes: u64 = match n.checked_mul(entry.dtype.size() as u64) {
        Some(b) => b,
        None => return Err(PackError::TooLarge),
    };
    let src_dtype = entry.dtype;
    if role.wanted(opts).is_none() {
        return Ok(
            Planned {
                name: name.to_owned(),
                shape: vstd::slice::slice_to_vec(entry.shape.as_slice()),
                src_dtype,
                src_bytes,
                out_bytes: src_bytes,
                plan: PackPlan::Passthrough,
                role,
            },
        );
    }
    let (rows, cols) = match flatten(entry.shape.as_slice()) {
        Some(p) => p,
        None => return Err(PackError::TooLarge),
    };
    let row: usize = match row_bytes(fallback.0, cols) {
        Ok(b) => b,
        Err(x) => return Err(x),
    };
    let out_bytes: u64 = match (row as u64).checked_mul(rows as u64) {
        Some(b) => b,
        None => return Err(PackError::TooLarge),
    };
    Ok(
        Planned {
            name: name.to_owned(),
            shape: vstd::slice::slice_to_vec(entry.shape.as_slice()),
            src_dtype,
            src_bytes,
            out_bytes,
            plan: PackPlan::Quantize {
                ggml_type: fallback.0,
                rows,
                cols,
                row_bytes: row,
                fell_back: fallback.1,
            },
            role,
        },
    )
}

/// A checkpoint that cannot be packed.
#[derive(Debug)]
pub enum CheckpointError {
    /// It has no tensors.
    Empty,
    /// This tensor cannot be packed.
    Tensor { name: String, kind: PackError },
}

/// For each tensor in the order of the names the type of the recipe and the length of its rows;
/// none for a tensor that is not quantized.
pub fn requests(src: &ShardedSafeTensors<'_>, opts: &PackOptions) -> (r: Vec<Option<(u32, u64)>>)
    requires
        src.wf(),
    ensures
        r@.len() == src.map.keys().len(),
        forall|i: int|
            0 <= i < r@.len() ==> #[trigger] r@[i] == request_of(
                src.map.keys()[i],
                src.entry_at(src.map.keys()[i])->0.shape,
                *opts,
            ),
{
    let names = src.names();
    let n: usize = names.len();
    let mut out: Vec<Option<(u32, u64)>> = Vec::new();
    let mut i: usize = 0;
    while i < n
        invariant
            src.wf(),
            i <= n == names@.len() == src.map.keys().len(),
            forall|j: int| 0 <= j < n ==> (#[trigger] names@[j])@ == src.map.keys()[j],
            out@.len() == i,
            forall|j: int|
                0 <= j < i ==> #[trigger] out@[j] == request_of(
                    src.map.keys()[j],
                    src.entry_at(src.map.keys()[j])->0.shape,
                    *opts,
                ),
        decreases n - i,
    {
        proof {
            src.map.lemma_at(i as int);
            assert(src.map@.dom().contains(src.map.keys()[i as int]));
        }
        match src.st_entry(names[i].as_str()) {
            Some(e) => {
                out.push(request(names[i].as_str(), e.shape.as_slice(), opts));
            },
            None => {
                out.push(None);
            },
        }
        i = i + 1;
    }
    out
}

/// What happens to the tensor `i` in the order of the names.
pub open spec fn planned_at(
    src: &ShardedSafeTensors<'_>,
    opts: PackOptions,
    fallbacks: Seq<(u32, bool)>,
    i: int,
) -> Result<PlannedModel, PackError> {
    let name = src.map.keys()[i];
    planned_as(name, src.entry_at(name)->0, opts, fallbacks[i])
}

/// What happens to each tensor of a checkpoint, in the order of the names, or the first tensor that
/// cannot be packed. `fallbacks` has for each tensor the type that stands in for the one of the
/// recipe and whether it is another one.
pub fn plan_pack(src: &ShardedSafeTensors<'_>, opts: &PackOptions, fallbacks: &[(u32, bool)]) -> (r:
    Result<Vec<Planned>, CheckpointError>)
    requires
        src.wf(),
        fallbacks@.len() == src.map.keys().len(),
    ensures
        match r {
            Ok(v) => {
                &&& v@.len() == src.map.keys().len() > 0
                &&& forall|i: int|
                    0 <= i < v@.len() ==> planned_at(src, *opts, fallbacks@, i) == Ok::<
                        PlannedModel,
                        PackError,
                    >((#[trigger] v@[i])@)
            },
            Err(CheckpointError::Empty) => src.map.keys().len() == 0,
            Err(CheckpointError::Tensor { name, kind }) => exists|i: int|
                {
                    &&& 0 <= i < src.map.keys().len()
                    &&& #[trigger] src.map.keys()[i] == name@
                    &&& planned_at(src, *opts, fallbacks@, i) == Err::<PlannedModel, PackError>(
                        kind,
                    )
                    &&& forall|j: int|
                        0 <= j < i ==> #[trigger] planned_at(src, *opts, fallbacks@, j) is Ok
                },
        },
{
    let names = src.names();
    let ghost keys = src.map.keys();
    let n: usize = names.len();
    if n == 0 {
        return Err(CheckpointError::Empty);
    }
    let mut out: Vec<Planned> = Vec::new();
    let mut i: usize = 0;
    while i < n
        invariant
            src.wf(),
            keys == src.map.keys(),
            i <= n == names@.len() == keys.len() == fallbacks@.len(),
            forall|j: int| 0 <= j < n ==> (#[trigger] names@[j])@ == keys[j],
            out@.len() == i,
            forall|j: int|
                0 <= j < i ==> planned_at(src, *opts, fallbacks@, j) == Ok::<
                    PlannedModel,
                    PackError,
                >((#[trigger] out@[j])@),
        decreases n - i,
    {
        proof {
            src.map.lemma_at(i as int);
            assert(src.map@.dom().contains(keys[i as int]));
        }
        match src.st_entry(names[i].as_str()) {
            Some(e) => match plan_tensor(names[i].as_str(), e, opts, fallbacks[i]) {
                Ok(p) => {
                    out.push(p);
                },
                Err(kind) => {
                    proof {
                        assert(keys[i as int] == names@[i as int]@);
                        assert forall|j: int| 0 <= j < i implies #[trigger] planned_at(
                            src,
                            *opts,
                            fallbacks@,
                            j,
                        ) is Ok by {
                            let p = out@[j];
                            assert(planned_at(src, *opts, fallbacks@, j) == Ok::<
                                PlannedModel,
                                PackError,
                            >(p@));
                        }
                    }
                    return Err(CheckpointError::Tensor { name: names[i].clone(), kind });
                },
            },
            None => {},
        }
        i = i + 1;
    }
    Ok(out)
}

/// Vectors, the router, the vision tower, the shared expert and convolutions keep their bytes,
/// whatever the recipe says.
pub proof fn law_protected_tensors_are_copied(
    name: Seq<char>,
    e: EntryModel,
    opts: PackOptions,
    fallback: (u32, bool),
)
    requires
        planned_as(name, e, opts, fallback) is Ok,
        e.shape.len() < 2 || text::stripped_suffix(name, "mlp.gate.weight"@) is Some
            || text::stripped_prefix(name, "model.visual."@) is Some || text::occurs(
            name,
            ".visual."@,
        ) || text::occurs(name, ".shared_expert."@) || text::stripped_suffix(
            name,
            "conv1d.weight"@,
        ) is Some,
    ensures
        planned_as(name, e, opts, fallback)->Ok_0.plan == PackPlan::Passthrough,
        planned_as(name, e, opts, fallback)->Ok_0.out_bytes == planned_as(
            name,
            e,
            opts,
            fallback,
        )->Ok_0.src_bytes,
{
}

/// The bytes of a quantized tensor are those of its rows, which the type and the columns fix.
pub proof fn law_quantized_bytes_are_the_rows(
    name: Seq<char>,
    e: EntryModel,
    opts: PackOptions,
    fallback: (u32, bool),
)
    ensures
        planned_as(name, e, opts, fallback) matches Ok(p) ==> match p.plan {
            PackPlan::Passthrough => true,
            PackPlan::Quantize { ggml_type, rows, cols, row_bytes, .. } => p.out_bytes == rows
                * row_bytes && row_size(ggml_type, cols) == Ok::<usize, PackError>(row_bytes),
        },
{
    if let Ok(p) = planned_as(name, e, opts, fallback) {
        if let PackPlan::Quantize { rows, row_bytes, .. } = p.plan {
            assert(rows * row_bytes == row_bytes * rows) by (nonlinear_arith);
        }
    }
}

/// The name of a type that a pack may have.
pub open spec fn pack_type_name(t: u32) -> Seq<char> {
    if t == GGML_F16 {
        "F16"@
    } else if t == GGML_Q5_0 {
        "Q5_0"@
    } else if t == GGML_Q8_0 {
        "Q8_0"@
    } else if t == GGML_Q4_K {
        "Q4_K"@
    } else if t == GGML_Q6_K {
        "Q6_K"@
    } else {
        "?"@
    }
}

/// The name of a type that a pack may have.
pub fn quant_name(t: u32) -> (r: &'static str)
    ensures
        r@ == pack_type_name(t),
{
    if t == GGML_F16 {
        "F16"
    } else if t == GGML_Q5_0 {
        "Q5_0"
    } else if t == GGML_Q8_0 {
        "Q8_0"
    } else if t == GGML_Q4_K {
        "Q4_K"
    } else if t == GGML_Q6_K {
        "Q6_K"
    } else {
        "?"
    }
}

/// A type that a pack cannot have, by its name in upper case.
#[derive(Debug)]
pub struct UnknownType {
    pub name: String,
}

impl UnknownType {
    /// What to tell the user.
    pub fn message(&self) -> (r: String)
        ensures
            r@ == "unknown quant type `"@ + self.name@
                + "`; minglang has kernels for Q4_K, Q6_K, Q5_0, Q8_0, F16"@,
    {
        let mut s: String = "unknown quant type `".to_owned();
        s.append(self.name.as_str());
        s.append("`; minglang has kernels for Q4_K, Q6_K, Q5_0, Q8_0, F16");
        s
    }
}

/// The type with this name, whose letters are in upper case.
pub open spec fn type_named(s: Seq<char>) -> Option<u32> {
    if s == "Q4_K"@ {
        Some(GGML_Q4_K)
    } else if s == "Q6_K"@ {
        Some(GGML_Q6_K)
    } else if s == "Q5_0"@ {
        Some(GGML_Q5_0)
    } else if s == "Q8_0"@ {
        Some(GGML_Q8_0)
    } else if s == "F16"@ {
        Some(GGML_F16)
    } else {
        None
    }
}

/// Reads the name of a type, in upper or lower case.
pub fn parse_type(s: &str) -> (r: Result<u32, UnknownType>)
    ensures
        match type_named(text::uppercase(s@)) {
            Some(t) => r matches Ok(x) && x == t,
            None => r matches Err(e) && e.name@ == text::uppercase(s@),
        },
{
    let up = text::to_uppercase(s);
    let u = up.as_str();
    if text::same(u, "Q4_K") {
        Ok(GGML_Q4_K)
    } else if text::same(u, "Q6_K") {
        Ok(GGML_Q6_K)
    } else if text::same(u, "Q5_0") {
        Ok(GGML_Q5_0)
    } else if text::same(u, "Q8_0") {
        Ok(GGML_Q8_0)
    } else if text::same(u, "F16") {
        Ok(GGML_F16)
    } else {
        Err(UnknownType { name: up })
    }
}

/// Every type that can be asked for is read back from its name.
pub proof fn law_type_names(t: u32)
    requires
        t == GGML_F16 || t == GGML_Q5_0 || t == GGML_Q8_0 || t == GGML_Q4_K || t == GGML_Q6_K,
    ensures
        type_named(text::uppercase(pack_type_name(t))) == Some(t),
{
    reveal_strlit("F16");
    reveal_strlit("Q5_0");
    reveal_strlit("Q8_0");
    reveal_strlit("Q4_K");
    reveal_strlit("Q6_K");
    assert(text::uppercase("F16"@) =~= "F16"@);
    assert(text::uppercase("Q5_0"@) =~= "Q5_0"@);
    assert(text::uppercase("Q8_0"@) =~= "Q8_0"@);
    assert(text::uppercase("Q4_K"@) =~= "Q4_K"@);
    assert(text::uppercase("Q6_K"@) =~= "Q6_K"@);
    assert("F16"@.len() == 3);
    assert("Q5_0"@[1] == '5' && "Q8_0"@[1] == '8' && "Q4_K"@[1] == '4' && "Q6_K"@[1] == '6');
}

/// The unit at the end of a size.
pub open spec fn unit_of(c: char) -> Option<u64> {
    if c == 'G' || c == 'g' {
        Some(0x4000_0000)
    } else if c == 'M' || c == 'm' {
        Some(0x10_0000)
    } else if c == 'K' || c == 'k' {
        Some(0x400)
    } else {
        None
    }
}

/// The number and the unit of a size.
pub open spec fn size_parts(s: Seq<char>) -> (Seq<char>, u64) {
    let t = text::trimmed(s);
    if t.len() > 0 && unit_of(t.last()) is Some {
        (t.drop_last(), unit_of(t.last())->0)
    } else {
        (t, 1)
    }
}

/// The bytes that a size states; none where it has no number or does not fit in 64 bits.
pub open spec fn size_stated(s: Seq<char>) -> Option<u64> {
    let (num, unit) = size_parts(s);
    match text::parsed_up_to(text::trimmed(num), u64::MAX as nat) {
        Some(n) => if n * unit > u64::MAX {
            None
        } else {
            Some((n * unit) as u64)
        },
        None => None,
    }
}

/// Reads a size such as `5G`; none where it has no number or does not fit in 64 bits.
pub fn parse_size(s: &str) -> (r: Option<u64>)
    ensures
        r == size_stated(s@),
{
    let t = text::trim(s);
    let len: usize = t.unicode_len();
    let mut unit: u64 = 1;
    let mut num = t;
    if len > 0 {
        let c = t.get_char(len - 1);
        if c == 'G' || c == 'g' {
            unit = 0x4000_0000;
        } else if c == 'M' || c == 'm' {
            unit = 0x10_0000;
        } else if c == 'K' || c == 'k' {
            unit = 0x400;
        }
        if unit != 1 {
            num = t.substring_char(0, len - 1);
        }
    }
    assert(num@ =~= size_parts(s@).0);
    match text::parse_up_to(text::trim(num), u64::MAX) {
        Some(n) => n.checked_mul(unit),
        None => None,
    }
}

/// Floats that rows are quantized from.
pub open spec fn quantizable(d: StDtype) -> bool {
    d == StDtype::BF16 || d == StDtype::F16 || d == StDtype::F32
}

/// Row `r` of a tensor with rows of `cols` elements, as single-precision bits.
pub fn source_row(dtype: StDtype, src: &[u8], r: usize, cols: usize) -> (v: Vec<u32>)
    requires
        quantizable(dtype),
        (r + 1) * (cols * dtype.size_of()) <= src@.len(),
    ensures
        v@.len() == cols,
        forall|i: int|
            0 <= i < cols ==> safetensors::float_elem(dtype, src@, r * cols + i, #[trigger] v@[i]),
{
    let size: usize = dtype.size();
    let total: usize = src.len();
    proof {
        assert((r + 1) * (cols * size) == r * (cols * size) + cols * size) by (nonlinear_arith);
        assert(r * (cols * size) >= 0) by (nonlinear_arith);
        assert(cols * size >= 0) by (nonlinear_arith);
    }
    let width: usize = cols * size;
    let start: usize = r * width;
    let raw = vstd::slice::slice_subrange(src, start, start + width);
    let v = widen_floats(dtype, raw);
    proof {
        assert(width / size == cols) by (nonlinear_arith)
            requires
                width == cols * size,
                size > 0,
        ;
        assert forall|i: int| 0 <= i < cols implies safetensors::float_elem(
            dtype,
            src@,
            r * cols + i,
            #[trigger] v@[i],
        ) by {
            assert(safetensors::float_elem(dtype, raw@, i, v@[i]));
            assert(start + size * i == size * (r * cols + i)) by (nonlinear_arith)
                requires
                    start == r * width,
                    width == cols * size,
            ;
            assert(size * i + size <= width) by (nonlinear_arith)
                requires
                    width == cols * size,
                    i < cols,
            ;
            assert(raw@.subrange(size * i, size * i + size) =~= src@.subrange(
                size * (r * cols + i),
                size * (r * cols + i) + size,
            ));
        }
    }
    v
}

} // verus!
