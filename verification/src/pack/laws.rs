//! What a pack promises of the tensors of a checkpoint.
use vstd::prelude::*;
use crate::gguf::geometry;
use crate::pack::{
    parse_type, plan_tensor, request, role_of, row_bytes, PackError, PackOptions, PackPlan,
    PackRole, Planned, UnknownType,
};
use crate::safetensors::StEntry;
use crate::text;

verus! {

/// The name stands in the vision tower.
pub open spec fn in_vision(name: Seq<char>) -> bool {
    "model.visual."@.is_prefix_of(name) || exists|i: int|
        0 <= i <= name.len() - 8 && #[trigger] name.subrange(i, i + 8) == ".visual."@
}

/// The name stands in a shared expert.
pub open spec fn in_shared_expert(name: Seq<char>) -> bool {
    exists|i: int|
        0 <= i <= name.len() - 15 && #[trigger] name.subrange(i, i + 15) == ".shared_expert."@
}

/// A tensor that is left as it is, whatever the recipe says.
pub open spec fn is_protected(name: Seq<char>, rank: nat) -> bool {
    ||| rank < 2
    ||| in_vision(name)
    ||| "mlp.gate.weight"@.is_suffix_of(name)
    ||| in_shared_expert(name)
    ||| "conv1d.weight"@.is_suffix_of(name)
}

/// The packed weights of all routed experts.
pub open spec fn holds_experts(name: Seq<char>) -> bool {
    "mlp.experts.gate_up_proj"@.is_suffix_of(name) || "mlp.experts.down_proj"@.is_suffix_of(name)
}

/// The token embeddings or the output projection.
pub open spec fn holds_embeddings(name: Seq<char>) -> bool {
    "embed_tokens.weight"@.is_suffix_of(name) || "lm_head.weight"@.is_suffix_of(name)
}

/// A part of a text of eight or fifteen characters is found where it stands.
proof fn lemma_occurs(name: Seq<char>)
    ensures
        text::occurs(name, ".visual."@) <==> exists|i: int|
            0 <= i <= name.len() - 8 && #[trigger] name.subrange(i, i + 8) == ".visual."@,
        text::occurs(name, ".shared_expert."@) <==> in_shared_expert(name),
{
    reveal_strlit(".visual.");
    reveal_strlit(".shared_expert.");
    if text::occurs(name, ".visual."@) {
        let i = choose|i: int| text::occurs_at(name, ".visual."@, i);
        assert(name.subrange(i, i + 8) == ".visual."@);
    }
    if exists|i: int| 0 <= i <= name.len() - 8 && #[trigger] name.subrange(i, i + 8) == ".visual."@ {
        let i = choose|i: int|
            0 <= i <= name.len() - 8 && #[trigger] name.subrange(i, i + 8) == ".visual."@;
        assert(text::occurs_at(name, ".visual."@, i));
    }
    if text::occurs(name, ".shared_expert."@) {
        let i = choose|i: int| text::occurs_at(name, ".shared_expert."@, i);
        assert(name.subrange(i, i + 15) == ".shared_expert."@);
    }
    if in_shared_expert(name) {
        let i = choose|i: int|
            0 <= i <= name.len() - 15 && #[trigger] name.subrange(i, i + 15) == ".shared_expert."@;
        assert(text::occurs_at(name, ".shared_expert."@, i));
    }
}

/// The part that a tensor plays is told from its name and its number of dimensions: what is
/// protected plays a protected part, everything else is an expert weight, an embedding or
/// attention, and which of these its ending tells.
pub proof fn law_roles_are_told_from_names(name: &str, rank: usize, r: PackRole)
    requires
        call_ensures(role_of, (name, rank), r),
    ensures
        is_protected(name@, rank as nat) <==> r == PackRole::Vector || r == PackRole::Vision || r
            == PackRole::Router || r == PackRole::SharedExpert || r == PackRole::Conv,
        r == PackRole::Vector <==> rank < 2,
        r == PackRole::Vision ==> in_vision(name@),
        r == PackRole::Router ==> "mlp.gate.weight"@.is_suffix_of(name@),
        r == PackRole::SharedExpert ==> in_shared_expert(name@),
        r == PackRole::Conv ==> "conv1d.weight"@.is_suffix_of(name@),
        rank >= 2 && in_vision(name@) ==> r == PackRole::Vision,
        rank >= 2 && !in_vision(name@) && "mlp.gate.weight"@.is_suffix_of(name@) ==> r
            == PackRole::Router,
        rank >= 2 && !in_vision(name@) && !"mlp.gate.weight"@.is_suffix_of(name@)
            && in_shared_expert(name@) ==> r == PackRole::SharedExpert,
        !is_protected(name@, rank as nat) && holds_experts(name@) ==> r == PackRole::Experts,
        !is_protected(name@, rank as nat) && !holds_experts(name@) && holds_embeddings(name@) ==> r
            == PackRole::Embeddings,
        !is_protected(name@, rank as nat) && !holds_experts(name@) && !holds_embeddings(name@)
            ==> r == PackRole::Attention,
{
    lemma_occurs(name@);
}

/// The recipe is followed: a tensor that is not protected asks for the type that the options give
/// to experts, to embeddings or to attention, for rows as long as its last dimension. A protected
/// tensor asks for nothing.
pub proof fn law_recipe_is_followed(
    name: &str,
    shape: &[u64],
    opts: &PackOptions,
    r: Option<(u32, u64)>,
)
    requires
        call_ensures(request, (name, shape, opts), r),
    ensures
        r is None <==> is_protected(name@, shape@.len()),
        r matches Some((_, cols)) ==> cols == shape@[shape@.len() - 1],
        r matches Some((want, _)) ==> want == if holds_experts(name@) {
            opts.expert_type
        } else if holds_embeddings(name@) {
            opts.embed_type
        } else {
            opts.attn_type
        },
{
    lemma_occurs(name@);
}

/// A tensor is quantized if and only if it is not protected, to the type that stands in for the one
/// of the recipe. Its last dimension makes a row and all others count rows, so no element is lost;
/// a protected tensor keeps its bytes. In both cases it keeps its name and its shape.
pub proof fn law_unprotected_tensors_are_quantized(
    name: &str,
    e: &StEntry,
    opts: &PackOptions,
    fallback: (u32, bool),
    r: Result<Planned, PackError>,
)
    requires
        call_ensures(plan_tensor, (name, e, opts, fallback), r),
        r is Ok,
    ensures
        ({
            let p = r->Ok_0;
            &&& p.name@ == name@ && p.shape@ == e.shape@ && p.src_dtype == e.dtype
            &&& p.plan == PackPlan::Passthrough <==> is_protected(name@, e.shape@.len())
            &&& p.plan == PackPlan::Passthrough ==> p.out_bytes == p.src_bytes
            &&& match p.plan {
                PackPlan::Passthrough => true,
                PackPlan::Quantize { ggml_type, rows, cols, row_bytes, fell_back } => {
                    &&& (ggml_type, fell_back) == fallback
                    &&& cols == e.shape@[e.shape@.len() - 1]
                    &&& geometry::elem_count(e.shape@.subrange(0, e.shape@.len() - 1)) == Some(
                        rows as u64,
                    )
                    &&& p.out_bytes == rows * row_bytes
                },
            }
        }),
{
    lemma_occurs(name@);
    let p = r->Ok_0;
    if let PackPlan::Quantize { rows, row_bytes, .. } = p.plan {
        assert(rows * row_bytes == row_bytes * rows) by (nonlinear_arith);
        assert(e.shape@.drop_last() =~= e.shape@.subrange(0, e.shape@.len() - 1));
    }
}

/// A row of half-precision floats takes two bytes for each element. A row of blocks takes the bytes
/// of its blocks, and the elements of the blocks are those of the row.
pub proof fn law_rows_are_whole_blocks(ggml_type: u32, cols: usize, r: Result<usize, PackError>)
    requires
        call_ensures(row_bytes, (ggml_type, cols), r),
        r is Ok,
    ensures
        ggml_type == 1 ==> r->Ok_0 == 2 * cols,
        ggml_type != 1 ==> geometry::layout_of(ggml_type) is Some && {
            let (block, bytes) = geometry::layout_of(ggml_type)->0;
            r->Ok_0 * block == cols * bytes
        },
{
    if ggml_type != 1 {
        let (block, bytes) = geometry::layout_of(ggml_type)->0;
        assert(cols / block * bytes * block == cols * bytes) by (nonlinear_arith)
            requires
                block > 0,
                cols % block == 0,
        ;
    }
}

/// Types by their names: those that a pack can have, in upper or lower case, and no others.
pub proof fn law_types_are_read_by_name(s: &str, r: Result<u32, UnknownType>)
    requires
        call_ensures(parse_type, (s,), r),
    ensures
        text::uppercase(s@) == "F16"@ <==> r == Ok::<u32, UnknownType>(1),
        text::uppercase(s@) == "Q5_0"@ <==> r == Ok::<u32, UnknownType>(6),
        text::uppercase(s@) == "Q8_0"@ <==> r == Ok::<u32, UnknownType>(8),
        text::uppercase(s@) == "Q4_K"@ <==> r == Ok::<u32, UnknownType>(12),
        text::uppercase(s@) == "Q6_K"@ <==> r == Ok::<u32, UnknownType>(14),
        r matches Ok(t) ==> t == 1 || t == 6 || t == 8 || t == 12 || t == 14,
{
    reveal_strlit("F16");
    reveal_strlit("Q5_0");
    reveal_strlit("Q8_0");
    reveal_strlit("Q4_K");
    reveal_strlit("Q6_K");
    assert("F16"@.len() == 3);
    assert("Q5_0"@.len() == 4 && "Q5_0"@[1] == '5');
    assert("Q8_0"@.len() == 4 && "Q8_0"@[1] == '8');
    assert("Q4_K"@.len() == 4 && "Q4_K"@[1] == '4');
    assert("Q6_K"@.len() == 4 && "Q6_K"@[1] == '6');
}

} // verus!
