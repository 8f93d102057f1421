//! Which role a name has.
use vstd::prelude::*;
use crate::gguf::reader;
use crate::gguf::value;
use crate::gguf::value::{GgufValue, ValueModel};
use crate::ir;
use crate::ir::laws;
use crate::ir::{
    dense_ffn_role, is_norm_tensor, FfnPart, LayoutError, MlaPart, ModelLayout, Role, TensorTag,
};
use crate::text;

verus! {

/// The name of a tensor of a block: `blk.{number}.{base}{ending}`.
pub open spec fn block_name(number: Seq<char>, base: Seq<char>, ending: Seq<char>) -> Seq<char> {
    "blk."@ + number + "."@ + base + ending
}

/// A number that a block can have.
pub open spec fn is_block_number(number: Seq<char>, n: u32) -> bool {
    text::parsed_up_to(number, u32::MAX as nat) == Some(n as nat)
}

/// The name of a block's tensor is taken apart into its number and what follows.
proof fn lemma_block_name(number: Seq<char>, n: u32, rest: Seq<char>)
    requires
        is_block_number(number, n),
    ensures
        ir::blk_parts("blk."@ + number + "."@ + rest) == Some((n, rest)),
{
    reveal_strlit("blk.");
    reveal_strlit(".");
    let name = "blk."@ + number + "."@ + rest;
    let behind = text::after(name, 4);
    assert(name.subrange(0, 4) =~= "blk."@);
    assert(behind =~= number + "."@ + rest);
    laws::lemma_number_text(number);
    let dot = number.len() as int;
    assert(behind.subrange(dot, dot + 1) =~= "."@);
    assert forall|j: int| 0 <= j < dot implies !text::occurs_at(behind, "."@, j) by {
        if text::occurs_at(behind, "."@, j) {
            assert(behind.subrange(j, j + 1)[0] == number[j]);
        }
    }
    text::lemma_found(behind, "."@, dot);
    assert(behind.subrange(0, dot) =~= number);
    assert(text::after(behind, dot + 1) =~= rest);
}

/// A block's tensor is none of those outside the blocks.
proof fn lemma_in_block(number: Seq<char>, n: u32, rest: Seq<char>, n_layers: u32)
    requires
        is_block_number(number, n),
    ensures
        ({
            let name = "blk."@ + number + "."@ + rest;
            ir::tag_of(name, n_layers) == ir::block_tag(
                name,
                ir::Depth {
                    num: n,
                    den: if n_layers == 0 {
                        1
                    } else {
                        n_layers
                    },
                },
                rest,
            )
        }),
{
    let name = "blk."@ + number + "."@ + rest;
    lemma_block_name(number, n, rest);
    reveal_strlit("blk.");
    reveal_strlit("token_embd.weight");
    reveal_strlit("output_norm.weight");
    reveal_strlit("output_norm.bias");
    reveal_strlit("output.weight");
    reveal_strlit("output.bias");
    reveal_strlit("token_embd.bias");
    reveal_strlit("rope_freqs");
    assert(name[0] == 'b');
    if "rope_freqs"@.is_prefix_of(name) {
        assert(name.subrange(0, 10)[0] == name[0]);
    }
}

/// What stands before an ending.
proof fn lemma_ending(base: Seq<char>, ending: Seq<char>)
    ensures
        text::stripped_suffix(base + ending, ending) == Some(base),
{
    let s = base + ending;
    assert(s.subrange(s.len() - ending.len(), s.len() as int) =~= ending);
    assert(text::before(s, ending.len() as int) =~= base);
}

/// The length of a base name, its last and its sixth character.
spec fn marks(s: Seq<char>) -> (nat, char, char) {
    (
        s.len(),
        s.last(),
        if s.len() > 5 {
            s[5]
        } else {
            '-'
        },
    )
}

/// No two base names have the same marks.
proof fn lemma_marks()
    ensures
        marks("attn_norm"@) == (9nat, 'm', 'n'),
        marks("attn_output_norm"@) == (16nat, 'm', 'o'),
        marks("attn_norm_2"@) == (11nat, '2', 'n'),
        marks("attn_q_norm"@) == (11nat, 'm', 'q'),
        marks("attn_k_norm"@) == (11nat, 'm', 'k'),
        marks("ffn_norm"@) == (8nat, 'm', 'o'),
        marks("attn_q"@) == (6nat, 'q', 'q'),
        marks("attn_k"@) == (6nat, 'k', 'k'),
        marks("attn_v"@) == (6nat, 'v', 'v'),
        marks("attn_qkv"@) == (8nat, 'v', 'q'),
        marks("attn_q_a"@) == (8nat, 'a', 'q'),
        marks("attn_q_b"@) == (8nat, 'b', 'q'),
        marks("attn_kv_a"@) == (9nat, 'a', 'k'),
        marks("attn_kv_a_mqa"@) == (13nat, 'a', 'k'),
        marks("attn_kv_b"@) == (9nat, 'b', 'k'),
        marks("ffn_gate_inp"@) == (12nat, 'p', 'a'),
        marks("ffn_gate"@) == (8nat, 'e', 'a'),
        marks("ffn_up"@) == (6nat, 'p', 'p'),
        marks("ffn_down"@) == (8nat, 'n', 'o'),
        marks("attn_o"@) == (6nat, 'o', 'o'),
        marks("attn_output"@) == (11nat, 't', 'o'),
        marks("ffn_gate_shexp"@) == (14nat, 'p', 'a'),
        marks("ffn_up_shexp"@) == (12nat, 'p', 'p'),
        marks("ffn_down_shexp"@) == (14nat, 'p', 'o'),
        marks("ffn_gate_exps"@) == (13nat, 's', 'a'),
        marks("ffn_up_exps"@) == (11nat, 's', 'p'),
        marks("ffn_down_exps"@) == (13nat, 's', 'o'),
        marks("ssm_a"@) == (5nat, 'a', '-'),
        marks("ssm_dt"@) == (6nat, 't', 't'),
        marks("ssm_d"@) == (5nat, 'd', '-'),
        marks("ssm_alpha"@) == (9nat, 'a', 'l'),
        marks("ssm_beta"@) == (8nat, 'a', 'e'),
        marks("ssm_ba"@) == (6nat, 'a', 'a'),
        marks("ssm_in"@) == (6nat, 'n', 'n'),
        marks("ssm_out"@) == (7nat, 't', 'u'),
        marks("ssm_x"@) == (5nat, 'x', '-'),
        marks("ssm_conv1d"@) == (10nat, 'd', 'o'),
        marks("ssm_f"@) == (5nat, 'f', '-'),
        marks("ssm_g"@) == (5nat, 'g', '-'),
        marks("ssm_b"@) == (5nat, 'b', '-'),
        marks("ssm_c"@) == (5nat, 'c', '-'),
{
    reveal_strlit("attn_norm");
    reveal_strlit("attn_output_norm");
    reveal_strlit("attn_norm_2");
    reveal_strlit("attn_q_norm");
    reveal_strlit("attn_k_norm");
    reveal_strlit("ffn_norm");
    reveal_strlit("attn_q");
    reveal_strlit("attn_k");
    reveal_strlit("attn_v");
    reveal_strlit("attn_qkv");
    reveal_strlit("attn_q_a");
    reveal_strlit("attn_q_b");
    reveal_strlit("attn_kv_a");
    reveal_strlit("attn_kv_a_mqa");
    reveal_strlit("attn_kv_b");
    reveal_strlit("ffn_gate_inp");
    reveal_strlit("ffn_gate");
    reveal_strlit("ffn_up");
    reveal_strlit("ffn_down");
    reveal_strlit("attn_o");
    reveal_strlit("attn_output");
    reveal_strlit("ffn_gate_shexp");
    reveal_strlit("ffn_up_shexp");
    reveal_strlit("ffn_down_shexp");
    reveal_strlit("ffn_gate_exps");
    reveal_strlit("ffn_up_exps");
    reveal_strlit("ffn_down_exps");
    reveal_strlit("ssm_a");
    reveal_strlit("ssm_dt");
    reveal_strlit("ssm_d");
    reveal_strlit("ssm_alpha");
    reveal_strlit("ssm_beta");
    reveal_strlit("ssm_ba");
    reveal_strlit("ssm_in");
    reveal_strlit("ssm_out");
    reveal_strlit("ssm_x");
    reveal_strlit("ssm_conv1d");
    reveal_strlit("ssm_f");
    reveal_strlit("ssm_g");
    reveal_strlit("ssm_b");
    reveal_strlit("ssm_c");
}

/// Weights of a block that have a role of their own and may be quantized.
pub open spec fn is_weight_base(base: Seq<char>) -> bool {
    base == "attn_q"@
        || base == "attn_k"@
        || base == "attn_v"@
        || base == "attn_qkv"@
        || base == "attn_q_a"@
        || base == "attn_q_b"@
        || base == "attn_kv_a"@
        || base == "attn_kv_a_mqa"@
        || base == "attn_kv_b"@
        || base == "ffn_gate_inp"@
        || base == "ffn_gate"@
        || base == "ffn_up"@
        || base == "ffn_down"@
        || base == "attn_o"@
        || base == "attn_output"@
        || base == "ffn_gate_shexp"@
        || base == "ffn_up_shexp"@
        || base == "ffn_down_shexp"@
        || base == "ffn_gate_exps"@
        || base == "ffn_up_exps"@
        || base == "ffn_down_exps"@
        || base == "ssm_in"@
        || base == "ssm_out"@
        || base == "ssm_x"@
        || base == "ssm_conv1d"@
        || base == "ssm_f"@
        || base == "ssm_g"@
        || base == "ssm_b"@
        || base == "ssm_c"@
}

/// Norms of a block.
pub open spec fn is_norm_base(base: Seq<char>) -> bool {
    base == "attn_norm"@
        || base == "attn_output_norm"@
        || base == "attn_norm_2"@
        || base == "attn_q_norm"@
        || base == "attn_k_norm"@
        || base == "ffn_norm"@
}

/// Matrices of a state-space block.
pub open spec fn is_ssm_base(base: Seq<char>) -> bool {
    base == "ssm_in"@
        || base == "ssm_out"@
        || base == "ssm_x"@
        || base == "ssm_conv1d"@
        || base == "ssm_f"@
        || base == "ssm_g"@
        || base == "ssm_b"@
        || base == "ssm_c"@
}

/// Parameters of a state-space block that stay at full precision.
pub open spec fn is_ssm_param_base(base: Seq<char>) -> bool {
    base == "ssm_a"@
        || base == "ssm_dt"@
        || base == "ssm_d"@
        || base == "ssm_alpha"@
        || base == "ssm_beta"@
        || base == "ssm_ba"@
}

/// The roles of the weights of a block, told from what stands between its number and `.weight`.
/// Each listed name has its role, and no other name has one of these roles. The listed weights may
/// be quantized, norms and small state-space parameters may not, and each stands as deep as its
/// block.
pub proof fn law_block_weights_have_their_roles(
    name: &str,
    layout: &ModelLayout,
    r: TensorTag,
    number: Seq<char>,
    n: u32,
    base: Seq<char>,
)
    requires
        call_ensures(TensorTag::tag, (name, layout), r),
        name@ == block_name(number, base, ".weight"@),
        is_block_number(number, n),
    ensures
        base == "attn_q"@ <==> r.role == Role::AttnQ,
        base == "attn_k"@ <==> r.role == Role::AttnK,
        base == "attn_v"@ <==> r.role == Role::AttnV,
        base == "attn_qkv"@ <==> r.role == Role::AttnQkv,
        base == "attn_q_a"@ <==> r.role == Role::AttnMla(MlaPart::QA),
        base == "attn_q_b"@ <==> r.role == Role::AttnMla(MlaPart::QB),
        base == "attn_kv_a"@ <==> r.role == Role::AttnMla(MlaPart::KvA),
        base == "attn_kv_a_mqa"@ <==> r.role == Role::AttnMla(MlaPart::KvAMqa),
        base == "attn_kv_b"@ <==> r.role == Role::AttnMla(MlaPart::KvB),
        base == "ffn_gate_inp"@ <==> r.role == Role::Router,
        base == "ffn_gate"@ <==> r.role == Role::FfnGate,
        base == "ffn_up"@ <==> r.role == Role::FfnUp,
        base == "ffn_down"@ <==> r.role == Role::FfnDown,
        base == "ffn_gate_shexp"@ <==> r.role == Role::SharedExpert(FfnPart::Gate),
        base == "ffn_up_shexp"@ <==> r.role == Role::SharedExpert(FfnPart::Up),
        base == "ffn_down_shexp"@ <==> r.role == Role::SharedExpert(FfnPart::Down),
        base == "attn_o"@ || base == "attn_output"@ <==> r.role == Role::AttnO,
        base == "ffn_gate_exps"@ ==> r.role == (Role::RoutedExpert { idx: u32::MAX, part: FfnPart::Gate }),
        base == "ffn_up_exps"@ ==> r.role == (Role::RoutedExpert { idx: u32::MAX, part: FfnPart::Up }),
        base == "ffn_down_exps"@ ==> r.role == (Role::RoutedExpert { idx: u32::MAX, part: FfnPart::Down }),
        is_ssm_base(base) <==> r.role == Role::Ssm,
        is_ssm_param_base(base) <==> r.role == Role::SsmParam,
        is_norm_base(base) ==> r.role == Role::Norm && !r.quantizable,
        is_ssm_param_base(base) ==> !r.quantizable,
        is_weight_base(base) ==> r.quantizable && r.place.expert is None,
        r.place.depth.num == n,
        r.place.depth.den == if layout.n_layers == 0 {
            1
        } else {
            layout.n_layers
        },
{
    let rest = base + ".weight"@;
    let whole = name@;
    assert(whole =~= "blk."@ + number + "."@ + rest);
    lemma_in_block(number, n, rest, layout.n_layers);
    lemma_ending(base, ".weight"@);
    lemma_marks();
    reveal_strlit(".weight");
    assert(whole.subrange(whole.len() - 7, whole.len() as int) =~= ".weight"@);
    laws::lemma_weight_is_no_bias(whole);
    lemma_no_nextn(base, ".weight"@);
    if r.role == Role::Norm {
        laws::law_norm_role_stays_float(whole, layout.n_layers);
    }
}

/// No listed base stands in a head that predicts further tokens.
proof fn lemma_no_nextn(base: Seq<char>, ending: Seq<char>)
    requires
        ending == ".weight"@ || ending == ".bias"@,
    ensures
        is_weight_base(base) || is_norm_base(base) || is_ssm_param_base(base)
            ==> text::stripped_prefix(base + ending, "nextn."@) is None,
{
    let s = base + ending;
    reveal_strlit("nextn.");
    if is_weight_base(base) || is_norm_base(base) || is_ssm_param_base(base) {
        assert(base.len() > 0 && base[0] != 'n') by {
            reveal_strlit("attn_norm");
            reveal_strlit("attn_output_norm");
            reveal_strlit("attn_norm_2");
            reveal_strlit("attn_q_norm");
            reveal_strlit("attn_k_norm");
            reveal_strlit("ffn_norm");
            reveal_strlit("attn_q");
            reveal_strlit("attn_k");
            reveal_strlit("attn_v");
            reveal_strlit("attn_qkv");
            reveal_strlit("attn_q_a");
            reveal_strlit("attn_q_b");
            reveal_strlit("attn_kv_a");
            reveal_strlit("attn_kv_a_mqa");
            reveal_strlit("attn_kv_b");
            reveal_strlit("ffn_gate_inp");
            reveal_strlit("ffn_gate");
            reveal_strlit("ffn_up");
            reveal_strlit("ffn_down");
            reveal_strlit("attn_o");
            reveal_strlit("attn_output");
            reveal_strlit("ffn_gate_shexp");
            reveal_strlit("ffn_up_shexp");
            reveal_strlit("ffn_down_shexp");
            reveal_strlit("ffn_gate_exps");
            reveal_strlit("ffn_up_exps");
            reveal_strlit("ffn_down_exps");
            reveal_strlit("ssm_a");
            reveal_strlit("ssm_dt");
            reveal_strlit("ssm_d");
            reveal_strlit("ssm_alpha");
            reveal_strlit("ssm_beta");
            reveal_strlit("ssm_ba");
            reveal_strlit("ssm_in");
            reveal_strlit("ssm_out");
            reveal_strlit("ssm_x");
            reveal_strlit("ssm_conv1d");
            reveal_strlit("ssm_f");
            reveal_strlit("ssm_g");
            reveal_strlit("ssm_b");
            reveal_strlit("ssm_c");
        }
        if "nextn."@.is_prefix_of(s) {
            assert(s.subrange(0, 6)[0] == s[0]);
        }
    }
}

/// The biases of a block have the roles of their weights, but for those of experts, which have
/// none, and are never quantized.
pub proof fn law_block_biases_have_their_roles(
    name: &str,
    layout: &ModelLayout,
    r: TensorTag,
    number: Seq<char>,
    n: u32,
    base: Seq<char>,
)
    requires
        call_ensures(TensorTag::tag, (name, layout), r),
        name@ == block_name(number, base, ".bias"@),
        is_block_number(number, n),
    ensures
        base == "attn_q"@ <==> r.role == Role::AttnQ,
        base == "attn_k"@ <==> r.role == Role::AttnK,
        base == "attn_v"@ <==> r.role == Role::AttnV,
        base == "attn_qkv"@ <==> r.role == Role::AttnQkv,
        base == "attn_q_a"@ <==> r.role == Role::AttnMla(MlaPart::QA),
        base == "attn_q_b"@ <==> r.role == Role::AttnMla(MlaPart::QB),
        base == "attn_kv_a"@ <==> r.role == Role::AttnMla(MlaPart::KvA),
        base == "attn_kv_a_mqa"@ <==> r.role == Role::AttnMla(MlaPart::KvAMqa),
        base == "attn_kv_b"@ <==> r.role == Role::AttnMla(MlaPart::KvB),
        base == "ffn_gate_inp"@ <==> r.role == Role::Router,
        base == "ffn_gate"@ <==> r.role == Role::FfnGate,
        base == "ffn_up"@ <==> r.role == Role::FfnUp,
        base == "ffn_down"@ <==> r.role == Role::FfnDown,
        base == "attn_o"@ || base == "attn_output"@ <==> r.role == Role::AttnO,
        is_ssm_base(base) <==> r.role == Role::Ssm,
        is_ssm_param_base(base) <==> r.role == Role::SsmParam,
        is_norm_base(base) ==> r.role == Role::Norm,
        !(r.role is SharedExpert) && !(r.role is RoutedExpert),
        !r.quantizable,
        r.place.depth.num == n,
{
    let rest = base + ".bias"@;
    let whole = name@;
    assert(whole =~= "blk."@ + number + "."@ + rest);
    lemma_in_block(number, n, rest, layout.n_layers);
    lemma_ending(base, ".bias"@);
    lemma_marks();
    reveal_strlit(".weight");
    reveal_strlit(".bias");
    assert(whole.subrange(whole.len() - 5, whole.len() as int) =~= ".bias"@);
    assert(ir::bias_name(whole));
    laws::law_norms_and_biases_stay_float(whole, layout.n_layers);
    lemma_no_nextn(base, ".bias"@);
    if ".weight"@.is_suffix_of(rest) {
        assert(rest.subrange(rest.len() - 7, rest.len() as int)[6] == rest.last());
    }
    lemma_bias_is_no_expert(base);
}

/// A bias is no expert that is a tensor of its own.
proof fn lemma_bias_is_no_expert(base: Seq<char>)
    ensures
        ir::lone_expert(base + ".bias"@) is None,
{
    let s = base + ".bias"@;
    reveal_strlit(".weight");
    reveal_strlit(".bias");
    assert(s.last() == 's');
    lemma_no_expert_number(s, "ffn_gate."@);
    lemma_no_expert_number(s, "ffn_up."@);
    lemma_no_expert_number(s, "ffn_down."@);
}

/// A text that does not end in a `t` names no expert.
proof fn lemma_no_expert_number(s: Seq<char>, prefix: Seq<char>)
    requires
        s.len() > 0,
        s.last() != 't',
    ensures
        ir::expert_number(s, prefix) is None,
{
    reveal_strlit(".weight");
    if text::stripped_prefix(s, prefix) is Some {
        let rest = text::stripped_prefix(s, prefix)->0;
        if ".weight"@.is_suffix_of(rest) {
            assert(rest.subrange(rest.len() - 7, rest.len() as int)[6] == rest.last());
            assert(rest.last() == s.last());
        }
    }
}

/// The part that a prefix names.
pub open spec fn part_named(prefix: Seq<char>, part: FfnPart) -> bool {
    ||| prefix == "ffn_gate."@ && part == FfnPart::Gate
    ||| prefix == "ffn_up."@ && part == FfnPart::Up
    ||| prefix == "ffn_down."@ && part == FfnPart::Down
}

/// An expert that is a tensor of its own is told from its number: `blk.{n}.ffn_gate.{e}.weight` and
/// likewise for the other two matrices. It may be quantized, and its place names it.
pub proof fn law_lone_experts_have_their_number(
    name: &str,
    layout: &ModelLayout,
    r: TensorTag,
    number: Seq<char>,
    n: u32,
    prefix: Seq<char>,
    part: FfnPart,
    expert: Seq<char>,
    e: u32,
)
    requires
        call_ensures(TensorTag::tag, (name, layout), r),
        name@ == block_name(number, prefix + expert, ".weight"@),
        is_block_number(number, n),
        part_named(prefix, part),
        text::parsed_up_to(expert, u32::MAX as nat) == Some(e as nat),
    ensures
        r.role == (Role::RoutedExpert { idx: e, part }),
        r.place.expert == Some(e),
        r.quantizable,
        r.place.depth.num == n,
{
    let base = prefix + expert;
    let rest = base + ".weight"@;
    let whole = name@;
    assert(whole =~= "blk."@ + number + "."@ + rest);
    lemma_in_block(number, n, rest, layout.n_layers);
    lemma_ending(base, ".weight"@);
    reveal_strlit("ffn_gate.");
    reveal_strlit("ffn_up.");
    reveal_strlit("ffn_down.");
    reveal_strlit("nextn.");
    reveal_strlit(".weight");
    assert(rest[0] == 'f');
    assert(rest[4] == prefix[4]);
    if "nextn."@.is_prefix_of(rest) {
        assert(rest.subrange(0, 6)[0] == rest[0]);
    }
    let dot = prefix.len() - 1;
    assert(base[dot] == '.');
    lemma_no_dot_in_bases(base, dot);
    assert(rest.subrange(0, prefix.len() as int) =~= prefix);
    assert(text::after(rest, prefix.len() as int) =~= expert + ".weight"@);
    lemma_ending(expert, ".weight"@);
    if "ffn_gate."@.is_prefix_of(rest) {
        assert(rest.subrange(0, 9)[4] == rest[4]);
    }
    if "ffn_up."@.is_prefix_of(rest) {
        assert(rest.subrange(0, 7)[4] == rest[4]);
    }
}

/// No listed base has a dot in it.
proof fn lemma_no_dot_in_bases(base: Seq<char>, dot: int)
    requires
        0 <= dot < base.len(),
        base[dot] == '.',
        dot == 8 || dot == 6,
    ensures
        ir::base_role(base) is None,
        ir::expert_role(base) is None,
        ir::ssm_role(base) is None,
{
    reveal_strlit("attn_norm");
    reveal_strlit("attn_output_norm");
    reveal_strlit("attn_norm_2");
    reveal_strlit("attn_q_norm");
    reveal_strlit("attn_k_norm");
    reveal_strlit("ffn_norm");
    reveal_strlit("attn_q");
    reveal_strlit("attn_k");
    reveal_strlit("attn_v");
    reveal_strlit("attn_qkv");
    reveal_strlit("attn_q_a");
    reveal_strlit("attn_q_b");
    reveal_strlit("attn_kv_a");
    reveal_strlit("attn_kv_a_mqa");
    reveal_strlit("attn_kv_b");
    reveal_strlit("ffn_gate_inp");
    reveal_strlit("ffn_gate");
    reveal_strlit("ffn_up");
    reveal_strlit("ffn_down");
    reveal_strlit("attn_o");
    reveal_strlit("attn_output");
    reveal_strlit("ffn_gate_shexp");
    reveal_strlit("ffn_up_shexp");
    reveal_strlit("ffn_down_shexp");
    reveal_strlit("ffn_gate_exps");
    reveal_strlit("ffn_up_exps");
    reveal_strlit("ffn_down_exps");
    reveal_strlit("ssm_a");
    reveal_strlit("ssm_dt");
    reveal_strlit("ssm_d");
    reveal_strlit("ssm_alpha");
    reveal_strlit("ssm_beta");
    reveal_strlit("ssm_ba");
    reveal_strlit("ssm_in");
    reveal_strlit("ssm_out");
    reveal_strlit("ssm_x");
    reveal_strlit("ssm_conv1d");
    reveal_strlit("ssm_f");
    reveal_strlit("ssm_g");
    reveal_strlit("ssm_b");
    reveal_strlit("ssm_c");
}

/// A block's tensor behind `nextn.` belongs to a head that predicts further tokens; it may be
/// quantized unless it is a bias or has `norm` in its name.
pub proof fn law_further_heads(
    name: &str,
    layout: &ModelLayout,
    r: TensorTag,
    number: Seq<char>,
    n: u32,
    part: Seq<char>,
)
    requires
        call_ensures(TensorTag::tag, (name, layout), r),
        name@ == "blk."@ + number + "."@ + ("nextn."@ + part),
        is_block_number(number, n),
    ensures
        r.role == Role::Mtp,
        r.quantizable <==> !text::occurs(part, "norm"@) && !".bias"@.is_suffix_of(name@),
        r.place.depth.num == n,
{
    let rest = "nextn."@ + part;
    lemma_in_block(number, n, rest, layout.n_layers);
    reveal_strlit("nextn.");
    assert(rest.subrange(0, 6) =~= "nextn."@);
    assert(text::after(rest, 6) =~= part);
}

/// The tensors outside the blocks: the embedding at the start, the output projection and the last
/// norm at the end. Only their weights may be quantized, and the norm never.
pub proof fn law_tensors_outside_the_blocks(name: &str, layout: &ModelLayout, r: TensorTag)
    requires
        call_ensures(TensorTag::tag, (name, layout), r),
    ensures
        name@ == "token_embd.weight"@ || name@ == "token_embd.bias"@ <==> r.role == Role::Embedding,
        name@ == "output.weight"@ || name@ == "output.bias"@ <==> r.role == Role::LmHead,
        name@ == "output_norm.weight"@ || name@ == "output_norm.bias"@ ==> r.role == Role::Norm
            && !r.quantizable && r.place.depth.num == r.place.depth.den,
        r.role == Role::Embedding ==> (r.quantizable <==> name@ == "token_embd.weight"@)
            && r.place.depth.num == 0,
        r.role == Role::LmHead ==> (r.quantizable <==> name@ == "output.weight"@)
            && r.place.depth.num == r.place.depth.den,
{
    reveal_strlit("token_embd.weight");
    reveal_strlit("token_embd.bias");
    reveal_strlit("output_norm.weight");
    reveal_strlit("output_norm.bias");
    reveal_strlit("output.weight");
    reveal_strlit("output.bias");
    reveal_strlit(".bias");
    assert("token_embd.weight"@.len() == 17 && "token_embd.bias"@.len() == 15);
    assert("output_norm.weight"@.len() == 18 && "output_norm.bias"@.len() == 16);
    assert("output.weight"@.len() == 13 && "output.bias"@.len() == 11);
    if name@ == "output_norm.weight"@ || name@ == "output_norm.bias"@ {
        laws::law_norm_role_stays_float(name@, layout.n_layers);
    }
    if name@ == "output.bias"@ {
        assert(name@.subrange(6, 11) =~= ".bias"@);
    }
    if name@ == "output.weight"@ {
        assert(name@.subrange(8, 13)[0] == 'e');
        assert(name@.subrange(8, 13)[0] != ".bias"@[0]);
    }
}

/// Every token passes every tensor but routed experts, small state-space parameters and what is not
/// known.
pub proof fn law_dense_path(role: &Role, r: bool)
    requires
        call_ensures(Role::is_dense_path, (role,), r),
    ensures
        r <==> !(role is RoutedExpert) && !(role is SsmParam) && !(role is Unknown),
{
}

/// The layout of a model is what its metadata say: the architecture, and the numbers under its
/// prefix, or without a prefix where that key has none. Numbers of experts that are missing count as
/// zero, and a model with experts is a mixture.
pub proof fn law_layout_is_what_the_metadata_say(
    kv: &[(String, GgufValue)],
    r: Result<ModelLayout, LayoutError>,
)
    requires
        call_ensures(ModelLayout::from_kv, (kv,), r),
    ensures
        ({
            let m = reader::kv_model(kv@);
            let arch = reader::first_value(m, "general.architecture"@);
            let prefix = arch->0->Str_0 + "."@;
            let at = |key: Seq<char>|
                match reader::first_value(m, prefix + key) {
                    Some(ValueModel::U32(n)) => Some(n),
                    Some(ValueModel::I32(n)) => value::u32_of(ValueModel::I32(n)),
                    _ => match reader::first_value(m, key) {
                        Some(ValueModel::U32(n)) => Some(n),
                        Some(ValueModel::I32(n)) => value::u32_of(ValueModel::I32(n)),
                        _ => None,
                    },
                };
            let number = |key: Seq<char>|
                match at(key) {
                    Some(n) => n,
                    None => 0u32,
                };
            let named = arch matches Some(ValueModel::Str(_));
            &&& !named <==> r == Err::<ModelLayout, _>(LayoutError::MissingArchitecture)
            &&& named && at("block_count"@) is None <==> r == Err::<ModelLayout, _>(
                LayoutError::MissingBlockCount,
            )
            &&& r matches Ok(l) ==> {
                &&& arch == Some(ValueModel::Str(l.arch@))
                &&& at("block_count"@) == Some(l.n_layers)
                &&& l.expert_count == number("expert_count"@)
                &&& l.expert_used == number("expert_used_count"@)
                &&& l.shared_count == number("expert_shared_count"@)
                &&& l.is_moe <==> l.expert_count > 0
            }
        }),
{
}

/// The labels that tables and recipes know roles by.
pub proof fn law_labels_by_role(role: &Role, r: &'static str)
    requires
        call_ensures(Role::label, (role,), r),
    ensures
        *role == Role::Embedding <==> r@ == "embedding"@,
        *role == Role::LmHead <==> r@ == "lm_head"@,
        *role == Role::Norm <==> r@ == "norm"@,
        *role == Role::AttnQ <==> r@ == "attn_q"@,
        *role == Role::AttnK <==> r@ == "attn_k"@,
        *role == Role::AttnV <==> r@ == "attn_v"@,
        *role == Role::AttnO <==> r@ == "attn_o"@,
        *role == Role::FfnGate <==> r@ == "ffn_gate"@,
        *role == Role::FfnUp <==> r@ == "ffn_up"@,
        *role == Role::FfnDown <==> r@ == "ffn_down"@,
        *role == Role::Router <==> r@ == "router"@,
        *role == Role::AttnQkv <==> r@ == "attn_qkv"@,
        *role == Role::AttnMla(MlaPart::QA) <==> r@ == "attn_mla.q_a"@,
        *role == Role::AttnMla(MlaPart::QB) <==> r@ == "attn_mla.q_b"@,
        *role == Role::AttnMla(MlaPart::KvA) <==> r@ == "attn_mla.kv_a"@,
        *role == Role::AttnMla(MlaPart::KvAMqa) <==> r@ == "attn_mla.kv_a_mqa"@,
        *role == Role::AttnMla(MlaPart::KvB) <==> r@ == "attn_mla.kv_b"@,
        *role == Role::Ssm <==> r@ == "ssm"@,
        *role == Role::SsmParam <==> r@ == "ssm_param"@,
        *role == Role::SharedExpert(FfnPart::Gate) <==> r@ == "shared_expert.gate"@,
        *role == Role::SharedExpert(FfnPart::Up) <==> r@ == "shared_expert.up"@,
        *role == Role::SharedExpert(FfnPart::Down) <==> r@ == "shared_expert.down"@,
        (role matches Role::RoutedExpert { part, .. } && part == FfnPart::Gate) <==> r@ == "routed_expert.gate"@,
        (role matches Role::RoutedExpert { part, .. } && part == FfnPart::Up) <==> r@ == "routed_expert.up"@,
        (role matches Role::RoutedExpert { part, .. } && part == FfnPart::Down) <==> r@ == "routed_expert.down"@,
        *role == Role::Mtp <==> r@ == "mtp"@,
        *role == Role::Unknown <==> r@ == "unknown"@,
{
    ir::law_labels_tell_roles_apart(*role, Role::Embedding);
    ir::law_labels_tell_roles_apart(*role, Role::LmHead);
    ir::law_labels_tell_roles_apart(*role, Role::Norm);
    ir::law_labels_tell_roles_apart(*role, Role::AttnQ);
    ir::law_labels_tell_roles_apart(*role, Role::AttnK);
    ir::law_labels_tell_roles_apart(*role, Role::AttnV);
    ir::law_labels_tell_roles_apart(*role, Role::AttnO);
    ir::law_labels_tell_roles_apart(*role, Role::FfnGate);
    ir::law_labels_tell_roles_apart(*role, Role::FfnUp);
    ir::law_labels_tell_roles_apart(*role, Role::FfnDown);
    ir::law_labels_tell_roles_apart(*role, Role::Router);
    ir::law_labels_tell_roles_apart(*role, Role::AttnQkv);
    ir::law_labels_tell_roles_apart(*role, Role::AttnMla(MlaPart::QA));
    ir::law_labels_tell_roles_apart(*role, Role::AttnMla(MlaPart::QB));
    ir::law_labels_tell_roles_apart(*role, Role::AttnMla(MlaPart::KvA));
    ir::law_labels_tell_roles_apart(*role, Role::AttnMla(MlaPart::KvAMqa));
    ir::law_labels_tell_roles_apart(*role, Role::AttnMla(MlaPart::KvB));
    ir::law_labels_tell_roles_apart(*role, Role::Ssm);
    ir::law_labels_tell_roles_apart(*role, Role::SsmParam);
    ir::law_labels_tell_roles_apart(*role, Role::SharedExpert(FfnPart::Gate));
    ir::law_labels_tell_roles_apart(*role, Role::SharedExpert(FfnPart::Up));
    ir::law_labels_tell_roles_apart(*role, Role::SharedExpert(FfnPart::Down));
    ir::law_labels_tell_roles_apart(*role, Role::RoutedExpert { idx: 0, part: FfnPart::Gate });
    ir::law_labels_tell_roles_apart(*role, Role::RoutedExpert { idx: 0, part: FfnPart::Up });
    ir::law_labels_tell_roles_apart(*role, Role::RoutedExpert { idx: 0, part: FfnPart::Down });
    ir::law_labels_tell_roles_apart(*role, Role::Mtp);
    ir::law_labels_tell_roles_apart(*role, Role::Unknown);
}

/// The weight and the bias of a norm are known by the `_norm` before their endings. A name without
/// `_norm` is none.
pub proof fn law_norms_by_name(name: &str, front: Seq<char>, r: bool)
    requires
        call_ensures(is_norm_tensor, (name,), r),
    ensures
        name@ == front + "_norm"@ + ".weight"@ ==> r,
        name@ == front + "_norm"@ + ".bias"@ ==> r,
        !text::occurs(name@, "_norm"@) ==> !r,
{
    let base = ir::base_of(name@);
    laws::lemma_base_is_front(name@);
    reveal_strlit("_norm");
    reveal_strlit("_norm_");
    reveal_strlit(".weight");
    reveal_strlit(".bias");
    let x = front + "_norm"@;
    if name@ == x + ".weight"@ {
        assert(name@.subrange(x.len() as int, name@.len() as int) =~= ".weight"@);
        assert(".weight"@.is_suffix_of(name@));
        assert(base =~= x);
        assert(base.subrange(front.len() as int, base.len() as int) =~= "_norm"@);
        assert("_norm"@.is_suffix_of(base));
    }
    if name@ == x + ".bias"@ {
        assert(name@.subrange(x.len() as int, name@.len() as int) =~= ".bias"@);
        assert(".bias"@.is_suffix_of(name@));
        if ".weight"@.is_suffix_of(name@) {
            assert(name@[name@.len() - 1] == ".weight"@[6]);
            assert(name@[name@.len() - 1] == ".bias"@[4]);
        }
        assert(base =~= x);
        assert(base.subrange(front.len() as int, base.len() as int) =~= "_norm"@);
        assert("_norm"@.is_suffix_of(base));
    }
    if r && !text::occurs(name@, "_norm"@) {
        if "_norm"@.is_suffix_of(base) {
            let at = base.len() - 5;
            assert(base.subrange(at, base.len() as int) =~= "_norm"@);
            assert(name@.subrange(at, at + 5) =~= "_norm"@);
            assert(text::occurs_at(name@, "_norm"@, at));
        } else {
            assert(text::occurs(base, "_norm_"@));
            let at = choose|at: int| text::occurs_at(base, "_norm_"@, at);
            assert(base.subrange(at, at + 6) =~= "_norm_"@);
            assert(name@.subrange(at, at + 5) =~= "_norm_"@.subrange(0, 5));
            assert("_norm_"@.subrange(0, 5) =~= "_norm"@);
            assert(text::occurs_at(name@, "_norm"@, at));
        }
    }
}

/// Only a router is a router, and the parts of a dense feed-forward block have their own roles.
pub proof fn law_routers_and_dense_parts(role: &Role, r: bool, part: FfnPart, d: Role)
    requires
        call_ensures(Role::is_router, (role,), r),
        call_ensures(dense_ffn_role, (part,), d),
    ensures
        r <==> *role == Role::Router,
        d == Role::FfnGate <==> part == FfnPart::Gate,
        d == Role::FfnUp <==> part == FfnPart::Up,
        d == Role::FfnDown <==> part == FfnPart::Down,
{
}

/// Every tensor may be quantized but biases, norms, the parameters of state-space blocks and the
/// frequencies of rotations; of the further heads all but what has `norm` in its name and biases.
pub proof fn law_what_may_be_quantized(name: &str, layout: &ModelLayout, r: TensorTag, norm: bool)
    requires
        call_ensures(TensorTag::tag, (name, layout), r),
        call_ensures(is_norm_tensor, (name,), norm),
        r.role != Role::Mtp,
    ensures
        r.quantizable <==> !norm && !".bias"@.is_suffix_of(name@) && r.role != Role::SsmParam
            && !"rope_freqs"@.is_prefix_of(name@),
{
    if norm || ".bias"@.is_suffix_of(name@) {
        laws::law_norms_and_biases_stay_float(name@, layout.n_layers);
    }
    laws::law_sensitive_parameters_stay_float(name@, layout.n_layers);
    if name@ == "token_embd.bias"@ {
        reveal_strlit("token_embd.bias");
        reveal_strlit(".bias");
        assert(name@.subrange(10, 15) =~= ".bias"@);
    }
}

/// A tensor that stands in no block and is none of the known ones outside them has no known role, and
/// it stands at the start.
pub proof fn law_strangers_outside_the_blocks(name: &str, layout: &ModelLayout, r: TensorTag)
    requires
        call_ensures(TensorTag::tag, (name, layout), r),
        !"blk."@.is_prefix_of(name@),
        name@ != "token_embd.weight"@ && name@ != "token_embd.bias"@,
        name@ != "output.weight"@ && name@ != "output.bias"@,
        name@ != "output_norm.weight"@ && name@ != "output_norm.bias"@,
    ensures
        r.role == Role::Unknown,
        r.place.depth.num == 0 && r.place.depth.den == 1,
        r.place.expert is None,
{
}

} // verus!
