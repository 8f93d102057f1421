//! What holds of every tensor's tag.
use vstd::prelude::*;
use crate::ir;
use crate::ir::Role;
use crate::text;

verus! {

/// No character of `s` is an `r`.
pub open spec fn without_r(s: Seq<char>) -> bool {
    forall|i: int| 0 <= i < s.len() ==> #[trigger] s[i] != 'r'
}

/// The suffix of a block tensor's name.
spec fn blk_suffix(name: Seq<char>) -> Seq<char> {
    match ir::blk_parts(name) {
        Some((_, suffix)) => suffix,
        None => Seq::empty(),
    }
}

/// The letters `_norm` stand in `s` at position `i`.
spec fn norm_mark_at(s: Seq<char>, i: int) -> bool {
    &&& 0 <= i
    &&& i + 5 <= s.len()
    &&& s[i] == '_'
    &&& s[i + 1] == 'n'
    &&& s[i + 2] == 'o'
    &&& s[i + 3] == 'r'
    &&& s[i + 4] == 'm'
}

/// A short text whose characters are checked one by one.
proof fn lemma_sixteen(s: Seq<char>)
    requires
        s.len() <= 16,
        s.len() > 0 ==> s[0] != 'r',
        s.len() > 1 ==> s[1] != 'r',
        s.len() > 2 ==> s[2] != 'r',
        s.len() > 3 ==> s[3] != 'r',
        s.len() > 4 ==> s[4] != 'r',
        s.len() > 5 ==> s[5] != 'r',
        s.len() > 6 ==> s[6] != 'r',
        s.len() > 7 ==> s[7] != 'r',
        s.len() > 8 ==> s[8] != 'r',
        s.len() > 9 ==> s[9] != 'r',
        s.len() > 10 ==> s[10] != 'r',
        s.len() > 11 ==> s[11] != 'r',
        s.len() > 12 ==> s[12] != 'r',
        s.len() > 13 ==> s[13] != 'r',
        s.len() > 14 ==> s[14] != 'r',
        s.len() > 15 ==> s[15] != 'r',
    ensures
        without_r(s),
{
    assert forall|i: int| 0 <= i < s.len() implies #[trigger] s[i] != 'r' by {
        assert(i == 0 || i == 1 || i == 2 || i == 3 || i == 4 || i == 5 || i == 6 || i == 7 || i == 8 || i == 9 || i == 10 || i == 11 || i == 12 || i == 13 || i == 14 || i == 15);
    }
}

/// No name of a weight that may be quantized has an `r` in it.
proof fn lemma_known_bases(b: Seq<char>)
    requires
        (ir::base_role(b) is Some && ir::base_role(b) != Some(Role::Norm)) || ir::expert_role(
            b,
        ) is Some || ir::ssm_role(b) is Some,
    ensures
        without_r(b),
{
    if b == "attn_q"@ {
        reveal_strlit("attn_q");
        lemma_sixteen(b);
    }
    if b == "attn_k"@ {
        reveal_strlit("attn_k");
        lemma_sixteen(b);
    }
    if b == "attn_v"@ {
        reveal_strlit("attn_v");
        lemma_sixteen(b);
    }
    if b == "attn_o"@ {
        reveal_strlit("attn_o");
        lemma_sixteen(b);
    }
    if b == "attn_output"@ {
        reveal_strlit("attn_output");
        lemma_sixteen(b);
    }
    if b == "attn_qkv"@ {
        reveal_strlit("attn_qkv");
        lemma_sixteen(b);
    }
    if b == "attn_q_a"@ {
        reveal_strlit("attn_q_a");
        lemma_sixteen(b);
    }
    if b == "attn_q_b"@ {
        reveal_strlit("attn_q_b");
        lemma_sixteen(b);
    }
    if b == "attn_kv_a"@ {
        reveal_strlit("attn_kv_a");
        lemma_sixteen(b);
    }
    if b == "attn_kv_a_mqa"@ {
        reveal_strlit("attn_kv_a_mqa");
        lemma_sixteen(b);
    }
    if b == "attn_kv_b"@ {
        reveal_strlit("attn_kv_b");
        lemma_sixteen(b);
    }
    if b == "ffn_gate_inp"@ {
        reveal_strlit("ffn_gate_inp");
        lemma_sixteen(b);
    }
    if b == "ffn_gate"@ {
        reveal_strlit("ffn_gate");
        lemma_sixteen(b);
    }
    if b == "ffn_up"@ {
        reveal_strlit("ffn_up");
        lemma_sixteen(b);
    }
    if b == "ffn_down"@ {
        reveal_strlit("ffn_down");
        lemma_sixteen(b);
    }
    if b == "ffn_gate_shexp"@ {
        reveal_strlit("ffn_gate_shexp");
        lemma_sixteen(b);
    }
    if b == "ffn_up_shexp"@ {
        reveal_strlit("ffn_up_shexp");
        lemma_sixteen(b);
    }
    if b == "ffn_down_shexp"@ {
        reveal_strlit("ffn_down_shexp");
        lemma_sixteen(b);
    }
    if b == "ffn_gate_exps"@ {
        reveal_strlit("ffn_gate_exps");
        lemma_sixteen(b);
    }
    if b == "ffn_up_exps"@ {
        reveal_strlit("ffn_up_exps");
        lemma_sixteen(b);
    }
    if b == "ffn_down_exps"@ {
        reveal_strlit("ffn_down_exps");
        lemma_sixteen(b);
    }
    if b == "ssm_a"@ {
        reveal_strlit("ssm_a");
        lemma_sixteen(b);
    }
    if b == "ssm_dt"@ {
        reveal_strlit("ssm_dt");
        lemma_sixteen(b);
    }
    if b == "ssm_d"@ {
        reveal_strlit("ssm_d");
        lemma_sixteen(b);
    }
    if b == "ssm_alpha"@ {
        reveal_strlit("ssm_alpha");
        lemma_sixteen(b);
    }
    if b == "ssm_beta"@ {
        reveal_strlit("ssm_beta");
        lemma_sixteen(b);
    }
    if b == "ssm_ba"@ {
        reveal_strlit("ssm_ba");
        lemma_sixteen(b);
    }
    if b == "ssm_in"@ {
        reveal_strlit("ssm_in");
        lemma_sixteen(b);
    }
    if b == "ssm_out"@ {
        reveal_strlit("ssm_out");
        lemma_sixteen(b);
    }
    if b == "ssm_x"@ {
        reveal_strlit("ssm_x");
        lemma_sixteen(b);
    }
    if b == "ssm_conv1d"@ {
        reveal_strlit("ssm_conv1d");
        lemma_sixteen(b);
    }
    if b == "ssm_f"@ {
        reveal_strlit("ssm_f");
        lemma_sixteen(b);
    }
    if b == "ssm_g"@ {
        reveal_strlit("ssm_g");
        lemma_sixteen(b);
    }
    if b == "ssm_b"@ {
        reveal_strlit("ssm_b");
        lemma_sixteen(b);
    }
    if b == "ssm_c"@ {
        reveal_strlit("ssm_c");
        lemma_sixteen(b);
    }
}

/// The name of a norm has the letters `_norm` in its base.
proof fn lemma_norm_mark(name: Seq<char>)
    requires
        ir::norm_name(name),
    ensures
        exists|i: int| norm_mark_at(ir::base_of(name), i),
{
    let base = ir::base_of(name);
    reveal_strlit("_norm");
    reveal_strlit("_norm_");
    if "_norm"@.is_suffix_of(base) {
        let i = base.len() - 5;
        let tail = base.subrange(i, base.len() as int);
        assert(tail == "_norm"@);
        assert(tail[0] == base[i] && tail[1] == base[i + 1] && tail[2] == base[i + 2] && tail[3]
            == base[i + 3] && tail[4] == base[i + 4]);
        assert(norm_mark_at(base, i));
    } else {
        let j = choose|j: int| text::occurs_at(base, "_norm_"@, j);
        let mid = base.subrange(j, j + 6);
        assert(mid[0] == base[j] && mid[1] == base[j + 1] && mid[2] == base[j + 2] && mid[3]
            == base[j + 3] && mid[4] == base[j + 4]);
        assert(norm_mark_at(base, j));
    }
}

/// The base of a name is the front of the name.
pub proof fn lemma_base_is_front(name: Seq<char>)
    ensures
        ir::base_of(name).len() <= name.len(),
        forall|i: int|
            0 <= i < ir::base_of(name).len() ==> #[trigger] ir::base_of(name)[i] == name[i],
        ".weight"@.is_suffix_of(name) ==> ir::base_of(name).len() == name.len() - 7,
        !".weight"@.is_suffix_of(name) && ".bias"@.is_suffix_of(name) ==> ir::base_of(name).len()
            == name.len() - 5,
{
    reveal_strlit(".weight");
    reveal_strlit(".bias");
}

/// A name cannot end in `.weight` and in `.bias`.
pub proof fn lemma_weight_is_no_bias(name: Seq<char>)
    requires
        ".weight"@.is_suffix_of(name),
    ensures
        !ir::bias_name(name),
{
    reveal_strlit(".weight");
    reveal_strlit(".bias");
    if ".bias"@.is_suffix_of(name) {
        assert(name.subrange(name.len() - 7, name.len() as int)[6] == name.last());
        assert(name.subrange(name.len() - 5, name.len() as int)[4] == name.last());
    }
}

/// Digits with or without a plus sign have no underscore and no dot in them.
pub proof fn lemma_number_text(s: Seq<char>)
    requires
        text::parsed_up_to(s, u32::MAX as nat) is Some,
    ensures
        forall|i: int| 0 <= i < s.len() ==> #[trigger] s[i] != '_' && s[i] != '.',
{
    let d = text::unsigned_text(s);
    assert forall|i: int| 0 <= i < s.len() implies #[trigger] s[i] != '_' && s[i] != '.' by {
        if s[0] == '+' {
            if i > 0 {
                assert(d[i - 1] == s[i]);
                assert(text::is_digit(d[i - 1]));
            }
        } else {
            assert(text::is_digit(d[i]));
        }
    }
}

/// The suffix of a block tensor's name stands at its end, and no underscore stands before it.
proof fn lemma_blk_name(name: Seq<char>)
    requires
        ir::blk_parts(name) is Some,
    ensures
        ({
            let suffix = blk_suffix(name);
            let p = name.len() - suffix.len();
            &&& 0 < p <= name.len()
            &&& forall|i: int| 0 <= i < p ==> #[trigger] name[i] != '_'
            &&& forall|i: int| 0 <= i < suffix.len() ==> #[trigger] suffix[i] == name[p + i]
        }),
{
    reveal_strlit("blk.");
    reveal_strlit(".");
    let rest = text::stripped_prefix(name, "blk."@)->0;
    let some = choose|i: int| text::occurs_at(rest, "."@, i);
    text::lemma_first_exists(rest, "."@, some);
    let dot = text::found(rest, "."@)->0;
    let number = rest.subrange(0, dot);
    let suffix = blk_suffix(name);
    lemma_number_text(number);
    assert(suffix =~= name.subrange(5 + dot, name.len() as int));
    assert(rest.subrange(dot, dot + 1)[0] == rest[dot]);
    assert forall|i: int| 0 <= i < 5 + dot implies #[trigger] name[i] != '_' by {
        if i < 4 {
            assert(name.subrange(0, 4)[i] == name[i]);
            assert(i == 0 || i == 1 || i == 2 || i == 3);
        } else if i < 4 + dot {
            assert(number[i - 4] == name[i]);
        } else {
            assert(rest[dot] == name[i]);
        }
    }
}

/// What a suffix ends in, the name ends in.
proof fn lemma_suffix_of_name(name: Seq<char>, suffix: Seq<char>, end: Seq<char>)
    requires
        suffix.len() <= name.len(),
        forall|i: int|
            0 <= i < suffix.len() ==> #[trigger] suffix[i] == name[name.len() - suffix.len() + i],
        end.is_suffix_of(suffix),
    ensures
        end.is_suffix_of(name),
{
    assert(name.subrange(name.len() - end.len(), name.len() as int) =~= suffix.subrange(
        suffix.len() - end.len(),
        suffix.len() as int,
    ));
}

/// A block tensor whose base has no `r` in it is no norm.
proof fn lemma_named_is_no_norm(name: Seq<char>, b: Seq<char>, end: Seq<char>)
    requires
        ir::blk_parts(name) is Some,
        end == ".weight"@ || end == ".bias"@,
        text::stripped_suffix(blk_suffix(name), end) == Some(b),
        end == ".bias"@ ==> text::stripped_suffix(blk_suffix(name), ".weight"@) is None,
        without_r(b),
    ensures
        !ir::norm_name(name),
{
    let suffix = blk_suffix(name);
    lemma_blk_name(name);
    lemma_suffix_of_name(name, suffix, end);
    lemma_base_is_front(name);
    reveal_strlit(".weight");
    reveal_strlit(".bias");
    if ".weight"@.is_suffix_of(name) && end == ".bias"@ {
        lemma_weight_is_no_bias(name);
    }
    let base = ir::base_of(name);
    if ir::norm_name(name) {
        lemma_norm_mark(name);
        let i = choose|i: int| norm_mark_at(base, i);
        let p = name.len() - suffix.len();
        assert(base[i] == name[i]);
        assert(base[i + 3] == name[i + 3]);
        assert(i >= p);
        assert(suffix[i + 3 - p] == name[i + 3]);
        assert(b[i + 3 - p] == suffix[i + 3 - p]);
    }
}

/// An expert that is a tensor of its own is neither a norm nor a bias.
proof fn lemma_lone_expert(name: Seq<char>, prefix: Seq<char>)
    requires
        ir::blk_parts(name) is Some,
        prefix == "ffn_gate."@ || prefix == "ffn_up."@ || prefix == "ffn_down."@,
        ir::expert_number(blk_suffix(name), prefix) is Some,
    ensures
        !ir::norm_name(name),
        !ir::bias_name(name),
{
    let suffix = blk_suffix(name);
    lemma_blk_name(name);
    reveal_strlit(".weight");
    reveal_strlit("ffn_gate.");
    reveal_strlit("ffn_up.");
    reveal_strlit("ffn_down.");
    let rest = text::stripped_prefix(suffix, prefix)->0;
    let e = text::stripped_suffix(rest, ".weight"@)->0;
    lemma_number_text(e);
    assert(suffix.subrange(suffix.len() - 7, suffix.len() as int) =~= rest.subrange(
        rest.len() - 7,
        rest.len() as int,
    ));
    lemma_suffix_of_name(name, suffix, ".weight"@);
    lemma_weight_is_no_bias(name);
    lemma_base_is_front(name);
    let base = ir::base_of(name);
    if ir::norm_name(name) {
        lemma_norm_mark(name);
        let i = choose|i: int| norm_mark_at(base, i);
        let p = name.len() - suffix.len();
        assert(base[i] == name[i]);
        assert(base[i + 1] == name[i + 1]);
        assert(i >= p);
        let k = i - p;
        assert(suffix[k] == '_');
        assert(suffix[k + 1] == 'n');
        if k < prefix.len() {
            assert(suffix.subrange(0, prefix.len() as int)[k] == suffix[k]);
            assert(k == 0 || k == 1 || k == 2 || k == 3 || k == 4 || k == 5 || k == 6 || k == 7
                || k == 8);
            assert(k == 3);
            assert(suffix.subrange(0, prefix.len() as int)[4] == suffix[4]);
        } else {
            assert(e[k - prefix.len()] == suffix[k]);
        }
    }
}

/// A norm of a multi-token head has `norm` in what follows `nextn.`.
proof fn lemma_nextn_norm(name: Seq<char>)
    requires
        ir::blk_parts(name) is Some,
        text::stripped_prefix(blk_suffix(name), "nextn."@) is Some,
        ir::norm_name(name),
    ensures
        text::occurs(text::stripped_prefix(blk_suffix(name), "nextn."@)->0, "norm"@),
{
    let suffix = blk_suffix(name);
    lemma_blk_name(name);
    lemma_base_is_front(name);
    reveal_strlit("nextn.");
    reveal_strlit("norm");
    let part = text::stripped_prefix(suffix, "nextn."@)->0;
    let base = ir::base_of(name);
    lemma_norm_mark(name);
    let i = choose|i: int| norm_mark_at(base, i);
    let p = name.len() - suffix.len();
    assert(base[i] == name[i] && base[i + 1] == name[i + 1] && base[i + 2] == name[i + 2] && base[i
        + 3] == name[i + 3] && base[i + 4] == name[i + 4]);
    assert(i >= p);
    let k = i - p;
    assert(suffix[k] == '_');
    if k < 6 {
        assert(suffix.subrange(0, 6)[k] == suffix[k]);
        assert(k == 0 || k == 1 || k == 2 || k == 3 || k == 4 || k == 5);
    }
    assert(suffix[k + 1] == 'n' && suffix[k + 2] == 'o' && suffix[k + 3] == 'r' && suffix[k + 4]
        == 'm');
    let at = k + 1 - 6;
    assert(part.subrange(at, at + 4) =~= "norm"@);
    assert(text::occurs_at(part, "norm"@, at));
}

/// Norms and biases are never quantized, whatever the model and whatever else their names say.
pub proof fn law_norms_and_biases_stay_float(name: Seq<char>, n_layers: u32)
    requires
        ir::norm_name(name) || ir::bias_name(name),
    ensures
        !ir::tag_of(name, n_layers).quantizable,
{
    reveal_strlit(".weight");
    reveal_strlit(".bias");
    reveal_strlit("token_embd.weight");
    reveal_strlit("output.weight");
    reveal_strlit("output.bias");
    lemma_base_is_front(name);
    if name == "token_embd.weight"@ {
        assert(name.subrange(10, 17) =~= ".weight"@);
        lemma_weight_is_no_bias(name);
        lemma_sixteen(ir::base_of(name));
        lemma_norm_mark(name);
        let i = choose|i: int| norm_mark_at(ir::base_of(name), i);
        assert(ir::base_of(name)[i + 3] == 'r');
    } else if name == "output.weight"@ {
        assert(name.subrange(6, 13) =~= ".weight"@);
        lemma_weight_is_no_bias(name);
        lemma_sixteen(ir::base_of(name));
        lemma_norm_mark(name);
        let i = choose|i: int| norm_mark_at(ir::base_of(name), i);
        assert(ir::base_of(name)[i + 3] == 'r');
    } else if name == "output.bias"@ {
        assert(name.subrange(6, 11) =~= ".bias"@);
    } else if ir::blk_parts(name) is Some {
        let suffix = blk_suffix(name);
        if text::stripped_prefix(suffix, "nextn."@) is Some {
            if ir::norm_name(name) {
                lemma_nextn_norm(name);
            }
        } else if ir::suffix_role(suffix) is Some {
            if ir::norm_name(name) && ir::suffix_role(suffix) != Some(Role::Norm) {
                if text::stripped_suffix(suffix, ".weight"@) is Some {
                    let b = text::stripped_suffix(suffix, ".weight"@)->0;
                    lemma_known_bases(b);
                    lemma_named_is_no_norm(name, b, ".weight"@);
                } else {
                    let b = text::stripped_suffix(suffix, ".bias"@)->0;
                    lemma_known_bases(b);
                    lemma_named_is_no_norm(name, b, ".bias"@);
                }
            }
        } else if ir::lone_expert(suffix) is Some {
            if ir::expert_number(suffix, "ffn_gate."@) is Some {
                lemma_lone_expert(name, "ffn_gate."@);
            } else if ir::expert_number(suffix, "ffn_up."@) is Some {
                lemma_lone_expert(name, "ffn_up."@);
            } else {
                lemma_lone_expert(name, "ffn_down."@);
            }
        }
    }
}

/// The base name of a norm ends in `_norm`, but for one that a number follows.
proof fn lemma_norm_bases(b: Seq<char>)
    requires
        ir::base_role(b) == Some(Role::Norm),
    ensures
        b == "attn_norm_2"@ || "_norm"@.is_suffix_of(b),
{
    reveal_strlit("_norm");
    reveal_strlit("attn_norm");
    reveal_strlit("attn_output_norm");
    reveal_strlit("attn_q_norm");
    reveal_strlit("attn_k_norm");
    reveal_strlit("ffn_norm");
    if b != "attn_norm_2"@ {
        assert(b.subrange(b.len() - 5, b.len() as int) =~= "_norm"@);
    }
}

/// A block weight whose base is that of a norm has the name of a norm.
proof fn lemma_norm_weight(name: Seq<char>, b: Seq<char>)
    requires
        ir::blk_parts(name) is Some,
        text::stripped_suffix(blk_suffix(name), ".weight"@) == Some(b),
        ir::base_role(b) == Some(Role::Norm),
    ensures
        ir::norm_name(name),
{
    let suffix = blk_suffix(name);
    let base = ir::base_of(name);
    let p = name.len() - suffix.len();
    lemma_blk_name(name);
    lemma_suffix_of_name(name, suffix, ".weight"@);
    lemma_base_is_front(name);
    lemma_norm_bases(b);
    reveal_strlit(".weight");
    reveal_strlit("_norm");
    assert forall|i: int| 0 <= i < b.len() implies #[trigger] b[i] == base[p + i] by {
        assert(b[i] == suffix[i]);
    }
    assert(base.subrange(p, base.len() as int) =~= b);
    if b == "attn_norm_2"@ {
        reveal_strlit("attn_norm_2");
        reveal_strlit("_norm_");
        assert(b[0] != '_' && b[1] != '_' && b[2] != '_' && b[3] != '_');
        assert(base.subrange(p + 4, p + 10) =~= b.subrange(4, 10));
        assert(b.subrange(4, 10) =~= "_norm_"@);
        assert forall|j: int| 0 <= j < p + 4 implies !text::occurs_at(base, "_norm_"@, j) by {
            if text::occurs_at(base, "_norm_"@, j) {
                assert(base.subrange(j, j + 6)[0] == base[j]);
                assert(base[j] == name[j]);
                if j >= p {
                    assert(base[j] == b[j - p]);
                }
            }
        }
        text::lemma_found(base, "_norm_"@, p + 4);
        let rest = text::after(base, p + 10);
        assert(rest[0] == b[10]);
        assert(text::all_digits(rest));
    } else {
        assert(base.subrange(base.len() - 5, base.len() as int) =~= b.subrange(
            b.len() - 5,
            b.len() as int,
        ));
    }
}

/// A tensor whose role is a norm is never quantized.
pub proof fn law_norm_role_stays_float(name: Seq<char>, n_layers: u32)
    requires
        ir::tag_of(name, n_layers).role == Role::Norm,
    ensures
        !ir::tag_of(name, n_layers).quantizable,
{
    if name == "output_norm.weight"@ || name == "output_norm.bias"@ {
        reveal_strlit("output_norm.weight");
        reveal_strlit("output_norm.bias");
        reveal_strlit(".weight");
        reveal_strlit(".bias");
        reveal_strlit("_norm");
        if name == "output_norm.weight"@ {
            assert(name.subrange(11, 18) =~= ".weight"@);
            assert(ir::base_of(name).subrange(6, 11) =~= "_norm"@);
        } else {
            assert(name.subrange(11, 16) =~= ".bias"@);
        }
    } else if ir::blk_parts(name) is Some {
        let suffix = blk_suffix(name);
        if ir::suffix_role(suffix) == Some(Role::Norm) {
            lemma_blk_name(name);
            if text::stripped_suffix(suffix, ".weight"@) is Some {
                lemma_norm_weight(name, text::stripped_suffix(suffix, ".weight"@)->0);
            } else {
                lemma_suffix_of_name(name, suffix, ".bias"@);
            }
        }
    }
}

/// Tensors that stay at full precision for the sake of a state-space block or a position table
/// are never quantized either.
pub proof fn law_sensitive_parameters_stay_float(name: Seq<char>, n_layers: u32)
    ensures
        ir::tag_of(name, n_layers).role == Role::SsmParam ==> !ir::tag_of(
            name,
            n_layers,
        ).quantizable,
        "rope_freqs"@.is_prefix_of(name) ==> !ir::tag_of(name, n_layers).quantizable,
{
    if "rope_freqs"@.is_prefix_of(name) {
        reveal_strlit("rope_freqs");
        reveal_strlit("token_embd.weight");
        reveal_strlit("output_norm.weight");
        reveal_strlit("output_norm.bias");
        reveal_strlit("output.weight");
        reveal_strlit("output.bias");
        reveal_strlit("token_embd.bias");
        assert(name.subrange(0, 10)[0] == name[0]);
    }
}

/// The expert in a tensor's place is the expert of its role: a routed expert that is a tensor of
/// its own, and nothing else.
pub proof fn law_place_names_the_expert(name: Seq<char>, n_layers: u32)
    ensures
        match ir::tag_of(name, n_layers).place.expert {
            Some(e) => ir::tag_of(name, n_layers).role matches Role::RoutedExpert { idx, .. } && idx
                == e,
            None => true,
        },
        ir::tag_of(name, n_layers).place.depth.den > 0,
{
}

/// The depth of a tensor lies between zero and one, and below one in a block of the model.
pub proof fn law_depth_is_a_fraction(name: Seq<char>, n_layers: u32)
    ensures
        ({
            let depth = ir::tag_of(name, n_layers).place.depth;
            &&& ir::blk_parts(name) is None ==> depth.num <= depth.den
            &&& match ir::blk_parts(name) {
                Some((block, _)) => block < n_layers ==> depth.num < depth.den,
                None => true,
            }
        }),
{
    if ir::blk_parts(name) is Some {
        reveal_strlit("blk.");
        reveal_strlit("rope_freqs");
        reveal_strlit("output_norm.weight");
        reveal_strlit("output_norm.bias");
        reveal_strlit("output.weight");
        reveal_strlit("output.bias");
        assert(name.subrange(0, 4)[0] == name[0]);
    }
}

} // verus!
