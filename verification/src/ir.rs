//! Roles of tensors: what a tensor does in the model, and whether it may be block-quantized.
use vstd::prelude::*;
use crate::gguf::reader;
use crate::gguf::reader::find_value;
use crate::gguf::value;
use crate::gguf::value::{GgufValue, ValueModel};
use crate::text;

pub mod laws;
pub mod roles;

verus! {

/// What a tensor does in the model.
#[derive(Debug, Clone, Copy, PartialEq, Eq, Hash, Structural)]
pub enum Role {
    /// Token embedding.
    Embedding,
    /// Output projection.
    LmHead,
    /// Norm weights and biases.
    Norm,
    AttnQ,
    AttnK,
    AttnV,
    AttnO,
    FfnGate,
    FfnUp,
    FfnDown,
    /// Gate logits of a mixture of experts.
    Router,
    /// An expert that every token passes.
    SharedExpert(FfnPart),
    /// An expert that only routed tokens pass; `u32::MAX` for all of them packed in one tensor.
    RoutedExpert { idx: u32, part: FfnPart },
    /// Query, key and value in one projection.
    AttnQkv,
    /// Projections of latent attention.
    AttnMla(MlaPart),
    /// Weight matrices of state-space blocks.
    Ssm,
    /// Small state-space parameters, which stay at full precision.
    SsmParam,
    /// Heads that predict further tokens.
    Mtp,
    /// Anything else.
    Unknown,
}

/// Which projection of latent attention.
#[derive(Debug, Clone, Copy, PartialEq, Eq, Hash, Structural)]
pub enum MlaPart {
    QA,
    QB,
    KvA,
    KvAMqa,
    KvB,
}

/// Which matrix of a feed-forward block.
#[derive(Debug, Clone, Copy, PartialEq, Eq, Hash, Structural)]
pub enum FfnPart {
    Gate,
    Up,
    Down,
}

/// The fraction `num / den` of the way through the layers.
#[derive(Debug, Clone, Copy, PartialEq, Eq, Structural)]
pub struct Depth {
    pub num: u32,
    pub den: u32,
}

/// Where a tensor is: how deep, and in which routed expert.
#[derive(Debug, Clone, Copy, PartialEq, Eq, Structural)]
pub struct Place {
    pub depth: Depth,
    pub expert: Option<u32>,
}

/// A tensor with its role and place.
#[derive(Debug)]
pub struct TensorInfo {
    pub name: String,
    pub shape: Vec<u64>,
    pub role: Role,
    pub place: Place,
}

/// A tensor's bytes with their name, shape and type.
#[derive(Debug)]
pub struct TensorView<'a> {
    pub name: &'a str,
    pub shape: Vec<u64>,
    pub data: &'a [u8],
    pub dtype: u32,
}

/// What the metadata say of the model as a whole.
#[derive(Debug)]
pub struct ModelLayout {
    pub arch: String,
    pub n_layers: u32,
    pub expert_count: u32,
    pub expert_used: u32,
    pub shared_count: u32,
    pub is_moe: bool,
}

/// Metadata that do not describe a model.
#[derive(Debug, Clone, Copy, PartialEq, Eq, Structural)]
pub enum LayoutError {
    /// `general.architecture` is missing or no string.
    MissingArchitecture,
    /// The number of blocks is missing.
    MissingBlockCount,
}

/// The tag of a tensor.
#[derive(Debug, Clone, Copy, PartialEq, Eq, Structural)]
pub struct TensorTag {
    pub role: Role,
    pub place: Place,
    /// True for weights that may be block-quantized.
    pub quantizable: bool,
}

impl Role {
    /// The label of a role.
    pub open spec fn label_of(self) -> Seq<char> {
        match self {
            Role::Embedding => "embedding"@,
            Role::LmHead => "lm_head"@,
            Role::Norm => "norm"@,
            Role::AttnQ => "attn_q"@,
            Role::AttnK => "attn_k"@,
            Role::AttnV => "attn_v"@,
            Role::AttnO => "attn_o"@,
            Role::FfnGate => "ffn_gate"@,
            Role::FfnUp => "ffn_up"@,
            Role::FfnDown => "ffn_down"@,
            Role::Router => "router"@,
            Role::AttnQkv => "attn_qkv"@,
            Role::AttnMla(MlaPart::QA) => "attn_mla.q_a"@,
            Role::AttnMla(MlaPart::QB) => "attn_mla.q_b"@,
            Role::AttnMla(MlaPart::KvA) => "attn_mla.kv_a"@,
            Role::AttnMla(MlaPart::KvAMqa) => "attn_mla.kv_a_mqa"@,
            Role::AttnMla(MlaPart::KvB) => "attn_mla.kv_b"@,
            Role::Ssm => "ssm"@,
            Role::SsmParam => "ssm_param"@,
            Role::SharedExpert(FfnPart::Gate) => "shared_expert.gate"@,
            Role::SharedExpert(FfnPart::Up) => "shared_expert.up"@,
            Role::SharedExpert(FfnPart::Down) => "shared_expert.down"@,
            Role::RoutedExpert { idx: _, part: FfnPart::Gate } => "routed_expert.gate"@,
            Role::RoutedExpert { idx: _, part: FfnPart::Up } => "routed_expert.up"@,
            Role::RoutedExpert { idx: _, part: FfnPart::Down } => "routed_expert.down"@,
            Role::Mtp => "mtp"@,
            Role::Unknown => "unknown"@,
        }
    }

    /// A stable label for tables and recipes.
    pub fn label(&self) -> (r: &'static str)
        ensures
            r@ == self.label_of(),
    {
        match self {
            Role::Embedding => "embedding",
            Role::LmHead => "lm_head",
            Role::Norm => "norm",
            Role::AttnQ => "attn_q",
            Role::AttnK => "attn_k",
            Role::AttnV => "attn_v",
            Role::AttnO => "attn_o",
            Role::FfnGate => "ffn_gate",
            Role::FfnUp => "ffn_up",
            Role::FfnDown => "ffn_down",
            Role::Router => "router",
            Role::AttnQkv => "attn_qkv",
            Role::AttnMla(MlaPart::QA) => "attn_mla.q_a",
            Role::AttnMla(MlaPart::QB) => "attn_mla.q_b",
            Role::AttnMla(MlaPart::KvA) => "attn_mla.kv_a",
            Role::AttnMla(MlaPart::KvAMqa) => "attn_mla.kv_a_mqa",
            Role::AttnMla(MlaPart::KvB) => "attn_mla.kv_b",
            Role::Ssm => "ssm",
            Role::SsmParam => "ssm_param",
            Role::SharedExpert(FfnPart::Gate) => "shared_expert.gate",
            Role::SharedExpert(FfnPart::Up) => "shared_expert.up",
            Role::SharedExpert(FfnPart::Down) => "shared_expert.down",
            Role::RoutedExpert { idx: _, part: FfnPart::Gate } => "routed_expert.gate",
            Role::RoutedExpert { idx: _, part: FfnPart::Up } => "routed_expert.up",
            Role::RoutedExpert { idx: _, part: FfnPart::Down } => "routed_expert.down",
            Role::Mtp => "mtp",
            Role::Unknown => "unknown",
        }
    }

    /// Whether the tensor holds gate logits.
    pub fn is_router(&self) -> (r: bool)
        ensures
            r == (*self == Role::Router),
    {
        match self {
            Role::Router => true,
            _ => false,
        }
    }

    /// Every token passes the tensor: all but routed experts, state-space parameters and what is
    /// unknown.
    pub open spec fn on_dense_path(self) -> bool {
        !(self is RoutedExpert) && self != Role::SsmParam && self != Role::Unknown
    }

    /// Whether every token passes the tensor.
    pub fn is_dense_path(&self) -> (r: bool)
        ensures
            r == self.on_dense_path(),
    {
        match self {
            Role::RoutedExpert { .. } => false,
            Role::SsmParam => false,
            Role::Unknown => false,
            _ => true,
        }
    }
}

/// The length of a text and its first and last character.
spec fn ends(s: Seq<char>) -> (nat, char, char) {
    (s.len(), s[0], s.last())
}

/// The length of a role's label and its first and last character.
spec fn label_ends(role: Role) -> (nat, char, char) {
    match role {
        Role::Embedding => (9, 'e', 'g'),
        Role::LmHead => (7, 'l', 'd'),
        Role::Norm => (4, 'n', 'm'),
        Role::AttnQ => (6, 'a', 'q'),
        Role::AttnK => (6, 'a', 'k'),
        Role::AttnV => (6, 'a', 'v'),
        Role::AttnO => (6, 'a', 'o'),
        Role::FfnGate => (8, 'f', 'e'),
        Role::FfnUp => (6, 'f', 'p'),
        Role::FfnDown => (8, 'f', 'n'),
        Role::Router => (6, 'r', 'r'),
        Role::AttnQkv => (8, 'a', 'v'),
        Role::AttnMla(MlaPart::QA) => (12, 'a', 'a'),
        Role::AttnMla(MlaPart::QB) => (12, 'a', 'b'),
        Role::AttnMla(MlaPart::KvA) => (13, 'a', 'a'),
        Role::AttnMla(MlaPart::KvAMqa) => (17, 'a', 'a'),
        Role::AttnMla(MlaPart::KvB) => (13, 'a', 'b'),
        Role::Ssm => (3, 's', 'm'),
        Role::SsmParam => (9, 's', 'm'),
        Role::SharedExpert(FfnPart::Gate) => (18, 's', 'e'),
        Role::SharedExpert(FfnPart::Up) => (16, 's', 'p'),
        Role::SharedExpert(FfnPart::Down) => (18, 's', 'n'),
        Role::RoutedExpert { idx: _, part: FfnPart::Gate } => (18, 'r', 'e'),
        Role::RoutedExpert { idx: _, part: FfnPart::Up } => (16, 'r', 'p'),
        Role::RoutedExpert { idx: _, part: FfnPart::Down } => (18, 'r', 'n'),
        Role::Mtp => (3, 'm', 'p'),
        Role::Unknown => (7, 'u', 'n'),
    }
}

/// What the ends of a role's label are.
proof fn lemma_label_ends(role: Role)
    ensures
        ends(role.label_of()) == label_ends(role),
{
    reveal_strlit("embedding");
    reveal_strlit("lm_head");
    reveal_strlit("norm");
    reveal_strlit("attn_q");
    reveal_strlit("attn_k");
    reveal_strlit("attn_v");
    reveal_strlit("attn_o");
    reveal_strlit("ffn_gate");
    reveal_strlit("ffn_up");
    reveal_strlit("ffn_down");
    reveal_strlit("router");
    reveal_strlit("attn_qkv");
    reveal_strlit("attn_mla.q_a");
    reveal_strlit("attn_mla.q_b");
    reveal_strlit("attn_mla.kv_a");
    reveal_strlit("attn_mla.kv_a_mqa");
    reveal_strlit("attn_mla.kv_b");
    reveal_strlit("ssm");
    reveal_strlit("ssm_param");
    reveal_strlit("shared_expert.gate");
    reveal_strlit("shared_expert.up");
    reveal_strlit("shared_expert.down");
    reveal_strlit("routed_expert.gate");
    reveal_strlit("routed_expert.up");
    reveal_strlit("routed_expert.down");
    reveal_strlit("mtp");
    reveal_strlit("unknown");
}

/// Two roles have the same label only where they are the same role, or the same part of routed
/// experts.
pub proof fn law_labels_tell_roles_apart(a: Role, b: Role)
    ensures
        a.label_of() == b.label_of() <==> a == b || (a is RoutedExpert && b is RoutedExpert
            && a->part == b->part),
{
    lemma_label_ends(a);
    lemma_label_ends(b);
}

/// The name without `.weight` or `.bias`.
pub open spec fn base_of(name: Seq<char>) -> Seq<char> {
    match text::stripped_suffix(name, ".weight"@) {
        Some(b) => b,
        None => match text::stripped_suffix(name, ".bias"@) {
            Some(b) => b,
            None => name,
        },
    }
}

/// A base that ends in `_norm`, or in which only digits follow the first `_norm_`.
pub open spec fn norm_base(base: Seq<char>) -> bool {
    "_norm"@.is_suffix_of(base) || match text::found(base, "_norm_"@) {
        Some(i) => text::all_digits(text::after(base, i + "_norm_"@.len())),
        None => false,
    }
}

/// The name of a norm's weight or bias.
pub open spec fn norm_name(name: Seq<char>) -> bool {
    norm_base(base_of(name))
}

/// The name of a bias.
pub open spec fn bias_name(name: Seq<char>) -> bool {
    ".bias"@.is_suffix_of(name)
}

/// Layer and suffix of `blk.{layer}.{suffix}`.
pub open spec fn blk_parts(name: Seq<char>) -> Option<(u32, Seq<char>)> {
    match text::stripped_prefix(name, "blk."@) {
        None => None,
        Some(rest) => match text::found(rest, "."@) {
            None => None,
            Some(dot) => match text::parsed_up_to(rest.subrange(0, dot), u32::MAX as nat) {
                None => None,
                Some(idx) => Some((idx as u32, text::after(rest, dot + 1))),
            },
        },
    }
}

/// Roles that both the weight and the bias of this base name have.
pub open spec fn base_role(base: Seq<char>) -> Option<Role> {
    if base == "attn_norm"@ || base == "attn_output_norm"@ || base == "attn_norm_2"@ || base == "attn_q_norm"@ || base == "attn_k_norm"@ || base == "ffn_norm"@ {
        Some(Role::Norm)
    } else if base == "attn_q"@ {
        Some(Role::AttnQ)
    } else if base == "attn_k"@ {
        Some(Role::AttnK)
    } else if base == "attn_v"@ {
        Some(Role::AttnV)
    } else if base == "attn_o"@ || base == "attn_output"@ {
        Some(Role::AttnO)
    } else if base == "attn_qkv"@ {
        Some(Role::AttnQkv)
    } else if base == "attn_q_a"@ {
        Some(Role::AttnMla(MlaPart::QA))
    } else if base == "attn_q_b"@ {
        Some(Role::AttnMla(MlaPart::QB))
    } else if base == "attn_kv_a"@ {
        Some(Role::AttnMla(MlaPart::KvA))
    } else if base == "attn_kv_a_mqa"@ {
        Some(Role::AttnMla(MlaPart::KvAMqa))
    } else if base == "attn_kv_b"@ {
        Some(Role::AttnMla(MlaPart::KvB))
    } else if base == "ffn_gate_inp"@ {
        Some(Role::Router)
    } else if base == "ffn_gate"@ {
        Some(Role::FfnGate)
    } else if base == "ffn_up"@ {
        Some(Role::FfnUp)
    } else if base == "ffn_down"@ {
        Some(Role::FfnDown)
    } else {
        None
    }
}

/// Roles that only the weight of this base name has.
pub open spec fn expert_role(base: Seq<char>) -> Option<Role> {
    if base == "ffn_gate_shexp"@ {
        Some(Role::SharedExpert(FfnPart::Gate))
    } else if base == "ffn_up_shexp"@ {
        Some(Role::SharedExpert(FfnPart::Up))
    } else if base == "ffn_down_shexp"@ {
        Some(Role::SharedExpert(FfnPart::Down))
    } else if base == "ffn_gate_exps"@ {
        Some(Role::RoutedExpert { idx: u32::MAX, part: FfnPart::Gate })
    } else if base == "ffn_up_exps"@ {
        Some(Role::RoutedExpert { idx: u32::MAX, part: FfnPart::Up })
    } else if base == "ffn_down_exps"@ {
        Some(Role::RoutedExpert { idx: u32::MAX, part: FfnPart::Down })
    } else {
        None
    }
}

/// Parameters of state-space blocks that stay at full precision.
pub open spec fn ssm_param(base: Seq<char>) -> bool {
    base == "ssm_a"@ || base == "ssm_dt"@ || base == "ssm_d"@ || base == "ssm_alpha"@ || base == "ssm_beta"@ || base == "ssm_ba"@
}

/// Weight matrices of state-space blocks.
pub open spec fn ssm_matrix(base: Seq<char>) -> bool {
    base == "ssm_in"@ || base == "ssm_out"@ || base == "ssm_x"@ || base == "ssm_conv1d"@ || base == "ssm_f"@ || base == "ssm_g"@ || base == "ssm_b"@ || base == "ssm_c"@
}

/// The role that a suffix names: a base name with `.weight` or `.bias` behind it.
pub open spec fn suffix_role(suffix: Seq<char>) -> Option<Role> {
    match text::stripped_suffix(suffix, ".weight"@) {
        Some(b) => if base_role(b) is Some {
            base_role(b)
        } else if expert_role(b) is Some {
            expert_role(b)
        } else {
            ssm_role(b)
        },
        None => match text::stripped_suffix(suffix, ".bias"@) {
            Some(b) => if base_role(b) is Some {
                base_role(b)
            } else {
                ssm_role(b)
            },
            None => None,
        },
    }
}

/// The role of a tensor of a state-space block.
pub open spec fn ssm_role(base: Seq<char>) -> Option<Role> {
    if ssm_param(base) {
        Some(Role::SsmParam)
    } else if ssm_matrix(base) {
        Some(Role::Ssm)
    } else {
        None
    }
}

/// The expert number in `{prefix}{number}.weight`.
pub open spec fn expert_number(suffix: Seq<char>, prefix: Seq<char>) -> Option<u32> {
    match text::stripped_prefix(suffix, prefix) {
        None => None,
        Some(rest) => match text::stripped_suffix(rest, ".weight"@) {
            None => None,
            Some(e) => match text::parsed_up_to(e, u32::MAX as nat) {
                None => None,
                Some(n) => Some(n as u32),
            },
        },
    }
}

/// Part and number of an expert that is a tensor of its own.
pub open spec fn lone_expert(suffix: Seq<char>) -> Option<(FfnPart, u32)> {
    match expert_number(suffix, "ffn_gate."@) {
        Some(e) => Some((FfnPart::Gate, e)),
        None => match expert_number(suffix, "ffn_up."@) {
            Some(e) => Some((FfnPart::Up, e)),
            None => match expert_number(suffix, "ffn_down."@) {
                Some(e) => Some((FfnPart::Down, e)),
                None => None,
            },
        },
    }
}

/// The tag of a tensor of a block.
pub open spec fn block_tag(name: Seq<char>, depth: Depth, suffix: Seq<char>) -> TensorTag {
    let plain = !norm_name(name) && !bias_name(name);
    let place = Place { depth, expert: None };
    match text::stripped_prefix(suffix, "nextn."@) {
        Some(part) => TensorTag {
            role: Role::Mtp,
            place,
            quantizable: !text::occurs(part, "norm"@) && !bias_name(name),
        },
        None => match suffix_role(suffix) {
            Some(Role::Norm) => TensorTag { role: Role::Norm, place, quantizable: plain },
            Some(Role::SsmParam) => TensorTag { role: Role::SsmParam, place, quantizable: false },
            Some(role) => TensorTag { role, place, quantizable: !bias_name(name) },
            None => match lone_expert(suffix) {
                Some((part, e)) => TensorTag {
                    role: Role::RoutedExpert { idx: e, part },
                    place: Place { depth, expert: Some(e) },
                    quantizable: true,
                },
                None => TensorTag {
                    role: if norm_name(name) {
                        Role::Norm
                    } else {
                        Role::Unknown
                    },
                    place,
                    quantizable: plain,
                },
            },
        },
    }
}

/// The tag of a tensor in a model of `n_layers` layers.
pub open spec fn tag_of(name: Seq<char>, n_layers: u32) -> TensorTag {
    let plain = !norm_name(name) && !bias_name(name);
    let first = Place { depth: Depth { num: 0, den: 1 }, expert: None };
    let last = Place { depth: Depth { num: 1, den: 1 }, expert: None };
    if name == "token_embd.weight"@ {
        TensorTag { role: Role::Embedding, place: first, quantizable: true }
    } else if name == "output_norm.weight"@ || name == "output_norm.bias"@ {
        TensorTag { role: Role::Norm, place: last, quantizable: plain }
    } else if name == "output.weight"@ || name == "output.bias"@ {
        TensorTag { role: Role::LmHead, place: last, quantizable: !bias_name(name) }
    } else if name == "token_embd.bias"@ {
        TensorTag { role: Role::Embedding, place: first, quantizable: false }
    } else if "rope_freqs"@.is_prefix_of(name) {
        TensorTag { role: Role::Unknown, place: first, quantizable: false }
    } else {
        match blk_parts(name) {
            None => TensorTag { role: Role::Unknown, place: first, quantizable: plain },
            Some((idx, suffix)) => block_tag(
                name,
                Depth {
                    num: idx,
                    den: if n_layers == 0 {
                        1
                    } else {
                        n_layers
                    },
                },
                suffix,
            ),
        }
    }
}

/// The name without `.weight` or `.bias`.
fn base_name<'a>(name: &'a str) -> (r: &'a str)
    ensures
        r@ == base_of(name@),
{
    match text::strip_suffix(name, ".weight") {
        Some(b) => b,
        None => match text::strip_suffix(name, ".bias") {
            Some(b) => b,
            None => name,
        },
    }
}

/// Whether `name` is a norm's weight or bias: the base name ends in `_norm`, or only digits follow
/// its first `_norm_`.
pub fn is_norm_tensor(name: &str) -> (r: bool)
    ensures
        r == norm_name(name@),
{
    let base = base_name(name);
    if text::ends_with(base, "_norm") {
        return true;
    }
    match text::find(base, "_norm_") {
        Some(i) => {
            proof {
                reveal_strlit("_norm_");
            }
            let n: usize = base.unicode_len();
            text::is_all_digits(base.substring_char(i + 6, n))
        },
        None => false,
    }
}

/// The role of [`base_role`].
fn role_of_base(base: &str) -> (r: Option<Role>)
    ensures
        r == base_role(base@),
{
    if text::same(base, "attn_norm") || text::same(base, "attn_output_norm") || text::same(base, "attn_norm_2") || text::same(base, "attn_q_norm") || text::same(base, "attn_k_norm") || text::same(base, "ffn_norm") {
        Some(Role::Norm)
    } else if text::same(base, "attn_q") {
        Some(Role::AttnQ)
    } else if text::same(base, "attn_k") {
        Some(Role::AttnK)
    } else if text::same(base, "attn_v") {
        Some(Role::AttnV)
    } else if text::same(base, "attn_o") || text::same(base, "attn_output") {
        Some(Role::AttnO)
    } else if text::same(base, "attn_qkv") {
        Some(Role::AttnQkv)
    } else if text::same(base, "attn_q_a") {
        Some(Role::AttnMla(MlaPart::QA))
    } else if text::same(base, "attn_q_b") {
        Some(Role::AttnMla(MlaPart::QB))
    } else if text::same(base, "attn_kv_a") {
        Some(Role::AttnMla(MlaPart::KvA))
    } else if text::same(base, "attn_kv_a_mqa") {
        Some(Role::AttnMla(MlaPart::KvAMqa))
    } else if text::same(base, "attn_kv_b") {
        Some(Role::AttnMla(MlaPart::KvB))
    } else if text::same(base, "ffn_gate_inp") {
        Some(Role::Router)
    } else if text::same(base, "ffn_gate") {
        Some(Role::FfnGate)
    } else if text::same(base, "ffn_up") {
        Some(Role::FfnUp)
    } else if text::same(base, "ffn_down") {
        Some(Role::FfnDown)
    } else {
        None
    }
}

/// The role of [`expert_role`].
fn role_of_expert(base: &str) -> (r: Option<Role>)
    ensures
        r == expert_role(base@),
{
    if text::same(base, "ffn_gate_shexp") {
        Some(Role::SharedExpert(FfnPart::Gate))
    } else if text::same(base, "ffn_up_shexp") {
        Some(Role::SharedExpert(FfnPart::Up))
    } else if text::same(base, "ffn_down_shexp") {
        Some(Role::SharedExpert(FfnPart::Down))
    } else if text::same(base, "ffn_gate_exps") {
        Some(Role::RoutedExpert { idx: u32::MAX, part: FfnPart::Gate })
    } else if text::same(base, "ffn_up_exps") {
        Some(Role::RoutedExpert { idx: u32::MAX, part: FfnPart::Up })
    } else if text::same(base, "ffn_down_exps") {
        Some(Role::RoutedExpert { idx: u32::MAX, part: FfnPart::Down })
    } else {
        None
    }
}

/// The role of [`ssm_role`].
fn role_of_ssm(base: &str) -> (r: Option<Role>)
    ensures
        r == ssm_role(base@),
{
    if text::same(base, "ssm_a") || text::same(base, "ssm_dt") || text::same(base, "ssm_d") || text::same(base, "ssm_alpha") || text::same(base, "ssm_beta") || text::same(base, "ssm_ba") {
        Some(Role::SsmParam)
    } else if text::same(base, "ssm_in") || text::same(base, "ssm_out") || text::same(base, "ssm_x") || text::same(base, "ssm_conv1d") || text::same(base, "ssm_f") || text::same(base, "ssm_g") || text::same(base, "ssm_b") || text::same(base, "ssm_c") {
        Some(Role::Ssm)
    } else {
        None
    }
}

/// The role of [`suffix_role`].
fn role_of_suffix(suffix: &str) -> (r: Option<Role>)
    ensures
        r == suffix_role(suffix@),
{
    match text::strip_suffix(suffix, ".weight") {
        Some(b) => match role_of_base(b) {
            Some(role) => Some(role),
            None => match role_of_expert(b) {
                Some(role) => Some(role),
                None => role_of_ssm(b),
            },
        },
        None => match text::strip_suffix(suffix, ".bias") {
            Some(b) => match role_of_base(b) {
                Some(role) => Some(role),
                None => role_of_ssm(b),
            },
            None => None,
        },
    }
}

/// The number of [`expert_number`].
fn number_of_expert(suffix: &str, prefix: &str) -> (r: Option<u32>)
    ensures
        r == expert_number(suffix@, prefix@),
{
    match text::strip_prefix(suffix, prefix) {
        None => None,
        Some(rest) => match text::strip_suffix(rest, ".weight") {
            None => None,
            Some(e) => text::parse_u32(e),
        },
    }
}

impl TensorTag {
    /// Layer and suffix of `blk.{layer}.{suffix}`.
    pub fn split_blk<'a>(name: &'a str) -> (r: Option<(u32, &'a str)>)
        ensures
            match r {
                Some((idx, suffix)) => blk_parts(name@) == Some((idx, suffix@)),
                None => blk_parts(name@) is None,
            },
    {
        let rest = match text::strip_prefix(name, "blk.") {
            Some(x) => x,
            None => return None,
        };
        let dot: usize = match text::find(rest, ".") {
            Some(i) => i,
            None => return None,
        };
        proof {
            reveal_strlit(".");
        }
        let n: usize = rest.unicode_len();
        match text::parse_u32(rest.substring_char(0, dot)) {
            Some(idx) => Some((idx, rest.substring_char(dot + 1, n))),
            None => None,
        }
    }

    /// The tag of a tensor of a block.
    fn tag_block(name: &str, depth: Depth, suffix: &str) -> (r: TensorTag)
        ensures
            r == block_tag(name@, depth, suffix@),
    {
        let is_bias: bool = text::ends_with(name, ".bias");
        let is_norm: bool = is_norm_tensor(name);
        let place = Place { depth, expert: None };
        if let Some(part) = text::strip_prefix(suffix, "nextn.") {
            return TensorTag {
                role: Role::Mtp,
                place,
                quantizable: !text::contains(part, "norm") && !is_bias,
            };
        }
        match role_of_suffix(suffix) {
            Some(Role::Norm) => {
                return TensorTag { role: Role::Norm, place, quantizable: !is_norm && !is_bias };
            },
            Some(Role::SsmParam) => {
                return TensorTag { role: Role::SsmParam, place, quantizable: false };
            },
            Some(role) => {
                return TensorTag { role, place, quantizable: !is_bias };
            },
            None => {},
        }
        let found = match number_of_expert(suffix, "ffn_gate.") {
            Some(e) => Some((FfnPart::Gate, e)),
            None => match number_of_expert(suffix, "ffn_up.") {
                Some(e) => Some((FfnPart::Up, e)),
                None => match number_of_expert(suffix, "ffn_down.") {
                    Some(e) => Some((FfnPart::Down, e)),
                    None => None,
                },
            },
        };
        match found {
            Some((part, e)) => TensorTag {
                role: Role::RoutedExpert { idx: e, part },
                place: Place { depth, expert: Some(e) },
                quantizable: true,
            },
            None => TensorTag {
                role: if is_norm {
                    Role::Norm
                } else {
                    Role::Unknown
                },
                place,
                quantizable: !is_norm && !is_bias,
            },
        }
    }

    /// The tag of the tensor `name`. Names that nothing classifies get [`Role::Unknown`].
    pub fn tag(name: &str, layout: &ModelLayout) -> (r: TensorTag)
        ensures
            r == tag_of(name@, layout.n_layers),
    {
        let is_bias: bool = text::ends_with(name, ".bias");
        let is_norm: bool = is_norm_tensor(name);
        let first = Place { depth: Depth { num: 0, den: 1 }, expert: None };
        let last = Place { depth: Depth { num: 1, den: 1 }, expert: None };
        if text::same(name, "token_embd.weight") {
            return TensorTag { role: Role::Embedding, place: first, quantizable: true };
        }
        if text::same(name, "output_norm.weight") || text::same(name, "output_norm.bias") {
            return TensorTag { role: Role::Norm, place: last, quantizable: !is_norm && !is_bias };
        }
        if text::same(name, "output.weight") || text::same(name, "output.bias") {
            return TensorTag { role: Role::LmHead, place: last, quantizable: !is_bias };
        }
        if text::same(name, "token_embd.bias") {
            return TensorTag { role: Role::Embedding, place: first, quantizable: false };
        }
        if text::starts_with(name, "rope_freqs") {
            return TensorTag { role: Role::Unknown, place: first, quantizable: false };
        }
        match TensorTag::split_blk(name) {
            None => TensorTag {
                role: Role::Unknown,
                place: first,
                quantizable: !is_norm && !is_bias,
            },
            Some((idx, suffix)) => {
                let den: u32 = if layout.n_layers == 0 {
                    1
                } else {
                    layout.n_layers
                };
                TensorTag::tag_block(name, Depth { num: idx, den }, suffix)
            },
        }
    }
}

/// The role of a matrix of a dense feed-forward block.
pub fn dense_ffn_role(part: FfnPart) -> (r: Role)
    ensures
        part == FfnPart::Gate ==> r == Role::FfnGate,
        part == FfnPart::Up ==> r == Role::FfnUp,
        part == FfnPart::Down ==> r == Role::FfnDown,
{
    match part {
        FfnPart::Gate => Role::FfnGate,
        FfnPart::Up => Role::FfnUp,
        FfnPart::Down => Role::FfnDown,
    }
}

/// The 32-bit number under a key.
pub open spec fn number_at(kv: Seq<(Seq<char>, ValueModel)>, key: Seq<char>) -> Option<u32> {
    match reader::first_value(kv, key) {
        Some(v) => value::u32_of(v),
        None => None,
    }
}

/// The 32-bit number under `{arch}.{suffix}`, or else under `suffix` alone.
pub open spec fn arch_number(
    kv: Seq<(Seq<char>, ValueModel)>,
    arch: Seq<char>,
    suffix: Seq<char>,
) -> Option<u32> {
    match number_at(kv, arch + "."@ + suffix) {
        Some(n) => Some(n),
        None => number_at(kv, suffix),
    }
}

/// The architecture that the metadata name.
pub open spec fn arch_of(kv: Seq<(Seq<char>, ValueModel)>) -> Option<Seq<char>> {
    match reader::first_value(kv, "general.architecture"@) {
        Some(ValueModel::Str(s)) => Some(s),
        _ => None,
    }
}

/// The 32-bit number under a key.
fn find_number(kv: &[(String, GgufValue)], key: &str) -> (r: Option<u32>)
    ensures
        r == number_at(reader::kv_model(kv@), key@),
{
    match find_value(kv, key) {
        Some(v) => v.as_u32(),
        None => None,
    }
}

/// The number of [`arch_number`].
fn find_arch_number(kv: &[(String, GgufValue)], arch: &str, suffix: &str) -> (r: Option<u32>)
    ensures
        r == arch_number(reader::kv_model(kv@), arch@, suffix@),
{
    let mut key: String = arch.to_owned();
    key.append(".");
    key.append(suffix);
    match find_number(kv, key.as_str()) {
        Some(n) => Some(n),
        None => find_number(kv, suffix),
    }
}

/// `n`, or zero where it is missing.
pub open spec fn or_zero(n: Option<u32>) -> u32 {
    match n {
        Some(x) => x,
        None => 0,
    }
}

impl ModelLayout {
    /// The layout that the metadata describe: `general.architecture`, then the counts under the
    /// architecture's prefix, or without a prefix. The number of blocks is required; the numbers
    /// of experts count as zero where they are missing.
    pub fn from_kv(kv: &[(String, GgufValue)]) -> (r: Result<ModelLayout, LayoutError>)
        ensures
            ({
                let m = reader::kv_model(kv@);
                match arch_of(m) {
                    None => r == Err::<ModelLayout, _>(LayoutError::MissingArchitecture),
                    Some(arch) => match arch_number(m, arch, "block_count"@) {
                        None => r == Err::<ModelLayout, _>(LayoutError::MissingBlockCount),
                        Some(n) => r matches Ok(l) && {
                            &&& l.arch@ == arch
                            &&& l.n_layers == n
                            &&& l.expert_count == or_zero(arch_number(m, arch, "expert_count"@))
                            &&& l.expert_used == or_zero(
                                arch_number(m, arch, "expert_used_count"@),
                            )
                            &&& l.shared_count == or_zero(
                                arch_number(m, arch, "expert_shared_count"@),
                            )
                            &&& l.is_moe == (l.expert_count > 0)
                        },
                    },
                }
            }),
    {
        let arch: &str = match find_value(kv, "general.architecture") {
            Some(v) => match v.as_str() {
                Some(s) => s,
                None => return Err(LayoutError::MissingArchitecture),
            },
            None => return Err(LayoutError::MissingArchitecture),
        };
        let n_layers: u32 = match find_arch_number(kv, arch, "block_count") {
            Some(n) => n,
            None => return Err(LayoutError::MissingBlockCount),
        };
        let expert_count: u32 = match find_arch_number(kv, arch, "expert_count") {
            Some(n) => n,
            None => 0,
        };
        let expert_used: u32 = match find_arch_number(kv, arch, "expert_used_count") {
            Some(n) => n,
            None => 0,
        };
        let shared_count: u32 = match find_arch_number(kv, arch, "expert_shared_count") {
            Some(n) => n,
            None => 0,
        };
        Ok(
            ModelLayout {
                arch: arch.to_owned(),
                n_layers,
                expert_count,
                expert_used,
                shared_count,
                is_moe: expert_count > 0,
            },
        )
    }
}

} // verus!
