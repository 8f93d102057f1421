//! Writing a container.
use vstd::prelude::*;
use crate::bytes;
use crate::bytes::push_le;
use crate::gguf::geometry;
use crate::gguf::geometry::align_up;
use crate::gguf::reader;
use crate::gguf::reader::{GgufReader, TensorModel, DEFAULT_ALIGNMENT, GGUF_VERSION};
use crate::gguf::value;
use crate::gguf::value::{push_all, value_type, write_string, write_value, GgufValue, ValueModel};
use crate::text;

verus! {

/// A tensor to be written: dimensions from the outermost in, type, packed bytes.
#[derive(Debug)]
pub struct TensorSpec {
    pub name: String,
    pub dims: Vec<u64>,
    pub ggml_type: u32,
    pub data: Vec<u8>,
}

/// A tensor to be written whose data come later.
#[derive(Debug)]
pub struct TensorPlan {
    pub name: String,
    pub dims: Vec<u64>,
    pub ggml_type: u32,
    /// The packed size of the data to come.
    pub nbytes: u64,
}

/// What a [`TensorPlan`] stands for.
pub struct PlanModel {
    pub name: Seq<char>,
    pub dims: Seq<u64>,
    pub ggml_type: u32,
    pub nbytes: nat,
}

impl View for TensorPlan {
    type V = PlanModel;

    open spec fn view(&self) -> PlanModel {
        PlanModel {
            name: self.name@,
            dims: self.dims@,
            ggml_type: self.ggml_type,
            nbytes: self.nbytes as nat,
        }
    }
}

impl TensorSpec {
    /// The plan of a tensor whose data are at hand.
    pub open spec fn plan(self) -> PlanModel {
        PlanModel {
            name: self.name@,
            dims: self.dims@,
            ggml_type: self.ggml_type,
            nbytes: self.data@.len(),
        }
    }
}

/// The plans of tensors whose data are at hand.
pub open spec fn specs_plans(specs: Seq<TensorSpec>) -> Seq<PlanModel> {
    Seq::new(specs.len(), |i: int| specs[i].plan())
}

/// The data of tensors.
pub open spec fn specs_data(specs: Seq<TensorSpec>) -> Seq<Seq<u8>> {
    Seq::new(specs.len(), |i: int| specs[i].data@)
}

/// What a list of plans stands for.
pub open spec fn plans_model(plans: Seq<TensorPlan>) -> Seq<PlanModel> {
    Seq::new(plans.len(), |i: int| plans[i]@)
}

/// Zero bytes.
pub open spec fn zeros(n: nat) -> Seq<u8> {
    Seq::new(n, |i: int| 0u8)
}

/// A key/value pair as a file holds it.
pub open spec fn pair_bytes(pair: (Seq<char>, ValueModel)) -> Seq<u8> {
    value::str_bytes(pair.0) + (bytes::le_bytes(value::type_code(value::type_of(pair.1)) as nat, 4)
        + value::value_bytes(pair.1))
}

/// Key/value pairs one behind the other.
pub open spec fn kv_bytes(kv: Seq<(Seq<char>, ValueModel)>) -> Seq<u8>
    decreases kv.len(),
{
    if kv.len() == 0 {
        Seq::empty()
    } else {
        pair_bytes(kv[0]) + kv_bytes(kv.drop_first())
    }
}

/// 64-bit numbers one behind the other.
pub open spec fn u64s_bytes(s: Seq<u64>) -> Seq<u8>
    decreases s.len(),
{
    if s.len() == 0 {
        Seq::empty()
    } else {
        bytes::le_bytes(s[0] as nat, 8) + u64s_bytes(s.drop_first())
    }
}

/// A tensor header as a file holds it.
pub open spec fn info_bytes(t: TensorModel) -> Seq<u8> {
    value::str_bytes(t.name) + (bytes::le_bytes(t.dims.len(), 4) + (u64s_bytes(t.dims.reverse()) + (
    bytes::le_bytes(t.ggml_type as nat, 4) + bytes::le_bytes(t.offset as nat, 8))))
}

/// Tensor headers one behind the other.
pub open spec fn infos_bytes(infos: Seq<TensorModel>) -> Seq<u8>
    decreases infos.len(),
{
    if infos.len() == 0 {
        Seq::empty()
    } else {
        info_bytes(infos[0]) + infos_bytes(infos.drop_first())
    }
}

/// The place of the tensor `i` in the data section: behind the tensors before it, each padded to
/// the alignment.
pub open spec fn offset_of(plans: Seq<PlanModel>, alignment: nat, i: int) -> nat
    decreases i,
{
    if i <= 0 {
        0
    } else {
        offset_of(plans, alignment, i - 1) + geometry::aligned(plans[i - 1].nbytes, alignment)
    }
}

/// The length of the data section.
pub open spec fn body_len(plans: Seq<PlanModel>, alignment: nat) -> nat {
    offset_of(plans, alignment, plans.len() as int)
}

/// The headers of the tensors, each with its place in the data section.
pub open spec fn placed(plans: Seq<PlanModel>, alignment: nat) -> Seq<TensorModel> {
    Seq::new(
        plans.len(),
        |i: int|
            TensorModel {
                name: plans[i].name,
                dims: plans[i].dims,
                ggml_type: plans[i].ggml_type,
                offset: offset_of(plans, alignment, i) as u64,
            },
    )
}

/// No pair stands under `general.alignment`.
pub open spec fn unstated(kv: Seq<(Seq<char>, ValueModel)>) -> bool {
    forall|i: int| 0 <= i < kv.len() ==> (#[trigger] kv[i]).0 != "general.alignment"@
}

/// An alignment as it is used: zero counts as one.
pub open spec fn unit(alignment: nat) -> nat {
    if alignment == 0 {
        1
    } else {
        alignment
    }
}

/// The writer has to state the alignment: it is not the default, no pair stands for it yet, and it
/// fits in the 32 bits that the format has for it.
pub open spec fn must_state(kv: Seq<(Seq<char>, ValueModel)>, alignment: nat) -> bool {
    &&& unit(alignment) != DEFAULT_ALIGNMENT
    &&& unit(alignment) <= u32::MAX
    &&& unstated(kv)
}

/// The pairs of a file: the given ones, and behind them the alignment where it has to be stated.
pub open spec fn stated(kv: Seq<(Seq<char>, ValueModel)>, alignment: nat) -> Seq<
    (Seq<char>, ValueModel),
> {
    if must_state(kv, alignment) {
        kv.push(("general.alignment"@, ValueModel::U32(unit(alignment) as u32)))
    } else {
        kv
    }
}

/// Everything up to the end of the tensor headers.
pub open spec fn header(
    kv: Seq<(Seq<char>, ValueModel)>,
    plans: Seq<PlanModel>,
    alignment: nat,
    version: u32,
) -> Seq<u8> {
    let pairs = stated(kv, alignment);
    reader::magic() + (bytes::le_bytes(version as nat, 4) + (bytes::le_bytes(plans.len(), 8) + (
    bytes::le_bytes(pairs.len(), 8) + (kv_bytes(pairs) + infos_bytes(placed(plans, alignment))))))
}

/// Everything before the data section: the header and the padding behind it.
pub open spec fn padded_header(
    kv: Seq<(Seq<char>, ValueModel)>,
    plans: Seq<PlanModel>,
    alignment: nat,
    version: u32,
) -> Seq<u8> {
    let h = header(kv, plans, alignment, version);
    h + zeros((geometry::aligned(h.len(), alignment) - h.len()) as nat)
}

/// `data` padded to the alignment.
pub open spec fn padded(data: Seq<u8>, alignment: nat) -> Seq<u8> {
    data + zeros((geometry::aligned(data.len(), alignment) - data.len()) as nat)
}

/// The data section: the data of the tensors, each padded to the alignment.
pub open spec fn body(datas: Seq<Seq<u8>>, alignment: nat) -> Seq<u8>
    decreases datas.len(),
{
    if datas.len() == 0 {
        Seq::empty()
    } else {
        body(datas.drop_last(), alignment) + padded(datas.last(), alignment)
    }
}

/// A whole file.
pub open spec fn file_bytes(
    kv: Seq<(Seq<char>, ValueModel)>,
    plans: Seq<PlanModel>,
    datas: Seq<Seq<u8>>,
    alignment: nat,
    version: u32,
) -> Seq<u8> {
    padded_header(kv, plans, alignment, version) + body(datas, alignment)
}

/// The header and the data section can each be counted in 64 bits.
pub open spec fn sizes_fit(
    kv: Seq<(Seq<char>, ValueModel)>,
    plans: Seq<PlanModel>,
    alignment: nat,
    version: u32,
) -> bool {
    &&& geometry::aligned(header(kv, plans, alignment, version).len(), alignment) <= u64::MAX
    &&& body_len(plans, alignment) <= u64::MAX
}

/// The pairs without those under `general.alignment`, which the writer states itself.
pub open spec fn without_alignment(kv: Seq<(Seq<char>, ValueModel)>) -> Seq<
    (Seq<char>, ValueModel),
>
    decreases kv.len(),
{
    if kv.len() == 0 {
        Seq::empty()
    } else if kv.last().0 == "general.alignment"@ {
        without_alignment(kv.drop_last())
    } else {
        without_alignment(kv.drop_last()).push(kv.last())
    }
}

/// A pair behind others is written behind them.
proof fn lemma_kv_push(kv: Seq<(Seq<char>, ValueModel)>, pair: (Seq<char>, ValueModel))
    ensures
        kv_bytes(kv.push(pair)) == kv_bytes(kv) + pair_bytes(pair),
    decreases kv.len(),
{
    let longer = kv.push(pair);
    if kv.len() == 0 {
        assert(longer.drop_first() =~= Seq::empty());
        assert(kv_bytes(longer.drop_first()) =~= Seq::empty());
        assert(pair_bytes(pair) + Seq::empty() =~= pair_bytes(pair));
        assert(kv_bytes(kv) + pair_bytes(pair) =~= pair_bytes(pair));
    } else {
        lemma_kv_push(kv.drop_first(), pair);
        assert(longer.drop_first() =~= kv.drop_first().push(pair));
        assert(kv_bytes(longer) =~= kv_bytes(kv) + pair_bytes(pair));
    }
}

/// A pair takes at least one byte.
proof fn lemma_kv_len(kv: Seq<(Seq<char>, ValueModel)>)
    ensures
        kv.len() <= kv_bytes(kv).len(),
    decreases kv.len(),
{
    if kv.len() > 0 {
        lemma_kv_len(kv.drop_first());
        bytes::lemma_le_bytes_len(value::type_code(value::type_of(kv[0].1)) as nat, 4);
    }
}

/// Offsets grow from tensor to tensor.
pub proof fn lemma_offsets_grow(plans: Seq<PlanModel>, alignment: nat, i: int, j: int)
    requires
        0 <= i <= j <= plans.len(),
    ensures
        offset_of(plans, alignment, i) <= offset_of(plans, alignment, j),
    decreases j - i,
{
    if i < j {
        lemma_offsets_grow(plans, alignment, i, j - 1);
    }
}

/// Every tensor begins at a multiple of the alignment, counted from the start of the data section.
pub proof fn lemma_offsets_aligned(plans: Seq<PlanModel>, alignment: nat, i: int)
    requires
        alignment > 0,
        0 <= i <= plans.len(),
    ensures
        offset_of(plans, alignment, i) % alignment == 0,
    decreases i,
{
    vstd::arithmetic::div_mod::lemma_small_mod(0, alignment);
    if i > 0 {
        lemma_offsets_aligned(plans, alignment, i - 1);
        geometry::lemma_aligned(plans[i - 1].nbytes, alignment);
        let x = offset_of(plans, alignment, i - 1);
        let y = geometry::aligned(plans[i - 1].nbytes, alignment);
        vstd::arithmetic::div_mod::lemma_add_mod_noop(x as int, y as int, alignment as int);
    }
}

/// Appends `n` zero bytes.
pub(crate) fn push_zeros(buf: &mut Vec<u8>, n: u64)
    ensures
        final(buf)@ == old(buf)@ + zeros(n as nat),
{
    let mut i: u64 = 0;
    assert(buf@ =~= old(buf)@ + zeros(0));
    while i < n
        invariant
            i <= n,
            buf@ == old(buf)@ + zeros(i as nat),
        decreases n - i,
    {
        buf.push(0);
        i = i + 1;
        assert(buf@ =~= old(buf)@ + zeros(i as nat));
    }
}

/// Appends key/value pairs.
fn push_kv(buf: &mut Vec<u8>, kv: &[(String, GgufValue)])
    ensures
        final(buf)@ == old(buf)@ + kv_bytes(reader::kv_model(kv@)),
{
    let ghost model = reader::kv_model(kv@);
    let n: usize = kv.len();
    let mut i: usize = 0;
    assert(model.subrange(0, n as int) =~= model);
    while i < n
        invariant
            i <= n == kv@.len(),
            model == reader::kv_model(kv@),
            buf@ + kv_bytes(model.subrange(i as int, n as int)) == old(buf)@ + kv_bytes(model),
        decreases n - i,
    {
        let ghost mid = buf@;
        let ghost tail = model.subrange(i as int, n as int);
        assert(tail.drop_first() =~= model.subrange(i + 1, n as int));
        assert(tail[0] == (kv@[i as int].0@, kv@[i as int].1@));
        write_string(buf, kv[i].0.as_str());
        push_le(buf, value_type(&kv[i].1).to_u32() as u64, 4);
        write_value(buf, &kv[i].1);
        assert(buf@ =~= mid + pair_bytes(tail[0]));
        assert(mid + kv_bytes(tail) =~= buf@ + kv_bytes(tail.drop_first()));
        i = i + 1;
    }
    assert(buf@ + kv_bytes(model.subrange(n as int, n as int)) =~= buf@);
}

/// Whether the writer has to state the alignment, which is not zero.
fn has_to_state(kv: &[(String, GgufValue)], alignment: u64) -> (r: bool)
    requires
        alignment > 0,
    ensures
        r == must_state(reader::kv_model(kv@), alignment as nat),
{
    if alignment == DEFAULT_ALIGNMENT || alignment > u32::MAX as u64 {
        return false;
    }
    let ghost model = reader::kv_model(kv@);
    let n: usize = kv.len();
    let mut i: usize = 0;
    while i < n
        invariant
            i <= n == kv@.len(),
            model == reader::kv_model(kv@),
            forall|j: int| 0 <= j < i ==> (#[trigger] model[j]).0 != "general.alignment"@,
        decreases n - i,
    {
        if text::same(kv[i].0.as_str(), "general.alignment") {
            assert(model[i as int].0 == "general.alignment"@);
            return false;
        }
        i = i + 1;
    }
    true
}

/// Appends the number of pairs and the pairs, with the alignment where it has to be stated.
fn push_stated(buf: &mut Vec<u8>, kv: &[(String, GgufValue)], alignment: u64)
    requires
        kv_bytes(stated(reader::kv_model(kv@), alignment as nat)).len() <= u64::MAX,
    ensures
        final(buf)@ == old(buf)@ + (bytes::le_bytes(
            stated(reader::kv_model(kv@), alignment as nat).len(),
            8,
        ) + kv_bytes(stated(reader::kv_model(kv@), alignment as nat))),
{
    let ghost model = reader::kv_model(kv@);
    let ghost pairs = stated(model, alignment as nat);
    proof {
        lemma_kv_len(pairs);
    }
    let used: u64 = if alignment == 0 {
        1
    } else {
        alignment
    };
    if has_to_state(kv, used) {
        let mut own: Vec<(String, GgufValue)> = Vec::new();
        own.push(("general.alignment".to_owned(), GgufValue::U32(used as u32)));
        let ghost pair = ("general.alignment"@, ValueModel::U32(used as u32));
        push_le(buf, kv.len() as u64 + 1, 8);
        push_kv(buf, kv);
        push_kv(buf, own.as_slice());
        proof {
            lemma_kv_push(model, pair);
            lemma_kv_push(Seq::empty(), pair);
            assert(reader::kv_model(own@) =~= Seq::empty().push(pair));
            assert(kv_bytes(Seq::empty()) + pair_bytes(pair) =~= pair_bytes(pair));
        }
        assert(buf@ =~= old(buf)@ + (bytes::le_bytes(pairs.len(), 8) + kv_bytes(pairs)));
    } else {
        push_le(buf, kv.len() as u64, 8);
        push_kv(buf, kv);
        assert(buf@ =~= old(buf)@ + (bytes::le_bytes(pairs.len(), 8) + kv_bytes(pairs)));
    }
}

/// Appends numbers from the last to the first.
fn push_reversed(buf: &mut Vec<u8>, dims: &[u64])
    ensures
        final(buf)@ == old(buf)@ + u64s_bytes(dims@.reverse()),
{
    let ghost disk = dims@.reverse();
    let n: usize = dims.len();
    let mut i: usize = n;
    assert(disk.subrange(0, n as int) =~= disk);
    while i > 0
        invariant
            i <= n == dims@.len(),
            disk == dims@.reverse(),
            buf@ + u64s_bytes(disk.subrange(n - i, n as int)) == old(buf)@ + u64s_bytes(disk),
        decreases i,
    {
        let ghost mid = buf@;
        let ghost tail = disk.subrange(n - i, n as int);
        i = i - 1;
        assert(tail.drop_first() =~= disk.subrange(n - i, n as int));
        assert(tail[0] == dims@[i as int]);
        push_le(buf, dims[i], 8);
        assert(mid + u64s_bytes(tail) =~= buf@ + u64s_bytes(tail.drop_first()));
    }
    assert(buf@ + u64s_bytes(disk.subrange(n as int, n as int)) =~= buf@);
}

/// Appends a tensor header.
fn push_info(buf: &mut Vec<u8>, name: &str, dims: &[u64], ggml_type: u32, offset: u64)
    ensures
        final(buf)@ == old(buf)@ + info_bytes(
            (TensorModel { name: name@, dims: dims@, ggml_type, offset }),
        ),
{
    write_string(buf, name);
    push_le(buf, dims.len() as u64, 4);
    push_reversed(buf, dims);
    push_le(buf, ggml_type as u64, 4);
    push_le(buf, offset, 8);
    assert(buf@ =~= old(buf)@ + info_bytes(
        (TensorModel { name: name@, dims: dims@, ggml_type, offset }),
    ));
}

/// The plans of tensors whose data are at hand.
fn plans_of(specs: &[TensorSpec]) -> (r: Vec<TensorPlan>)
    ensures
        plans_model(r@) == specs_plans(specs@),
{
    let mut plans: Vec<TensorPlan> = Vec::new();
    let n: usize = specs.len();
    let mut i: usize = 0;
    while i < n
        invariant
            i <= n == specs@.len(),
            plans@.len() == i,
            forall|j: int| 0 <= j < i ==> (#[trigger] plans@[j])@ == specs@[j].plan(),
        decreases n - i,
    {
        let t = &specs[i];
        let dims = vstd::slice::slice_to_vec(t.dims.as_slice());
        plans.push(
            TensorPlan {
                name: t.name.clone(),
                dims,
                ggml_type: t.ggml_type,
                nbytes: t.data.len() as u64,
            },
        );
        i = i + 1;
    }
    assert(plans_model(plans@) =~= specs_plans(specs@));
    plans
}

/// Everything before the data section of a file with these pairs and tensors; where the alignment
/// is not the default and no pair states it, a last pair does.
pub fn stream_header(
    kv: &[(String, GgufValue)],
    plans: &[TensorPlan],
    alignment: u64,
    version: u32,
) -> (r: Vec<u8>)
    requires
        sizes_fit(reader::kv_model(kv@), plans_model(plans@), alignment as nat, version),
    ensures
        r@ == padded_header(
            reader::kv_model(kv@),
            plans_model(plans@),
            alignment as nat,
            version,
        ),
{
    let ghost model = plans_model(plans@);
    let ghost infos = placed(model, alignment as nat);
    let mut buf: Vec<u8> = Vec::new();
    buf.push(0x47);
    buf.push(0x47);
    buf.push(0x55);
    buf.push(0x46);
    assert(buf@ =~= reader::magic());
    push_le(&mut buf, version as u64, 4);
    push_le(&mut buf, plans.len() as u64, 8);
    proof {
        geometry::lemma_aligned(
            header(reader::kv_model(kv@), model, alignment as nat, version).len(),
            alignment as nat,
        );
    }
    push_stated(&mut buf, kv, alignment);
    let ghost head = buf@;
    let n: usize = plans.len();
    let mut offset: u64 = 0;
    let mut i: usize = 0;
    assert(infos.subrange(0, n as int) =~= infos);
    while i < n
        invariant
            i <= n == plans@.len(),
            model == plans_model(plans@),
            infos == placed(model, alignment as nat),
            body_len(model, alignment as nat) <= u64::MAX,
            offset == offset_of(model, alignment as nat, i as int),
            buf@ + infos_bytes(infos.subrange(i as int, n as int)) == head + infos_bytes(infos),
        decreases n - i,
    {
        let ghost mid = buf@;
        let ghost tail = infos.subrange(i as int, n as int);
        let p = &plans[i];
        assert(model[i as int] == p@);
        assert(tail.drop_first() =~= infos.subrange(i + 1, n as int));
        push_info(&mut buf, p.name.as_str(), p.dims.as_slice(), p.ggml_type, offset);
        assert(mid + infos_bytes(tail) =~= buf@ + infos_bytes(tail.drop_first()));
        proof {
            lemma_offsets_grow(model, alignment as nat, i + 1, n as int);
        }
        offset = offset + align_up(p.nbytes, alignment);
        i = i + 1;
    }
    assert(buf@ + infos_bytes(infos.subrange(n as int, n as int)) =~= buf@);
    let ghost h = header(reader::kv_model(kv@), model, alignment as nat, version);
    assert(buf@ =~= h);
    let have: u64 = buf.len() as u64;
    proof {
        geometry::lemma_aligned(have as nat, alignment as nat);
    }
    let end: u64 = align_up(have, alignment);
    push_zeros(&mut buf, end - have);
    buf
}

/// The length of the data section, where it can be counted in 64 bits.
pub fn data_len(plans: &[TensorPlan], alignment: u64) -> (r: Option<u64>)
    ensures
        r == if body_len(plans_model(plans@), alignment as nat) <= u64::MAX {
            Some(body_len(plans_model(plans@), alignment as nat) as u64)
        } else {
            None
        },
{
    let ghost model = plans_model(plans@);
    let n: usize = plans.len();
    let mut total: u64 = 0;
    let mut i: usize = 0;
    while i < n
        invariant
            i <= n == plans@.len(),
            model == plans_model(plans@),
            total == offset_of(model, alignment as nat, i as int),
        decreases n - i,
    {
        assert(model[i as int] == plans@[i as int]@);
        let len: u64 = plans[i].nbytes;
        proof {
            lemma_offsets_grow(model, alignment as nat, i + 1, n as int);
            geometry::lemma_aligned(len as nat, alignment as nat);
        }
        let rest: u64 = if alignment == 0 || len % alignment == 0 {
            0
        } else {
            alignment - len % alignment
        };
        if rest > u64::MAX - len || len + rest > u64::MAX - total {
            return None;
        }
        total = total + (len + rest);
        i = i + 1;
    }
    Some(total)
}

/// A tensor whose data have another length than its header states.
#[derive(Debug, Clone, Copy, PartialEq, Eq, Structural)]
pub struct WrongLength {
    pub provided: u64,
    pub stated: u64,
}

/// How many zero bytes follow the data of a tensor of which `provided` bytes are at hand.
pub fn padding_after(plan: &TensorPlan, provided: u64, alignment: u64) -> (r: Result<
    u64,
    WrongLength,
>)
    requires
        geometry::aligned(plan.nbytes as nat, alignment as nat) <= u64::MAX,
    ensures
        provided != plan.nbytes ==> r == Err::<u64, _>(
            (WrongLength { provided, stated: plan.nbytes }),
        ),
        provided == plan.nbytes ==> r == Ok::<u64, WrongLength>(
            (geometry::aligned(plan.nbytes as nat, alignment as nat) - plan.nbytes) as u64,
        ),
{
    if provided != plan.nbytes {
        return Err(WrongLength { provided, stated: plan.nbytes });
    }
    proof {
        geometry::lemma_aligned(plan.nbytes as nat, alignment as nat);
    }
    Ok(align_up(provided, alignment) - provided)
}

/// A file in the making: key/value pairs and tensors in the order in which they were added.
#[derive(Debug)]
pub struct GgufWriter {
    pub kv: Vec<(String, GgufValue)>,
    pub tensors: Vec<TensorSpec>,
    pub alignment: u64,
    pub version: u32,
}

impl GgufWriter {
    /// The bytes of the file.
    pub open spec fn bytes(self) -> Seq<u8> {
        file_bytes(
            reader::kv_model(self.kv@),
            specs_plans(self.tensors@),
            specs_data(self.tensors@),
            self.alignment as nat,
            self.version,
        )
    }

    /// The header and the data section can each be counted in 64 bits.
    pub open spec fn fits(self) -> bool {
        sizes_fit(
            reader::kv_model(self.kv@),
            specs_plans(self.tensors@),
            self.alignment as nat,
            self.version,
        )
    }

    /// An empty file with the default alignment and the current version.
    pub fn new() -> (r: GgufWriter)
        ensures
            r.kv@.len() == 0,
            r.tensors@.len() == 0,
            r.alignment == DEFAULT_ALIGNMENT,
            r.version == GGUF_VERSION,
    {
        GgufWriter {
            kv: Vec::new(),
            tensors: Vec::new(),
            alignment: DEFAULT_ALIGNMENT,
            version: GGUF_VERSION,
        }
    }

    /// Sets the alignment; zero counts as one.
    pub fn set_alignment(&mut self, a: u64)
        ensures
            final(self).alignment == if a == 0 {
                1
            } else {
                a
            },
            final(self).kv == old(self).kv,
            final(self).tensors == old(self).tensors,
            final(self).version == old(self).version,
    {
        self.alignment = if a == 0 {
            1
        } else {
            a
        };
    }

    /// Adds a key/value pair.
    pub fn add_kv(&mut self, key: String, value: GgufValue)
        ensures
            final(self).kv@ == old(self).kv@.push((key, value)),
            final(self).tensors == old(self).tensors,
            final(self).alignment == old(self).alignment,
            final(self).version == old(self).version,
    {
        self.kv.push((key, value));
    }

    /// Adds a tensor.
    pub fn add_tensor(&mut self, spec: TensorSpec)
        ensures
            final(self).tensors@ == old(self).tensors@.push(spec),
            final(self).kv == old(self).kv,
            final(self).alignment == old(self).alignment,
            final(self).version == old(self).version,
    {
        self.tensors.push(spec);
    }

    /// Adds all pairs of a file but those under `general.alignment`, in their order.
    pub fn copy_kv_from(&mut self, source: &GgufReader<'_>)
        ensures
            reader::kv_model(final(self).kv@) == reader::kv_model(old(self).kv@)
                + without_alignment(source@.kv),
            final(self).tensors == old(self).tensors,
            final(self).alignment == old(self).alignment,
            final(self).version == old(self).version,
    {
        let n: usize = source.kv.len();
        let mut i: usize = 0;
        let ghost model = source@.kv;
        assert(reader::kv_model(self.kv@) =~= reader::kv_model(old(self).kv@) + without_alignment(
            model.subrange(0, 0),
        ));
        while i < n
            invariant
                i <= n == source.kv@.len(),
                model == source@.kv,
                reader::kv_model(self.kv@) == reader::kv_model(old(self).kv@) + without_alignment(
                    model.subrange(0, i as int),
                ),
                self.tensors == old(self).tensors,
                self.alignment == old(self).alignment,
                self.version == old(self).version,
            decreases n - i,
        {
            let ghost had = self.kv@;
            let ghost longer = model.subrange(0, i + 1);
            assert(longer.drop_last() =~= model.subrange(0, i as int));
            assert(longer.last() == (source.kv@[i as int].0@, source.kv@[i as int].1@));
            if !text::same(source.kv[i].0.as_str(), "general.alignment") {
                self.kv.push((source.kv[i].0.clone(), source.kv[i].1.clone()));
                assert(reader::kv_model(self.kv@) =~= reader::kv_model(had).push(longer.last()));
            }
            assert(reader::kv_model(self.kv@) =~= reader::kv_model(old(self).kv@)
                + without_alignment(longer));
            i = i + 1;
        }
        assert(model.subrange(0, n as int) =~= model);
    }

    /// The bytes of the file. Where the alignment is not the default and no pair states it, a last
    /// pair does.
    pub fn to_bytes(&self) -> (r: Vec<u8>)
        requires
            self.fits(),
        ensures
            r@ == self.bytes(),
    {
        let plans = plans_of(self.tensors.as_slice());
        let mut buf = stream_header(
            self.kv.as_slice(),
            plans.as_slice(),
            self.alignment,
            self.version,
        );
        let ghost head = buf@;
        let ghost datas = specs_data(self.tensors@);
        let ghost model = specs_plans(self.tensors@);
        let n: usize = self.tensors.len();
        let mut i: usize = 0;
        assert(buf@ =~= head + body(datas.subrange(0, 0), self.alignment as nat));
        while i < n
            invariant
                i <= n == self.tensors@.len(),
                datas == specs_data(self.tensors@),
                model == specs_plans(self.tensors@),
                self.fits(),
                buf@ == head + body(datas.subrange(0, i as int), self.alignment as nat),
            decreases n - i,
        {
            let ghost longer = datas.subrange(0, i + 1);
            assert(longer.drop_last() =~= datas.subrange(0, i as int));
            assert(longer.last() == self.tensors@[i as int].data@);
            assert(model[i as int] == self.tensors@[i as int].plan());
            proof {
                lemma_offsets_grow(model, self.alignment as nat, i + 1, n as int);
                geometry::lemma_aligned(model[i as int].nbytes, self.alignment as nat);
            }
            let data = self.tensors[i].data.as_slice();
            push_all(&mut buf, data);
            let len: u64 = data.len() as u64;
            push_zeros(&mut buf, align_up(len, self.alignment) - len);
            assert(buf@ =~= head + body(longer, self.alignment as nat));
            i = i + 1;
        }
        assert(datas.subrange(0, n as int) =~= datas);
        buf
    }
}

impl Default for GgufWriter {
    fn default() -> (r: GgufWriter)
        ensures
            r.kv@.len() == 0,
            r.tensors@.len() == 0,
            r.alignment == DEFAULT_ALIGNMENT,
            r.version == GGUF_VERSION,
    {
        GgufWriter::new()
    }
}

} // verus!
